//! Multi-board Firmata host adapter for Arduino and compatible boards.
//!
//! Four layers, each depending only on those below it: typed pin handles,
//! the board (state, decoder and transport), the protocol (bytes in and
//! out, no I/O) and the transport.
pub mod board;
pub mod error;
pub mod pin;
pub mod protocol;
pub mod transport;

pub use board::profiles::uno::{a, d, Uno};
pub use board::Board;
pub use error::{Error, IoErrorKind, Result};
pub use pin::{AnalogPin, DigitalPin, I2cHandle, PinHandle, PinRef};
pub use protocol::{encode, Decoder, I2cReply, Message, PinMode, PinState};
pub use protocol::{
    ANALOG_PIN_OFFSET, PIN_MODE_ANALOG, PIN_MODE_INPUT, PIN_MODE_OUTPUT, PIN_MODE_PULLUP,
    PIN_MODE_PWM, PIN_MODE_SERVO,
};
pub use transport::mock::MockTransport;
pub use transport::{FlushTransport, Transport};
