//! The Firmata wire format: bytes in, bytes out, no I/O.
pub mod constants;
pub mod decode;
pub mod encode;
pub mod sysex;
pub mod types;

pub use constants::{
    ANALOG_MAPPING_QUERY, ANALOG_MAPPING_RESPONSE, ANALOG_MESSAGE, ANALOG_MESSAGE_BOUND,
    ANALOG_PIN_OFFSET, CAPABILITY_QUERY, CAPABILITY_RESPONSE, DEFAULT_ANALOG_RESOLUTION,
    DIGITAL_MESSAGE, DIGITAL_MESSAGE_BOUND, END_SYSEX, EXTENDED_ANALOG, I2C_CONFIG, I2C_READ,
    I2C_REPLY, I2C_REQUEST, I2C_WRITE, PIN_MODE_ANALOG, PIN_MODE_IGNORE, PIN_MODE_INPUT,
    PIN_MODE_OUTPUT, PIN_MODE_PULLUP, PIN_MODE_PWM, PIN_MODE_SERVO, PIN_STATE_QUERY,
    PIN_STATE_RESPONSE, REPORT_ANALOG, REPORT_DIGITAL, REPORT_FIRMWARE, REPORT_VERSION,
    SAMPLING_INTERVAL, SERVO_CONFIG, SET_DIGITAL_PIN_VALUE, SET_PIN_MODE, START_SYSEX,
    SYSEX_REALTIME,
};
pub use decode::{decode_all, Decoder};
pub use types::{I2cReply, Message, PinCapabilities, PinMode, PinState};
