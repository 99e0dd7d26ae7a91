//! What distinguishes one kind of board from another: pin counts, which
//! pins exist, which can do PWM, and where the analog pins sit among the
//! Firmata pin numbers.
use vstd::prelude::*;

use crate::pin::{AnalogPin, DigitalPin};
use crate::protocol::constants::ANALOG_PIN_OFFSET;

pub mod uno;

verus! {

pub trait BoardProfile {
    const NAME: &'static str;
    const PIN_COUNT: u8;
    const ANALOG_PIN_COUNT: u8;
    const DIGITAL_PORT_COUNT: u8;
    const DEFAULT_BAUD: u32;

    /// The digital pin numbered `pin`, if the board has it.
    fn digital_pin(pin: u8) -> Option<DigitalPin>;

    /// The analog pin with channel `index`, if the board has it.
    fn analog_pin(index: u8) -> Option<AnalogPin>;

    /// Whether `pin` can drive PWM.
    fn supports_pwm(pin: DigitalPin) -> bool;

    /// The Firmata pin number of an analog pin; by default the channel
    /// after the board's digital pins.
    fn analog_to_firmata_pin(analog: AnalogPin) -> (r: u8)
        requires
            analog.0 + ANALOG_PIN_OFFSET <= 255,
        default_ensures
            r == analog.0 + ANALOG_PIN_OFFSET,
    {
        analog.0 + ANALOG_PIN_OFFSET
    }
}

} // verus!
