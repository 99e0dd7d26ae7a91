//! The Arduino Uno: pins 0 to 13 digital, analog channels 0 to 5 on
//! Firmata pins 14 to 19, PWM on pins 3, 5, 6, 9, 10 and 11.
use vstd::prelude::*;

use crate::board::profiles::BoardProfile;
use crate::pin::{AnalogPin, DigitalPin};

verus! {

pub struct Uno;

/// Whether the Uno drives PWM on digital pin `pin`.
pub open spec fn uno_pwm_pin(pin: u8) -> bool {
    pin == 3 || pin == 5 || pin == 6 || pin == 9 || pin == 10 || pin == 11
}

impl BoardProfile for Uno {
    const NAME: &'static str = "Arduino Uno";
    const PIN_COUNT: u8 = 20;
    const ANALOG_PIN_COUNT: u8 = 6;
    const DIGITAL_PORT_COUNT: u8 = 2;
    const DEFAULT_BAUD: u32 = 57_600;

    fn digital_pin(pin: u8) -> (r: Option<DigitalPin>)
        ensures
            r == (if pin <= 13 {
                Some(DigitalPin(pin))
            } else {
                None
            }),
    {
        if pin <= 13 {
            Some(DigitalPin(pin))
        } else {
            None
        }
    }

    fn analog_pin(index: u8) -> (r: Option<AnalogPin>)
        ensures
            r == (if index < 6 {
                Some(AnalogPin(index))
            } else {
                None
            }),
    {
        if index < Self::ANALOG_PIN_COUNT {
            Some(AnalogPin(index))
        } else {
            None
        }
    }

    fn supports_pwm(pin: DigitalPin) -> (r: bool)
        ensures
            r == uno_pwm_pin(pin.0),
    {
        pin.0 == 3 || pin.0 == 5 || pin.0 == 6 || pin.0 == 9 || pin.0 == 10 || pin.0 == 11
    }
}

/// The Uno's digital pin `pin`; there are fourteen.
pub fn d(pin: u8) -> (r: DigitalPin)
    requires
        pin <= 13,
    ensures
        r == DigitalPin(pin),
{
    Uno::digital_pin(pin).expect("valid Uno digital pin")
}

/// The Uno's analog pin on channel `pin`; there are six.
pub fn a(pin: u8) -> (r: AnalogPin)
    requires
        pin < 6,
    ensures
        r == AnalogPin(pin),
{
    Uno::analog_pin(pin).expect("valid Uno analog pin")
}

} // verus!
