//! Typed pins and handles that act on one pin, or on the I2C bus, of a
//! board.
use vstd::prelude::*;

use std::marker::PhantomData;

use crate::board::profiles::BoardProfile;
use crate::board::Board;
use crate::error::{Error, Result};
use crate::protocol::constants::{ANALOG_PIN_OFFSET, REPORT_ANALOG, REPORT_DIGITAL};
use crate::protocol::encode::{i2c_config_frame, i2c_write_frame, report_analog_frame, report_digital_frame};
use crate::protocol::types::PinMode;
use crate::transport::Transport;

verus! {

/// A pin, named by its kind or by its raw Firmata number.
#[derive(Clone, Copy, Debug, PartialEq, Eq, Structural)]
pub enum PinRef {
    Digital(DigitalPin),
    Analog(AnalogPin),
    Raw(u8),
}

/// A digital pin, by its number on the board.
#[derive(Clone, Copy, Debug, PartialEq, Eq, Hash, Structural)]
pub struct DigitalPin(pub u8);

/// An analog pin, by its channel.
#[derive(Clone, Copy, Debug, PartialEq, Eq, Hash, Structural)]
pub struct AnalogPin(pub u8);

impl From<DigitalPin> for PinRef {
    fn from(value: DigitalPin) -> (r: Self) {
        Self::Digital(value)
    }
}

impl vstd::std_specs::convert::FromSpecImpl<DigitalPin> for PinRef {
    open spec fn obeys_from_spec() -> bool {
        true
    }

    open spec fn from_spec(v: DigitalPin) -> Self {
        PinRef::Digital(v)
    }
}

impl From<AnalogPin> for PinRef {
    fn from(value: AnalogPin) -> (r: Self) {
        Self::Analog(value)
    }
}

impl vstd::std_specs::convert::FromSpecImpl<AnalogPin> for PinRef {
    open spec fn obeys_from_spec() -> bool {
        true
    }

    open spec fn from_spec(v: AnalogPin) -> Self {
        PinRef::Analog(v)
    }
}

impl From<u8> for PinRef {
    fn from(value: u8) -> (r: Self) {
        Self::Raw(value)
    }
}

impl vstd::std_specs::convert::FromSpecImpl<u8> for PinRef {
    open spec fn obeys_from_spec() -> bool {
        true
    }

    open spec fn from_spec(v: u8) -> Self {
        PinRef::Raw(v)
    }
}

/// One pin of a board of profile `P`.
pub struct PinHandle<'a, T: Transport, P: BoardProfile> {
    board: &'a mut Board<T>,
    firmata_pin: u8,
    analog_index: Option<u8>,
    _profile: PhantomData<P>,
}

/// Whether a pin reference can be resolved to a Firmata pin number.
pub open spec fn resolvable(pin: PinRef) -> bool {
    pin matches PinRef::Analog(a) ==> a.0 + ANALOG_PIN_OFFSET <= 255
}

/// The view of a result without its success value.
pub open spec fn unit_result<V>(r: Result<V>) -> Result<()> {
    match r {
        Ok(_) => Ok(()),
        Err(e) => Err(e),
    }
}

impl<'a, T: Transport, P: BoardProfile> PinHandle<'a, T, P> {
    /// The board that the handle acts on.
    pub closed spec fn board_view(&self) -> Board<T> {
        *self.board
    }

    /// The Firmata number of the pin.
    pub closed spec fn pin_number(&self) -> u8 {
        self.firmata_pin
    }

    /// The analog channel of the pin, for a pin named as analog.
    pub closed spec fn analog_channel(&self) -> Option<u8> {
        self.analog_index
    }

    /// Whether `self` is `before` with only the board changed.
    pub open spec fn same_pin(&self, before: Self) -> bool {
        self.pin_number() == before.pin_number() && self.analog_channel() == before.analog_channel()
    }

    pub fn new(board: &'a mut Board<T>, pin: PinRef) -> (r: Self)
        requires
            resolvable(pin),
        ensures
            r.board_view() == *old(board),
            pin matches PinRef::Digital(d) ==> r.pin_number() == d.0 && r.analog_channel() is None,
            pin matches PinRef::Raw(p) ==> r.pin_number() == p && r.analog_channel() is None,
            pin matches PinRef::Analog(a) ==> r.analog_channel() == Some(a.0) && call_ensures(
                P::analog_to_firmata_pin,
                (a,),
                r.pin_number(),
            ),
    {
        let (firmata_pin, analog_index) = match pin {
            PinRef::Digital(d) => (d.0, None),
            PinRef::Analog(a) => (P::analog_to_firmata_pin(a), Some(a.0)),
            PinRef::Raw(p) => (p, None),
        };
        Self { board, firmata_pin, analog_index, _profile: PhantomData }
    }

    pub fn firmata_pin(&self) -> (r: u8)
        ensures
            r == self.pin_number(),
    {
        self.firmata_pin
    }

    /// Sets the mode of the pin.
    pub fn mode(&mut self, mode: PinMode) -> (r: Result<&mut Self>)
        ensures
            match r {
                Ok(h) => h.board_view().after_set_pin_mode(
                    old(self).board_view(),
                    old(self).pin_number(),
                    mode,
                    Ok(()),
                ) && h.same_pin(*old(self)) && *final(self) == *final(h),
                Err(e) => final(self).board_view().after_set_pin_mode(
                    old(self).board_view(),
                    old(self).pin_number(),
                    mode,
                    Err(e),
                ) && final(self).same_pin(*old(self)),
            },
    {
        match self.board.set_pin_mode(self.firmata_pin, mode) {
            Ok(()) => Ok(self),
            Err(e) => Err(e),
        }
    }

    pub fn input(&mut self) -> (r: Result<&mut Self>)
        ensures
            match r {
                Ok(h) => h.board_view().after_set_pin_mode(
                    old(self).board_view(),
                    old(self).pin_number(),
                    PinMode::Input,
                    Ok(()),
                ) && h.same_pin(*old(self)) && *final(self) == *final(h),
                Err(e) => final(self).board_view().after_set_pin_mode(
                    old(self).board_view(),
                    old(self).pin_number(),
                    PinMode::Input,
                    Err(e),
                ) && final(self).same_pin(*old(self)),
            },
    {
        self.mode(PinMode::Input)
    }

    pub fn output(&mut self) -> (r: Result<&mut Self>)
        ensures
            match r {
                Ok(h) => h.board_view().after_set_pin_mode(
                    old(self).board_view(),
                    old(self).pin_number(),
                    PinMode::Output,
                    Ok(()),
                ) && h.same_pin(*old(self)) && *final(self) == *final(h),
                Err(e) => final(self).board_view().after_set_pin_mode(
                    old(self).board_view(),
                    old(self).pin_number(),
                    PinMode::Output,
                    Err(e),
                ) && final(self).same_pin(*old(self)),
            },
    {
        self.mode(PinMode::Output)
    }

    pub fn pwm(&mut self) -> (r: Result<&mut Self>)
        ensures
            match r {
                Ok(h) => h.board_view().after_set_pin_mode(
                    old(self).board_view(),
                    old(self).pin_number(),
                    PinMode::Pwm,
                    Ok(()),
                ) && h.same_pin(*old(self)) && *final(self) == *final(h),
                Err(e) => final(self).board_view().after_set_pin_mode(
                    old(self).board_view(),
                    old(self).pin_number(),
                    PinMode::Pwm,
                    Err(e),
                ) && final(self).same_pin(*old(self)),
            },
    {
        self.mode(PinMode::Pwm)
    }

    pub fn servo(&mut self) -> (r: Result<&mut Self>)
        ensures
            match r {
                Ok(h) => h.board_view().after_set_pin_mode(
                    old(self).board_view(),
                    old(self).pin_number(),
                    PinMode::Servo,
                    Ok(()),
                ) && h.same_pin(*old(self)) && *final(self) == *final(h),
                Err(e) => final(self).board_view().after_set_pin_mode(
                    old(self).board_view(),
                    old(self).pin_number(),
                    PinMode::Servo,
                    Err(e),
                ) && final(self).same_pin(*old(self)),
            },
    {
        self.mode(PinMode::Servo)
    }

    pub fn analog_input(&mut self) -> (r: Result<&mut Self>)
        ensures
            match r {
                Ok(h) => h.board_view().after_set_pin_mode(
                    old(self).board_view(),
                    old(self).pin_number(),
                    PinMode::Analog,
                    Ok(()),
                ) && h.same_pin(*old(self)) && *final(self) == *final(h),
                Err(e) => final(self).board_view().after_set_pin_mode(
                    old(self).board_view(),
                    old(self).pin_number(),
                    PinMode::Analog,
                    Err(e),
                ) && final(self).same_pin(*old(self)),
            },
    {
        self.mode(PinMode::Analog)
    }

    pub fn pullup(&mut self) -> (r: Result<&mut Self>)
        ensures
            match r {
                Ok(h) => h.board_view().after_set_pin_mode(
                    old(self).board_view(),
                    old(self).pin_number(),
                    PinMode::Pullup,
                    Ok(()),
                ) && h.same_pin(*old(self)) && *final(self) == *final(h),
                Err(e) => final(self).board_view().after_set_pin_mode(
                    old(self).board_view(),
                    old(self).pin_number(),
                    PinMode::Pullup,
                    Err(e),
                ) && final(self).same_pin(*old(self)),
            },
    {
        self.mode(PinMode::Pullup)
    }

    /// Drives the pin high or low.
    pub fn write_digital(&mut self, high: bool) -> (r: Result<()>)
        ensures
            final(self).same_pin(*old(self)),
            final(self).board_view().after_digital_write(
                old(self).board_view(),
                old(self).pin_number(),
                if high {
                    1
                } else {
                    0
                },
                r,
            ),
    {
        let level: u8 = if high {
            1
        } else {
            0
        };
        self.board.digital_write(self.firmata_pin, level)
    }

    /// Writes an analog level to the pin.
    pub fn write_analog(&mut self, level: u16) -> (r: Result<()>)
        ensures
            final(self).same_pin(*old(self)),
            final(self).board_view().after_analog_write(
                old(self).board_view(),
                old(self).pin_number(),
                level,
                r,
            ),
    {
        self.board.analog_write(self.firmata_pin, level)
    }

    /// The frame that turns reporting of this pin on or off: its analog
    /// channel for a pin named as analog, its digital port otherwise.
    pub open spec fn reporting_frame(&self, enabled: bool) -> Seq<u8> {
        match self.analog_channel() {
            Some(ch) => report_analog_frame(ch, enabled),
            None => report_digital_frame(self.pin_number() / 8, enabled),
        }
    }

    /// Reporting of a pin named by analog channel `c` is switched with the
    /// analog report for channel `c` itself, whatever Firmata pin number the
    /// channel maps to; reporting of any other pin is switched with the
    /// digital report for the port that holds its Firmata pin. The second
    /// byte is 1 to enable and 0 to disable.
    pub proof fn lemma_reporting_frame(&self, enabled: bool)
        ensures
            self.analog_channel() matches Some(c) ==> self.reporting_frame(enabled) == seq![
                REPORT_ANALOG | c,
                if enabled { 1u8 } else { 0u8 },
            ],
            self.analog_channel() is None ==> self.reporting_frame(enabled) == seq![
                REPORT_DIGITAL | (self.pin_number() / 8),
                if enabled { 1u8 } else { 0u8 },
            ],
    {
    }

    pub fn enable_reporting(&mut self) -> (r: Result<()>)
        ensures
            final(self).same_pin(*old(self)),
            final(self).board_view().sent_after(old(self).board_view(), old(self).reporting_frame(true), r),
    {
        if let Some(analog_index) = self.analog_index {
            self.board.report_analog(analog_index, true)
        } else {
            let port = self.firmata_pin / 8;
            self.board.report_digital(port, true)
        }
    }

    pub fn disable_reporting(&mut self) -> (r: Result<()>)
        ensures
            final(self).same_pin(*old(self)),
            final(self).board_view().sent_after(old(self).board_view(), old(self).reporting_frame(false), r),
    {
        if let Some(analog_index) = self.analog_index {
            self.board.report_analog(analog_index, false)
        } else {
            let port = self.firmata_pin / 8;
            self.board.report_digital(port, false)
        }
    }

    /// The cached value of the pin; zero for a pin the board does not have.
    pub fn value(&self) -> (r: i32)
        ensures
            r == (if self.pin_number() < self.board_view().state_view().pins.len() {
                self.board_view().state_view().pins[self.pin_number() as int].value
            } else {
                0
            }),
    {
        let state = self.board.state();
        if (self.firmata_pin as usize) < state.pins.len() {
            state.pins[self.firmata_pin as usize].value
        } else {
            0
        }
    }
}

/// The I2C bus of a board.
pub struct I2cHandle<'a, T: Transport> {
    board: &'a mut Board<T>,
}

impl<'a, T: Transport> I2cHandle<'a, T> {
    /// The board that the handle acts on.
    pub closed spec fn board_view(&self) -> Board<T> {
        *self.board
    }

    pub fn new(board: &'a mut Board<T>) -> (r: Self)
        ensures
            r.board_view() == *old(board),
    {
        Self { board }
    }

    pub fn config(&mut self, delay_us: u16) -> (r: Result<()>)
        ensures
            final(self).board_view().sent_after(old(self).board_view(), i2c_config_frame(delay_us), r),
    {
        self.board.i2c_config(delay_us)
    }

    pub fn write(&mut self, address: u8, data: &[u8]) -> (r: Result<()>)
        ensures
            final(self).board_view().sent_after(
                old(self).board_view(),
                i2c_write_frame(address, data@),
                r,
            ),
    {
        self.board.i2c_write(address, data)
    }

    /// The board that the handle acts on.
    pub fn board_mut(&mut self) -> (r: &mut Board<T>)
        ensures
            *r == old(self).board_view(),
            final(self).board_view() == *final(r),
    {
        &mut *self.board
    }
}

} // verus!
