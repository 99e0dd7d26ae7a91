//! The values that travel over the wire: pin modes, pin descriptions and
//! the messages a board sends to the host.
use vstd::prelude::*;

use super::constants::{
    DEFAULT_ANALOG_RESOLUTION, PIN_MODE_ANALOG, PIN_MODE_IGNORE, PIN_MODE_INPUT,
    PIN_MODE_OUTPUT, PIN_MODE_PULLUP, PIN_MODE_PWM, PIN_MODE_SERVO,
};

verus! {

/// The mode of a pin, as Firmata numbers it.
#[derive(Clone, Copy, Debug, PartialEq, Eq, Hash, Structural)]
pub enum PinMode {
    Input,
    Output,
    Analog,
    Pwm,
    Servo,
    Shift,
    I2c,
    OneWire,
    Stepper,
    Encoder,
    Serial,
    Pullup,
    Ignore,
}

/// The byte by which Firmata names a pin mode.
pub open spec fn mode_byte(mode: PinMode) -> u8 {
    match mode {
        PinMode::Input => 0,
        PinMode::Output => 1,
        PinMode::Analog => 2,
        PinMode::Pwm => 3,
        PinMode::Servo => 4,
        PinMode::Shift => 5,
        PinMode::I2c => 6,
        PinMode::OneWire => 7,
        PinMode::Stepper => 8,
        PinMode::Encoder => 9,
        PinMode::Serial => 10,
        PinMode::Pullup => 11,
        PinMode::Ignore => 0x7F,
    }
}

/// The pin mode that a byte names, if it names one.
pub open spec fn mode_of_byte(value: u8) -> Option<PinMode> {
    if value == 0 {
        Some(PinMode::Input)
    } else if value == 1 {
        Some(PinMode::Output)
    } else if value == 2 {
        Some(PinMode::Analog)
    } else if value == 3 {
        Some(PinMode::Pwm)
    } else if value == 4 {
        Some(PinMode::Servo)
    } else if value == 5 {
        Some(PinMode::Shift)
    } else if value == 6 {
        Some(PinMode::I2c)
    } else if value == 7 {
        Some(PinMode::OneWire)
    } else if value == 8 {
        Some(PinMode::Stepper)
    } else if value == 9 {
        Some(PinMode::Encoder)
    } else if value == 10 {
        Some(PinMode::Serial)
    } else if value == 11 {
        Some(PinMode::Pullup)
    } else if value == 0x7F {
        Some(PinMode::Ignore)
    } else {
        None
    }
}

impl PinMode {
    /// The byte that names this mode on the wire.
    pub fn as_u8(self) -> (r: u8)
        ensures
            r == mode_byte(self),
    {
        match self {
            PinMode::Input => 0,
            PinMode::Output => 1,
            PinMode::Analog => 2,
            PinMode::Pwm => 3,
            PinMode::Servo => 4,
            PinMode::Shift => 5,
            PinMode::I2c => 6,
            PinMode::OneWire => 7,
            PinMode::Stepper => 8,
            PinMode::Encoder => 9,
            PinMode::Serial => 10,
            PinMode::Pullup => 11,
            PinMode::Ignore => 0x7F,
        }
    }

    /// The mode that `value` names, or `None` for a byte that names no mode.
    pub fn from_u8(value: u8) -> (r: Option<Self>)
        ensures
            r == mode_of_byte(value),
    {
        match value {
            0 => Some(Self::Input),
            1 => Some(Self::Output),
            2 => Some(Self::Analog),
            3 => Some(Self::Pwm),
            4 => Some(Self::Servo),
            5 => Some(Self::Shift),
            6 => Some(Self::I2c),
            7 => Some(Self::OneWire),
            8 => Some(Self::Stepper),
            9 => Some(Self::Encoder),
            10 => Some(Self::Serial),
            11 => Some(Self::Pullup),
            0x7F => Some(Self::Ignore),
            _ => None,
        }
    }
}

/// Every mode survives the trip to its byte and back.
pub proof fn lemma_mode_byte_round_trip(mode: PinMode)
    ensures
        mode_of_byte(mode_byte(mode)) == Some(mode),
{
}

/// A byte that names a mode is the byte of that mode: no two bytes name
/// the same mode.
pub proof fn lemma_mode_of_byte_inverse(value: u8)
    ensures
        mode_of_byte(value) matches Some(m) ==> mode_byte(m) == value,
{
}

/// What a board reports about one pin: the modes it supports and the
/// resolution of the first of them.
#[derive(Clone, Debug, PartialEq, Eq)]
pub struct PinCapabilities {
    pub modes: Vec<PinMode>,
    pub resolution: u8,
}

/// The mathematical value of a [`PinCapabilities`].
pub struct PinCapabilitiesView {
    pub modes: Seq<PinMode>,
    pub resolution: u8,
}

impl View for PinCapabilities {
    type V = PinCapabilitiesView;

    open spec fn view(&self) -> PinCapabilitiesView {
        PinCapabilitiesView { modes: self.modes@, resolution: self.resolution }
    }
}

/// The host's cached knowledge of one pin.
#[derive(Clone, Debug, PartialEq, Eq)]
pub struct PinState {
    pub mode: PinMode,
    pub resolution: u8,
    pub modes: Vec<PinMode>,
    pub value: i32,
}

/// The mathematical value of a [`PinState`].
pub struct PinStateView {
    pub mode: PinMode,
    pub resolution: u8,
    pub modes: Seq<PinMode>,
    pub value: i32,
}

impl View for PinState {
    type V = PinStateView;

    open spec fn view(&self) -> PinStateView {
        PinStateView {
            mode: self.mode,
            resolution: self.resolution,
            modes: self.modes@,
            value: self.value,
        }
    }
}

/// The state that a pin is assumed to be in before the board says otherwise:
/// an analog input at the default resolution, reading zero.
pub open spec fn default_pin_state() -> PinStateView {
    PinStateView {
        mode: PinMode::Analog,
        resolution: DEFAULT_ANALOG_RESOLUTION,
        modes: seq![PinMode::Analog],
        value: 0,
    }
}

impl Default for PinState {
    fn default() -> (r: Self)
        ensures
            r@ == default_pin_state(),
    {
        let modes = vec![PinMode::Analog];
        assert(modes@ =~= seq![PinMode::Analog]);
        Self {
            mode: PinMode::Analog,
            modes,
            resolution: DEFAULT_ANALOG_RESOLUTION,
            value: 0,
        }
    }
}

/// Bytes that an I2C device returned, with the address and register read.
#[derive(Clone, Debug, PartialEq, Eq)]
pub struct I2cReply {
    pub address: u16,
    pub register: u16,
    pub data: Vec<u8>,
}

/// The mathematical value of an [`I2cReply`].
pub struct I2cReplyView {
    pub address: u16,
    pub register: u16,
    pub data: Seq<u8>,
}

impl View for I2cReply {
    type V = I2cReplyView;

    open spec fn view(&self) -> I2cReplyView {
        I2cReplyView { address: self.address, register: self.register, data: self.data@ }
    }
}

impl Default for I2cReply {
    fn default() -> (r: Self)
        ensures
            r@ == (I2cReplyView { address: 0, register: 0, data: seq![] }),
    {
        I2cReply { address: 0, register: 0, data: Vec::new() }
    }
}

/// A message that a board sends to the host.
#[derive(Clone, Debug, PartialEq, Eq)]
pub enum Message {
    ProtocolVersion { major: u8, minor: u8 },
    Analog { pin: u8, value: u16 },
    Digital { port: u8, mask: u16 },
    EmptyResponse,
    AnalogMappingResponse { mapping: Vec<u8> },
    CapabilityResponse { pins: Vec<PinCapabilities> },
    PinStateResponse { pin: u8, mode: PinMode, value: i32 },
    ReportFirmware { major: u8, minor: u8, name: String },
    I2cReply(I2cReply),
}

/// The mathematical value of a [`Message`].
pub enum MessageView {
    ProtocolVersion { major: u8, minor: u8 },
    Analog { pin: u8, value: u16 },
    Digital { port: u8, mask: u16 },
    EmptyResponse,
    AnalogMappingResponse { mapping: Seq<u8> },
    CapabilityResponse { pins: Seq<PinCapabilitiesView> },
    PinStateResponse { pin: u8, mode: PinMode, value: i32 },
    ReportFirmware { major: u8, minor: u8, name: Seq<char> },
    I2cReply(I2cReplyView),
}

/// The views of a sequence of pin descriptions.
pub open spec fn capabilities_view(pins: Seq<PinCapabilities>) -> Seq<PinCapabilitiesView> {
    pins.map_values(|p: PinCapabilities| p@)
}

/// The views of a sequence of messages.
pub open spec fn messages_view(msgs: Seq<Message>) -> Seq<MessageView> {
    msgs.map_values(|m: Message| m@)
}

impl View for Message {
    type V = MessageView;

    open spec fn view(&self) -> MessageView {
        match self {
            Message::ProtocolVersion { major, minor } => MessageView::ProtocolVersion {
                major: *major,
                minor: *minor,
            },
            Message::Analog { pin, value } => MessageView::Analog { pin: *pin, value: *value },
            Message::Digital { port, mask } => MessageView::Digital { port: *port, mask: *mask },
            Message::EmptyResponse => MessageView::EmptyResponse,
            Message::AnalogMappingResponse { mapping } => MessageView::AnalogMappingResponse {
                mapping: mapping@,
            },
            Message::CapabilityResponse { pins } => MessageView::CapabilityResponse {
                pins: capabilities_view(pins@),
            },
            Message::PinStateResponse { pin, mode, value } => MessageView::PinStateResponse {
                pin: *pin,
                mode: *mode,
                value: *value,
            },
            Message::ReportFirmware { major, minor, name } => MessageView::ReportFirmware {
                major: *major,
                minor: *minor,
                name: name@,
            },
            Message::I2cReply(reply) => MessageView::I2cReply(reply@),
        }
    }
}

impl Message {
    /// Whether this message answers the firmware query of the handshake:
    /// a firmware report or a protocol version.
    pub fn is_handshake_firmware(&self) -> (r: bool)
        ensures
            r <==> (self is ReportFirmware || self is ProtocolVersion),
    {
        match self {
            Message::ReportFirmware { .. } | Message::ProtocolVersion { .. } => true,
            _ => false,
        }
    }

    /// Whether this message answers the capability queries of the handshake:
    /// a capability response or an analog mapping.
    pub fn is_handshake_capabilities(&self) -> (r: bool)
        ensures
            r <==> (self is CapabilityResponse || self is AnalogMappingResponse),
    {
        match self {
            Message::CapabilityResponse { .. } | Message::AnalogMappingResponse { .. } => true,
            _ => false,
        }
    }
}

/// Each pin mode travels as the number that the Firmata protocol gives it:
/// input 0, output 1, analog 2, PWM 3, servo 4, shift 5, I2C 6, OneWire 7,
/// stepper 8, encoder 9, serial 10, pull-up 11, and 0x7F for a pin to be
/// ignored; the named constants carry the same numbers. A byte names a mode
/// exactly when it is one of these numbers, and then it names that mode.
pub proof fn lemma_mode_numbers(value: u8)
    ensures
        mode_byte(PinMode::Input) == PIN_MODE_INPUT && PIN_MODE_INPUT == 0,
        mode_byte(PinMode::Output) == PIN_MODE_OUTPUT && PIN_MODE_OUTPUT == 1,
        mode_byte(PinMode::Analog) == PIN_MODE_ANALOG && PIN_MODE_ANALOG == 2,
        mode_byte(PinMode::Pwm) == PIN_MODE_PWM && PIN_MODE_PWM == 3,
        mode_byte(PinMode::Servo) == PIN_MODE_SERVO && PIN_MODE_SERVO == 4,
        mode_byte(PinMode::Shift) == 5,
        mode_byte(PinMode::I2c) == 6,
        mode_byte(PinMode::OneWire) == 7,
        mode_byte(PinMode::Stepper) == 8,
        mode_byte(PinMode::Encoder) == 9,
        mode_byte(PinMode::Serial) == 10,
        mode_byte(PinMode::Pullup) == PIN_MODE_PULLUP && PIN_MODE_PULLUP == 11,
        mode_byte(PinMode::Ignore) == PIN_MODE_IGNORE && PIN_MODE_IGNORE == 0x7F,
        mode_of_byte(value) is Some <==> (value <= 11 || value == 0x7F),
        mode_of_byte(value) matches Some(m) ==> mode_byte(m) == value,
{
}

} // verus!
