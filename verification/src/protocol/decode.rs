//! The incremental decoder: it takes the bytes a board sends, one at a
//! time, and hands out each message as soon as its last byte has arrived.
use vstd::prelude::*;
use vstd::utf8::{decode_utf8, valid_utf8};

use crate::error::{Error, Result};

use super::constants::{
    ANALOG_MAPPING_RESPONSE, ANALOG_MESSAGE, ANALOG_MESSAGE_BOUND, ANALOG_PIN_OFFSET,
    CAPABILITY_RESPONSE, DIGITAL_MESSAGE, DIGITAL_MESSAGE_BOUND, END_SYSEX, I2C_REPLY,
    PIN_MODE_IGNORE, PIN_STATE_RESPONSE, REPORT_FIRMWARE, REPORT_VERSION, START_SYSEX,
};
use super::encode::{analog_write_frame, digital_port_write_frame, joined};
use super::sysex::{decode_14bit, encoding_14bit, lemma_14bit_round_trip, value_14bit};
use super::types::{
    capabilities_view, messages_view, mode_of_byte, I2cReply, I2cReplyView, Message,
    MessageView, PinCapabilities, PinCapabilitiesView, PinMode,
};

verus! {

#[verifier::external_type_specification]
#[verifier::external_body]
pub struct ExFromUtf8Error(std::string::FromUtf8Error);

/// `String::from_utf8`. Its documentation promises an error exactly when
/// the bytes are not valid UTF-8, and otherwise the string they encode;
/// `valid_utf8` and `decode_utf8` are vstd's statement of that encoding.
#[verifier::external_body]
fn string_from_utf8(bytes: Vec<u8>) -> (r: std::result::Result<String, std::string::FromUtf8Error>)
    ensures
        r is Ok <==> valid_utf8(bytes@),
        r matches Ok(s) ==> s@ == decode_utf8(bytes@),
{
    String::from_utf8(bytes)
}

/// Where the decoder stands between two bytes.
#[derive(Debug)]
enum DecodeState {
    Idle,
    TwoOfThree { first: u8, second: u8 },
    OneOfThree(u8),
    Sysex(Vec<u8>),
}

/// The mathematical value of the decoder: what it has seen of the message
/// in progress.
pub enum DecoderView {
    /// Between messages.
    Idle,
    /// The command byte of a three-byte message has arrived.
    OneOfThree(u8),
    /// The first two bytes of a three-byte message have arrived.
    TwoOfThree { first: u8, second: u8 },
    /// A SysEx message is open; these are its bytes so far, the opening
    /// byte included.
    Sysex(Seq<u8>),
}

/// Decodes the byte stream that a board sends.
#[derive(Debug)]
pub struct Decoder {
    state: DecodeState,
}

impl View for Decoder {
    type V = DecoderView;

    closed spec fn view(&self) -> DecoderView {
        match self.state {
            DecodeState::Idle => DecoderView::Idle,
            DecodeState::TwoOfThree { first, second } => DecoderView::TwoOfThree { first, second },
            DecodeState::OneOfThree(b) => DecoderView::OneOfThree(b),
            DecodeState::Sysex(buf) => DecoderView::Sysex(buf@),
        }
    }
}

/// Whether `byte` opens a three-byte message: a protocol version, an analog
/// message or a digital port message.
pub open spec fn opens_three_byte(byte: u8) -> bool {
    byte == REPORT_VERSION || (ANALOG_MESSAGE <= byte && byte <= ANALOG_MESSAGE_BOUND) || (
    DIGITAL_MESSAGE <= byte && byte <= DIGITAL_MESSAGE_BOUND)
}

/// The message that three bytes stand for, the first being the command.
pub open spec fn three_byte_message(cmd: u8, b1: u8, b2: u8) -> Result<MessageView> {
    if cmd == REPORT_VERSION {
        Ok(MessageView::ProtocolVersion { major: b1, minor: b2 })
    } else if ANALOG_MESSAGE <= cmd && cmd <= ANALOG_MESSAGE_BOUND {
        Ok(MessageView::Analog { pin: (cmd % 16 + ANALOG_PIN_OFFSET) as u8, value: value_14bit(b1, b2) })
    } else if DIGITAL_MESSAGE <= cmd && cmd <= DIGITAL_MESSAGE_BOUND {
        Ok(MessageView::Digital { port: cmd % 16, mask: value_14bit(b1, b2) })
    } else {
        Err(Error::BadByte { byte: cmd })
    }
}

/// The modes named by the bytes of `bytes`, in order, skipping bytes that
/// name no mode.
pub open spec fn known_modes(bytes: Seq<u8>) -> Seq<PinMode>
    decreases bytes.len(),
{
    if bytes.len() == 0 {
        seq![]
    } else {
        let rest = known_modes(bytes.drop_last());
        match mode_of_byte(bytes.last()) {
            Some(m) => rest.push(m),
            None => rest,
        }
    }
}

/// The pins of a capability response, read from position `i` of `buf` on,
/// given the pins already complete, the mode bytes of the pin in progress
/// and the resolution that came with its first mode. Each pin is a list of
/// (mode, resolution) pairs closed by `PIN_MODE_IGNORE`; the last byte of
/// `buf` closes the message.
pub open spec fn capability_pins(
    buf: Seq<u8>,
    i: int,
    pins: Seq<PinCapabilitiesView>,
    modes: Seq<u8>,
    resolution: Option<u8>,
) -> Result<Seq<PinCapabilitiesView>>
    decreases buf.len() - i,
{
    if i < 0 || i >= buf.len() - 1 {
        Ok(pins)
    } else if buf[i] == PIN_MODE_IGNORE {
        if modes.len() == 0 || mode_of_byte(modes[0]) is None || resolution is None {
            Err(Error::MessageTooShort)
        } else {
            capability_pins(
                buf,
                i + 1,
                pins.push(
                    PinCapabilitiesView { modes: known_modes(modes), resolution: resolution->0 },
                ),
                seq![],
                None,
            )
        }
    } else {
        capability_pins(
            buf,
            i + 2,
            pins,
            modes.push(buf[i]),
            if resolution is None {
                Some(buf[i + 1])
            } else {
                resolution
            },
        )
    }
}

/// The data bytes of an I2C reply, read from position `i` of `buf` on, two
/// 7-bit halves per byte, until the closing byte.
pub open spec fn i2c_data(buf: Seq<u8>, i: int, data: Seq<u8>) -> Seq<u8>
    decreases buf.len() - i,
{
    if i < 0 || i + 1 >= buf.len() - 1 || buf[i] == END_SYSEX {
        data
    } else {
        i2c_data(buf, i + 2, data.push(value_14bit(buf[i], buf[i + 1]) as u8))
    }
}

/// The firmware report that a SysEx buffer holds.
pub open spec fn firmware_message(buf: Seq<u8>) -> Result<MessageView> {
    if buf.len() < 4 {
        Err(Error::MessageTooShort)
    } else if buf.len() > 5 {
        let name = buf.subrange(4, buf.len() - 1);
        if valid_utf8(name) {
            Ok(MessageView::ReportFirmware { major: buf[2], minor: buf[3], name: decode_utf8(name) })
        } else {
            Err(Error::Utf8Error)
        }
    } else {
        Ok(MessageView::ReportFirmware { major: buf[2], minor: buf[3], name: seq![] })
    }
}

/// The I2C reply that a SysEx buffer holds.
pub open spec fn i2c_reply_message(buf: Seq<u8>) -> Result<MessageView> {
    if buf.len() < 8 {
        Err(Error::MessageTooShort)
    } else {
        Ok(
            MessageView::I2cReply(
                I2cReplyView {
                    address: value_14bit(buf[2], buf[3]),
                    register: value_14bit(buf[4], buf[5]),
                    data: i2c_data(buf, 8, seq![value_14bit(buf[6], buf[7]) as u8]),
                },
            ),
        )
    }
}

/// The pin-state report that a SysEx buffer holds. A report that ends right
/// after the pin number describes an input reading zero.
pub open spec fn pin_state_message(buf: Seq<u8>) -> Result<MessageView> {
    if buf.len() < 4 {
        Err(Error::MessageTooShort)
    } else if buf[3] == END_SYSEX {
        Ok(MessageView::PinStateResponse { pin: buf[2], mode: PinMode::Input, value: 0 })
    } else {
        match mode_of_byte(buf[3]) {
            None => Err(Error::BadByte { byte: buf[3] }),
            Some(mode) => Ok(
                MessageView::PinStateResponse {
                    pin: buf[2],
                    mode,
                    value: if buf.len() > 4 {
                        buf[4] as i32
                    } else {
                        0
                    },
                },
            ),
        }
    }
}

/// The message that a complete SysEx buffer holds, from its opening byte
/// to its closing byte.
pub open spec fn sysex_message(buf: Seq<u8>) -> Result<MessageView> {
    if buf.len() < 2 {
        Err(Error::MessageTooShort)
    } else if buf[1] == END_SYSEX {
        Ok(MessageView::EmptyResponse)
    } else if buf[1] == ANALOG_MAPPING_RESPONSE {
        Ok(MessageView::AnalogMappingResponse { mapping: buf.subrange(2, buf.len() - 1) })
    } else if buf[1] == CAPABILITY_RESPONSE {
        match capability_pins(buf, 2, seq![], seq![], None) {
            Ok(pins) => Ok(MessageView::CapabilityResponse { pins }),
            Err(e) => Err(e),
        }
    } else if buf[1] == REPORT_FIRMWARE {
        firmware_message(buf)
    } else if buf[1] == I2C_REPLY {
        i2c_reply_message(buf)
    } else if buf[1] == PIN_STATE_RESPONSE {
        pin_state_message(buf)
    } else {
        Err(Error::UnknownSysEx { code: buf[1] })
    }
}

/// A finished message as the result of one step of the decoder.
pub open spec fn completed(r: Result<MessageView>) -> Result<Option<MessageView>> {
    match r {
        Ok(m) => Ok(Some(m)),
        Err(e) => Err(e),
    }
}

/// One step of the decoder: the state after `byte` and what the step gives.
/// A byte that cannot open a message is refused; a step that finishes or
/// fails a message leaves the decoder idle.
pub open spec fn feed_step(state: DecoderView, byte: u8) -> (DecoderView, Result<Option<MessageView>>) {
    match state {
        DecoderView::Idle => if byte == START_SYSEX {
            (DecoderView::Sysex(seq![START_SYSEX]), Ok(None))
        } else if opens_three_byte(byte) {
            (DecoderView::OneOfThree(byte), Ok(None))
        } else {
            (DecoderView::Idle, Err(Error::BadByte { byte }))
        },
        DecoderView::OneOfThree(first) => (
            DecoderView::TwoOfThree { first, second: byte },
            Ok(None),
        ),
        DecoderView::TwoOfThree { first, second } => (
            DecoderView::Idle,
            completed(three_byte_message(first, second, byte)),
        ),
        DecoderView::Sysex(buf) => if byte == END_SYSEX {
            (DecoderView::Idle, completed(sysex_message(buf.push(byte))))
        } else {
            (DecoderView::Sysex(buf.push(byte)), Ok(None))
        },
    }
}

/// The decoder state after `bytes`, from `state`, and the messages they
/// gave, or the first error.
pub open spec fn decode_from(state: DecoderView, bytes: Seq<u8>) -> (DecoderView, Result<Seq<MessageView>>)
    decreases bytes.len(),
{
    if bytes.len() == 0 {
        (state, Ok(seq![]))
    } else {
        let (at, acc) = decode_from(state, bytes.drop_last());
        match acc {
            Err(e) => (at, Err(e)),
            Ok(msgs) => {
                let (next, out) = feed_step(at, bytes.last());
                match out {
                    Err(e) => (next, Err(e)),
                    Ok(None) => (next, Ok(msgs)),
                    Ok(Some(m)) => (next, Ok(msgs.push(m))),
                }
            },
        }
    }
}

/// The decoder state after `bytes`, from idle, and the messages they gave,
/// or the first error.
pub open spec fn decode_run(bytes: Seq<u8>) -> (DecoderView, Result<Seq<MessageView>>) {
    decode_from(DecoderView::Idle, bytes)
}

/// The messages that a whole byte sequence holds, or the first error.
pub open spec fn decoded(bytes: Seq<u8>) -> Result<Seq<MessageView>> {
    decode_run(bytes).1
}

/// The view of what one step of the decoder returned.
pub open spec fn step_view(r: Result<Option<Message>>) -> Result<Option<MessageView>> {
    match r {
        Ok(Some(m)) => Ok(Some(m@)),
        Ok(None) => Ok(None),
        Err(e) => Err(e),
    }
}

/// The view of a decoded message sequence.
pub open spec fn messages_result_view(r: Result<Vec<Message>>) -> Result<Seq<MessageView>> {
    match r {
        Ok(v) => Ok(messages_view(v@)),
        Err(e) => Err(e),
    }
}

impl Default for Decoder {
    fn default() -> (r: Self)
        ensures
            r@ == DecoderView::Idle,
    {
        Decoder { state: DecodeState::Idle }
    }
}

impl Decoder {
    /// A decoder between messages.
    pub fn new() -> (r: Self)
        ensures
            r@ == DecoderView::Idle,
    {
        Decoder { state: DecodeState::Idle }
    }

    /// Takes the next byte: `Ok(None)` while a message is incomplete, the
    /// message when `byte` completes it, or the error that the message or the
    /// byte holds.
    pub fn feed(&mut self, byte: u8) -> (r: Result<Option<Message>>)
        ensures
            final(self)@ == feed_step(old(self)@, byte).0,
            step_view(r) == feed_step(old(self)@, byte).1,
    {
        let mut state = DecodeState::Idle;
        std::mem::swap(&mut state, &mut self.state);
        match state {
            DecodeState::Idle => {
                if byte == START_SYSEX {
                    let buf = vec![START_SYSEX];
                    assert(buf@ =~= seq![START_SYSEX]);
                    self.state = DecodeState::Sysex(buf);
                    Ok(None)
                } else if byte == REPORT_VERSION || (ANALOG_MESSAGE <= byte && byte
                    <= ANALOG_MESSAGE_BOUND) || (DIGITAL_MESSAGE <= byte && byte
                    <= DIGITAL_MESSAGE_BOUND) {
                    self.state = DecodeState::OneOfThree(byte);
                    Ok(None)
                } else {
                    Err(Error::BadByte { byte })
                }
            },
            DecodeState::OneOfThree(first) => {
                self.state = DecodeState::TwoOfThree { first, second: byte };
                Ok(None)
            },
            DecodeState::TwoOfThree { first, second } => {
                match parse_three_byte(first, second, byte) {
                    Ok(msg) => Ok(Some(msg)),
                    Err(e) => Err(e),
                }
            },
            DecodeState::Sysex(mut buf) => {
                buf.push(byte);
                if byte == END_SYSEX {
                    match parse_sysex(&buf) {
                        Ok(msg) => Ok(Some(msg)),
                        Err(e) => Err(e),
                    }
                } else {
                    self.state = DecodeState::Sysex(buf);
                    Ok(None)
                }
            },
        }
    }
}

fn parse_three_byte(cmd: u8, b1: u8, b2: u8) -> (r: Result<Message>)
    ensures
        match three_byte_message(cmd, b1, b2) {
            Ok(m) => r matches Ok(x) && x@ == m,
            Err(e) => r == Err::<Message, Error>(e),
        },
{
    if cmd == REPORT_VERSION {
        Ok(Message::ProtocolVersion { major: b1, minor: b2 })
    } else if ANALOG_MESSAGE <= cmd && cmd <= ANALOG_MESSAGE_BOUND {
        let analog_index = cmd & 0x0F;
        assert(cmd & 0x0Fu8 == cmd % 16) by (bit_vector);
        let pin = analog_index + ANALOG_PIN_OFFSET;
        let value = decode_14bit(b1, b2);
        Ok(Message::Analog { pin, value })
    } else if DIGITAL_MESSAGE <= cmd && cmd <= DIGITAL_MESSAGE_BOUND {
        let port = cmd & 0x0F;
        assert(cmd & 0x0Fu8 == cmd % 16) by (bit_vector);
        let mask = decode_14bit(b1, b2);
        Ok(Message::Digital { port, mask })
    } else {
        Err(Error::BadByte { byte: cmd })
    }
}

fn parse_sysex(buf: &Vec<u8>) -> (r: Result<Message>)
    requires
        buf@.len() >= 1,
        buf@.last() == END_SYSEX,
    ensures
        match sysex_message(buf@) {
            Ok(m) => r matches Ok(x) && x@ == m,
            Err(e) => r == Err::<Message, Error>(e),
        },
{
    if buf.len() < 2 {
        return Err(Error::MessageTooShort);
    }
    let code = buf[1];
    if code == END_SYSEX {
        Ok(Message::EmptyResponse)
    } else if code == ANALOG_MAPPING_RESPONSE {
        parse_analog_mapping(buf)
    } else if code == CAPABILITY_RESPONSE {
        parse_capability_response(buf)
    } else if code == REPORT_FIRMWARE {
        parse_report_firmware(buf)
    } else if code == I2C_REPLY {
        parse_i2c_reply(buf)
    } else if code == PIN_STATE_RESPONSE {
        parse_pin_state_response(buf)
    } else {
        Err(Error::UnknownSysEx { code })
    }
}

/// A copy of `buf[start..end]`.
fn copy_range(buf: &Vec<u8>, start: usize, end: usize) -> (r: Vec<u8>)
    requires
        start <= end <= buf@.len(),
    ensures
        r@ == buf@.subrange(start as int, end as int),
{
    let mut out: Vec<u8> = Vec::new();
    let mut i = start;
    while i < end
        invariant
            start <= i <= end <= buf@.len(),
            out@ == buf@.subrange(start as int, i as int),
        decreases end - i,
    {
        out.push(buf[i]);
        i = i + 1;
        assert(out@ =~= buf@.subrange(start as int, i as int));
    }
    out
}

fn parse_analog_mapping(buf: &Vec<u8>) -> (r: Result<Message>)
    requires
        buf@.len() >= 3,
    ensures
        r matches Ok(m) && m@ == (MessageView::AnalogMappingResponse {
            mapping: buf@.subrange(2, buf@.len() - 1),
        }),
{
    let mapping = copy_range(buf, 2, buf.len() - 1);
    Ok(Message::AnalogMappingResponse { mapping })
}

fn parse_capability_response(buf: &Vec<u8>) -> (r: Result<Message>)
    requires
        buf@.len() >= 2,
    ensures
        match capability_pins(buf@, 2, seq![], seq![], None) {
            Ok(pins) => r matches Ok(x) && x@ == (MessageView::CapabilityResponse { pins }),
            Err(e) => r == Err::<Message, Error>(e),
        },
{
    let mut pins: Vec<PinCapabilities> = Vec::new();
    let mut i: usize = 2;
    let mut modes: Vec<u8> = Vec::new();
    let mut resolution: Option<u8> = None;
    let ghost whole = capability_pins(buf@, 2, seq![], seq![], None);
    assert(capabilities_view(pins@) =~= seq![]);
    assert(modes@ =~= seq![]);
    while i < buf.len() - 1
        invariant
            buf@.len() >= 2,
            2 <= i,
            whole == capability_pins(buf@, 2, seq![], seq![], None),
            whole == capability_pins(
                buf@,
                i as int,
                capabilities_view(pins@),
                modes@,
                resolution,
            ),
        decreases buf@.len() - i,
    {
        if buf[i] == PIN_MODE_IGNORE {
            if modes.len() == 0 {
                return Err(Error::MessageTooShort);
            }
            let first_mode = match PinMode::from_u8(modes[0]) {
                Some(m) => m,
                None => {
                    return Err(Error::MessageTooShort);
                },
            };
            let res = match resolution {
                Some(r) => r,
                None => {
                    return Err(Error::MessageTooShort);
                },
            };
            let pin_modes = collect_known_modes(&modes);
            proof {
                lemma_known_modes_nonempty(modes@);
            }
            let chosen = if pin_modes.len() == 0 {
                vec![first_mode]
            } else {
                pin_modes
            };
            let cap = PinCapabilities { modes: chosen, resolution: res };
            let ghost before = capabilities_view(pins@);
            pins.push(cap);
            assert(capabilities_view(pins@) =~= before.push(cap@));
            modes = Vec::new();
            assert(modes@ =~= seq![]);
            resolution = None;
            i = i + 1;
        } else {
            modes.push(buf[i]);
            if resolution.is_none() {
                resolution = Some(buf[i + 1]);
            }
            i = i + 2;
        }
    }
    Ok(Message::CapabilityResponse { pins })
}

/// A lone mode byte that names a mode leaves a nonempty list of known modes.
proof fn lemma_known_modes_nonempty(bytes: Seq<u8>)
    requires
        bytes.len() > 0,
        mode_of_byte(bytes[0]) is Some,
    ensures
        known_modes(bytes).len() > 0,
    decreases bytes.len(),
{
    if bytes.len() > 1 {
        lemma_known_modes_nonempty(bytes.drop_last());
    }
}

/// The modes that the bytes of `bytes` name, in order.
fn collect_known_modes(bytes: &Vec<u8>) -> (r: Vec<PinMode>)
    ensures
        r@ == known_modes(bytes@),
{
    let mut out: Vec<PinMode> = Vec::new();
    let mut i: usize = 0;
    while i < bytes.len()
        invariant
            i <= bytes@.len(),
            out@ == known_modes(bytes@.take(i as int)),
        decreases bytes@.len() - i,
    {
        assert(bytes@.take(i + 1).drop_last() =~= bytes@.take(i as int));
        match PinMode::from_u8(bytes[i]) {
            Some(m) => out.push(m),
            None => {},
        }
        i = i + 1;
    }
    assert(bytes@.take(bytes@.len() as int) =~= bytes@);
    out
}

fn parse_report_firmware(buf: &Vec<u8>) -> (r: Result<Message>)
    requires
        buf@.len() >= 2,
    ensures
        match firmware_message(buf@) {
            Ok(m) => r matches Ok(x) && x@ == m,
            Err(e) => r == Err::<Message, Error>(e),
        },
{
    if buf.len() <= 2 {
        return Err(Error::MessageTooShort);
    }
    let major = buf[2];
    if buf.len() <= 3 {
        return Err(Error::MessageTooShort);
    }
    let minor = buf[3];
    let name = if buf.len() > 5 {
        let bytes = copy_range(buf, 4, buf.len() - 1);
        match string_from_utf8(bytes) {
            Ok(s) => s,
            Err(_) => {
                return Err(Error::Utf8Error);
            },
        }
    } else {
        let s = String::new();
        assert(s@ =~= seq![]);
        s
    };
    Ok(Message::ReportFirmware { major, minor, name })
}

fn parse_i2c_reply(buf: &Vec<u8>) -> (r: Result<Message>)
    requires
        buf@.len() >= 2,
    ensures
        match i2c_reply_message(buf@) {
            Ok(m) => r matches Ok(x) && x@ == m,
            Err(e) => r == Err::<Message, Error>(e),
        },
{
    if buf.len() < 8 {
        return Err(Error::MessageTooShort);
    }
    let first = #[verifier::truncate] (decode_14bit(buf[6], buf[7]) as u8);
    let mut data = vec![first];
    let address = decode_14bit(buf[2], buf[3]);
    let register = decode_14bit(buf[4], buf[5]);
    assert(data@ =~= seq![value_14bit(buf@[6], buf@[7]) as u8]);
    let ghost whole = i2c_data(buf@, 8, data@);
    let mut i: usize = 8;
    while i < buf.len() - 2
        invariant
            buf@.len() >= 8,
            8 <= i <= buf@.len(),
            whole == i2c_data(buf@, i as int, data@),
            address == value_14bit(buf@[2], buf@[3]),
            register == value_14bit(buf@[4], buf@[5]),
        ensures
            whole == data@,
            address == value_14bit(buf@[2], buf@[3]),
            register == value_14bit(buf@[4], buf@[5]),
        decreases buf@.len() - i,
    {
        if buf[i] == END_SYSEX {
            break;
        }
        data.push(#[verifier::truncate] (decode_14bit(buf[i], buf[i + 1]) as u8));
        i = i + 2;
    }
    Ok(Message::I2cReply(I2cReply { address, register, data }))
}

fn parse_pin_state_response(buf: &Vec<u8>) -> (r: Result<Message>)
    requires
        buf@.len() >= 2,
    ensures
        match pin_state_message(buf@) {
            Ok(m) => r matches Ok(x) && x@ == m,
            Err(e) => r == Err::<Message, Error>(e),
        },
{
    if buf.len() < 4 {
        return Err(Error::MessageTooShort);
    }
    let pin = buf[2];
    if buf[3] == END_SYSEX {
        return Ok(Message::PinStateResponse { pin, mode: PinMode::Input, value: 0 });
    }
    let mode = match PinMode::from_u8(buf[3]) {
        Some(m) => m,
        None => {
            return Err(Error::BadByte { byte: buf[3] });
        },
    };
    let value: i32 = if buf.len() > 4 {
        buf[4] as i32
    } else {
        0
    };
    Ok(Message::PinStateResponse { pin, mode, value })
}

/// Decodes every message in `data`, failing at the first error.
pub fn decode_all(data: &[u8]) -> (r: Result<Vec<Message>>)
    ensures
        messages_result_view(r) == decoded(data@),
{
    let mut decoder = Decoder::new();
    let mut messages: Vec<Message> = Vec::new();
    let n = data.len();
    let mut i: usize = 0;
    assert(data@.take(0) =~= seq![]);
    assert(messages_view(messages@) =~= seq![]);
    while i < n
        invariant
            n == data@.len(),
            i <= n,
            decode_run(data@.take(i as int)).0 == decoder@,
            decode_run(data@.take(i as int)).1 == Ok::<Seq<MessageView>, Error>(
                messages_view(messages@),
            ),
        decreases n - i,
    {
        let byte = data[i];
        assert(data@.take(i + 1).drop_last() =~= data@.take(i as int));
        assert(data@.take(i + 1).last() == byte);
        match decoder.feed(byte) {
            Err(e) => {
                proof {
                    lemma_decode_error_persists(data@, i as int + 1);
                }
                return Err(e);
            },
            Ok(Some(msg)) => {
                let ghost before = messages_view(messages@);
                messages.push(msg);
                assert(messages_view(messages@) =~= before.push(msg@));
            },
            Ok(None) => {},
        }
        i = i + 1;
    }
    assert(data@.take(n as int) =~= data@);
    Ok(messages)
}

/// Once decoding a prefix has failed, decoding any longer prefix fails with
/// the same error.
proof fn lemma_decode_error_persists(bytes: Seq<u8>, k: int)
    requires
        0 <= k <= bytes.len(),
        decode_run(bytes.take(k)).1 is Err,
    ensures
        decode_run(bytes).1 == decode_run(bytes.take(k)).1,
    decreases bytes.len() - k,
{
    if k < bytes.len() {
        assert(bytes.take(k + 1).drop_last() =~= bytes.take(k));
        lemma_decode_error_persists(bytes, k + 1);
    } else {
        assert(bytes.take(k) =~= bytes);
    }
}

/// Decoding three bytes from idle: the first must open a three-byte message,
/// and the three give that message.
proof fn lemma_decode_three(cmd: u8, b1: u8, b2: u8)
    requires
        opens_three_byte(cmd),
    ensures
        decode_run(seq![cmd, b1, b2]).0 == DecoderView::Idle,
        decoded(seq![cmd, b1, b2]) == (match three_byte_message(cmd, b1, b2) {
            Ok(m) => Ok(seq![m]),
            Err(e) => Err::<Seq<MessageView>, Error>(e),
        }),
{
    let s = seq![cmd, b1, b2];
    assert(s.drop_last() =~= seq![cmd, b1]);
    assert(seq![cmd, b1].drop_last() =~= seq![cmd]);
    assert(seq![cmd].drop_last() =~= Seq::<u8>::empty());
    let e: Seq<MessageView> = seq![];
    assert(cmd != START_SYSEX);
    assert(decode_run(Seq::<u8>::empty()) == (DecoderView::Idle, Ok::<Seq<MessageView>, Error>(e)));
    assert(seq![cmd].last() == cmd);
    assert(decode_run(seq![cmd]) == (DecoderView::OneOfThree(cmd), Ok::<Seq<MessageView>, Error>(e)));
    assert(seq![cmd, b1].last() == b1);
    assert(decode_run(seq![cmd, b1]) == (
        DecoderView::TwoOfThree { first: cmd, second: b1 },
        Ok::<Seq<MessageView>, Error>(e),
    ));
    assert(s.last() == b2);
    match three_byte_message(cmd, b1, b2) {
        Ok(m) => {
            assert(e.push(m) =~= seq![m]);
        },
        Err(_) => {},
    }
}

/// What an analog write sends to a channel below 16, with a level below
/// 2^14, decodes to one analog message for Firmata pin `pin + 14` that
/// carries the same level, and leaves the decoder between messages.
pub proof fn lemma_analog_write_decodes(pin: u8, level: u16)
    requires
        pin < 16,
        level < 0x4000,
    ensures
        decode_run(analog_write_frame(pin, level)).0 == DecoderView::Idle,
        decoded(analog_write_frame(pin, level)) == Ok::<Seq<MessageView>, Error>(
            seq![MessageView::Analog { pin: (pin + ANALOG_PIN_OFFSET) as u8, value: level }],
        ),
{
    let cmd = ANALOG_MESSAGE | pin;
    assert(pin < 16 ==> 0xE0u8 <= (0xE0u8 | pin) && (0xE0u8 | pin) <= 0xEFu8 && (0xE0u8 | pin)
        % 16 == pin) by (bit_vector);
    let enc = encoding_14bit(level);
    assert(analog_write_frame(pin, level) =~= seq![cmd, enc[0], enc[1]]);
    lemma_14bit_round_trip(level);
    lemma_decode_three(cmd, enc[0], enc[1]);
}

/// What a digital port write sends to a port below 16, with a mask below
/// 2^14, decodes to one digital message for the same port and mask, and
/// leaves the decoder between messages.
pub proof fn lemma_digital_port_write_decodes(port: u8, mask: u16)
    requires
        port < 16,
        mask < 0x4000,
    ensures
        decode_run(digital_port_write_frame(port, mask)).0 == DecoderView::Idle,
        decoded(digital_port_write_frame(port, mask)) == Ok::<Seq<MessageView>, Error>(
            seq![MessageView::Digital { port, mask }],
        ),
{
    let cmd = DIGITAL_MESSAGE | port;
    assert(port < 16 ==> 0x90u8 <= (0x90u8 | port) && (0x90u8 | port) <= 0x9Fu8 && (0x90u8
        | port) % 16 == port) by (bit_vector);
    let enc = encoding_14bit(mask);
    assert(digital_port_write_frame(port, mask) =~= seq![cmd, enc[0], enc[1]]);
    lemma_14bit_round_trip(mask);
    lemma_decode_three(cmd, enc[0], enc[1]);
}

/// Decoding `a + b` from `state` is decoding `a`, then `b` from where `a`
/// left the decoder.
proof fn lemma_decode_from_concat(state: DecoderView, a: Seq<u8>, b: Seq<u8>)
    ensures
        decode_from(state, a + b) == (match decode_from(state, a).1 {
            Err(e) => (decode_from(state, a).0, Err::<Seq<MessageView>, Error>(e)),
            Ok(m1) => {
                let (s2, r2) = decode_from(decode_from(state, a).0, b);
                match r2 {
                    Ok(m2) => (s2, Ok(m1 + m2)),
                    Err(e) => (s2, Err(e)),
                }
            },
        }),
    decreases b.len(),
{
    if b.len() == 0 {
        assert(a + b =~= a);
        match decode_from(state, a).1 {
            Ok(m1) => {
                assert(m1 + Seq::<MessageView>::empty() =~= m1);
            },
            Err(_) => {},
        }
    } else {
        assert((a + b).drop_last() =~= a + b.drop_last());
        assert((a + b).last() == b.last());
        lemma_decode_from_concat(state, a, b.drop_last());
        match decode_from(state, a).1 {
            Ok(m1) => {
                let s1 = decode_from(state, a).0;
                let (t, r) = decode_from(s1, b.drop_last());
                match r {
                    Ok(m2) => {
                        let (next, out) = feed_step(t, b.last());
                        match out {
                            Ok(Some(m)) => {
                                assert((m1 + m2).push(m) =~= m1 + m2.push(m));
                            },
                            _ => {},
                        }
                    },
                    Err(_) => {},
                }
            },
            Err(_) => {},
        }
    }
}

/// The decoder is idle again after every complete message, so a stream
/// whose first part ends between messages decodes to the messages of the
/// first part followed by those of the second, or to the first error.
pub proof fn lemma_decoded_concat(a: Seq<u8>, b: Seq<u8>)
    requires
        decode_run(a).0 == DecoderView::Idle,
    ensures
        decoded(a + b) == (match decoded(a) {
            Err(e) => Err::<Seq<MessageView>, Error>(e),
            Ok(m1) => match decoded(b) {
                Ok(m2) => Ok(m1 + m2),
                Err(e) => Err(e),
            },
        }),
{
    lemma_decode_from_concat(DecoderView::Idle, a, b);
}

/// Whether `b` is one whole message as a board frames it: a byte that
/// opens a three-byte message and two more bytes, or a SysEx message from
/// its opening byte to the first closing byte.
pub open spec fn single_message(b: Seq<u8>) -> bool {
    ||| b.len() == 3 && opens_three_byte(b[0])
    ||| b.len() >= 2 && b[0] == START_SYSEX && b.last() == END_SYSEX && forall|i: int|
        1 <= i < b.len() - 1 ==> #[trigger] b[i] != END_SYSEX
}

/// A step that gives a message or an error leaves the decoder between
/// messages, whatever state it started from.
pub proof fn lemma_feed_ends_idle(state: DecoderView, byte: u8)
    ensures
        !(feed_step(state, byte).1 matches Ok(None)) ==> feed_step(state, byte).0
            == DecoderView::Idle,
{
}

/// The open SysEx message after the first `k` bytes of a SysEx message,
/// before its closing byte.
proof fn lemma_sysex_prefix(b: Seq<u8>, k: int)
    requires
        single_message(b),
        b[0] == START_SYSEX,
        1 <= k <= b.len() - 1,
    ensures
        decode_run(b.take(k)) == (DecoderView::Sysex(b.take(k)), Ok::<Seq<MessageView>, Error>(
            seq![],
        )),
    decreases k,
{
    let e: Seq<MessageView> = seq![];
    if k == 1 {
        assert(b.take(1).drop_last() =~= Seq::<u8>::empty());
        assert(b.take(1) =~= seq![START_SYSEX]);
        assert(decode_run(Seq::<u8>::empty()) == (DecoderView::Idle, Ok::<Seq<MessageView>, Error>(e)));
        assert(feed_step(DecoderView::Idle, START_SYSEX) == (DecoderView::Sysex(seq![START_SYSEX]), Ok::<
            Option<MessageView>,
            Error,
        >(None)));
    } else {
        lemma_sysex_prefix(b, k - 1);
        assert(b.take(k).drop_last() =~= b.take(k - 1));
        assert(b.take(k).last() == b[k - 1]);
        assert(b[k - 1] != END_SYSEX);
        assert(b.take(k - 1).push(b[k - 1]) =~= b.take(k));
        assert(feed_step(DecoderView::Sysex(b.take(k - 1)), b[k - 1]) == (DecoderView::Sysex(b.take(k)), Ok::<
            Option<MessageView>,
            Error,
        >(None)));
    }
}

/// Fed one whole message from between messages, the decoder gives nothing
/// until the last byte, which gives the message or an error; then it is
/// between messages again.
pub proof fn lemma_single_message(b: Seq<u8>)
    requires
        single_message(b),
    ensures
        forall|k: int|
            0 <= k < b.len() ==> decode_run(#[trigger] b.take(k)).1 == Ok::<
                Seq<MessageView>,
                Error,
            >(seq![]),
        forall|k: int|
            0 <= k < b.len() - 1 ==> feed_step(decode_run(#[trigger] b.take(k)).0, b[k]).1
                == Ok::<Option<MessageView>, Error>(None),
        !(feed_step(decode_run(b.take(b.len() - 1)).0, b.last()).1 matches Ok(None)),
        decode_run(b).0 == DecoderView::Idle,
{
    assert(b.take(0) =~= Seq::<u8>::empty());
    assert(b.drop_last() =~= b.take(b.len() - 1));
    if b.len() == 3 && opens_three_byte(b[0]) {
        let e: Seq<MessageView> = seq![];
        assert(b[0] != START_SYSEX);
        assert(decode_run(Seq::<u8>::empty()) == (DecoderView::Idle, Ok::<Seq<MessageView>, Error>(e)));
        assert(b.take(1).drop_last() =~= Seq::<u8>::empty());
        assert(b.take(1).last() == b[0]);
        assert(b.take(2).drop_last() =~= b.take(1));
        assert(b.take(2).last() == b[1]);
        assert(decode_run(b.take(1)) == (DecoderView::OneOfThree(b[0]), Ok::<
            Seq<MessageView>,
            Error,
        >(seq![])));
        assert(decode_run(b.take(2)) == (DecoderView::TwoOfThree { first: b[0], second: b[1] }, Ok::<
            Seq<MessageView>,
            Error,
        >(seq![])));
        assert forall|k: int| 0 <= k < b.len() implies decode_run(#[trigger] b.take(k)).1 == Ok::<
            Seq<MessageView>,
            Error,
        >(seq![]) by {}
        assert forall|k: int| 0 <= k < b.len() - 1 implies feed_step(
            decode_run(#[trigger] b.take(k)).0,
            b[k],
        ).1 == Ok::<Option<MessageView>, Error>(None) by {}
    } else {
        assert forall|k: int| 0 <= k < b.len() implies decode_run(#[trigger] b.take(k)).1 == Ok::<
            Seq<MessageView>,
            Error,
        >(seq![]) by {
            if k >= 1 {
                lemma_sysex_prefix(b, k);
            }
        }
        assert forall|k: int| 0 <= k < b.len() - 1 implies feed_step(
            decode_run(#[trigger] b.take(k)).0,
            b[k],
        ).1 == Ok::<Option<MessageView>, Error>(None) by {
            if k >= 1 {
                lemma_sysex_prefix(b, k);
                assert(b[k] != END_SYSEX);
            }
        }
        lemma_sysex_prefix(b, b.len() - 1);
    }
}

/// Frames that each decode, from between messages, to one message and
/// leave the decoder between messages decode, one after another, to their
/// messages in the same order, and leave the decoder between messages.
pub proof fn lemma_decoded_frames(frames: Seq<Seq<u8>>, msgs: Seq<MessageView>)
    requires
        frames.len() == msgs.len(),
        forall|i: int|
            0 <= i < frames.len() ==> decode_run(#[trigger] frames[i]).0 == DecoderView::Idle
                && decoded(frames[i]) == Ok::<Seq<MessageView>, Error>(seq![msgs[i]]),
    ensures
        decode_run(joined(frames)).0 == DecoderView::Idle,
        decoded(joined(frames)) == Ok::<Seq<MessageView>, Error>(msgs),
    decreases frames.len(),
{
    if frames.len() == 0 {
        assert(joined(frames) =~= Seq::<u8>::empty());
        assert(msgs =~= Seq::<MessageView>::empty());
    } else {
        let n = frames.len() - 1;
        let f2 = frames.drop_last();
        let m2 = msgs.drop_last();
        assert forall|i: int| 0 <= i < f2.len() implies decode_run(#[trigger] f2[i]).0
            == DecoderView::Idle && decoded(f2[i]) == Ok::<Seq<MessageView>, Error>(seq![m2[i]]) by {
            assert(f2[i] == frames[i]);
        }
        lemma_decoded_frames(f2, m2);
        assert(decode_run(frames[n]).0 == DecoderView::Idle && decoded(frames[n]) == Ok::<
            Seq<MessageView>,
            Error,
        >(seq![msgs[n]]));
        lemma_decode_from_concat(DecoderView::Idle, joined(f2), frames.last());
        assert(m2 + seq![msgs[n]] =~= msgs);
    }
}

/// Whether `frame` is an analog write to a channel below 16, or a digital
/// port write to a port below 16, of a value below 2^14, and `msg` the
/// message it stands for.
pub open spec fn write_frame_of(frame: Seq<u8>, msg: MessageView) -> bool {
    ||| exists|pin: u8, level: u16|
        #![trigger analog_write_frame(pin, level)]
        pin < 16 && level < 0x4000 && frame == analog_write_frame(pin, level) && msg == (
        MessageView::Analog { pin: (pin + ANALOG_PIN_OFFSET) as u8, value: level })
    ||| exists|port: u8, mask: u16|
        #![trigger digital_port_write_frame(port, mask)]
        port < 16 && mask < 0x4000 && frame == digital_port_write_frame(port, mask) && msg == (
        MessageView::Digital { port, mask })
}

/// Analog and digital port writes, each within range, decode one after
/// another to their messages in the same order.
pub proof fn lemma_writes_decode_in_order(frames: Seq<Seq<u8>>, msgs: Seq<MessageView>)
    requires
        frames.len() == msgs.len(),
        forall|i: int| 0 <= i < frames.len() ==> write_frame_of(#[trigger] frames[i], msgs[i]),
    ensures
        decoded(joined(frames)) == Ok::<Seq<MessageView>, Error>(msgs),
{
    assert forall|i: int| 0 <= i < frames.len() implies decode_run(#[trigger] frames[i]).0
        == DecoderView::Idle && decoded(frames[i]) == Ok::<Seq<MessageView>, Error>(seq![msgs[i]]) by {
        let f = frames[i];
        let m = msgs[i];
        assert(write_frame_of(f, m));
        if exists|pin: u8, level: u16|
            #![trigger analog_write_frame(pin, level)]
            pin < 16 && level < 0x4000 && f == analog_write_frame(pin, level) && m == (
            MessageView::Analog { pin: (pin + ANALOG_PIN_OFFSET) as u8, value: level }) {
            let (pin, level) = choose|pin: u8, level: u16|
                #![trigger analog_write_frame(pin, level)]
                pin < 16 && level < 0x4000 && f == analog_write_frame(pin, level) && m == (
                MessageView::Analog { pin: (pin + ANALOG_PIN_OFFSET) as u8, value: level });
            lemma_analog_write_decodes(pin, level);
        } else {
            let (port, mask) = choose|port: u8, mask: u16|
                #![trigger digital_port_write_frame(port, mask)]
                port < 16 && mask < 0x4000 && f == digital_port_write_frame(port, mask) && m == (
                MessageView::Digital { port, mask });
            lemma_digital_port_write_decodes(port, mask);
        }
    }
    lemma_decoded_frames(frames, msgs);
}

/// A byte pair whose low byte has its high bit clear stands for the low
/// byte plus 128 times the high byte.
proof fn lemma_value_14bit_sum(lo: u8, hi: u8)
    requires
        lo < 128,
    ensures
        value_14bit(lo, hi) == lo + 128 * hi,
{
    assert(lo < 128 ==> (lo as u16) | (((hi as u16) << 7u16) as u16) == lo + 128 * hi)
        by (bit_vector);
}

/// Whether `buf` is an I2C reply from `address` for `register` carrying
/// `data`, each value in 7-bit form: the address and the register as their
/// low seven bits then the next seven, each data byte as its low seven bits
/// then its high bit.
pub open spec fn i2c_reply_frame(buf: Seq<u8>, address: u16, register: u16, data: Seq<u8>) -> bool {
    &&& buf.len() == 7 + 2 * data.len()
    &&& buf[0] == START_SYSEX
    &&& buf[1] == I2C_REPLY
    &&& buf[2] == address % 128
    &&& buf[3] == address / 128
    &&& buf[4] == register % 128
    &&& buf[5] == register / 128
    &&& forall|i: int|
        0 <= i < data.len() ==> buf[6 + 2 * i] == #[trigger] data[i] % 128 && buf[7 + 2 * i]
            == data[i] / 128
    &&& buf.last() == END_SYSEX
}

/// The data pairs of an I2C reply from the `k`-th on give the rest of the
/// data.
proof fn lemma_i2c_reply_data(buf: Seq<u8>, address: u16, register: u16, data: Seq<u8>, k: int)
    requires
        i2c_reply_frame(buf, address, register, data),
        1 <= k <= data.len(),
    ensures
        i2c_data(buf, 6 + 2 * k, data.take(k)) == data,
    decreases data.len() - k,
{
    if k == data.len() {
        assert(data.take(k) =~= data);
    } else {
        let d = data[k];
        assert(buf[6 + 2 * k] == d % 128 && buf[7 + 2 * k] == d / 128);
        lemma_value_14bit_sum(buf[6 + 2 * k], buf[7 + 2 * k]);
        assert(value_14bit(buf[6 + 2 * k], buf[7 + 2 * k]) as u8 == d);
        assert(data.take(k).push(d) =~= data.take(k + 1));
        assert(6 + 2 * k + 2 == 6 + 2 * (k + 1));
        lemma_i2c_reply_data(buf, address, register, data, k + 1);
    }
}

/// An I2C reply that carries an address and a register below 2^14 and at
/// least one data byte, each in 7-bit form, decodes to one I2C reply with
/// that address, that register and that data, and leaves the decoder
/// between messages.
pub proof fn lemma_i2c_reply_decodes(buf: Seq<u8>, address: u16, register: u16, data: Seq<u8>)
    requires
        address < 0x4000,
        register < 0x4000,
        data.len() >= 1,
        i2c_reply_frame(buf, address, register, data),
    ensures
        decode_run(buf).0 == DecoderView::Idle,
        decoded(buf) == Ok::<Seq<MessageView>, Error>(
            seq![MessageView::I2cReply(I2cReplyView { address, register, data })],
        ),
{
    let n = buf.len();
    assert forall|m: int| 1 <= m < n - 1 implies #[trigger] buf[m] != END_SYSEX by {
        if m >= 6 {
            let i = (m - 6) / 2;
            assert(0 <= i < data.len());
            assert(buf[6 + 2 * i] == data[i] % 128 && buf[7 + 2 * i] == data[i] / 128);
            assert(m == 6 + 2 * i || m == 7 + 2 * i);
        }
    }
    assert(single_message(buf));
    lemma_sysex_prefix(buf, n - 1);
    let t = buf.take(n - 1);
    assert(buf.drop_last() =~= t);
    assert(t.push(END_SYSEX) =~= buf);
    lemma_value_14bit_sum(buf[2], buf[3]);
    lemma_value_14bit_sum(buf[4], buf[5]);
    let z: int = 0;
    assert(buf[6 + 2 * z] == data[z] % 128 && buf[7 + 2 * z] == data[z] / 128);
    assert(buf[6] == data[0] % 128 && buf[7] == data[0] / 128);
    lemma_value_14bit_sum(buf[6], buf[7]);
    assert(seq![value_14bit(buf[6], buf[7]) as u8] =~= data.take(1));
    lemma_i2c_reply_data(buf, address, register, data, 1);
    let m = MessageView::I2cReply(I2cReplyView { address, register, data });
    assert(i2c_reply_message(buf) == Ok::<MessageView, Error>(m));
    assert(sysex_message(buf) == Ok::<MessageView, Error>(m));
    assert(feed_step(DecoderView::Sysex(t), END_SYSEX) == (DecoderView::Idle, Ok::<
        Option<MessageView>,
        Error,
    >(Some(m))));
    let e: Seq<MessageView> = seq![];
    assert(e.push(m) =~= seq![m]);
}

/// A three-byte message, its data bytes with their high bits clear,
/// decodes from between messages to one message: a protocol version with
/// the two bytes as major and minor version; for 0xE0 + c an analog reading
/// of Firmata pin c + 14 (the analog pins follow the board's fourteen
/// digital pins); for 0x90 + p a report of digital port p. The value of a
/// report is the first data byte plus 128 times the second.
pub proof fn lemma_three_byte_decodes(cmd: u8, b1: u8, b2: u8)
    requires
        opens_three_byte(cmd),
        b1 < 128,
        b2 < 128,
    ensures
        decode_run(seq![cmd, b1, b2]).0 == DecoderView::Idle,
        cmd == REPORT_VERSION ==> decoded(seq![cmd, b1, b2]) == Ok::<Seq<MessageView>, Error>(
            seq![MessageView::ProtocolVersion { major: b1, minor: b2 }],
        ),
        0xE0 <= cmd <= 0xEF ==> decoded(seq![cmd, b1, b2]) == Ok::<Seq<MessageView>, Error>(
            seq![MessageView::Analog { pin: (cmd - 0xE0 + 14) as u8, value: (b1 + 128 * b2) as u16 }],
        ),
        0x90 <= cmd <= 0x9F ==> decoded(seq![cmd, b1, b2]) == Ok::<Seq<MessageView>, Error>(
            seq![MessageView::Digital { port: (cmd - 0x90) as u8, mask: (b1 + 128 * b2) as u16 }],
        ),
{
    lemma_decode_three(cmd, b1, b2);
    lemma_value_14bit_sum(b1, b2);
}

} // verus!
