//! The host's picture of a board: pins, pending I2C replies and the
//! versions the board reported. Every message from the board updates it.
use vstd::prelude::*;
use vstd::string::*;

use crate::error::{Error, Result};
use crate::protocol::constants::{DEFAULT_ANALOG_RESOLUTION, PIN_MODE_IGNORE};
use crate::protocol::types::{
    capabilities_view, default_pin_state, I2cReply, I2cReplyView, Message, MessageView,
    PinCapabilities, PinCapabilitiesView, PinMode, PinState, PinStateView,
};

verus! {

/// The mathematical value of a [`BoardState`].
pub struct BoardStateView {
    pub pins: Seq<PinStateView>,
    pub i2c_replies: Seq<I2cReplyView>,
    pub protocol_version: Seq<char>,
    pub firmware_name: Seq<char>,
    pub firmware_version: Seq<char>,
}

#[derive(Debug)]
pub struct BoardState {
    pub pins: Vec<PinState>,
    pub i2c_replies: Vec<I2cReply>,
    pub protocol_version: String,
    pub firmware_name: String,
    pub firmware_version: String,
}

/// The views of a sequence of pin states.
pub open spec fn pins_view(pins: Seq<PinState>) -> Seq<PinStateView> {
    pins.map_values(|p: PinState| p@)
}

/// The views of a sequence of I2C replies.
pub open spec fn replies_view(replies: Seq<I2cReply>) -> Seq<I2cReplyView> {
    replies.map_values(|r: I2cReply| r@)
}

impl View for BoardState {
    type V = BoardStateView;

    open spec fn view(&self) -> BoardStateView {
        BoardStateView {
            pins: pins_view(self.pins@),
            i2c_replies: replies_view(self.i2c_replies@),
            protocol_version: self.protocol_version@,
            firmware_name: self.firmware_name@,
            firmware_version: self.firmware_version@,
        }
    }
}

/// A board that has reported nothing yet.
pub open spec fn empty_board_state() -> BoardStateView {
    BoardStateView {
        pins: seq![],
        i2c_replies: seq![],
        protocol_version: seq![],
        firmware_name: seq![],
        firmware_version: seq![],
    }
}

/// The character of a decimal digit.
pub open spec fn digit_char(d: u8) -> char {
    if d == 0 {
        '0'
    } else if d == 1 {
        '1'
    } else if d == 2 {
        '2'
    } else if d == 3 {
        '3'
    } else if d == 4 {
        '4'
    } else if d == 5 {
        '5'
    } else if d == 6 {
        '6'
    } else if d == 7 {
        '7'
    } else if d == 8 {
        '8'
    } else {
        '9'
    }
}

/// The decimal notation of a byte, without leading zeros.
pub open spec fn decimal(n: u8) -> Seq<char> {
    if n >= 100 {
        seq![digit_char(n / 100), digit_char((n / 10) % 10), digit_char(n % 10)]
    } else if n >= 10 {
        seq![digit_char(n / 10), digit_char(n % 10)]
    } else {
        seq![digit_char(n)]
    }
}

/// A version as text: `major.minor` in decimal.
pub open spec fn version_text(major: u8, minor: u8) -> Seq<char> {
    decimal(major) + seq!['.'] + decimal(minor)
}

/// The state of a pin that a capability report describes: in its first
/// mode (an input when it lists none), reading zero.
pub open spec fn pin_of_capabilities(cap: PinCapabilitiesView) -> PinStateView {
    PinStateView {
        mode: if cap.modes.len() > 0 {
            cap.modes[0]
        } else {
            PinMode::Input
        },
        modes: cap.modes,
        resolution: cap.resolution,
        value: 0,
    }
}

/// A pin turned into an analog input by an analog mapping; its value stays.
pub open spec fn analog_pin_state(p: PinStateView) -> PinStateView {
    PinStateView {
        mode: PinMode::Analog,
        modes: seq![PinMode::Analog],
        resolution: DEFAULT_ANALOG_RESOLUTION,
        value: p.value,
    }
}

/// The pins after an analog mapping: every pin whose entry names a channel
/// becomes an analog input.
pub open spec fn mapped_pins(pins: Seq<PinStateView>, mapping: Seq<u8>) -> Seq<PinStateView> {
    Seq::new(
        pins.len(),
        |k: int|
            if k < mapping.len() && mapping[k] != PIN_MODE_IGNORE {
                analog_pin_state(pins[k])
            } else {
                pins[k]
            },
    )
}

/// Bit `i` of a port mask, as a pin value.
pub open spec fn mask_bit(mask: u16, i: int) -> i32 {
    ((mask >> (i as u16)) & 1u16) as i32
}

/// The pins after a digital port report: each input pin of the port takes
/// its bit of the mask; other pins keep their value.
pub open spec fn port_report_pins(pins: Seq<PinStateView>, port: u8, mask: u16) -> Seq<PinStateView> {
    Seq::new(
        pins.len(),
        |k: int|
            if port * 8 <= k < port * 8 + 8 && pins[k].mode == PinMode::Input {
                PinStateView {
                    mode: pins[k].mode,
                    modes: pins[k].modes,
                    resolution: pins[k].resolution,
                    value: mask_bit(mask, k - port * 8),
                }
            } else {
                pins[k]
            },
    )
}

/// `p` with its value replaced.
pub open spec fn with_value(p: PinStateView, value: i32) -> PinStateView {
    PinStateView { mode: p.mode, modes: p.modes, resolution: p.resolution, value }
}

/// `p` set to a single mode, with a new value.
pub open spec fn with_mode(p: PinStateView, mode: PinMode, value: i32) -> PinStateView {
    PinStateView { mode, modes: seq![mode], resolution: p.resolution, value }
}

/// `s` with a new list of pins.
pub open spec fn with_pins(s: BoardStateView, pins: Seq<PinStateView>) -> BoardStateView {
    BoardStateView {
        pins,
        i2c_replies: s.i2c_replies,
        protocol_version: s.protocol_version,
        firmware_name: s.firmware_name,
        firmware_version: s.firmware_version,
    }
}

/// What a message from the board makes of the state. Reports about pins
/// that the state does not hold change nothing.
pub open spec fn applied(s: BoardStateView, msg: MessageView) -> BoardStateView {
    match msg {
        MessageView::ProtocolVersion { major, minor } => BoardStateView {
            protocol_version: version_text(major, minor),
            ..s
        },
        MessageView::ReportFirmware { major, minor, name } => BoardStateView {
            firmware_version: version_text(major, minor),
            firmware_name: name,
            ..s
        },
        MessageView::CapabilityResponse { pins } => with_pins(
            s,
            seq![default_pin_state()] + pins.map_values(|c: PinCapabilitiesView| pin_of_capabilities(c)),
        ),
        MessageView::AnalogMappingResponse { mapping } => with_pins(
            s,
            mapped_pins(s.pins, mapping),
        ),
        MessageView::Analog { pin, value } => if pin < s.pins.len() {
            with_pins(s, s.pins.update(pin as int, with_value(s.pins[pin as int], value as i32)))
        } else {
            s
        },
        MessageView::Digital { port, mask } => with_pins(s, port_report_pins(s.pins, port, mask)),
        MessageView::PinStateResponse { pin, mode, value } => if pin < s.pins.len() {
            with_pins(s, s.pins.update(pin as int, with_mode(s.pins[pin as int], mode, value)))
        } else {
            s
        },
        MessageView::I2cReply(reply) => BoardStateView {
            i2c_replies: s.i2c_replies.push(reply),
            ..s
        },
        MessageView::EmptyResponse => s,
    }
}

/// Whether a message can be applied: a digital report must name a port
/// whose pins have byte-sized numbers.
pub open spec fn applicable(msg: MessageView) -> bool {
    msg matches MessageView::Digital { port, .. } ==> port < 32
}

/// The largest pin number of a state with `len` pins, as the error for an
/// unknown pin reports it.
pub open spec fn max_pin(len: nat) -> u8 {
    (if len == 0 {
        0
    } else {
        len - 1
    }) as u8
}

/// The number of digital ports that a state with `len` pins reports: the
/// pins after the first, eight to a port, counted modulo 256.
pub open spec fn ports_for(len: nat) -> u8 {
    if len == 0 {
        0
    } else {
        let n = ((len - 1) as u8) as int;
        ((n + 7) / 8) as u8
    }
}

/// The text of one decimal digit.
fn digit_str(d: u8) -> (r: &'static str)
    requires
        d < 10,
    ensures
        r@ == seq![digit_char(d)],
{
    proof {
        reveal_strlit("0");
        reveal_strlit("1");
        reveal_strlit("2");
        reveal_strlit("3");
        reveal_strlit("4");
        reveal_strlit("5");
        reveal_strlit("6");
        reveal_strlit("7");
        reveal_strlit("8");
        reveal_strlit("9");
    }
    let r = if d == 0 {
        "0"
    } else if d == 1 {
        "1"
    } else if d == 2 {
        "2"
    } else if d == 3 {
        "3"
    } else if d == 4 {
        "4"
    } else if d == 5 {
        "5"
    } else if d == 6 {
        "6"
    } else if d == 7 {
        "7"
    } else if d == 8 {
        "8"
    } else {
        "9"
    };
    assert(r@ =~= seq![digit_char(d)]);
    r
}

/// Appends the decimal notation of `n` to `s`.
fn push_decimal(s: &mut String, n: u8)
    ensures
        final(s)@ == old(s)@ + decimal(n),
{
    if n >= 100 {
        s.append(digit_str(n / 100));
        s.append(digit_str((n / 10) % 10));
        s.append(digit_str(n % 10));
    } else if n >= 10 {
        s.append(digit_str(n / 10));
        s.append(digit_str(n % 10));
    } else {
        s.append(digit_str(n));
    }
    assert(s@ =~= old(s)@ + decimal(n));
}

/// `major.minor` in decimal.
fn version_string(major: u8, minor: u8) -> (r: String)
    ensures
        r@ == version_text(major, minor),
{
    let mut s = String::new();
    push_decimal(&mut s, major);
    proof {
        reveal_strlit(".");
    }
    s.append(".");
    push_decimal(&mut s, minor);
    assert(s@ =~= version_text(major, minor));
    s
}

/// The pin state that a capability report describes.
fn capabilities_to_pin_state(cap: PinCapabilities) -> (r: PinState)
    ensures
        r@ == pin_of_capabilities(cap@),
{
    let mode = if cap.modes.len() > 0 {
        cap.modes[0]
    } else {
        PinMode::Input
    };
    PinState { mode, modes: cap.modes, resolution: cap.resolution, value: 0 }
}

impl Default for BoardState {
    fn default() -> (r: Self)
        ensures
            r@ == empty_board_state(),
    {
        let r = BoardState {
            pins: Vec::new(),
            i2c_replies: Vec::new(),
            protocol_version: String::new(),
            firmware_name: String::new(),
            firmware_version: String::new(),
        };
        assert(r@.pins =~= seq![]);
        assert(r@.i2c_replies =~= seq![]);
        r
    }
}

impl BoardState {
    /// A state that knows nothing of the board yet.
    pub fn new() -> (r: Self)
        ensures
            r@ == empty_board_state(),
    {
        Self::default()
    }

    /// The number of pins the state holds.
    pub fn pin_count(&self) -> (r: usize)
        ensures
            r == self@.pins.len(),
    {
        self.pins.len()
    }

    /// Succeeds exactly for the pins that the state holds.
    pub fn validate_pin(&self, pin: u8) -> (r: Result<()>)
        ensures
            pin < self@.pins.len() ==> r is Ok,
            pin >= self@.pins.len() ==> r == Err::<(), Error>(
                Error::PinOutOfBounds { pin, max: max_pin(self@.pins.len()) },
            ),
    {
        if pin as usize >= self.pins.len() {
            let len = self.pins.len();
            let top = if len == 0 {
                0
            } else {
                len - 1
            };
            return Err(Error::PinOutOfBounds { pin, max: #[verifier::truncate] (top as u8) });
        }
        Ok(())
    }

    /// Whether `pin` supports `mode`; an error for a pin that the state
    /// does not hold.
    pub fn supports_mode(&self, pin: u8, mode: PinMode) -> (r: Result<bool>)
        ensures
            pin < self@.pins.len() ==> r == Ok::<bool, Error>(
                self@.pins[pin as int].modes.contains(mode),
            ),
            pin >= self@.pins.len() ==> r == Err::<bool, Error>(
                Error::PinOutOfBounds { pin, max: max_pin(self@.pins.len()) },
            ),
    {
        match self.validate_pin(pin) {
            Err(e) => {
                return Err(e);
            },
            Ok(()) => {},
        }
        let modes = &self.pins[pin as usize].modes;
        let ghost view = self@.pins[pin as int].modes;
        assert(view == modes@);
        let mut i: usize = 0;
        while i < modes.len()
            invariant
                i <= modes@.len(),
                view == modes@,
                pin < self@.pins.len(),
                view == self@.pins[pin as int].modes,
                forall|j: int| 0 <= j < i ==> modes@[j] != mode,
            decreases modes@.len() - i,
        {
            if modes[i] == mode {
                assert(view[i as int] == mode);
                return Ok(true);
            }
            i = i + 1;
        }
        Ok(false)
    }

    /// The number of digital ports that the handshake enables.
    pub fn port_count(&self) -> (r: u8)
        ensures
            r == ports_for(self@.pins.len()),
    {
        if self.pins.len() == 0 {
            return 0;
        }
        let n: u8 = #[verifier::truncate] ((self.pins.len() - 1) as u8);
        let q = n / 8;
        if n % 8 != 0 {
            q + 1
        } else {
            q
        }
    }
}

impl BoardState {
    /// Updates the state with a message from the board. It always succeeds.
    pub fn apply(&mut self, message: Message) -> (r: Result<()>)
        requires
            applicable(message@),
        ensures
            r is Ok,
            final(self)@ == applied(old(self)@, message@),
    {
        match message {
            Message::ProtocolVersion { major, minor } => {
                self.protocol_version = version_string(major, minor);
            },
            Message::ReportFirmware { major, minor, name } => {
                self.firmware_version = version_string(major, minor);
                self.firmware_name = name;
            },
            Message::CapabilityResponse { pins } => {
                self.apply_capabilities(pins);
            },
            Message::AnalogMappingResponse { mapping } => {
                self.apply_mapping(&mapping);
            },
            Message::Analog { pin, value } => {
                if (pin as usize) < self.pins.len() {
                    let ghost before = pins_view(self.pins@);
                    self.pins[pin as usize].value = value as i32;
                    assert(pins_view(self.pins@) =~= before.update(
                        pin as int,
                        with_value(before[pin as int], value as i32),
                    ));
                }
            },
            Message::Digital { port, mask } => {
                self.apply_port_report(port, mask);
            },
            Message::PinStateResponse { pin, mode, value } => {
                if (pin as usize) < self.pins.len() {
                    let ghost before = pins_view(self.pins@);
                    let modes = vec![mode];
                    assert(modes@ =~= seq![mode]);
                    self.pins[pin as usize].mode = mode;
                    self.pins[pin as usize].modes = modes;
                    self.pins[pin as usize].value = value;
                    assert(pins_view(self.pins@) =~= before.update(
                        pin as int,
                        with_mode(before[pin as int], mode, value),
                    ));
                }
            },
            Message::I2cReply(reply) => {
                let ghost before = replies_view(self.i2c_replies@);
                let ghost rv = reply@;
                self.i2c_replies.push(reply);
                assert(replies_view(self.i2c_replies@) =~= before.push(rv));
            },
            Message::EmptyResponse => {},
        }
        Ok(())
    }

    fn apply_capabilities(&mut self, caps: Vec<PinCapabilities>)
        ensures
            final(self)@ == with_pins(
                old(self)@,
                seq![default_pin_state()] + capabilities_view(caps@).map_values(
                    |c: PinCapabilitiesView| pin_of_capabilities(c),
                ),
            ),
    {
        let ghost target = seq![default_pin_state()] + capabilities_view(caps@).map_values(
            |c: PinCapabilitiesView| pin_of_capabilities(c),
        );
        let ghost all = caps@;
        let mut pins = vec![PinState::default()];
        assert(pins_view(pins@) =~= target.take(1));
        let n = caps.len();
        assert(all.len() == n);
        for cap in it: caps
            invariant
                n == all.len(),
                it.seq() == all,
                target.len() == all.len() + 1,
                target == seq![default_pin_state()] + capabilities_view(all).map_values(
                    |c: PinCapabilitiesView| pin_of_capabilities(c),
                ),
                pins_view(pins@) == target.take(it.index() + 1),
        {
            let ghost taken = it.index();
            let ps = capabilities_to_pin_state(cap);
            let ghost before = pins_view(pins@);
            pins.push(ps);
            assert(all[taken] == cap);
            assert(capabilities_view(all)[taken] == cap@);
            assert(target[taken + 1] == pin_of_capabilities(cap@));
            assert(pins_view(pins@) =~= before.push(ps@));
            assert(target.take(taken + 2) =~= target.take(taken + 1).push(target[taken + 1]));
        }
        assert(target.take(n + 1) =~= target);
        self.pins = pins;
    }

    fn apply_mapping(&mut self, mapping: &Vec<u8>)
        ensures
            final(self)@ == with_pins(old(self)@, mapped_pins(old(self)@.pins, mapping@)),
    {
        let ghost start = pins_view(self.pins@);
        let mut i: usize = 0;
        while i < mapping.len()
            invariant
                i <= mapping@.len(),
                pins_view(self.pins@) == mapped_pins(start, mapping@.take(i as int)),
                self.i2c_replies == old(self).i2c_replies,
                self.protocol_version == old(self).protocol_version,
                self.firmware_name == old(self).firmware_name,
                self.firmware_version == old(self).firmware_version,
                start == pins_view(old(self).pins@),
            decreases mapping@.len() - i,
        {
            let ghost before = pins_view(self.pins@);
            let ghost prev = mapping@.take(i as int);
            let ghost next = mapping@.take(i + 1);
            assert(before[i as int] == start[i as int] || i >= before.len());
            if mapping[i] != PIN_MODE_IGNORE && i < self.pins.len() {
                let modes = vec![PinMode::Analog];
                assert(modes@ =~= seq![PinMode::Analog]);
                self.pins[i].mode = PinMode::Analog;
                self.pins[i].modes = modes;
                self.pins[i].resolution = DEFAULT_ANALOG_RESOLUTION;
            }
            assert forall|k: int| 0 <= k < before.len() implies #[trigger] pins_view(self.pins@)[k]
                == mapped_pins(start, next)[k] by {
                if k < i {
                    assert(prev[k] == next[k]);
                } else if k == i {
                } else {
                    assert(pins_view(self.pins@)[k] == before[k]);
                }
            }
            i = i + 1;
            assert(pins_view(self.pins@) =~= mapped_pins(start, mapping@.take(i as int)));
        }
        assert(mapping@.take(i as int) =~= mapping@);
    }

    fn apply_port_report(&mut self, port: u8, mask: u16)
        requires
            port < 32,
        ensures
            final(self)@ == with_pins(old(self)@, port_report_pins(old(self)@.pins, port, mask)),
    {
        let ghost start = pins_view(self.pins@);
        let mut i: u8 = 0;
        while i < 8
            invariant
                port < 32,
                i <= 8,
                pins_view(self.pins@) == Seq::new(
                    start.len(),
                    |k: int|
                        if port * 8 <= k < port * 8 + i {
                            port_report_pins(start, port, mask)[k]
                        } else {
                            start[k]
                        },
                ),
                self.i2c_replies == old(self).i2c_replies,
                self.protocol_version == old(self).protocol_version,
                self.firmware_name == old(self).firmware_name,
                self.firmware_version == old(self).firmware_version,
                start == pins_view(old(self).pins@),
            decreases 8 - i,
        {
            let ghost before = pins_view(self.pins@);
            let pin = (port * 8) + i;
            assert(pin == port * 8 + i);
            assert(((mask >> (i as u16)) & 1u16) < 2) by (bit_vector);
            if (pin as usize) < self.pins.len() {
                if self.pins[pin as usize].mode == PinMode::Input {
                    self.pins[pin as usize].value = ((mask >> (i as u16)) & 1u16) as i32;
                }
            }
            assert(forall|k: int| 0 <= k < before.len() && k != pin ==> pins_view(self.pins@)[k] == before[k]);
            assert(pin < before.len() ==> before[pin as int] == start[pin as int]);
            assert forall|k: int| 0 <= k < start.len() implies #[trigger] pins_view(self.pins@)[k]
                == (if port * 8 <= k < port * 8 + i + 1 {
                port_report_pins(start, port, mask)[k]
            } else {
                start[k]
            }) by {
                if k == pin {
                    assert(k - port * 8 == i);
                } else {
                    assert(pins_view(self.pins@)[k] == before[k]);
                }
            }
            i = i + 1;
            assert(pins_view(self.pins@) =~= Seq::new(
                start.len(),
                |k: int|
                    if port * 8 <= k < port * 8 + i {
                        port_report_pins(start, port, mask)[k]
                    } else {
                        start[k]
                    },
            ));
        }
        assert(pins_view(self.pins@) =~= port_report_pins(start, port, mask));
    }
}

/// A digital port report for port `port` sets each input pin of that port,
/// Firmata pins `8 * port` to `8 * port + 7`, to the matching bit of the
/// mask (pin `8 * port + j` to bit `j`), as 0 or 1, and keeps its mode,
/// modes and resolution; every other pin, and everything else the state
/// holds, is left as it was.
pub proof fn lemma_port_report(s: BoardStateView, port: u8, mask: u16)
    requires
        port < 32,
    ensures
        ({
            let t = applied(s, MessageView::Digital { port, mask });
            &&& t.pins.len() == s.pins.len()
            &&& t.i2c_replies == s.i2c_replies
            &&& t.protocol_version == s.protocol_version
            &&& t.firmware_name == s.firmware_name
            &&& t.firmware_version == s.firmware_version
            &&& forall|k: int|
                0 <= k < s.pins.len() && port * 8 <= k < port * 8 + 8 && s.pins[k].mode
                    == PinMode::Input ==> {
                    &&& #[trigger] t.pins[k].value == ((mask >> ((k - port * 8) as u16)) & 1u16) as i32
                    &&& (t.pins[k].value == 0 || t.pins[k].value == 1)
                    &&& t.pins[k].mode == s.pins[k].mode
                    &&& t.pins[k].modes == s.pins[k].modes
                    &&& t.pins[k].resolution == s.pins[k].resolution
                }
            &&& forall|k: int|
                0 <= k < s.pins.len() && !(port * 8 <= k < port * 8 + 8 && s.pins[k].mode
                    == PinMode::Input) ==> #[trigger] t.pins[k] == s.pins[k]
        }),
{
    let t = applied(s, MessageView::Digital { port, mask });
    assert forall|k: int|
        0 <= k < s.pins.len() && port * 8 <= k < port * 8 + 8 && s.pins[k].mode
            == PinMode::Input implies (#[trigger] t.pins[k].value == 0 || t.pins[k].value == 1) by {
        let j = (k - port * 8) as u16;
        assert(((mask >> j) & 1u16) < 2) by (bit_vector);
    }
}

} // verus!
