//! The decisions of the connection handshake. The host asks for the
//! firmware, waits until both the firmware report and the protocol version
//! have arrived (in either order), then asks for the pin capabilities and the
//! analog mapping and waits for both, and finally enables reporting of the
//! digital ports that the state counts. Reading the messages and keeping
//! the deadline belong to the caller.
use vstd::prelude::*;
use vstd::string::*;

use crate::error::{Error, Result};
use crate::pin::unit_result;
use crate::protocol::encode::{
    query_analog_mapping, query_analog_mapping_frame, query_capabilities,
    query_capabilities_frame, query_firmware, query_firmware_frame, report_digital,
    report_digital_frame,
};
use crate::protocol::types::{Message, MessageView};
use crate::transport::Transport;

use super::state::{ports_for, BoardState};
use super::{frames_view, send_post, sends_post, Board};

verus! {

/// How far the handshake has come.
#[derive(Clone, Copy, Debug, PartialEq, Eq, Structural)]
pub enum HandshakeStage {
    /// Waiting for the firmware report and the protocol version.
    Identify,
    /// Waiting for the capability response and the analog mapping.
    Describe,
    /// Both exchanges are over.
    Complete,
}

/// What the caller does after a message.
#[derive(Clone, Copy, Debug, PartialEq, Eq, Structural)]
pub enum HandshakeStep {
    /// Read the next message.
    Wait,
    /// Send the capability and analog-mapping queries, then read on.
    QueryCapabilities,
    /// The exchanges are over: enable port reporting.
    Finished,
}

/// The progress of a handshake: its stage and which answers of the stage
/// have arrived.
#[derive(Clone, Copy, Debug, PartialEq, Eq, Structural)]
pub struct Handshake {
    pub stage: HandshakeStage,
    pub got_firmware: bool,
    pub got_version: bool,
    pub got_capabilities: bool,
    pub got_mapping: bool,
}

/// A handshake that has just sent the firmware query.
pub open spec fn handshake_start() -> Handshake {
    Handshake {
        stage: HandshakeStage::Identify,
        got_firmware: false,
        got_version: false,
        got_capabilities: false,
        got_mapping: false,
    }
}

/// The handshake after a message, and what the caller does next. Messages
/// that the stage does not wait for change nothing.
pub open spec fn handshake_next(h: Handshake, msg: MessageView) -> (Handshake, HandshakeStep) {
    match h.stage {
        HandshakeStage::Identify => {
            let f = h.got_firmware || msg is ReportFirmware;
            let v = h.got_version || msg is ProtocolVersion;
            if f && v {
                (
                    Handshake {
                        stage: HandshakeStage::Describe,
                        got_firmware: f,
                        got_version: v,
                        got_capabilities: false,
                        got_mapping: false,
                    },
                    HandshakeStep::QueryCapabilities,
                )
            } else {
                (Handshake { got_firmware: f, got_version: v, ..h }, HandshakeStep::Wait)
            }
        },
        HandshakeStage::Describe => {
            let c = h.got_capabilities || msg is CapabilityResponse;
            let m = h.got_mapping || msg is AnalogMappingResponse;
            if c && m {
                (
                    Handshake {
                        stage: HandshakeStage::Complete,
                        got_capabilities: c,
                        got_mapping: m,
                        ..h
                    },
                    HandshakeStep::Finished,
                )
            } else {
                (Handshake { got_capabilities: c, got_mapping: m, ..h }, HandshakeStep::Wait)
            }
        },
        HandshakeStage::Complete => (h, HandshakeStep::Finished),
    }
}

/// The handshake `h` after a sequence of messages.
pub open spec fn handshake_from(h: Handshake, msgs: Seq<MessageView>) -> Handshake
    decreases msgs.len(),
{
    if msgs.len() == 0 {
        h
    } else {
        handshake_next(handshake_from(h, msgs.drop_last()), msgs.last()).0
    }
}

/// The handshake after a sequence of messages, from the start.
pub open spec fn handshake_after(msgs: Seq<MessageView>) -> Handshake {
    handshake_from(handshake_start(), msgs)
}

/// Whether some message of `msgs` is a capability response.
pub open spec fn has_capabilities(msgs: Seq<MessageView>) -> bool {
    exists|i: int| 0 <= i < msgs.len() && #[trigger] msgs[i] is CapabilityResponse
}

/// Whether some message of `msgs` is an analog mapping.
pub open spec fn has_mapping(msgs: Seq<MessageView>) -> bool {
    exists|i: int| 0 <= i < msgs.len() && #[trigger] msgs[i] is AnalogMappingResponse
}

/// Whether some message of `msgs` is a firmware report.
pub open spec fn has_firmware(msgs: Seq<MessageView>) -> bool {
    exists|i: int| 0 <= i < msgs.len() && #[trigger] msgs[i] is ReportFirmware
}

/// Whether some message of `msgs` is a protocol version.
pub open spec fn has_version(msgs: Seq<MessageView>) -> bool {
    exists|i: int| 0 <= i < msgs.len() && #[trigger] msgs[i] is ProtocolVersion
}

impl Handshake {
    pub fn new() -> (r: Self)
        ensures
            r == handshake_start(),
    {
        Handshake {
            stage: HandshakeStage::Identify,
            got_firmware: false,
            got_version: false,
            got_capabilities: false,
            got_mapping: false,
        }
    }

    /// Records a message that the board sent.
    pub fn on_message(&mut self, msg: &Message) -> (r: HandshakeStep)
        ensures
            (*final(self), r) == handshake_next(*old(self), msg@),
    {
        match self.stage {
            HandshakeStage::Identify => {
                match msg {
                    Message::ReportFirmware { .. } => {
                        self.got_firmware = true;
                    },
                    Message::ProtocolVersion { .. } => {
                        self.got_version = true;
                    },
                    _ => {},
                }
                if self.got_firmware && self.got_version {
                    self.stage = HandshakeStage::Describe;
                    self.got_capabilities = false;
                    self.got_mapping = false;
                    HandshakeStep::QueryCapabilities
                } else {
                    HandshakeStep::Wait
                }
            },
            HandshakeStage::Describe => {
                match msg {
                    Message::CapabilityResponse { .. } => {
                        self.got_capabilities = true;
                    },
                    Message::AnalogMappingResponse { .. } => {
                        self.got_mapping = true;
                    },
                    _ => {},
                }
                if self.got_capabilities && self.got_mapping {
                    self.stage = HandshakeStage::Complete;
                    HandshakeStep::Finished
                } else {
                    HandshakeStep::Wait
                }
            },
            HandshakeStage::Complete => HandshakeStep::Finished,
        }
    }

    /// Whether both exchanges are over.
    pub fn is_complete(&self) -> (r: bool)
        ensures
            r == (self.stage == HandshakeStage::Complete),
    {
        match self.stage {
            HandshakeStage::Complete => true,
            _ => false,
        }
    }

    /// The error for a deadline that passed at this stage.
    pub fn timeout_error(&self) -> (r: Error)
        ensures
            self.stage == HandshakeStage::Identify ==> (r matches Error::HandshakeFailed { reason }
                && reason@ == "timed out waiting for firmware/version"@),
            self.stage != HandshakeStage::Identify ==> (r matches Error::HandshakeFailed { reason }
                && reason@ == "timed out waiting for capabilities/mapping"@),
    {
        match self.stage {
            HandshakeStage::Identify => Error::HandshakeFailed {
                reason: String::from_str("timed out waiting for firmware/version"),
            },
            _ => Error::HandshakeFailed {
                reason: String::from_str("timed out waiting for capabilities/mapping"),
            },
        }
    }
}

/// The frames that enable reporting of the digital ports that the state
/// counts (`port_count`), in port order.
pub fn port_report_frames(state: &BoardState) -> (r: Vec<Vec<u8>>)
    ensures
        r@.len() == ports_for(state@.pins.len()),
        forall|i: int| 0 <= i < r@.len() ==> #[trigger] r@[i]@ == report_digital_frame(i as u8, true),
{
    let count = state.port_count();
    let mut frames: Vec<Vec<u8>> = Vec::new();
    let mut port: u8 = 0;
    while port < count
        invariant
            port <= count,
            count == ports_for(state@.pins.len()),
            frames@.len() == port,
            forall|i: int| 0 <= i < frames@.len() ==> #[trigger] frames@[i]@ == report_digital_frame(
                i as u8,
                true,
            ),
        decreases count - port,
    {
        frames.push(report_digital(port, true));
        port = port + 1;
    }
    frames
}

/// The frames that enable reporting of the first `n` digital ports, in
/// port order.
pub open spec fn report_frames(n: nat) -> Seq<Seq<u8>> {
    Seq::new(n, |i: int| report_digital_frame(i as u8, true))
}

/// What the host sends once the board has sent `msg` to handshake `h`, on
/// a board that knows `pins` pins: the capability and analog-mapping
/// queries when the first exchange ends, the reports of the digital ports
/// when the second ends, nothing otherwise.
pub open spec fn handshake_frames(h: Handshake, msg: MessageView, pins: nat) -> Seq<Seq<u8>> {
    let (next, step) = handshake_next(h, msg);
    if step == HandshakeStep::QueryCapabilities {
        seq![query_capabilities_frame(), query_analog_mapping_frame()]
    } else if h.stage != HandshakeStage::Complete && next.stage == HandshakeStage::Complete {
        report_frames(ports_for(pins) as nat)
    } else {
        seq![]
    }
}

impl<T: Transport> Board<T> {
    /// Opens the handshake: asks for the firmware and, once the query is
    /// sent, returns a handshake that waits for the firmware report and the
    /// protocol version.
    pub fn begin_handshake(&mut self) -> (r: Result<Handshake>)
        ensures
            send_post(
                old(self).transport_value(),
                query_firmware_frame(),
                unit_result(r),
                final(self).transport_value(),
            ),
            r matches Ok(h) ==> h == handshake_start(),
            final(self).decoder_view() == old(self).decoder_view(),
            final(self).state_view() == old(self).state_view(),
    {
        let frame = query_firmware();
        match self.send(&frame) {
            Ok(()) => Ok(Handshake::new()),
            Err(e) => Err(e),
        }
    }

    /// Takes the handshake on through a message that the board sent (and
    /// that the state already holds), and sends what the handshake calls
    /// for next, stopping at the first failure of the transport.
    pub fn advance_handshake(&mut self, handshake: &mut Handshake, msg: &Message) -> (r: Result<()>)
        ensures
            *final(handshake) == handshake_next(*old(handshake), msg@).0,
            sends_post(
                old(self).transport_value(),
                handshake_frames(*old(handshake), msg@, old(self).state_view().pins.len()),
                r,
                final(self).transport_value(),
            ),
            final(self).decoder_view() == old(self).decoder_view(),
            final(self).state_view() == old(self).state_view(),
    {
        let was_complete = handshake.is_complete();
        let step = handshake.on_message(msg);
        let frames: Vec<Vec<u8>> = match step {
            HandshakeStep::QueryCapabilities => {
                let frames = vec![query_capabilities(), query_analog_mapping()];
                assert(frames_view(frames@) =~= seq![
                    query_capabilities_frame(),
                    query_analog_mapping_frame(),
                ]);
                frames
            },
            HandshakeStep::Finished => {
                if was_complete {
                    let frames: Vec<Vec<u8>> = Vec::new();
                    assert(frames_view(frames@) =~= Seq::<Seq<u8>>::empty());
                    frames
                } else {
                    let frames = port_report_frames(self.state());
                    assert(frames_view(frames@) =~= report_frames(
                        ports_for(self.state_view().pins.len()) as nat,
                    ));
                    frames
                }
            },
            HandshakeStep::Wait => {
                let frames: Vec<Vec<u8>> = Vec::new();
                assert(frames_view(frames@) =~= Seq::<Seq<u8>>::empty());
                frames
            },
        };
        self.send_frames(&frames)
    }
}

/// The handshake leaves its first stage exactly when both a firmware report
/// and a protocol version have arrived, in whichever order and whatever
/// else arrived between them.
pub proof fn lemma_identify_ends_on_both(msgs: Seq<MessageView>)
    ensures
        handshake_after(msgs).stage != HandshakeStage::Identify <==> (has_firmware(msgs)
            && has_version(msgs)),
        handshake_after(msgs).stage == HandshakeStage::Identify ==> handshake_after(msgs).got_firmware
            == has_firmware(msgs) && handshake_after(msgs).got_version == has_version(msgs),
    decreases msgs.len(),
{
    if msgs.len() > 0 {
        let prefix = msgs.drop_last();
        lemma_identify_ends_on_both(prefix);
        let last = msgs.last();
        assert forall|i: int| 0 <= i < prefix.len() implies #[trigger] prefix[i] == msgs[i] by {}
        if has_firmware(prefix) {
            let i = choose|i: int| 0 <= i < prefix.len() && #[trigger] prefix[i] is ReportFirmware;
            assert(msgs[i] is ReportFirmware);
        }
        if has_version(prefix) {
            let i = choose|i: int| 0 <= i < prefix.len() && #[trigger] prefix[i] is ProtocolVersion;
            assert(msgs[i] is ProtocolVersion);
        }
        if has_firmware(msgs) && !has_firmware(prefix) {
            let i = choose|i: int| 0 <= i < msgs.len() && #[trigger] msgs[i] is ReportFirmware;
            if i < prefix.len() {
                assert(prefix[i] is ReportFirmware);
            }
        }
        if has_version(msgs) && !has_version(prefix) {
            let i = choose|i: int| 0 <= i < msgs.len() && #[trigger] msgs[i] is ProtocolVersion;
            if i < prefix.len() {
                assert(prefix[i] is ProtocolVersion);
            }
        }
        if last is ReportFirmware {
            assert(msgs[msgs.len() - 1] is ReportFirmware);
        }
        if last is ProtocolVersion {
            assert(msgs[msgs.len() - 1] is ProtocolVersion);
        }
    }
}

/// Once the capability queries are sent, the handshake completes exactly
/// when both a capability response and an analog mapping have arrived, in
/// whichever order and whatever else arrived between them.
pub proof fn lemma_describe_ends_on_both(h: Handshake, msgs: Seq<MessageView>)
    requires
        h.stage == HandshakeStage::Describe,
        !h.got_capabilities,
        !h.got_mapping,
    ensures
        handshake_from(h, msgs).stage == HandshakeStage::Complete <==> (has_capabilities(msgs)
            && has_mapping(msgs)),
        handshake_from(h, msgs).stage != HandshakeStage::Identify,
        handshake_from(h, msgs).stage == HandshakeStage::Describe ==> handshake_from(
            h,
            msgs,
        ).got_capabilities == has_capabilities(msgs) && handshake_from(h, msgs).got_mapping
            == has_mapping(msgs),
    decreases msgs.len(),
{
    if msgs.len() > 0 {
        let prefix = msgs.drop_last();
        lemma_describe_ends_on_both(h, prefix);
        let last = msgs.last();
        assert forall|i: int| 0 <= i < prefix.len() implies #[trigger] prefix[i] == msgs[i] by {}
        if has_capabilities(prefix) {
            let i = choose|i: int| 0 <= i < prefix.len() && #[trigger] prefix[i] is CapabilityResponse;
            assert(msgs[i] is CapabilityResponse);
        }
        if has_mapping(prefix) {
            let i = choose|i: int|
                0 <= i < prefix.len() && #[trigger] prefix[i] is AnalogMappingResponse;
            assert(msgs[i] is AnalogMappingResponse);
        }
        if has_capabilities(msgs) && !has_capabilities(prefix) {
            let i = choose|i: int| 0 <= i < msgs.len() && #[trigger] msgs[i] is CapabilityResponse;
            if i < prefix.len() {
                assert(prefix[i] is CapabilityResponse);
            }
        }
        if has_mapping(msgs) && !has_mapping(prefix) {
            let i = choose|i: int| 0 <= i < msgs.len() && #[trigger] msgs[i] is AnalogMappingResponse;
            if i < prefix.len() {
                assert(prefix[i] is AnalogMappingResponse);
            }
        }
        if last is CapabilityResponse {
            assert(msgs[msgs.len() - 1] is CapabilityResponse);
        }
        if last is AnalogMappingResponse {
            assert(msgs[msgs.len() - 1] is AnalogMappingResponse);
        }
    }
}

/// The handshake after `a + b` is the handshake after `a`, taken on
/// through `b`.
proof fn lemma_handshake_from_concat(h: Handshake, a: Seq<MessageView>, b: Seq<MessageView>)
    ensures
        handshake_from(h, a + b) == handshake_from(handshake_from(h, a), b),
    decreases b.len(),
{
    if b.len() == 0 {
        assert(a + b =~= a);
    } else {
        assert((a + b).drop_last() =~= a + b.drop_last());
        assert((a + b).last() == b.last());
        lemma_handshake_from_concat(h, a, b.drop_last());
    }
}

/// If `a` is the stream up to the message that ended the first stage, the
/// handshake over `a` and then `b` is complete exactly when `b` holds both
/// a capability response and an analog mapping.
pub proof fn lemma_handshake_completes(a: Seq<MessageView>, b: Seq<MessageView>)
    requires
        a.len() > 0,
        handshake_after(a.drop_last()).stage == HandshakeStage::Identify,
        handshake_after(a).stage != HandshakeStage::Identify,
    ensures
        handshake_after(a + b).stage == HandshakeStage::Complete <==> (has_capabilities(b)
            && has_mapping(b)),
{
    let h = handshake_after(a);
    assert(h.stage == HandshakeStage::Describe && !h.got_capabilities && !h.got_mapping);
    lemma_handshake_from_concat(handshake_start(), a, b);
    lemma_describe_ends_on_both(h, b);
}

/// The reported ports cover the pins: a pin lies in a port that the
/// handshake enables, except the last pin when the pins after the first
/// fill whole ports (the count leaves out the first pin). Past 256 pins the
/// count wraps, so those states are left out.
pub proof fn lemma_reported_ports_cover_pins(len: nat, p: nat)
    requires
        p < len <= 256,
        !(p == len - 1 && p % 8 == 0),
    ensures
        p / 8 < ports_for(len),
{
    let q = (len - 1) as int;
    assert(((len - 1) as u8) as int == q);
}

/// Everything the host sends over a run of the handshake from `h` in
/// which the board sends `msgs`, the state knowing `pins[i]` pins when
/// `msgs[i]` is handled.
pub open spec fn handshake_run_frames(h: Handshake, msgs: Seq<MessageView>, pins: Seq<nat>) -> Seq<
    Seq<u8>,
>
    decreases msgs.len(),
{
    if msgs.len() == 0 || pins.len() != msgs.len() {
        seq![]
    } else {
        handshake_run_frames(h, msgs.drop_last(), pins.drop_last()) + handshake_frames(
            handshake_from(h, msgs.drop_last()),
            msgs.last(),
            pins.last(),
        )
    }
}

/// A complete handshake stays complete, whatever arrives.
proof fn lemma_complete_stays(h: Handshake, msgs: Seq<MessageView>)
    requires
        h.stage == HandshakeStage::Complete,
    ensures
        handshake_from(h, msgs) == h,
    decreases msgs.len(),
{
    if msgs.len() > 0 {
        lemma_complete_stays(h, msgs.drop_last());
    }
}

/// What a run of the handshake has sent, as long as it has not completed
/// before its last message: nothing while the first exchange lasts, the
/// two queries once it is over, and then the port reports once the second
/// exchange is over too.
proof fn lemma_run_frames(msgs: Seq<MessageView>, pins: Seq<nat>)
    requires
        pins.len() == msgs.len(),
        msgs.len() > 0 ==> handshake_after(msgs.drop_last()).stage != HandshakeStage::Complete,
    ensures
        handshake_run_frames(handshake_start(), msgs, pins) == (match handshake_after(msgs).stage {
            HandshakeStage::Identify => Seq::<Seq<u8>>::empty(),
            HandshakeStage::Describe => seq![query_capabilities_frame(), query_analog_mapping_frame()],
            HandshakeStage::Complete => seq![query_capabilities_frame(), query_analog_mapping_frame()]
                + report_frames(ports_for(pins.last()) as nat),
        }),
    decreases msgs.len(),
{
    if msgs.len() > 0 {
        let prefix = msgs.drop_last();
        if prefix.len() > 0 && handshake_after(prefix.drop_last()).stage == HandshakeStage::Complete {
            lemma_complete_stays(handshake_after(prefix.drop_last()), seq![prefix.last()]);
            assert(seq![prefix.last()].drop_last() =~= Seq::<MessageView>::empty());
        }
        lemma_run_frames(prefix, pins.drop_last());
        let h = handshake_after(prefix);
        let pre_frames = handshake_run_frames(handshake_start(), prefix, pins.drop_last());
        let step_frames = handshake_frames(h, msgs.last(), pins.last());
        assert(handshake_run_frames(handshake_start(), msgs, pins) == pre_frames + step_frames);
        match h.stage {
            HandshakeStage::Identify => {
                assert(pre_frames =~= Seq::<Seq<u8>>::empty());
                assert(pre_frames + step_frames =~= step_frames);
            },
            HandshakeStage::Describe => {
                if handshake_after(msgs).stage == HandshakeStage::Describe {
                    assert(step_frames =~= Seq::<Seq<u8>>::empty());
                    assert(pre_frames + step_frames =~= pre_frames);
                }
            },
            HandshakeStage::Complete => {},
        }
    } else {
        assert(handshake_run_frames(handshake_start(), msgs, pins) =~= Seq::<Seq<u8>>::empty());
    }
}

/// A handshake run that ends when the handshake completes sends, after the
/// firmware query, exactly the capability query, the analog-mapping query
/// and then the reports of the digital ports that the state counts at the
/// end, whatever the order and number of the messages the board sent.
pub proof fn lemma_handshake_sends(msgs: Seq<MessageView>, pins: Seq<nat>)
    requires
        pins.len() == msgs.len(),
        msgs.len() > 0,
        handshake_after(msgs).stage == HandshakeStage::Complete,
        handshake_after(msgs.drop_last()).stage != HandshakeStage::Complete,
    ensures
        handshake_run_frames(handshake_start(), msgs, pins) == seq![
            query_capabilities_frame(),
            query_analog_mapping_frame(),
        ] + report_frames(ports_for(pins.last()) as nat),
{
    lemma_run_frames(msgs, pins);
}

} // verus!
