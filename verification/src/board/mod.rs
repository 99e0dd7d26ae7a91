//! A board: its transport, its decoder and the state they keep current.
//! Every operation checks its pin against the state, hands the bytes that
//! the protocol prescribes to the transport, and keeps the cached pin
//! values in step with what was written.
use vstd::prelude::*;
use vstd::string::*;

use crate::error::{Error, IoErrorKind, Result};
use crate::protocol::decode::{feed_step, step_view, Decoder, DecoderView};
use crate::protocol::encode;
use crate::protocol::encode::{
    joined,
    analog_write_frame, digital_port_write_frame, extended_analog_write_frame, i2c_config_frame,
    i2c_read_frame, i2c_write_frame, pin_state_query_frame, report_analog_frame,
    report_digital_frame, sampling_interval_frame, servo_config_frame, set_digital_pin_value_frame,
    set_pin_mode_frame,
};
use crate::protocol::types::{
    capabilities_view, I2cReply, Message, PinCapabilities, PinMode,
    PinStateView,
};
use crate::transport::mock::{MockTransport, MockView};
use crate::transport::{flush_transport_outcome, Transport};

use state::{
    applicable, applied, empty_board_state, max_pin, pins_view, replies_view, with_mode,
    with_pins, with_value,
    BoardState, BoardStateView,
};

pub mod handshake;
pub mod profiles;
pub mod state;

verus! {

pub struct Board<T: Transport> {
    transport: T,
    decoder: Decoder,
    state: BoardState,
}

/// Whether a result is a success or a failure of the transport.
pub open spec fn io_outcome<V>(r: Result<V>) -> bool {
    r is Ok || r matches Err(Error::StdIoError { .. })
}

/// A result of the library as the transport's result that it passes on:
/// a failure of the transport becomes `StdIoError` with the same kind.
pub open spec fn io_result<V>(r: Result<V>) -> std::result::Result<V, IoErrorKind> {
    match r {
        Ok(v) => Ok(v),
        Err(Error::StdIoError { kind }) => Err(kind),
        Err(_) => Err(IoErrorKind::Other),
    }
}

/// What sending `data` did to the transport, and the result it gave: the
/// transport's `write_all` of `data` failed with the returned error, or it
/// succeeded and the following `flush_transport` gave the returned result.
pub open spec fn send_post<T: Transport>(before: T, data: Seq<u8>, r: Result<()>, after: T) -> bool {
    &&& io_outcome(r)
    &&& (r is Err && T::write_all_post(before, data, io_result(r), after)) || exists|mid: T|
        #![trigger T::write_all_post(before, data, Ok(()), mid)]
        T::write_all_post(before, data, Ok(()), mid) && flush_transport_outcome(
            mid,
            io_result(r),
            after,
        )
}

/// Each step of `states` sent the matching frame of `frames` with success.
pub open spec fn send_chain<T: Transport>(states: Seq<T>, frames: Seq<Seq<u8>>) -> bool {
    &&& states.len() == frames.len() + 1
    &&& forall|i: int|
        0 <= i < frames.len() ==> #[trigger] send_post(states[i], frames[i], Ok(()), states[i + 1])
}

/// What sending `frames` one after another did to the transport: each
/// frame is sent as by `send`, and the first failure ends the sending and
/// is returned.
pub open spec fn sends_post<T: Transport>(before: T, frames: Seq<Seq<u8>>, r: Result<()>, after: T) -> bool {
    exists|states: Seq<T>, k: int|
        #![trigger send_chain(states, frames.take(k))]
        0 <= k <= frames.len() && send_chain(states, frames.take(k)) && states[0] == before && (if k
            == frames.len() {
            r == Ok::<(), Error>(()) && after == states.last()
        } else {
            r is Err && send_post(states.last(), frames[k], r, after)
        })
}

/// The bytes of each frame of a list.
pub open spec fn frames_view(frames: Seq<Vec<u8>>) -> Seq<Seq<u8>> {
    frames.map_values(|f: Vec<u8>| f@)
}

/// What reading a byte did to the transport: one `read_byte` that gave the
/// returned byte, or failed with the returned error.
pub open spec fn read_post<T: Transport>(before: T, r: Result<u8>, after: T) -> bool {
    io_outcome(r) && T::read_byte_post(before, io_result(r), after)
}

/// Sending to a mock always succeeds, and the mock has then received
/// exactly the sent bytes after what it had before, its read queue
/// untouched.
pub proof fn lemma_send_to_mock(before: MockTransport, data: Seq<u8>, r: Result<()>, after: MockTransport)
    requires
        send_post(before, data, r, after),
    ensures
        r == Ok::<(), Error>(()),
        after@ == (MockView { written: before@.written + data, pending: before@.pending }),
{
    if r is Err {
        if MockTransport::write_all_post(before, data, io_result(r), after) {
        } else {
            let mid = choose|mid: MockTransport|
                #![trigger MockTransport::write_all_post(before, data, Ok(()), mid)]
                MockTransport::write_all_post(before, data, Ok(()), mid)
                    && flush_transport_outcome(mid, io_result(r), after);
        }
    } else {
        let mid = choose|mid: MockTransport|
            #![trigger MockTransport::write_all_post(before, data, Ok(()), mid)]
            MockTransport::write_all_post(before, data, Ok(()), mid)
                && flush_transport_outcome(mid, io_result(r), after);
        assert(r->Ok_0 == ());
    }
}

/// Successive successful sends to a mock append their frames, in order,
/// to what it has received.
proof fn lemma_mock_send_chain(states: Seq<MockTransport>, frames: Seq<Seq<u8>>)
    requires
        send_chain(states, frames),
    ensures
        states.last()@ == (MockView {
            written: states[0]@.written + joined(frames),
            pending: states[0]@.pending,
        }),
    decreases frames.len(),
{
    if frames.len() == 0 {
        assert(states[0]@.written + joined(frames) =~= states[0]@.written);
    } else {
        let n = frames.len() - 1;
        let s2 = states.drop_last();
        let f2 = frames.drop_last();
        assert forall|i: int| 0 <= i < f2.len() implies #[trigger] send_post(
            s2[i],
            f2[i],
            Ok(()),
            s2[i + 1],
        ) by {
            assert(send_post(states[i], frames[i], Ok(()), states[i + 1]));
        }
        lemma_mock_send_chain(s2, f2);
        assert(send_post(states[n], frames[n], Ok(()), states[n + 1]));
        lemma_send_to_mock(states[n], frames[n], Ok(()), states[n + 1]);
        assert(states[0]@.written + joined(f2) + frames[n] =~= states[0]@.written + joined(frames));
    }
}

/// Sending frames to a mock always succeeds, and the mock has then
/// received all of them, in order, after what it had before.
pub proof fn lemma_sends_to_mock(
    before: MockTransport,
    frames: Seq<Seq<u8>>,
    r: Result<()>,
    after: MockTransport,
)
    requires
        sends_post(before, frames, r, after),
    ensures
        r == Ok::<(), Error>(()),
        after@ == (MockView { written: before@.written + joined(frames), pending: before@.pending }),
{
    let (states, k) = choose|states: Seq<MockTransport>, k: int|
        #![trigger send_chain(states, frames.take(k))]
        0 <= k <= frames.len() && send_chain(states, frames.take(k)) && states[0] == before && (if k
            == frames.len() {
            r == Ok::<(), Error>(()) && after == states.last()
        } else {
            r is Err && send_post(states.last(), frames[k], r, after)
        });
    lemma_mock_send_chain(states, frames.take(k));
    if k < frames.len() {
        lemma_send_to_mock(states.last(), frames[k], r, after);
    }
    assert(frames.take(k) =~= frames);
}

/// Reading a byte from a mock gives its oldest queued byte and takes it
/// off the queue; with nothing queued it times out and changes nothing.
pub proof fn lemma_read_from_mock(before: MockTransport, r: Result<u8>, after: MockTransport)
    requires
        read_post(before, r, after),
    ensures
        before@.pending.len() > 0 ==> r == Ok::<u8, Error>(before@.pending[0]) && after@ == (MockView {
            written: before@.written,
            pending: before@.pending.drop_first(),
        }),
        before@.pending.len() == 0 ==> r == Err::<u8, Error>(
            Error::StdIoError { kind: IoErrorKind::TimedOut },
        ) && after@ == before@,
{
}

/// A successful result that carries nothing is `Ok(())`.
proof fn lemma_ok_unit(x: std::result::Result<(), IoErrorKind>)
    requires
        x is Ok,
    ensures
        x == Ok::<(), IoErrorKind>(()),
{
    assert(x->Ok_0 == ());
}

/// The bits of port `port` whose pins have a nonzero cached value, among
/// the first `n` pins of the port.
pub open spec fn cached_mask(pins: Seq<PinStateView>, port: u8, n: nat) -> u16
    decreases n,
{
    if n == 0 {
        0
    } else {
        let prev = cached_mask(pins, port, (n - 1) as nat);
        let p = port * 8 + n - 1;
        if p < pins.len() && pins[p].value != 0 {
            prev | (1u16 << ((n - 1) as u16))
        } else {
            prev
        }
    }
}

/// The mask that a write of `level` to `pin` sends for the pin's port: the
/// cached bits of the port, with the pin's own bit set or cleared.
pub open spec fn written_mask(pins: Seq<PinStateView>, pin: u8, level: u8) -> u16 {
    let m = cached_mask(pins, pin / 8, 8);
    let bit = 1u16 << ((pin % 8) as u16);
    if level != 0 {
        m | bit
    } else {
        m & !bit
    }
}

/// Whether bit `i` of the mask for a write of `level` to `pin` should be
/// set: the written level for the pin itself, a nonzero cached value for
/// the other pins of its port.
pub open spec fn port_write_bit(pins: Seq<PinStateView>, pin: u8, level: u8, i: int) -> bool {
    if i == pin % 8 {
        level != 0
    } else {
        let p = (pin / 8) * 8 + i;
        p < pins.len() && pins[p].value != 0
    }
}

proof fn lemma_bit_of_or(m: u16, k: u16, i: u16)
    requires
        k < 16,
        i < 16,
    ensures
        (((m | (1u16 << k)) >> i) & 1u16 == 1u16) == (((m >> i) & 1u16 == 1u16) || i == k),
{
    assert(k < 16 && i < 16 ==> ((((m | (1u16 << k)) >> i) & 1u16 == 1u16) == (((m >> i) & 1u16
        == 1u16) || i == k))) by (bit_vector);
}

proof fn lemma_bit_of_clear(m: u16, k: u16, i: u16)
    requires
        k < 16,
        i < 16,
    ensures
        (((m & !(1u16 << k)) >> i) & 1u16 == 1u16) == (((m >> i) & 1u16 == 1u16) && i != k),
{
    assert(k < 16 && i < 16 ==> ((((m & !(1u16 << k)) >> i) & 1u16 == 1u16) == (((m >> i) & 1u16
        == 1u16) && i != k))) by (bit_vector);
}

proof fn lemma_cached_mask_bits(pins: Seq<PinStateView>, port: u8, n: nat, i: u16)
    requires
        n <= 8,
        i < 16,
    ensures
        ((cached_mask(pins, port, n) >> i) & 1u16 == 1u16) == (i < n && port * 8 + i < pins.len()
            && pins[port * 8 + i].value != 0),
    decreases n,
{
    if n == 0 {
        assert((0u16 >> i) & 1u16 == 0u16) by (bit_vector);
    } else {
        lemma_cached_mask_bits(pins, port, (n - 1) as nat, i);
        let prev = cached_mask(pins, port, (n - 1) as nat);
        lemma_bit_of_or(prev, (n - 1) as u16, i);
    }
}

/// The mask that a port write sends has exactly the bits it should: the
/// written level for the pin itself, the cached levels of the other pins of
/// its port, and nothing above the port's eight bits.
pub proof fn lemma_written_mask_bits(pins: Seq<PinStateView>, pin: u8, level: u8, i: u16)
    requires
        i < 16,
    ensures
        ((written_mask(pins, pin, level) >> i) & 1u16 == 1u16) == (i < 8 && port_write_bit(
            pins,
            pin,
            level,
            i as int,
        )),
{
    let port = pin / 8;
    lemma_cached_mask_bits(pins, port, 8, i);
    let m = cached_mask(pins, port, 8);
    let k = (pin % 8) as u16;
    if level != 0 {
        lemma_bit_of_or(m, k, i);
    } else {
        lemma_bit_of_clear(m, k, i);
    }
}

/// The frame that an analog write of `level` to `pin` sends: a plain
/// analog message for the first sixteen pins, an extended one beyond.
pub open spec fn analog_frame_for(pin: u8, level: u16) -> Seq<u8> {
    if pin < 16 {
        analog_write_frame(pin, level)
    } else {
        extended_analog_write_frame(pin, level)
    }
}

fn copy_bytes(v: &Vec<u8>) -> (r: Vec<u8>)
    ensures
        r@ == v@,
{
    let mut out: Vec<u8> = Vec::new();
    let mut i: usize = 0;
    while i < v.len()
        invariant
            i <= v@.len(),
            out@ == v@.take(i as int),
        decreases v@.len() - i,
    {
        out.push(v[i]);
        i = i + 1;
        assert(out@ =~= v@.take(i as int));
    }
    assert(v@.take(i as int) =~= v@);
    out
}

fn copy_modes(v: &Vec<PinMode>) -> (r: Vec<PinMode>)
    ensures
        r@ == v@,
{
    let mut out: Vec<PinMode> = Vec::new();
    let mut i: usize = 0;
    while i < v.len()
        invariant
            i <= v@.len(),
            out@ == v@.take(i as int),
        decreases v@.len() - i,
    {
        out.push(v[i]);
        i = i + 1;
        assert(out@ =~= v@.take(i as int));
    }
    assert(v@.take(i as int) =~= v@);
    out
}

fn copy_capabilities(v: &Vec<PinCapabilities>) -> (r: Vec<PinCapabilities>)
    ensures
        capabilities_view(r@) == capabilities_view(v@),
{
    let mut out: Vec<PinCapabilities> = Vec::new();
    let mut i: usize = 0;
    while i < v.len()
        invariant
            i <= v@.len(),
            capabilities_view(out@) == capabilities_view(v@).take(i as int),
        decreases v@.len() - i,
    {
        let c = PinCapabilities { modes: copy_modes(&v[i].modes), resolution: v[i].resolution };
        let ghost before = capabilities_view(out@);
        assert(c@ == v@[i as int]@);
        assert(capabilities_view(v@)[i as int] == v@[i as int]@);
        out.push(c);
        assert(capabilities_view(out@) =~= before.push(c@));
        assert(capabilities_view(v@).take(i + 1) =~= capabilities_view(v@).take(i as int).push(
            capabilities_view(v@)[i as int],
        ));
        i = i + 1;
        assert(capabilities_view(out@) =~= capabilities_view(v@).take(i as int));
    }
    assert(capabilities_view(v@).take(i as int) =~= capabilities_view(v@));
    out
}

/// A copy of a message.
fn copy_message(m: &Message) -> (r: Message)
    ensures
        r@ == m@,
{
    match m {
        Message::ProtocolVersion { major, minor } => Message::ProtocolVersion {
            major: *major,
            minor: *minor,
        },
        Message::Analog { pin, value } => Message::Analog { pin: *pin, value: *value },
        Message::Digital { port, mask } => Message::Digital { port: *port, mask: *mask },
        Message::EmptyResponse => Message::EmptyResponse,
        Message::AnalogMappingResponse { mapping } => Message::AnalogMappingResponse {
            mapping: copy_bytes(mapping),
        },
        Message::CapabilityResponse { pins } => Message::CapabilityResponse {
            pins: copy_capabilities(pins),
        },
        Message::PinStateResponse { pin, mode, value } => Message::PinStateResponse {
            pin: *pin,
            mode: *mode,
            value: *value,
        },
        Message::ReportFirmware { major, minor, name } => Message::ReportFirmware {
            major: *major,
            minor: *minor,
            name: name.clone(),
        },
        Message::I2cReply(reply) => Message::I2cReply(
            I2cReply {
                address: reply.address,
                register: reply.register,
                data: copy_bytes(&reply.data),
            },
        ),
    }
}

impl<T: Transport> Board<T> {
    /// What the board knows of the device.
    pub closed spec fn state_view(&self) -> BoardStateView {
        self.state@
    }

    /// Where the decoder stands.
    pub closed spec fn decoder_view(&self) -> DecoderView {
        self.decoder@
    }

    /// The transport.
    pub closed spec fn transport_value(&self) -> T {
        self.transport
    }

    /// `self` is `before` after sending `frame` with result `r`, the
    /// decoder and the state untouched.
    pub open spec fn sent_after(&self, before: Self, frame: Seq<u8>, r: Result<()>) -> bool {
        &&& send_post(before.transport_value(), frame, r, self.transport_value())
        &&& self.decoder_view() == before.decoder_view()
        &&& self.state_view() == before.state_view()
    }

    /// `self` is `before` after sending `frame` with result `r`, with its
    /// state replaced by `state`.
    pub open spec fn sent_with_state(
        &self,
        before: Self,
        frame: Seq<u8>,
        state: BoardStateView,
        r: Result<()>,
    ) -> bool {
        &&& send_post(before.transport_value(), frame, r, self.transport_value())
        &&& self.decoder_view() == before.decoder_view()
        &&& self.state_view() == state
    }

    /// The outcome of an operation on `pin` that sends `frame` and leaves
    /// `state`: an unknown pin is refused with nothing changed; otherwise
    /// the frame goes to the transport, whose failure is the only error.
    pub open spec fn pin_operation(
        &self,
        before: Self,
        pin: u8,
        frame: Seq<u8>,
        state: BoardStateView,
        r: Result<()>,
    ) -> bool {
        &&& pin >= before.state_view().pins.len() ==> r == Err::<(), Error>(
            Error::PinOutOfBounds { pin, max: max_pin(before.state_view().pins.len()) },
        ) && *self == before
        &&& pin < before.state_view().pins.len() ==> self.sent_with_state(
            before,
            frame,
            state,
            r,
        )
    }

    /// `self` is `before` after `set_pin_mode(pin, mode)` returned `r`: the
    /// mode is recorded only when the frame was sent.
    pub open spec fn after_set_pin_mode(&self, before: Self, pin: u8, mode: PinMode, r: Result<()>) -> bool {
        self.pin_operation(
            before,
            pin,
            set_pin_mode_frame(pin, mode),
            if r is Ok {
                with_pins(
                    before.state_view(),
                    before.state_view().pins.update(
                        pin as int,
                        with_mode(
                            before.state_view().pins[pin as int],
                            mode,
                            before.state_view().pins[pin as int].value,
                        ),
                    ),
                )
            } else {
                before.state_view()
            },
            r,
        )
    }

    /// `before` with the cached value of `pin` replaced.
    pub open spec fn with_cached_value(before: Self, pin: u8, value: i32) -> BoardStateView {
        with_pins(
            before.state_view(),
            before.state_view().pins.update(
                pin as int,
                with_value(before.state_view().pins[pin as int], value),
            ),
        )
    }

    /// `self` is `before` after `digital_write(pin, level)` returned `r`.
    pub open spec fn after_digital_write(&self, before: Self, pin: u8, level: u8, r: Result<()>) -> bool {
        self.pin_operation(
            before,
            pin,
            set_digital_pin_value_frame(pin, level),
            Self::with_cached_value(before, pin, level as i32),
            r,
        )
    }

    /// `self` is `before` after `analog_write(pin, level)` returned `r`.
    pub open spec fn after_analog_write(&self, before: Self, pin: u8, level: u16, r: Result<()>) -> bool {
        self.pin_operation(
            before,
            pin,
            analog_frame_for(pin, level),
            Self::with_cached_value(before, pin, level as i32),
            r,
        )
    }

    /// A board on `transport` that knows nothing yet and has sent nothing.
    pub fn from_transport(transport: T) -> (r: Self)
        ensures
            r.transport_value() == transport,
            r.state_view() == empty_board_state(),
            r.decoder_view() == DecoderView::Idle,
    {
        Self {
            transport,
            decoder: Decoder::new(),
            state: BoardState::new(),
        }
    }

    pub fn state(&self) -> (r: &BoardState)
        ensures
            r@ == self.state_view(),
    {
        &self.state
    }

    pub fn state_mut(&mut self) -> (r: &mut BoardState)
        ensures
            r@ == old(self).state_view(),
            final(self).state_view() == final(r)@,
            final(self).decoder_view() == old(self).decoder_view(),
            final(self).transport_value() == old(self).transport_value(),
    {
        &mut self.state
    }

    /// Writes `data` and flushes; the error of the transport, if any.
    pub fn send(&mut self, data: &[u8]) -> (r: Result<()>)
        ensures
            final(self).sent_after(*old(self), data@, r),
    {
        let written = self.transport.write_all(data);
        match written {
            Err(kind) => {
                return Err(Error::StdIoError { kind });
            },
            Ok(()) => {},
        }
        proof {
            lemma_ok_unit(written);
        }
        let flushed = self.transport.flush_transport();
        let r = match flushed {
            Err(kind) => Err(Error::StdIoError { kind }),
            Ok(()) => Ok(()),
        };
        proof {
            if flushed is Ok {
                lemma_ok_unit(flushed);
            }
        }
        r
    }

    /// Sends `frames` one after another, stopping at the first failure.
    pub(crate) fn send_frames(&mut self, frames: &Vec<Vec<u8>>) -> (r: Result<()>)
        ensures
            sends_post(
                old(self).transport_value(),
                frames_view(frames@),
                r,
                final(self).transport_value(),
            ),
            final(self).decoder_view() == old(self).decoder_view(),
            final(self).state_view() == old(self).state_view(),
    {
        let ghost all = frames_view(frames@);
        let ghost mut states: Seq<T> = seq![self.transport_value()];
        let mut i: usize = 0;
        proof {
            assert(all.take(0) =~= Seq::<Seq<u8>>::empty());
        }
        while i < frames.len()
            invariant
                i <= frames@.len(),
                all == frames_view(frames@),
                all.len() == frames@.len(),
                send_chain(states, all.take(i as int)),
                states[0] == old(self).transport_value(),
                states.last() == self.transport_value(),
                self.decoder_view() == old(self).decoder_view(),
                self.state_view() == old(self).state_view(),
            decreases frames@.len() - i,
        {
            let sent = self.send(frames[i].as_slice());
            assert(all[i as int] == frames@[i as int]@);
            match sent {
                Err(e) => {
                    proof {
                        assert(send_chain(states, all.take(i as int)));
                    }
                    return Err(e);
                },
                Ok(()) => {},
            }
            proof {
                assert(sent->Ok_0 == ());
                let next = states.push(self.transport_value());
                assert forall|k: int| 0 <= k < i + 1 implies #[trigger] send_post(
                    next[k],
                    all.take(i + 1)[k],
                    Ok(()),
                    next[k + 1],
                ) by {
                    if k < i {
                        assert(send_post(states[k], all.take(i as int)[k], Ok(()), states[k + 1]));
                    }
                }
                states = next;
            }
            i = i + 1;
        }
        proof {
            assert(all.take(i as int) =~= all);
            assert(send_chain(states, all.take(all.len() as int)));
        }
        Ok(())
    }

    /// Reads one byte from the transport.
    pub fn read_byte(&mut self) -> (r: Result<u8>)
        ensures
            read_post(old(self).transport_value(), r, final(self).transport_value()),
            final(self).decoder_view() == old(self).decoder_view(),
            final(self).state_view() == old(self).state_view(),
    {
        match self.transport.read_byte() {
            Ok(b) => Ok(b),
            Err(kind) => Err(Error::StdIoError { kind }),
        }
    }

    /// Gives a received byte to the decoder; a message that it completes
    /// updates the state and is returned.
    pub fn handle_byte(&mut self, byte: u8) -> (r: Result<Option<Message>>)
        ensures
            final(self).decoder_view() == feed_step(old(self).decoder_view(), byte).0,
            step_view(r) == feed_step(old(self).decoder_view(), byte).1,
            final(self).transport_value() == old(self).transport_value(),
            final(self).state_view() == (match feed_step(old(self).decoder_view(), byte).1 {
                Ok(Some(m)) => applied(old(self).state_view(), m),
                _ => old(self).state_view(),
            }),
    {
        match self.decoder.feed(byte) {
            Err(e) => Err(e),
            Ok(None) => Ok(None),
            Ok(Some(msg)) => {
                let copy = copy_message(&msg);
                assert(applicable(copy@));
                let _ = self.state.apply(copy);
                Ok(Some(msg))
            },
        }
    }

    /// Sets the mode of `pin`; the state records the mode once the frame
    /// has been sent.
    pub fn set_pin_mode(&mut self, pin: u8, mode: PinMode) -> (r: Result<()>)
        ensures
            final(self).after_set_pin_mode(*old(self), pin, mode, r),
    {
        match self.state.validate_pin(pin) {
            Err(e) => {
                return Err(e);
            },
            Ok(()) => {},
        }
        let frame = encode::set_pin_mode(pin, mode);
        match self.send(&frame) {
            Err(e) => {
                return Err(e);
            },
            Ok(()) => {},
        }
        let ghost before = pins_view(self.state.pins@);
        let modes = vec![mode];
        assert(modes@ =~= seq![mode]);
        self.state.pins[pin as usize].mode = mode;
        self.state.pins[pin as usize].modes = modes;
        assert(pins_view(self.state.pins@) =~= before.update(
            pin as int,
            with_mode(before[pin as int], mode, before[pin as int].value),
        ));
        Ok(())
    }

    /// Drives one digital pin; the state records the level even when the
    /// transport fails.
    pub fn digital_write(&mut self, pin: u8, level: u8) -> (r: Result<()>)
        ensures
            final(self).after_digital_write(*old(self), pin, level, r),
    {
        match self.state.validate_pin(pin) {
            Err(e) => {
                return Err(e);
            },
            Ok(()) => {},
        }
        self.set_cached_value(pin, level as i32);
        let frame = encode::set_digital_pin_value(pin, level);
        self.send(&frame)
    }

    fn set_cached_value(&mut self, pin: u8, value: i32)
        requires
            pin < old(self).state_view().pins.len(),
        ensures
            final(self).state_view() == with_pins(
                old(self).state_view(),
                old(self).state_view().pins.update(
                    pin as int,
                    with_value(old(self).state_view().pins[pin as int], value),
                ),
            ),
            final(self).decoder_view() == old(self).decoder_view(),
            final(self).transport_value() == old(self).transport_value(),
    {
        let ghost before = pins_view(self.state.pins@);
        self.state.pins[pin as usize].value = value;
        assert(pins_view(self.state.pins@) =~= before.update(
            pin as int,
            with_value(before[pin as int], value),
        ));
    }

    /// Writes the whole port of `pin`: the cached levels of its other pins
    /// and `level` for `pin` itself.
    pub fn digital_port_write(&mut self, pin: u8, level: u8) -> (r: Result<()>)
        ensures
            final(self).pin_operation(
                *old(self),
                pin,
                digital_port_write_frame(pin / 8, written_mask(old(self).state_view().pins, pin, level)),
                Self::with_cached_value(*old(self), pin, level as i32),
                r,
            ),
    {
        match self.state.validate_pin(pin) {
            Err(e) => {
                return Err(e);
            },
            Ok(()) => {},
        }
        let ghost pins = self.state_view().pins;
        let port = pin / 8;
        let mut mask: u16 = 0;
        let mut i: u8 = 0;
        while i < 8
            invariant
                i <= 8,
                port == pin / 8,
                pins == self.state_view().pins,
                mask == cached_mask(pins, port, i as nat),
            decreases 8 - i,
        {
            let p = (port * 8) + i;
            if (p as usize) < self.state.pins.len() && self.state.pins[p as usize].value != 0 {
                mask = mask | (1u16 << (i as u16));
            }
            i = i + 1;
        }
        let bit = pin % 8;
        if level != 0 {
            mask = mask | (1u16 << (bit as u16));
        } else {
            mask = mask & !(1u16 << (bit as u16));
        }
        self.set_cached_value(pin, level as i32);
        let frame = encode::digital_port_write(port, mask);
        self.send(&frame)
    }

    /// Writes an analog level to `pin`, as a plain analog message for the
    /// first sixteen pins and as an extended one beyond; the state records
    /// the level even when the transport fails.
    pub fn analog_write(&mut self, pin: u8, level: u16) -> (r: Result<()>)
        ensures
            final(self).after_analog_write(*old(self), pin, level, r),
    {
        match self.state.validate_pin(pin) {
            Err(e) => {
                return Err(e);
            },
            Ok(()) => {},
        }
        self.set_cached_value(pin, level as i32);
        if pin < 16 {
            let frame = encode::analog_write(pin, level);
            self.send(&frame)
        } else {
            let frame = encode::extended_analog_write(pin, level);
            self.send(&frame)
        }
    }

    pub fn report_digital(&mut self, port: u8, enabled: bool) -> (r: Result<()>)
        ensures
            final(self).sent_after(*old(self), report_digital_frame(port, enabled), r),
    {
        let frame = encode::report_digital(port, enabled);
        self.send(&frame)
    }

    pub fn report_analog(&mut self, analog_pin: u8, enabled: bool) -> (r: Result<()>)
        ensures
            final(self).sent_after(*old(self), report_analog_frame(analog_pin, enabled), r),
    {
        let frame = encode::report_analog(analog_pin, enabled);
        self.send(&frame)
    }

    pub fn i2c_config(&mut self, delay_us: u16) -> (r: Result<()>)
        ensures
            final(self).sent_after(*old(self), i2c_config_frame(delay_us), r),
    {
        let frame = encode::i2c_config(delay_us);
        self.send(&frame)
    }

    pub fn i2c_read(&mut self, address: u8, size: u16) -> (r: Result<()>)
        ensures
            final(self).sent_after(*old(self), i2c_read_frame(address, size), r),
    {
        let frame = encode::i2c_read(address, size);
        self.send(&frame)
    }

    pub fn i2c_write(&mut self, address: u8, data: &[u8]) -> (r: Result<()>)
        ensures
            final(self).sent_after(*old(self), i2c_write_frame(address, data@), r),
    {
        let frame = encode::i2c_write(address, data);
        self.send(&frame)
    }

    pub fn sampling_interval(&mut self, ms: u16) -> (r: Result<()>)
        ensures
            final(self).sent_after(*old(self), sampling_interval_frame(ms), r),
    {
        let frame = encode::sampling_interval(ms);
        self.send(&frame)
    }

    pub fn servo_config(&mut self, pin: u8, min_pulse: u16, max_pulse: u16) -> (r: Result<()>)
        ensures
            final(self).pin_operation(*old(self), pin, servo_config_frame(pin, min_pulse, max_pulse), old(self).state_view(), r),
    {
        match self.state.validate_pin(pin) {
            Err(e) => {
                return Err(e);
            },
            Ok(()) => {},
        }
        let frame = encode::servo_config(pin, min_pulse, max_pulse);
        self.send(&frame)
    }

    pub fn pin_state_query(&mut self, pin: u8) -> (r: Result<()>)
        ensures
            final(self).pin_operation(*old(self), pin, pin_state_query_frame(pin), old(self).state_view(), r),
    {
        match self.state.validate_pin(pin) {
            Err(e) => {
                return Err(e);
            },
            Ok(()) => {},
        }
        let frame = encode::pin_state_query(pin);
        self.send(&frame)
    }

    /// The oldest I2C reply not yet taken, if any.
    pub fn take_i2c_reply(&mut self) -> (r: Option<I2cReply>)
        ensures
            final(self).decoder_view() == old(self).decoder_view(),
            final(self).transport_value() == old(self).transport_value(),
            old(self).state_view().i2c_replies.len() == 0 ==> r is None && final(self).state_view()
                == old(self).state_view(),
            old(self).state_view().i2c_replies.len() > 0 ==> (r matches Some(reply) && reply@ == old(
                self,
            ).state_view().i2c_replies[0]) && final(self).state_view() == (BoardStateView {
                i2c_replies: old(self).state_view().i2c_replies.drop_first(),
                ..old(self).state_view()
            }),
    {
        if self.state.i2c_replies.len() == 0 {
            None
        } else {
            let ghost before = replies_view(self.state.i2c_replies@);
            let reply = self.state.i2c_replies.remove(0);
            assert(replies_view(self.state.i2c_replies@) =~= before.drop_first());
            Some(reply)
        }
    }

    pub fn firmware_name(&self) -> (r: &str)
        ensures
            r@ == self.state_view().firmware_name,
    {
        self.state.firmware_name.as_str()
    }

    pub fn firmware_version(&self) -> (r: &str)
        ensures
            r@ == self.state_view().firmware_version,
    {
        self.state.firmware_version.as_str()
    }

    pub fn protocol_version(&self) -> (r: &str)
        ensures
            r@ == self.state_view().protocol_version,
    {
        self.state.protocol_version.as_str()
    }

    /// The board as text: its firmware name, firmware version and protocol
    /// version.
    pub fn to_string(&self) -> (r: String)
        ensures
            r@ == "Board { firmware="@ + self.state_view().firmware_name + ", version="@
                + self.state_view().firmware_version + ", protocol="@
                + self.state_view().protocol_version + " }"@,
    {
        let mut s = String::from_str("Board { firmware=");
        s.append(self.state.firmware_name.as_str());
        s.append(", version=");
        s.append(self.state.firmware_version.as_str());
        s.append(", protocol=");
        s.append(self.state.protocol_version.as_str());
        s.append(" }");
        s
    }
}

} // verus!
