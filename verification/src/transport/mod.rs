//! Where bytes go to and come from: a serial port, a mock, or anything
//! else that can move bytes.
use vstd::prelude::*;

use crate::error::IoErrorKind;

pub mod mock;

verus! {

/// A byte channel to a board. A transport says, through the spec
/// functions below, what each of its calls does: which results it may give
/// and how it changes. A transport that leaves one of them as it is says
/// nothing of that call, and the library promises nothing of its own about
/// them.
pub trait Transport: Sized {
    /// How a call of `write_all(data)` that returned `r` may have changed
    /// the transport from `before` to `after`.
    open spec fn write_all_post(
        before: Self,
        data: Seq<u8>,
        r: std::result::Result<(), IoErrorKind>,
        after: Self,
    ) -> bool {
        true
    }

    /// How a call of `read_byte` that returned `r` may have changed the
    /// transport from `before` to `after`.
    open spec fn read_byte_post(
        before: Self,
        r: std::result::Result<u8, IoErrorKind>,
        after: Self,
    ) -> bool {
        true
    }

    /// How a call of `flush` that returned `r` may have changed the
    /// transport from `before` to `after`.
    open spec fn flush_post(before: Self, r: std::result::Result<(), IoErrorKind>, after: Self) -> bool {
        true
    }

    /// How a call of `flush_transport` that returned `r` may have changed
    /// the transport from `before` to `after`.
    open spec fn flush_transport_post(
        before: Self,
        r: std::result::Result<(), IoErrorKind>,
        after: Self,
    ) -> bool {
        true
    }

    /// Writes all of `data`.
    fn write_all(&mut self, data: &[u8]) -> (r: std::result::Result<(), IoErrorKind>)
        ensures
            Self::write_all_post(*old(self), data@, r, *final(self)),
    ;

    /// Reads one byte.
    fn read_byte(&mut self) -> (r: std::result::Result<u8, IoErrorKind>)
        ensures
            Self::read_byte_post(*old(self), r, *final(self)),
    ;

    /// Flushes buffered output.
    fn flush(&mut self) -> (r: std::result::Result<(), IoErrorKind>)
        ensures
            Self::flush_post(*old(self), r, *final(self)),
    ;

    /// Pushes written bytes towards the board. By default it does nothing
    /// and succeeds, as for a transport that buffers nothing.
    fn flush_transport(&mut self) -> (r: std::result::Result<(), IoErrorKind>)
        ensures
            Self::flush_transport_post(*old(self), r, *final(self)) || (r == Ok::<(), IoErrorKind>(())
                && *final(self) == *old(self)),
        default_ensures
            r == Ok::<(), IoErrorKind>(()),
            *final(self) == *old(self),
    {
        Ok(())
    }

    /// Fills `buf` with the next bytes, one `read_byte` at a time, stopping
    /// at the first failure, which it returns. An empty buffer is filled at
    /// once, without reading.
    fn read_exact(&mut self, buf: &mut [u8]) -> (r: std::result::Result<(), IoErrorKind>)
        ensures
            final(buf)@.len() == old(buf)@.len(),
            read_exact_outcome(
                |b: Self, x: std::result::Result<u8, IoErrorKind>, a: Self| Self::read_byte_post(b, x, a),
                *old(self),
                old(buf)@,
                r,
                final(buf)@,
                *final(self),
            ),
    {
        let n = buf.len();
        let mut i: usize = 0;
        let ghost step = |b: Self, x: std::result::Result<u8, IoErrorKind>, a: Self|
            Self::read_byte_post(b, x, a);
        let ghost mut states: Seq<Self> = seq![*self];
        while i < n
            invariant
                n == buf@.len(),
                buf@.len() == old(buf)@.len(),
                i <= n,
                states.len() == i + 1,
                states[0] == *old(self),
                states.last() == *self,
                read_chain(step, states, buf@.take(i as int)),
                step == (|b: Self, x: std::result::Result<u8, IoErrorKind>, a: Self|
                    Self::read_byte_post(b, x, a)),
                buf@.skip(i as int) == old(buf)@.skip(i as int),
            decreases n - i,
        {
            let ghost before = *self;
            let ghost taken = buf@.take(i as int);
            let ghost pre = buf@;
            match self.read_byte() {
                Ok(b) => {
                    buf[i] = b;
                    proof {
                        states = states.push(*self);
                        assert(buf@.take(i + 1) =~= taken.push(b));
                        assert(buf@ == pre.update(i as int, b));
                        assert forall|k: int| 0 <= k < buf@.len() - (i + 1) implies #[trigger] buf@.skip(
                            i + 1,
                        )[k] == old(buf)@.skip(i + 1)[k] by {
                            assert(pre.skip(i as int)[k + 1] == old(buf)@.skip(i as int)[k + 1]);
                        }
                        assert(buf@.skip(i + 1) =~= old(buf)@.skip(i + 1));
                        assert forall|k: int| 0 <= k < i + 1 implies #[trigger] step(
                            states[k],
                            Ok(buf@.take(i + 1)[k]),
                            states[k + 1],
                        ) by {
                            if k < i {
                                assert(buf@.take(i + 1)[k] == taken[k]);
                            }
                        }
                    }
                },
                Err(e) => {
                    proof {
                        assert(buf@ =~= taken + old(buf)@.skip(i as int));
                        lemma_read_exact_failed(step, before, states, taken, e, *self, old(buf)@, buf@);
                    }
                    return Err(e);
                },
            }
            i = i + 1;
        }
        proof {
            assert(buf@.take(n as int) =~= buf@);
        }
        Ok(())
    }
}

/// What a call of `flush_transport` that returned `r` did to a transport:
/// what the transport says of that call, or, for a transport that keeps
/// the default, a success that changes nothing.
pub open spec fn flush_transport_outcome<T: Transport>(
    before: T,
    r: std::result::Result<(), IoErrorKind>,
    after: T,
) -> bool {
    T::flush_transport_post(before, r, after) || (r == Ok::<(), IoErrorKind>(()) && after == before)
}

/// Every step of `states` is a successful `read_byte` that gave the
/// matching byte of `bytes`.
pub open spec fn read_chain<T>(
    step: spec_fn(T, std::result::Result<u8, IoErrorKind>, T) -> bool,
    states: Seq<T>,
    bytes: Seq<u8>,
) -> bool {
    &&& states.len() == bytes.len() + 1
    &&& forall|k: int| 0 <= k < bytes.len() ==> #[trigger] step(states[k], Ok(bytes[k]), states[k + 1])
}

/// What a `read_exact` into a buffer that held `old_buf` may have done: on
/// success, one successful read per byte, filling the buffer in order; on
/// failure, successful reads filling the start of the buffer, then a read
/// that failed with the returned error, the rest of the buffer untouched.
pub open spec fn read_exact_outcome<T>(
    step: spec_fn(T, std::result::Result<u8, IoErrorKind>, T) -> bool,
    before: T,
    old_buf: Seq<u8>,
    r: std::result::Result<(), IoErrorKind>,
    buf: Seq<u8>,
    after: T,
) -> bool {
    match r {
        Ok(()) => exists|states: Seq<T>|
            #![trigger read_chain(step, states, buf)]
            read_chain(step, states, buf) && states[0] == before && states.last() == after,
        Err(e) => exists|states: Seq<T>, j: int|
            #![trigger read_chain(step, states, buf.take(j))]
            0 <= j < old_buf.len() && read_chain(step, states, buf.take(j)) && states[0] == before
                && step(states.last(), Err(e), after) && buf.skip(j) == old_buf.skip(j),
    }
}

proof fn lemma_read_exact_failed<T>(
    step: spec_fn(T, std::result::Result<u8, IoErrorKind>, T) -> bool,
    before: T,
    states: Seq<T>,
    taken: Seq<u8>,
    e: IoErrorKind,
    after: T,
    old_buf: Seq<u8>,
    buf: Seq<u8>,
)
    requires
        read_chain(step, states, taken),
        states.last() == before,
        step(before, Err(e), after),
        taken.len() < old_buf.len(),
        buf == taken + old_buf.skip(taken.len() as int),
    ensures
        read_exact_outcome(step, states[0], old_buf, Err(e), buf, after),
{
    let j = taken.len() as int;
    assert(buf.take(j) =~= taken);
    assert(buf.skip(j) =~= old_buf.skip(j));
    assert(read_chain(step, states, buf.take(j)));
}

/// A transport around another one, whose `flush_transport` flushes the
/// inner transport.
pub struct FlushTransport<T> {
    inner: T,
}

impl<T> FlushTransport<T> {
    /// The inner transport that this one holds.
    pub closed spec fn inner_value(&self) -> T {
        self.inner
    }

    pub fn new(inner: T) -> (r: Self)
        ensures
            r.inner_value() == inner,
    {
        Self { inner }
    }

    pub fn into_inner(self) -> (r: T)
        ensures
            r == self.inner_value(),
    {
        self.inner
    }
}

impl<T: Transport> Transport for FlushTransport<T> {
    /// Writing writes to the inner transport.
    open spec fn write_all_post(
        before: Self,
        data: Seq<u8>,
        r: std::result::Result<(), IoErrorKind>,
        after: Self,
    ) -> bool {
        T::write_all_post(before.inner_value(), data, r, after.inner_value())
    }

    /// Reading reads from the inner transport.
    open spec fn read_byte_post(
        before: Self,
        r: std::result::Result<u8, IoErrorKind>,
        after: Self,
    ) -> bool {
        T::read_byte_post(before.inner_value(), r, after.inner_value())
    }

    /// Flushing flushes the inner transport.
    open spec fn flush_post(
        before: Self,
        r: std::result::Result<(), IoErrorKind>,
        after: Self,
    ) -> bool {
        T::flush_post(before.inner_value(), r, after.inner_value())
    }

    /// `flush_transport` flushes the inner transport.
    open spec fn flush_transport_post(
        before: Self,
        r: std::result::Result<(), IoErrorKind>,
        after: Self,
    ) -> bool {
        T::flush_post(before.inner_value(), r, after.inner_value())
    }

    fn write_all(&mut self, data: &[u8]) -> (r: std::result::Result<(), IoErrorKind>) {
        self.inner.write_all(data)
    }

    fn read_byte(&mut self) -> (r: std::result::Result<u8, IoErrorKind>) {
        self.inner.read_byte()
    }

    fn flush(&mut self) -> (r: std::result::Result<(), IoErrorKind>) {
        self.inner.flush()
    }

    fn flush_transport(&mut self) -> (r: std::result::Result<(), IoErrorKind>) {
        self.inner.flush()
    }
}

} // verus!
