//! An in-memory transport: it records what is written and serves reads
//! from a queue that a test fills.
use vstd::prelude::*;

use std::collections::VecDeque;

use crate::error::IoErrorKind;

use super::{read_chain, read_exact_outcome, Transport};

verus! {

#[derive(Debug)]
pub struct MockTransport {
    written: Vec<u8>,
    read_queue: VecDeque<u8>,
}

/// The mathematical value of a [`MockTransport`]: the bytes written so far
/// and the bytes still waiting to be read.
pub struct MockView {
    pub written: Seq<u8>,
    pub pending: Seq<u8>,
}

impl View for MockTransport {
    type V = MockView;

    closed spec fn view(&self) -> MockView {
        MockView { written: self.written@, pending: self.read_queue@ }
    }
}

impl Default for MockTransport {
    fn default() -> (r: Self)
        ensures
            r@ == (MockView { written: seq![], pending: seq![] }),
    {
        let r = MockTransport { written: Vec::new(), read_queue: VecDeque::new() };
        assert(r@.written =~= seq![]);
        assert(r@.pending =~= seq![]);
        r
    }
}

impl MockTransport {
    /// A mock with nothing written and nothing to read.
    pub fn new() -> (r: Self)
        ensures
            r@ == (MockView { written: seq![], pending: seq![] }),
    {
        Self::default()
    }

    /// Queues `data` to be read after what is already queued.
    pub fn push_read(&mut self, data: &[u8])
        ensures
            final(self)@ == (MockView {
                written: old(self)@.written,
                pending: old(self)@.pending + data@,
            }),
    {
        let n = data.len();
        let mut i: usize = 0;
        while i < n
            invariant
                n == data@.len(),
                i <= n,
                self@ == (MockView {
                    written: old(self)@.written,
                    pending: old(self)@.pending + data@.take(i as int),
                }),
            decreases n - i,
        {
            self.read_queue.push_back(data[i]);
            i = i + 1;
            assert(self.read_queue@ =~= old(self)@.pending + data@.take(i as int));
        }
        assert(data@.take(n as int) =~= data@);
    }

    /// Reads as many queued bytes as `buf` holds or the queue has, oldest
    /// first, into the start of `buf`, and returns how many; with nothing
    /// queued it times out and changes nothing.
    pub fn read(&mut self, buf: &mut [u8]) -> (r: std::result::Result<usize, IoErrorKind>)
        ensures
            final(buf)@.len() == old(buf)@.len(),
            old(self)@.pending.len() == 0 ==> r == Err::<usize, IoErrorKind>(IoErrorKind::TimedOut)
                && final(self)@ == old(self)@ && final(buf)@ == old(buf)@,
            old(self)@.pending.len() > 0 ==> ({
                let n = if old(buf)@.len() < old(self)@.pending.len() {
                    old(buf)@.len()
                } else {
                    old(self)@.pending.len()
                };
                &&& r == Ok::<usize, IoErrorKind>(n as usize)
                &&& final(buf)@ == old(self)@.pending.take(n as int) + old(buf)@.skip(n as int)
                &&& final(self)@ == (MockView {
                    written: old(self)@.written,
                    pending: old(self)@.pending.skip(n as int),
                })
            }),
    {
        if self.read_queue.len() == 0 {
            return Err(IoErrorKind::TimedOut);
        }
        let n = if buf.len() < self.read_queue.len() {
            buf.len()
        } else {
            self.read_queue.len()
        };
        let mut i: usize = 0;
        proof {
            assert(old(self)@.pending.skip(0) =~= old(self)@.pending);
            assert(buf@.skip(0) =~= buf@);
            assert(buf@.take(0) =~= old(self)@.pending.take(0));
        }
        while i < n
            invariant
                n <= buf@.len(),
                n <= old(self)@.pending.len(),
                i <= n,
                buf@.len() == old(buf)@.len(),
                buf@.take(i as int) == old(self)@.pending.take(i as int),
                buf@.skip(i as int) == old(buf)@.skip(i as int),
                self@ == (MockView {
                    written: old(self)@.written,
                    pending: old(self)@.pending.skip(i as int),
                }),
            decreases n - i,
        {
            let ghost pre = buf@;
            let ghost queued = self@.pending;
            assert(queued.len() > 0);
            match self.read_queue.pop_front() {
                Some(b) => {
                    buf[i] = b;
                    proof {
                        assert(b == old(self)@.pending[i as int]);
                        assert(self.read_queue@ =~= old(self)@.pending.skip(i + 1));
                        assert(buf@.take(i + 1) =~= old(self)@.pending.take(i + 1)) by {
                            assert forall|k: int| 0 <= k < i + 1 implies #[trigger] buf@.take(i + 1)[k]
                                == old(self)@.pending.take(i + 1)[k] by {
                                if k < i {
                                    assert(pre.take(i as int)[k] == old(self)@.pending.take(i as int)[k]);
                                }
                            }
                        }
                        assert forall|k: int| 0 <= k < buf@.len() - (i + 1) implies #[trigger] buf@.skip(
                            i + 1,
                        )[k] == old(buf)@.skip(i + 1)[k] by {
                            assert(pre.skip(i as int)[k + 1] == old(buf)@.skip(i as int)[k + 1]);
                        }
                        assert(buf@.skip(i + 1) =~= old(buf)@.skip(i + 1));
                    }
                },
                None => {},
            }
            i = i + 1;
        }
        proof {
            assert(buf@ =~= buf@.take(n as int) + buf@.skip(n as int));
        }
        Ok(n)
    }

    /// Records all of `buf` as written and returns its length.
    pub fn write(&mut self, buf: &[u8]) -> (r: std::result::Result<usize, IoErrorKind>)
        ensures
            r == Ok::<usize, IoErrorKind>(buf@.len() as usize),
            final(self)@ == (MockView {
                written: old(self)@.written + buf@,
                pending: old(self)@.pending,
            }),
    {
        let _ = self.write_all(buf);
        Ok(buf.len())
    }

    /// Everything written so far.
    pub fn written(&self) -> (r: &[u8])
        ensures
            r@ == self@.written,
    {
        self.written.as_slice()
    }

    /// Forgets what has been written.
    pub fn clear_written(&mut self)
        ensures
            final(self)@ == (MockView { written: seq![], pending: old(self)@.pending }),
    {
        self.written.clear();
        assert(self.written@ =~= seq![]);
    }
}

impl Transport for MockTransport {
    /// Writing records the bytes and never fails.
    open spec fn write_all_post(
        before: Self,
        data: Seq<u8>,
        r: std::result::Result<(), IoErrorKind>,
        after: Self,
    ) -> bool {
        r is Ok && after@ == (MockView {
            written: before@.written + data,
            pending: before@.pending,
        })
    }

    /// Reading takes the oldest queued byte, or times out, changing nothing,
    /// when the queue is empty.
    open spec fn read_byte_post(
        before: Self,
        r: std::result::Result<u8, IoErrorKind>,
        after: Self,
    ) -> bool {
        if before@.pending.len() == 0 {
            r == Err::<u8, IoErrorKind>(IoErrorKind::TimedOut) && after@ == before@
        } else {
            r == Ok::<u8, IoErrorKind>(before@.pending[0]) && after@ == (MockView {
                written: before@.written,
                pending: before@.pending.drop_first(),
            })
        }
    }

    /// Flushing succeeds and changes nothing.
    open spec fn flush_post(
        before: Self,
        r: std::result::Result<(), IoErrorKind>,
        after: Self,
    ) -> bool {
        r is Ok && after@ == before@
    }

    /// Flushing towards the board succeeds and changes nothing.
    open spec fn flush_transport_post(
        before: Self,
        r: std::result::Result<(), IoErrorKind>,
        after: Self,
    ) -> bool {
        r is Ok && after@ == before@
    }

    fn write_all(&mut self, data: &[u8]) -> (r: std::result::Result<(), IoErrorKind>) {
        let n = data.len();
        let mut i: usize = 0;
        while i < n
            invariant
                n == data@.len(),
                i <= n,
                self@ == (MockView {
                    written: old(self)@.written + data@.take(i as int),
                    pending: old(self)@.pending,
                }),
            decreases n - i,
        {
            self.written.push(data[i]);
            i = i + 1;
            assert(self.written@ =~= old(self)@.written + data@.take(i as int));
        }
        assert(data@.take(n as int) =~= data@);
        Ok(())
    }

    fn read_byte(&mut self) -> (r: std::result::Result<u8, IoErrorKind>) {
        match self.read_queue.pop_front() {
            Some(b) => Ok(b),
            None => Err(IoErrorKind::TimedOut),
        }
    }

    fn flush(&mut self) -> (r: std::result::Result<(), IoErrorKind>) {
        Ok(())
    }

    fn flush_transport(&mut self) -> (r: std::result::Result<(), IoErrorKind>) {
        Ok(())
    }
}

/// Where a read at position `pos` of `data` starts: the position, or the
/// end of the data for a position past it.
pub open spec fn read_start(len: nat, pos: u64) -> nat {
    if pos <= len {
        pos as nat
    } else {
        len
    }
}

/// Fills `buf` from `data`, starting at position `pos`, as a read of an
/// in-memory cursor does; returns the outcome and the new position. When
/// enough bytes are left the buffer receives the next `buf.len()` of them
/// and the position moves on by that much; otherwise the bytes that are
/// left go to the start of the buffer, the position moves to the end of
/// the data (or stays where it is, past it) and the read fails with
/// `UnexpectedEof`.
pub fn read_exact_from_bytes(data: &Vec<u8>, pos: u64, buf: &mut [u8]) -> (r: (
    std::result::Result<(), IoErrorKind>,
    u64,
))
    ensures
        final(buf)@.len() == old(buf)@.len(),
        ({
            let len = data@.len();
            let start = read_start(len, pos);
            let n = old(buf)@.len();
            if len - start >= n {
                &&& r.0 == Ok::<(), IoErrorKind>(())
                &&& final(buf)@ == data@.subrange(start as int, (start + n) as int)
                &&& r.1 == pos + n
            } else {
                &&& r.0 == Err::<(), IoErrorKind>(IoErrorKind::UnexpectedEof)
                &&& final(buf)@ == data@.skip(start as int) + old(buf)@.skip(len - start)
                &&& r.1 == (if pos <= len { len as int } else { pos as int })
            }
        }),
{
    let len = data.len();
    let start: usize = if pos <= len as u64 {
        pos as usize
    } else {
        len
    };
    let n = buf.len();
    let avail = len - start;
    let count: usize = if avail < n {
        avail
    } else {
        n
    };
    let mut i: usize = 0;
    while i < count
        invariant
            count <= n,
            n == buf@.len(),
            start + count <= len,
            len == data@.len(),
            i <= count,
            buf@.len() == old(buf)@.len(),
            buf@.take(i as int) == data@.subrange(start as int, start + i),
            buf@.skip(i as int) == old(buf)@.skip(i as int),
        decreases count - i,
    {
        let ghost pre = buf@;
        buf[i] = data[start + i];
        proof {
            assert(buf@ == pre.update(i as int, data@[start + i]));
            assert(buf@.take(i + 1) =~= data@.subrange(start as int, start + i + 1)) by {
                assert forall|k: int| 0 <= k < i + 1 implies #[trigger] buf@.take(i + 1)[k]
                    == data@.subrange(start as int, start + i + 1)[k] by {
                    if k < i {
                        assert(pre.take(i as int)[k] == data@.subrange(start as int, start + i)[k]);
                    }
                }
            }
            assert forall|k: int| 0 <= k < buf@.len() - (i + 1) implies #[trigger] buf@.skip(
                i + 1,
            )[k] == old(buf)@.skip(i + 1)[k] by {
                assert(pre.skip(i as int)[k + 1] == old(buf)@.skip(i as int)[k + 1]);
            }
            assert(buf@.skip(i + 1) =~= old(buf)@.skip(i + 1));
        }
        i = i + 1;
    }
    if count == n {
        proof {
            assert(buf@ =~= buf@.take(n as int));
        }
        (Ok(()), pos + n as u64)
    } else {
        proof {
            assert(data@.subrange(start as int, start + count) =~= data@.skip(start as int));
            assert(buf@ =~= buf@.take(count as int) + buf@.skip(count as int));
        }
        let end: u64 = if pos <= len as u64 {
            len as u64
        } else {
            pos
        };
        (Err(IoErrorKind::UnexpectedEof), end)
    }
}

/// One `read_byte` on a mock, as a relation between the mock before, the
/// result and the mock after.
pub open spec fn mock_read_step() -> spec_fn(MockTransport, std::result::Result<u8, IoErrorKind>, MockTransport) -> bool {
    |b: MockTransport, x: std::result::Result<u8, IoErrorKind>, a: MockTransport|
        MockTransport::read_byte_post(b, x, a)
}

/// Successive successful reads from a mock take its queued bytes in order
/// and leave what was written alone.
proof fn lemma_mock_chain(states: Seq<MockTransport>, bytes: Seq<u8>)
    requires
        read_chain(mock_read_step(), states, bytes),
    ensures
        bytes.len() <= states[0]@.pending.len(),
        bytes == states[0]@.pending.take(bytes.len() as int),
        states.last()@ == (MockView {
            written: states[0]@.written,
            pending: states[0]@.pending.skip(bytes.len() as int),
        }),
    decreases bytes.len(),
{
    if bytes.len() == 0 {
        assert(states[0]@.pending.skip(0) =~= states[0]@.pending);
        assert(bytes =~= states[0]@.pending.take(0));
    } else {
        let n = bytes.len() - 1;
        let s2 = states.drop_last();
        let b2 = bytes.drop_last();
        assert forall|k: int| 0 <= k < b2.len() implies #[trigger] mock_read_step()(
            s2[k],
            Ok(b2[k]),
            s2[k + 1],
        ) by {
            assert(mock_read_step()(states[k], Ok(bytes[k]), states[k + 1]));
        }
        lemma_mock_chain(s2, b2);
        assert(mock_read_step()(states[n], Ok(bytes[n]), states[n + 1]));
        assert(s2.last() == states[n]);
        let p = states[0]@.pending;
        assert(p.skip(n).drop_first() =~= p.skip(n + 1));
        assert(bytes =~= p.take(n + 1));
    }
}

/// What a `read_exact` on a mock does: with enough bytes queued, it fills
/// the buffer with the oldest of them and takes them off the queue;
/// otherwise it takes every queued byte and times out.
pub proof fn lemma_mock_read_exact(
    before: MockTransport,
    old_buf: Seq<u8>,
    r: std::result::Result<(), IoErrorKind>,
    buf: Seq<u8>,
    after: MockTransport,
)
    requires
        buf.len() == old_buf.len(),
        read_exact_outcome(mock_read_step(), before, old_buf, r, buf, after),
    ensures
        old_buf.len() <= before@.pending.len() ==> r is Ok && buf == before@.pending.take(
            old_buf.len() as int,
        ) && after@ == (MockView {
            written: before@.written,
            pending: before@.pending.skip(old_buf.len() as int),
        }),
        old_buf.len() > before@.pending.len() ==> r == Err::<(), IoErrorKind>(IoErrorKind::TimedOut)
            && after@ == (MockView { written: before@.written, pending: seq![] }),
{
    match r {
        Ok(()) => {
            let states = choose|states: Seq<MockTransport>|
                #![trigger read_chain(mock_read_step(), states, buf)]
                read_chain(mock_read_step(), states, buf) && states[0] == before && states.last()
                    == after;
            lemma_mock_chain(states, buf);
        },
        Err(e) => {
            let (states, j) = choose|states: Seq<MockTransport>, j: int|
                #![trigger read_chain(mock_read_step(), states, buf.take(j))]
                0 <= j < old_buf.len() && read_chain(mock_read_step(), states, buf.take(j))
                    && states[0] == before && mock_read_step()(states.last(), Err(e), after)
                    && buf.skip(j) == old_buf.skip(j);
            lemma_mock_chain(states, buf.take(j));
            assert(before@.pending.skip(j).len() == 0);
            assert(after@.pending =~= seq![]);
        },
    }
}

/// Bytes come out of a mock in the order they were queued: reading as many
/// bytes as were already queued gives those bytes, and what `push_read`
/// added comes right after them.
pub proof fn lemma_mock_reads_in_order(pending: Seq<u8>, data: Seq<u8>)
    ensures
        (pending + data).take(pending.len() as int) == pending,
        (pending + data).skip(pending.len() as int).take(data.len() as int) == data,
        (pending + data).skip(pending.len() as int).skip(data.len() as int) == Seq::<u8>::empty(),
{
    assert((pending + data).take(pending.len() as int) =~= pending);
    assert((pending + data).skip(pending.len() as int).take(data.len() as int) =~= data);
    assert((pending + data).skip(pending.len() as int).skip(data.len() as int) =~= Seq::<
        u8,
    >::empty());
}

} // verus!
