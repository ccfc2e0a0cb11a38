//! Per-connection outbound buffer: an unbounded, order-preserving queue that
//! decouples "a message was produced for this peer" from "the peer's
//! transport is ready to accept bytes".

use vstd::prelude::*;

use crate::frame::{Frame, FrameView};

verus! {

/// A peer's outbound queue. Fan-out appends at the back; the transmit side
/// takes from the front, so messages leave in the order they were enqueued.
pub struct OutboundQueue {
    items: Vec<Frame>,
}

impl View for OutboundQueue {
    type V = Seq<FrameView>;

    closed spec fn view(&self) -> Seq<FrameView> {
        Seq::new(self.items@.len(), |i: int| self.items@[i]@)
    }
}

impl OutboundQueue {
    /// An empty queue, as each connection starts with.
    pub fn new() -> (q: OutboundQueue)
        ensures
            q@ == Seq::<FrameView>::empty(),
    {
        let q = OutboundQueue { items: Vec::new() };
        proof {
            assert(q@ =~= Seq::<FrameView>::empty());
        }
        q
    }

    /// Appends `msg` at the back of the queue.
    pub fn enqueue(&mut self, msg: Frame)
        ensures
            final(self)@ == old(self)@.push(msg@),
    {
        self.items.push(msg);
        proof {
            assert(self@ =~= old(self)@.push(msg@));
        }
    }

    /// Removes and returns the front message; `None` when the queue is empty.
    pub fn dequeue(&mut self) -> (r: Option<Frame>)
        ensures
            old(self)@.len() == 0 ==> r is None && final(self)@ == old(self)@,
            old(self)@.len() > 0 ==> r is Some && r->0@ == old(self)@[0] && final(self)@ == old(
                self,
            )@.drop_first(),
    {
        if self.items.len() == 0 {
            None
        } else {
            let f = self.items.remove(0);
            proof {
                assert(self@ =~= old(self)@.drop_first());
            }
            Some(f)
        }
    }

    /// How many messages are waiting.
    pub fn len(&self) -> (n: usize)
        ensures
            n == self@.len(),
    {
        self.items.len()
    }
}

/// Messages enqueued earlier sit at lower indices: after any prefix, enqueuing
/// `m1` and then `m2` places `m1` immediately before `m2`. Since `dequeue`
/// always removes index 0 and shifts the rest down, the queue transmits `m1`
/// before `m2` — FIFO per destination.
pub proof fn lemma_fifo(prefix: Seq<FrameView>, m1: FrameView, m2: FrameView)
    ensures
        prefix.push(m1).push(m2)[prefix.len() as int] == m1,
        prefix.push(m1).push(m2)[prefix.len() as int + 1] == m2,
{
}

/// After `k` dequeues a queue that started as `s` holds the suffix `s.skip(k)`:
/// its front is `s[k]`, and one more dequeue leaves `s.skip(k + 1)`. The front
/// thus advances through the messages in enqueue order.
pub proof fn lemma_dequeue_in_order(s: Seq<FrameView>, k: int)
    requires
        0 <= k < s.len(),
    ensures
        s.skip(k)[0] == s[k],
        s.skip(k).drop_first() =~= s.skip(k + 1),
{
}

} // verus!
