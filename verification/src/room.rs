//! A room: a named broadcast domain holding the outbound queues of the
//! connections that joined it, in join order.

use vstd::prelude::*;

use crate::frame::{Frame, FrameView};
use crate::queue::OutboundQueue;

verus! {

/// The queues of a room after a message `m` was fanned out with the peer at
/// `ex` excluded: every other peer's queue grows by one copy of `m` at the
/// back; the excluded peer's queue is unchanged. An `ex` outside the room
/// excludes nobody.
pub open spec fn deliver(room: Seq<Seq<FrameView>>, ex: int, m: FrameView) -> Seq<Seq<FrameView>> {
    Seq::new(room.len(), |i: int| if i == ex { room[i] } else { room[i].push(m) })
}

/// A named room's peers: the outbound queue of each member connection, ordered
/// by when it joined. A peer's position in this sequence is its identity
/// within the room.
pub struct Room {
    peers: Vec<OutboundQueue>,
}

impl View for Room {
    type V = Seq<Seq<FrameView>>;

    closed spec fn view(&self) -> Seq<Seq<FrameView>> {
        Seq::new(self.peers@.len(), |i: int| self.peers@[i]@)
    }
}

impl Room {
    /// An empty room, as created on the first join to a fresh name.
    pub fn new() -> (r: Room)
        ensures
            r@ == Seq::<Seq<FrameView>>::empty(),
    {
        let r = Room { peers: Vec::new() };
        proof {
            assert(r@ =~= Seq::<Seq<FrameView>>::empty());
        }
        r
    }

    /// How many peers are in the room.
    pub fn len(&self) -> (n: usize)
        ensures
            n == self@.len(),
    {
        self.peers.len()
    }

    /// Appends a peer's queue and returns the index it was assigned: the
    /// room's size before the append. The index is computed from the same
    /// append, so it names the slot the peer actually landed in.
    pub fn add_peer(&mut self, q: OutboundQueue) -> (idx: usize)
        ensures
            final(self)@ == old(self)@.push(q@),
            idx as int == old(self)@.len(),
    {
        let idx = self.peers.len();
        self.peers.push(q);
        proof {
            assert(self@ =~= old(self)@.push(q@));
        }
        idx
    }

    /// Fans `msg` out to every peer except the one at `exclude`: each other
    /// peer's queue receives exactly one copy, appended at the back. Delivery
    /// is unconditional per peer; nothing is skipped or reordered.
    pub fn fan_out(&mut self, exclude: usize, msg: &Frame)
        ensures
            final(self)@ == deliver(old(self)@, exclude as int, msg@),
    {
        let ghost goal = deliver(old(self)@, exclude as int, msg@);
        let mut i: usize = 0;
        while i < self.peers.len()
            invariant
                i <= self.peers.len(),
                self@.len() == old(self)@.len(),
                goal == deliver(old(self)@, exclude as int, msg@),
                forall|j: int| 0 <= j < i ==> self@[j] == goal[j],
                forall|j: int| i <= j < self@.len() ==> self@[j] == old(self)@[j],
            decreases self.peers.len() - i,
        {
            if i != exclude {
                let q = &mut self.peers[i];
                q.enqueue(msg.clone());
            }
            i += 1;
        }
        proof {
            assert(self@ =~= goal);
        }
    }

    /// Removes and returns the front message of the queue of the peer at
    /// `peer`; `None`, with the room unchanged, when there is no such peer or
    /// its queue is empty.
    pub fn pop_from(&mut self, peer: usize) -> (r: Option<Frame>)
        ensures
            (peer as int) < old(self)@.len() && old(self)@[peer as int].len() > 0 ==> r is Some
                && r->0@ == old(self)@[peer as int][0] && final(self)@ == old(self)@.update(
                peer as int,
                old(self)@[peer as int].drop_first(),
            ),
            !((peer as int) < old(self)@.len() && old(self)@[peer as int].len() > 0) ==> r is None
                && final(self)@ == old(self)@,
    {
        if peer < self.peers.len() {
            let q = &mut self.peers[peer];
            let r = q.dequeue();
            proof {
                if old(self)@[peer as int].len() > 0 {
                    assert(self@ =~= old(self)@.update(
                        peer as int,
                        old(self)@[peer as int].drop_first(),
                    ));
                } else {
                    assert(self@ =~= old(self)@);
                }
            }
            r
        } else {
            None
        }
    }
}

} // verus!
