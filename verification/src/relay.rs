//! The per-connection relay: its lifecycle state machine and the decisions of
//! its two loops. The transmit loop drains the connection's outbound queue to
//! the wire; the receive loop reads inbound frames and fans data frames out to
//! the peer's room. The wire itself is outside this library; callers perform
//! the transport work and drive these functions with what it yields.

use vstd::prelude::*;

use crate::frame::{Frame, FrameView};
use crate::queue::OutboundQueue;
use crate::registry::{broadcast_view, join_view, room_view, RoomMap};

verus! {

/// Where a connection's relay stands. `Joining`: registration in progress.
/// `Active`: both loops running. `Draining`: one loop has ended, the other
/// still runs. `Closed`: both ended; nothing further happens, and the peer's
/// slot stays in its room.
#[derive(Clone, Copy, PartialEq, Eq, Structural, Debug)]
pub enum RelayPhase {
    Joining,
    Active,
    Draining,
    Closed,
}

/// What moves a relay between phases: registration finishing, or one of the
/// two loops ending (by stream end or by an I/O failure — the relay does not
/// distinguish them).
#[derive(Clone, Copy, PartialEq, Eq, Structural, Debug)]
pub enum RelayEvent {
    Registered,
    LoopExited,
}

/// The lifecycle transition: `Joining` becomes `Active` once registered; each
/// loop exit moves `Active` to `Draining` and `Draining` to `Closed`; neither
/// loop cancels the other, and `Closed` absorbs everything.
pub open spec fn spec_phase_step(p: RelayPhase, e: RelayEvent) -> RelayPhase {
    match (p, e) {
        (RelayPhase::Joining, RelayEvent::Registered) => RelayPhase::Active,
        (RelayPhase::Active, RelayEvent::LoopExited) => RelayPhase::Draining,
        (RelayPhase::Draining, RelayEvent::LoopExited) => RelayPhase::Closed,
        _ => p,
    }
}

/// Advances a relay's phase by one event, exactly as [`spec_phase_step`] says.
pub fn phase_step(p: RelayPhase, e: RelayEvent) -> (q: RelayPhase)
    ensures
        q == spec_phase_step(p, e),
{
    match (p, e) {
        (RelayPhase::Joining, RelayEvent::Registered) => RelayPhase::Active,
        (RelayPhase::Active, RelayEvent::LoopExited) => RelayPhase::Draining,
        (RelayPhase::Draining, RelayEvent::LoopExited) => RelayPhase::Closed,
        _ => p,
    }
}

/// Once both loops of an active relay have ended — in either order, since the
/// two events are the same — the relay is closed, and only then.
pub proof fn lemma_both_exits_close(p: RelayPhase)
    requires
        p == RelayPhase::Active,
    ensures
        spec_phase_step(p, RelayEvent::LoopExited) != RelayPhase::Closed,
        spec_phase_step(spec_phase_step(p, RelayEvent::LoopExited), RelayEvent::LoopExited)
            == RelayPhase::Closed,
{
}

/// Registers a new connection into `room`: creates its (empty) outbound queue,
/// appends it to the room, and returns the index that identifies the
/// connection there — the room's size just before the join, assigned by the
/// append itself.
pub fn register(rooms: &mut RoomMap, room: &str) -> (idx: usize)
    requires
        old(rooms).wf(),
    ensures
        final(rooms).wf(),
        final(rooms)@ == join_view(old(rooms)@, room@, Seq::<FrameView>::empty()),
        idx as int == room_view(old(rooms)@, room@).len(),
{
    let q = OutboundQueue::new();
    rooms.join(room, q)
}

/// One step of the receive loop: a data frame read from the wire is fanned out
/// to the peer's room with the reading connection (`my_index`) excluded; a
/// control frame is read and dropped, leaving the registry unchanged.
pub fn handle_inbound(rooms: &mut RoomMap, room: &str, my_index: usize, msg: &Frame)
    requires
        old(rooms).wf(),
    ensures
        final(rooms).wf(),
        msg@.is_data() ==> final(rooms)@ == broadcast_view(
            old(rooms)@,
            room@,
            my_index as int,
            msg@,
        ),
        !msg@.is_data() ==> final(rooms)@ == old(rooms)@,
{
    if msg.is_data() {
        rooms.broadcast(room, my_index, msg);
    }
}

/// One step of the transmit loop: the next message to write to the wire for
/// the peer at `my_index` of `room`, taken off the front of its outbound
/// queue; `None` when nothing is waiting.
pub fn next_outbound(rooms: &mut RoomMap, room: &str, my_index: usize) -> (r: Option<Frame>)
    requires
        old(rooms).wf(),
    ensures
        final(rooms).wf(),
        final(rooms)@ == crate::registry::pop_view(old(rooms)@, room@, my_index as int),
        match r {
            Some(f) => crate::registry::can_pop(old(rooms)@, room@, my_index as int) && f@ == old(
                rooms,
            )@[room@][my_index as int][0],
            None => !crate::registry::can_pop(old(rooms)@, room@, my_index as int),
        },
{
    rooms.pop_message(room, my_index)
}

} // verus!
