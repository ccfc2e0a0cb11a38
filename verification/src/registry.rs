//! The room registry: a mapping from room name to room, created lazily on
//! first join and shared by every connection. Its mathematical value is a map
//! from the name's character sequence to the room's peer-queue sequences.

use vstd::prelude::*;

use crate::frame::{Frame, FrameView};
use crate::queue::OutboundQueue;
use crate::room::{deliver, Room};

verus! {

/// The peer queues of room `k` in registry `m`; the empty sequence when no
/// room of that name exists yet.
pub open spec fn room_view(
    m: Map<Seq<char>, Seq<Seq<FrameView>>>,
    k: Seq<char>,
) -> Seq<Seq<FrameView>> {
    if m.contains_key(k) {
        m[k]
    } else {
        Seq::empty()
    }
}

/// The registry after a peer with queue `q` joins room `k`: the room (created
/// empty when absent) grows by that queue at the back.
pub open spec fn join_view(
    m: Map<Seq<char>, Seq<Seq<FrameView>>>,
    k: Seq<char>,
    q: Seq<FrameView>,
) -> Map<Seq<char>, Seq<Seq<FrameView>>> {
    m.insert(k, room_view(m, k).push(q))
}

/// The registry after `f` is broadcast in room `k` with the peer at `ex`
/// excluded: when the room exists its queues change as [`deliver`] says;
/// when it does not, the registry is unchanged — a silent no-op.
pub open spec fn broadcast_view(
    m: Map<Seq<char>, Seq<Seq<FrameView>>>,
    k: Seq<char>,
    ex: int,
    f: FrameView,
) -> Map<Seq<char>, Seq<Seq<FrameView>>> {
    if m.contains_key(k) {
        m.insert(k, deliver(m[k], ex, f))
    } else {
        m
    }
}

/// Whether the peer at `p` in room `k` has a message waiting to transmit.
pub open spec fn can_pop(m: Map<Seq<char>, Seq<Seq<FrameView>>>, k: Seq<char>, p: int) -> bool {
    m.contains_key(k) && 0 <= p < m[k].len() && m[k][p].len() > 0
}

/// The registry after the peer at `p` in room `k` takes the front message off
/// its outbound queue; unchanged when there is nothing to take.
pub open spec fn pop_view(m: Map<Seq<char>, Seq<Seq<FrameView>>>, k: Seq<char>, p: int) -> Map<
    Seq<char>,
    Seq<Seq<FrameView>>,
> {
    if can_pop(m, k, p) {
        m.insert(k, m[k].update(p, m[k][p].drop_first()))
    } else {
        m
    }
}

/// One named room of the registry.
struct RoomEntry {
    name: String,
    room: Room,
}

/// No two entries carry the same name, so a name identifies one room.
spec fn names_unique(s: Seq<RoomEntry>) -> bool {
    forall|i: int, j: int| 0 <= i < j < s.len() ==> s[i].name@ != s[j].name@
}

/// Whether some entry carries the name `k`.
spec fn has_name(s: Seq<RoomEntry>, k: Seq<char>) -> bool {
    exists|i: int| 0 <= i < s.len() && s[i].name@ == k
}

/// The index of the entry named `k` (meaningful only when `has_name` holds
/// and names are unique).
spec fn index_of(s: Seq<RoomEntry>, k: Seq<char>) -> int {
    choose|i: int| 0 <= i < s.len() && s[i].name@ == k
}

/// The mapping the entries stand for.
spec fn map_of(s: Seq<RoomEntry>) -> Map<Seq<char>, Seq<Seq<FrameView>>> {
    Map::new(|k: Seq<char>| has_name(s, k), |k: Seq<char>| s[index_of(s, k)].room@)
}

/// With unique names, the entry at `i` is exactly the one `index_of` finds for
/// its own name, and the map holds its room under that name.
proof fn lemma_entry_lookup(s: Seq<RoomEntry>, i: int)
    requires
        names_unique(s),
        0 <= i < s.len(),
    ensures
        has_name(s, s[i].name@),
        index_of(s, s[i].name@) == i,
        map_of(s).contains_key(s[i].name@),
        map_of(s)[s[i].name@] == s[i].room@,
{
    assert(has_name(s, s[i].name@));
    let j = index_of(s, s[i].name@);
    assert(0 <= j < s.len() && s[j].name@ == s[i].name@);
    assert(j == i);
}

/// Replacing the room of the entry at `i`, with its name kept, inserts the new
/// room under that name and leaves every other name's room alone.
proof fn lemma_update_room(s: Seq<RoomEntry>, t: Seq<RoomEntry>, i: int)
    requires
        names_unique(s),
        0 <= i < s.len(),
        t.len() == s.len(),
        t[i].name@ == s[i].name@,
        forall|j: int| 0 <= j < s.len() && j != i ==> t[j] == s[j],
    ensures
        names_unique(t),
        map_of(t) == map_of(s).insert(s[i].name@, t[i].room@),
{
    assert forall|a: int, b: int| 0 <= a < b < t.len() implies t[a].name@ != t[b].name@ by {
        assert(t[a].name@ == s[a].name@);
        assert(t[b].name@ == s[b].name@);
    }
    let k = s[i].name@;
    assert forall|k2: Seq<char>| #[trigger] has_name(t, k2) == has_name(s, k2) by {
        if has_name(t, k2) {
            let a = choose|a: int| 0 <= a < t.len() && t[a].name@ == k2;
            assert(s[a].name@ == k2);
            assert(has_name(s, k2));
        }
        if has_name(s, k2) {
            let a = choose|a: int| 0 <= a < s.len() && s[a].name@ == k2;
            assert(t[a].name@ == k2);
            assert(has_name(t, k2));
        }
    }
    lemma_entry_lookup(s, i);
    lemma_entry_lookup(t, i);
    assert forall|k2: Seq<char>| has_name(s, k2) && k2 != k implies map_of(t)[k2] == map_of(s)[k2] by {
        let a = index_of(s, k2);
        assert(0 <= a < s.len() && s[a].name@ == k2);
        assert(a != i);
        assert(t[a].name@ == k2);
        lemma_entry_lookup(t, a);
        lemma_entry_lookup(s, a);
        assert(map_of(t)[k2] == t[a].room@);
        assert(t[a].room@ == s[a].room@);
    }
    assert(map_of(t) =~= map_of(s).insert(k, t[i].room@));
}

/// Appending an entry with a fresh name keeps names unique and inserts its
/// room under its name, leaving every existing name's room alone.
proof fn lemma_push_room(s: Seq<RoomEntry>, e: RoomEntry)
    requires
        names_unique(s),
        !has_name(s, e.name@),
    ensures
        names_unique(s.push(e)),
        map_of(s.push(e)) == map_of(s).insert(e.name@, e.room@),
{
    let t = s.push(e);
    assert forall|a: int, b: int| 0 <= a < b < t.len() implies t[a].name@ != t[b].name@ by {
        if b == s.len() {
            assert(t[a] == s[a]);
            if t[a].name@ == e.name@ {
                assert(has_name(s, e.name@));
            }
        } else {
            assert(t[a] == s[a]);
            assert(t[b] == s[b]);
        }
    }
    assert(t[s.len() as int] == e);
    lemma_entry_lookup(t, s.len() as int);
    assert forall|k2: Seq<char>| #[trigger] has_name(s, k2) implies has_name(t, k2) && map_of(t)[k2]
        == map_of(s)[k2] by {
        let a = index_of(s, k2);
        assert(0 <= a < s.len() && s[a].name@ == k2);
        assert(t[a].name@ == k2);
        lemma_entry_lookup(t, a);
        lemma_entry_lookup(s, a);
    }
    assert forall|k2: Seq<char>| #[trigger] has_name(t, k2) && k2 != e.name@ implies has_name(
        s,
        k2,
    ) by {
        let a = choose|a: int| 0 <= a < t.len() && t[a].name@ == k2;
        assert(a != s.len());
        assert(s[a].name@ == k2);
    }
    assert(map_of(t) =~= map_of(s).insert(e.name@, e.room@));
}

/// Relies on `<str as PartialEq>::eq`: two string slices are equal exactly
/// when their character sequences are.
#[verifier::external_body]
fn str_eq(a: &str, b: &str) -> (r: bool)
    ensures
        r == (a@ == b@),
{
    a == b
}

/// The room registry: room name to room, keys unique, rooms created lazily on
/// the first join to a name and never removed.
pub struct RoomMap {
    entries: Vec<RoomEntry>,
}

impl View for RoomMap {
    type V = Map<Seq<char>, Seq<Seq<FrameView>>>;

    closed spec fn view(&self) -> Map<Seq<char>, Seq<Seq<FrameView>>> {
        map_of(self.entries@)
    }
}

impl RoomMap {
    /// Each room name keys exactly one room.
    pub closed spec fn wf(&self) -> bool {
        names_unique(self.entries@)
    }

    /// An empty registry with no rooms.
    pub fn new() -> (m: RoomMap)
        ensures
            m.wf(),
            m@ == Map::<Seq<char>, Seq<Seq<FrameView>>>::empty(),
    {
        let m = RoomMap { entries: Vec::new() };
        proof {
            assert(m@ =~= Map::<Seq<char>, Seq<Seq<FrameView>>>::empty());
        }
        m
    }

    /// The index of the entry named `room`, if any.
    fn find(&self, room: &str) -> (r: Option<usize>)
        requires
            self.wf(),
        ensures
            match r {
                Some(i) => i < self.entries@.len() && self.entries@[i as int].name@ == room@
                    && self@.contains_key(room@),
                None => !self@.contains_key(room@),
            },
    {
        let mut i: usize = 0;
        while i < self.entries.len()
            invariant
                self.wf(),
                i <= self.entries@.len(),
                forall|j: int| 0 <= j < i ==> self.entries@[j].name@ != room@,
            decreases self.entries@.len() - i,
        {
            if str_eq(self.entries[i].name.as_str(), room) {
                proof {
                    lemma_entry_lookup(self.entries@, i as int);
                }
                return Some(i);
            }
            i += 1;
        }
        proof {
            assert(!has_name(self.entries@, room@));
        }
        None
    }

    /// Whether a room of this name exists.
    pub fn contains_room(&self, room: &str) -> (b: bool)
        requires
            self.wf(),
        ensures
            b == self@.contains_key(room@),
    {
        self.find(room).is_some()
    }

    /// How many peers room `room` holds; zero when there is no such room.
    pub fn room_size(&self, room: &str) -> (n: usize)
        requires
            self.wf(),
        ensures
            n as int == room_view(self@, room@).len(),
    {
        match self.find(room) {
            Some(i) => {
                proof {
                    lemma_entry_lookup(self.entries@, i as int);
                }
                self.entries[i].room.len()
            },
            None => 0,
        }
    }

    /// Appends `peer` to the room named `room`, creating the room on its first
    /// join, and returns the index the peer was assigned: its position in the
    /// room's peer sequence, which is the room's size just before this join.
    /// The index is taken from the same append, not from a separate size
    /// query, so it names the slot the peer actually landed in.
    pub fn join(&mut self, room: &str, peer: OutboundQueue) -> (idx: usize)
        requires
            old(self).wf(),
        ensures
            final(self).wf(),
            final(self)@ == join_view(old(self)@, room@, peer@),
            idx as int == room_view(old(self)@, room@).len(),
    {
        let ghost pre = self.entries@;
        match self.find(room) {
            Some(i) => {
                proof {
                    lemma_entry_lookup(pre, i as int);
                }
                let e = &mut self.entries[i];
                let idx = e.room.add_peer(peer);
                proof {
                    lemma_update_room(pre, self.entries@, i as int);
                    assert(self@ =~= join_view(map_of(pre), room@, peer@));
                }
                idx
            },
            None => {
                let mut fresh = Room::new();
                let idx = fresh.add_peer(peer);
                let name = room.to_string();
                let entry = RoomEntry { name, room: fresh };
                self.entries.push(entry);
                proof {
                    assert(entry.room@ =~= Seq::<Seq<FrameView>>::empty().push(peer@));
                    lemma_push_room(pre, entry);
                    assert(self@ =~= join_view(map_of(pre), room@, peer@));
                }
                idx
            },
        }
    }

    /// Delivers `msg` to every peer of room `room` except the one at
    /// `exclude`: each other peer's queue receives exactly one copy of the
    /// message, appended at the back; the excluded peer receives nothing; no
    /// other room changes. A name with no room is a silent no-op: no error,
    /// no side effect.
    pub fn broadcast(&mut self, room: &str, exclude: usize, msg: &Frame)
        requires
            old(self).wf(),
        ensures
            final(self).wf(),
            final(self)@ == broadcast_view(old(self)@, room@, exclude as int, msg@),
    {
        let ghost pre = self.entries@;
        match self.find(room) {
            Some(i) => {
                proof {
                    lemma_entry_lookup(pre, i as int);
                }
                let e = &mut self.entries[i];
                e.room.fan_out(exclude, msg);
                proof {
                    lemma_update_room(pre, self.entries@, i as int);
                    assert(self@ =~= broadcast_view(map_of(pre), room@, exclude as int, msg@));
                }
            },
            None => {},
        }
    }

    /// Removes and returns the front message of the outbound queue of the
    /// peer at `peer` in room `room` — what the peer's transmit loop sends
    /// next. `None`, with the registry unchanged, when there is no such room,
    /// no such peer, or nothing waiting.
    pub fn pop_message(&mut self, room: &str, peer: usize) -> (r: Option<Frame>)
        requires
            old(self).wf(),
        ensures
            final(self).wf(),
            final(self)@ == pop_view(old(self)@, room@, peer as int),
            match r {
                Some(f) => can_pop(old(self)@, room@, peer as int) && f@ == old(self)@[room@][peer as int][0],
                None => !can_pop(old(self)@, room@, peer as int),
            },
    {
        let ghost pre = self.entries@;
        match self.find(room) {
            Some(i) => {
                proof {
                    lemma_entry_lookup(pre, i as int);
                }
                let e = &mut self.entries[i];
                let r = e.room.pop_from(peer);
                proof {
                    lemma_update_room(pre, self.entries@, i as int);
                    if can_pop(map_of(pre), room@, peer as int) {
                        assert(self@ =~= pop_view(map_of(pre), room@, peer as int));
                    } else {
                        assert(self@ =~= map_of(pre));
                    }
                }
                r
            },
            None => None,
        }
    }
}

/// Fan-out delivery is exact: when room `k` exists, a broadcast of `f`
/// excluding index `ex` leaves the room's size unchanged, gives every peer
/// `i != ex` exactly one copy — its queue afterwards is its old queue with
/// `f` appended once, the old contents untouched — and gives the peer at `ex`
/// zero copies, its queue unchanged.
pub proof fn lemma_broadcast_exact_delivery(
    m: Map<Seq<char>, Seq<Seq<FrameView>>>,
    k: Seq<char>,
    ex: int,
    f: FrameView,
    i: int,
)
    requires
        m.contains_key(k),
        0 <= i < m[k].len(),
    ensures
        broadcast_view(m, k, ex, f).contains_key(k),
        broadcast_view(m, k, ex, f)[k].len() == m[k].len(),
        i != ex ==> broadcast_view(m, k, ex, f)[k][i] == m[k][i].push(f),
        i != ex ==> broadcast_view(m, k, ex, f)[k][i].len() == m[k][i].len() + 1,
        i != ex ==> broadcast_view(m, k, ex, f)[k][i].last() == f,
        i != ex ==> broadcast_view(m, k, ex, f)[k][i].take(m[k][i].len() as int) == m[k][i],
        i == ex ==> broadcast_view(m, k, ex, f)[k][i] == m[k][i],
{
    if i != ex {
        assert(m[k][i].push(f).take(m[k][i].len() as int) =~= m[k][i]);
    }
}

/// Broadcasting to a name with no room is a no-op: no error, and the registry
/// — every room, every queue — is exactly as before.
pub proof fn lemma_broadcast_absent_room(
    m: Map<Seq<char>, Seq<Seq<FrameView>>>,
    k: Seq<char>,
    ex: int,
    f: FrameView,
)
    requires
        !m.contains_key(k),
    ensures
        broadcast_view(m, k, ex, f) == m,
{
}

/// Rooms are fully isolated: a broadcast in room `k` is never observed under
/// any other name — a different name holds a room afterwards exactly when it
/// did before, with every one of its queues unchanged.
pub proof fn lemma_broadcast_isolated(
    m: Map<Seq<char>, Seq<Seq<FrameView>>>,
    k: Seq<char>,
    ex: int,
    f: FrameView,
    k2: Seq<char>,
)
    requires
        k2 != k,
    ensures
        broadcast_view(m, k, ex, f).contains_key(k2) == m.contains_key(k2),
        room_view(broadcast_view(m, k, ex, f), k2) == room_view(m, k2),
{
}

/// The registry after `qs.len()` successive joins into room `k`, the `j`-th
/// of them adding a peer whose queue holds `qs[j]`.
pub open spec fn joins_view(
    m: Map<Seq<char>, Seq<Seq<FrameView>>>,
    k: Seq<char>,
    qs: Seq<Seq<FrameView>>,
) -> Map<Seq<char>, Seq<Seq<FrameView>>>
    decreases qs.len(),
{
    if qs.len() == 0 {
        m
    } else {
        join_view(joins_view(m, k, qs.drop_last()), k, qs.last())
    }
}

/// After `j` of the joins, the room's size is its starting size plus `j`.
/// Since `join` assigns each joiner the room's size just before its own join,
/// this is the index the `j`-th joiner receives: `base + j`.
pub proof fn lemma_join_index(
    m: Map<Seq<char>, Seq<Seq<FrameView>>>,
    k: Seq<char>,
    qs: Seq<Seq<FrameView>>,
    j: int,
)
    requires
        0 <= j <= qs.len(),
    ensures
        room_view(joins_view(m, k, qs.take(j)), k).len() == room_view(m, k).len() + j,
    decreases j,
{
    if j == 0 {
        assert(qs.take(0) =~= Seq::<Seq<FrameView>>::empty());
    } else {
        lemma_join_index(m, k, qs, j - 1);
        assert(qs.take(j).drop_last() =~= qs.take(j - 1));
        assert(qs.take(j).last() == qs[j - 1]);
    }
}

/// Joining `n` peers to a room yields a room of size `base + n` (`base` its
/// size beforehand, zero for a fresh room), and the indices `join` assigns —
/// the room's size before each join — are pairwise distinct; for a room that
/// did not exist before, they are exactly `0 .. n`.
pub proof fn lemma_joins_yield_unique_indices(
    m: Map<Seq<char>, Seq<Seq<FrameView>>>,
    k: Seq<char>,
    qs: Seq<Seq<FrameView>>,
)
    ensures
        room_view(joins_view(m, k, qs), k).len() == room_view(m, k).len() + qs.len(),
        forall|j1: int, j2: int|
            0 <= j1 < j2 <= qs.len() ==> room_view(joins_view(m, k, qs.take(j1)), k).len()
                != room_view(joins_view(m, k, qs.take(j2)), k).len(),
        !m.contains_key(k) ==> forall|j: int|
            0 <= j <= qs.len() ==> room_view(joins_view(m, k, qs.take(j)), k).len() == j,
{
    assert(qs.take(qs.len() as int) =~= qs);
    lemma_join_index(m, k, qs, qs.len() as int);
    assert forall|j1: int, j2: int| 0 <= j1 < j2 <= qs.len() implies room_view(
        joins_view(m, k, qs.take(j1)),
        k,
    ).len() != room_view(joins_view(m, k, qs.take(j2)), k).len() by {
        lemma_join_index(m, k, qs, j1);
        lemma_join_index(m, k, qs, j2);
    }
    if !m.contains_key(k) {
        assert forall|j: int| 0 <= j <= qs.len() implies room_view(
            joins_view(m, k, qs.take(j)),
            k,
        ).len() == j by {
            lemma_join_index(m, k, qs, j);
        }
    }
}

} // verus!
