//! Behaviour of the room registry: join, fan-out with sender exclusion,
//! silent no-op on unknown rooms, and isolation between rooms.

use room_relay::frame::Frame;
use room_relay::queue::OutboundQueue;
use room_relay::registry::RoomMap;

#[test]
fn test_room_join_and_broadcast() {
    let mut rooms = RoomMap::new();

    let i1 = rooms.join("test_room", OutboundQueue::new());
    let i2 = rooms.join("test_room", OutboundQueue::new());
    let i3 = rooms.join("test_room", OutboundQueue::new());
    assert_eq!(i1, 0);
    assert_eq!(i2, 1);
    assert_eq!(i3, 2);

    let msg = Frame::Text("Hello peers".to_string());

    // Peer at index 0 sends the message.
    rooms.broadcast("test_room", 0, &msg);

    // Peers 1 and 2 each received it.
    assert_eq!(rooms.pop_message("test_room", 1), Some(msg.clone()));
    assert_eq!(rooms.pop_message("test_room", 2), Some(msg.clone()));

    // The sender received nothing.
    assert_eq!(rooms.pop_message("test_room", 0), None);
}

#[test]
fn test_broadcast_empty_room_does_nothing() {
    let mut rooms = RoomMap::new();
    let msg = Frame::Text("Ping".to_string());

    // The room does not exist: the call returns normally.
    rooms.broadcast("no_room", 0, &msg);
    assert!(!rooms.contains_room("no_room"));
    assert_eq!(rooms.room_size("no_room"), 0);
}

#[test]
fn test_multiple_rooms_isolated() {
    let mut rooms = RoomMap::new();

    let a = rooms.join("room_a", OutboundQueue::new());
    let b = rooms.join("room_b", OutboundQueue::new());
    assert_eq!(a, 0);
    assert_eq!(b, 0);

    let msg = Frame::Text("Message".to_string());

    rooms.broadcast("room_a", 0, &msg);

    // Nothing arrived in room_b.
    assert_eq!(rooms.pop_message("room_b", 0), None);
    // room_a holds only the sender, so it received nothing either.
    assert_eq!(rooms.pop_message("room_a", 0), None);
}

#[test]
fn lobby_broadcast_reaches_every_other_peer_once() {
    let mut rooms = RoomMap::new();

    // A, B, C join the lobby in that order.
    assert_eq!(rooms.join("lobby", OutboundQueue::new()), 0);
    assert_eq!(rooms.join("lobby", OutboundQueue::new()), 1);
    assert_eq!(rooms.join("lobby", OutboundQueue::new()), 2);

    let hi = Frame::Text("hi".to_string());
    rooms.broadcast("lobby", 0, &hi);

    // B and C each received "hi" exactly once.
    assert_eq!(rooms.pop_message("lobby", 1), Some(hi.clone()));
    assert_eq!(rooms.pop_message("lobby", 1), None);
    assert_eq!(rooms.pop_message("lobby", 2), Some(hi.clone()));
    assert_eq!(rooms.pop_message("lobby", 2), None);

    // A received nothing.
    assert_eq!(rooms.pop_message("lobby", 0), None);
}

#[test]
fn ghost_room_broadcast_affects_no_peer_anywhere() {
    let mut rooms = RoomMap::new();
    rooms.join("lobby", OutboundQueue::new());

    let msg = Frame::Binary(vec![1, 2, 3]);
    rooms.broadcast("ghost", 7, &msg);

    assert!(!rooms.contains_room("ghost"));
    assert_eq!(rooms.room_size("lobby"), 1);
    assert_eq!(rooms.pop_message("lobby", 0), None);
}

#[test]
fn lone_sender_delivers_to_nobody() {
    let mut rooms = RoomMap::new();

    // Room "a" holds one peer, who is also the broadcaster; room "b" holds
    // one unrelated peer.
    assert_eq!(rooms.join("a", OutboundQueue::new()), 0);
    assert_eq!(rooms.join("b", OutboundQueue::new()), 0);

    let msg = Frame::Text("solo".to_string());
    rooms.broadcast("a", 0, &msg);

    assert_eq!(rooms.pop_message("a", 0), None);
    assert_eq!(rooms.pop_message("b", 0), None);
}

#[test]
fn peer_transmits_in_enqueue_order() {
    let mut rooms = RoomMap::new();
    assert_eq!(rooms.join("fifo", OutboundQueue::new()), 0);
    assert_eq!(rooms.join("fifo", OutboundQueue::new()), 1);

    let m1 = Frame::Text("first".to_string());
    let m2 = Frame::Binary(vec![0xAB]);

    // Two messages reach peer 1, from two different senders.
    rooms.broadcast("fifo", 0, &m1);
    rooms.broadcast("fifo", 2, &m2);

    assert_eq!(rooms.pop_message("fifo", 1), Some(m1.clone()));
    assert_eq!(rooms.pop_message("fifo", 1), Some(m2.clone()));
    assert_eq!(rooms.pop_message("fifo", 1), None);
}

#[test]
fn join_assigns_consecutive_unique_indices() {
    let mut rooms = RoomMap::new();
    let mut seen: Vec<usize> = Vec::new();
    for _ in 0..5 {
        let idx = rooms.join("crowd", OutboundQueue::new());
        assert!(!seen.contains(&idx));
        seen.push(idx);
    }
    assert_eq!(seen, vec![0, 1, 2, 3, 4]);
    assert_eq!(rooms.room_size("crowd"), 5);
}

#[test]
fn exclusion_index_beyond_room_excludes_nobody() {
    let mut rooms = RoomMap::new();
    rooms.join("r", OutboundQueue::new());
    rooms.join("r", OutboundQueue::new());

    let msg = Frame::Text("all".to_string());
    rooms.broadcast("r", 9, &msg);

    assert_eq!(rooms.pop_message("r", 0), Some(msg.clone()));
    assert_eq!(rooms.pop_message("r", 1), Some(msg.clone()));
}

#[test]
fn pop_message_on_missing_room_or_peer_is_none() {
    let mut rooms = RoomMap::new();
    assert_eq!(rooms.pop_message("nowhere", 0), None);
    rooms.join("r", OutboundQueue::new());
    assert_eq!(rooms.pop_message("r", 5), None);
}
