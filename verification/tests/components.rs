//! Behaviour of the building blocks: frames, the per-peer outbound queue, and
//! the per-connection relay steps.

use room_relay::frame::Frame;
use room_relay::queue::OutboundQueue;
use room_relay::registry::RoomMap;
use room_relay::relay::{handle_inbound, next_outbound, phase_step, register, RelayEvent, RelayPhase};

#[test]
fn data_and_control_frames() {
    assert!(Frame::Text("t".to_string()).is_data());
    assert!(Frame::Binary(vec![1]).is_data());
    assert!(!Frame::Control.is_data());
}

#[test]
fn clone_keeps_the_payload() {
    let t = Frame::Text("payload".to_string());
    assert_eq!(t.clone(), t);
    let b = Frame::Binary(vec![9, 8, 7]);
    assert_eq!(b.clone(), b);
    assert_eq!(Frame::Control.clone(), Frame::Control);
}

#[test]
fn queue_is_fifo() {
    let mut q = OutboundQueue::new();
    assert_eq!(q.len(), 0);
    assert_eq!(q.dequeue(), None);

    q.enqueue(Frame::Text("one".to_string()));
    q.enqueue(Frame::Binary(vec![2]));
    q.enqueue(Frame::Text("three".to_string()));
    assert_eq!(q.len(), 3);

    assert_eq!(q.dequeue(), Some(Frame::Text("one".to_string())));
    assert_eq!(q.dequeue(), Some(Frame::Binary(vec![2])));
    assert_eq!(q.dequeue(), Some(Frame::Text("three".to_string())));
    assert_eq!(q.dequeue(), None);
}

#[test]
fn relay_phases_follow_the_lifecycle() {
    let p = RelayPhase::Joining;
    let p = phase_step(p, RelayEvent::Registered);
    assert_eq!(p, RelayPhase::Active);
    let p = phase_step(p, RelayEvent::LoopExited);
    assert_eq!(p, RelayPhase::Draining);
    let p = phase_step(p, RelayEvent::LoopExited);
    assert_eq!(p, RelayPhase::Closed);
    // Closed absorbs everything.
    assert_eq!(phase_step(p, RelayEvent::LoopExited), RelayPhase::Closed);
    assert_eq!(phase_step(p, RelayEvent::Registered), RelayPhase::Closed);
    // A loop exit before registration changes nothing.
    assert_eq!(
        phase_step(RelayPhase::Joining, RelayEvent::LoopExited),
        RelayPhase::Joining
    );
}

#[test]
fn receive_step_forwards_data_and_drops_control() {
    let mut rooms = RoomMap::new();
    let me = register(&mut rooms, "chat");
    let other = register(&mut rooms, "chat");
    assert_eq!(me, 0);
    assert_eq!(other, 1);

    // A control frame is read but not forwarded.
    handle_inbound(&mut rooms, "chat", me, &Frame::Control);
    assert_eq!(next_outbound(&mut rooms, "chat", other), None);

    // A data frame is fanned out to the other peer, not back to the sender.
    let hello = Frame::Text("hello".to_string());
    handle_inbound(&mut rooms, "chat", me, &hello);
    assert_eq!(next_outbound(&mut rooms, "chat", other), Some(hello.clone()));
    assert_eq!(next_outbound(&mut rooms, "chat", other), None);
    assert_eq!(next_outbound(&mut rooms, "chat", me), None);
}

#[test]
fn transmit_step_drains_in_order() {
    let mut rooms = RoomMap::new();
    let a = register(&mut rooms, "r");
    let b = register(&mut rooms, "r");

    handle_inbound(&mut rooms, "r", a, &Frame::Text("m1".to_string()));
    handle_inbound(&mut rooms, "r", a, &Frame::Text("m2".to_string()));

    assert_eq!(
        next_outbound(&mut rooms, "r", b),
        Some(Frame::Text("m1".to_string()))
    );
    assert_eq!(
        next_outbound(&mut rooms, "r", b),
        Some(Frame::Text("m2".to_string()))
    );
    assert_eq!(next_outbound(&mut rooms, "r", b), None);
}
