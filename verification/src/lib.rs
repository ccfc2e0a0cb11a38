//! Fan-out core of a real-time message relay: connections join named rooms,
//! and every data message a connection sends is delivered to the outbound
//! queue of every other peer in the same room.

pub mod frame;
pub mod queue;
pub mod registry;
pub mod relay;
pub mod room;
