//! Verified core of a room-based chat relay.
//!
//! The crate has two verified components. The coordinator owns the session
//! registry and the room membership maps and turns each protocol event
//! (connect, disconnect, join, chat message, room listing) into a new state
//! plus a list of outbound broadcast groups. The session module owns one
//! connection's protocol state: it parses inbound frames into commands,
//! tracks liveness through heartbeats, and decides which events to send to
//! the coordinator. Neither component performs any I/O: a thin unverified
//! shell delivers the broadcast groups and runs the timers.

pub mod coordinator;
pub mod session;
pub mod text;
