//! Room registry of a multi-room broadcast chat: rooms, membership ids,
//! and fan-out of events with pruning of dead recipients.

pub mod message;
pub mod delivery;
pub mod room;
pub mod server;
pub mod session;
