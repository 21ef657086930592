//! A real-time multiplayer session broker for a rock-paper-scissors lobby
//! server: rooms keyed by short generated codes, a registry of live
//! connections, and a per-connection session state machine that routes
//! protocol messages between room members and a server-driven game step.

pub mod codes;
pub mod hand;
pub mod messages;
mod random;
pub mod registry;
pub mod session;
pub mod store;
