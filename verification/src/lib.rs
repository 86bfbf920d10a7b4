//! A single-room chat relay: the wire envelope and its sanitizer, the presence
//! registry, the roster builder and the per-connection protocol state machine.
//!
//! Everything here is plain computation on plain values. Sockets, the
//! broadcast channel and the lock around the registry belong to the program
//! that embeds this library.

pub mod chat;
pub mod codec;
pub mod envelope;
pub mod escape;
pub mod registry;
pub mod room;
pub mod roster;
pub mod session;
pub mod text;
