//! Collaboration core for a real-time shared-whiteboard backend.
//!
//! The crate covers the CRDT sync wire protocol, the per-board room state
//! (document, broadcast bus, member set), the room registry, the
//! per-connection dispatch rules, and the token/claims logic that guards
//! the socket upgrade.  Socket, storage and HTTP plumbing live outside.

pub mod access;
pub mod api_types;
pub mod auth;
pub mod bus;
pub mod config;
pub mod doc;
pub mod json;
pub mod laws;
pub mod room;
pub mod session;
pub mod sync;
pub mod varint;
