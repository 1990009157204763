//! Coordination core of a small peer-to-peer chat and voice room.
//!
//! One peer of a room acts as its server. This crate holds the rules by which
//! that role is handed out and kept alive, the room's membership and message
//! window, per-peer latency bookkeeping, the invite token, the framing of
//! messages on a byte stream, and the phases of a protocol switch. Sockets,
//! tasks and storage live outside: callers hand in plain values and carry out
//! the actions that the functions here decide on.

pub mod addr;
pub mod time;
pub mod ident;
pub mod order;
pub mod text;
pub mod numerals;
pub mod networking;
pub mod framing;
pub mod reader;
pub mod fanout;
pub mod user;
pub mod election;
pub mod naming;
pub mod room;
pub mod ping;
pub mod protocol;
pub mod invite;
pub mod storage;
pub mod commands;
pub mod room_laws;
