//! The core of a terminal pastebin server.
//!
//! A paste arrives on a socket, is stored under a short base-36 identifier,
//! and is deleted when its lifetime is over. This library holds what the
//! server decides and computes; reading, writing, sleeping and the threads
//! are the caller's.
//!
//! - `base36`: identifiers as numbers, and back.
//! - `id_gen`: the generators that hand out unique identifiers.
//! - `proxy`: the PROXY-protocol header before a paste.
//! - `paste`: what a worker does with the bytes of a connection.
//! - `expiry`: when a paste is deleted, and what that frees.
//! - `startup`: what becomes of the pastes of an earlier run.
//! - `text`: numbers and durations as the replies spell them.

pub mod base36;
pub mod expiry;
pub mod id_gen;
pub mod paste;
pub mod proxy;
pub mod startup;
pub mod text;
