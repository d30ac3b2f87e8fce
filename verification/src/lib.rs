//! Checkpoint and session tracking for a working directory.
//!
//! The crate keeps two flat collections, checkpoints and sessions, in memory,
//! generates unique identifiers for new records, enforces the session
//! lifecycle (at most one active session at a time), and renders and parses
//! the persisted form of both collections, with the round trip proved.
//! Reading the working directory and moving the documents to and from disk
//! are left to the embedding host, which hands the results in as plain
//! values.

pub mod checkpoint;
pub mod ids;
pub mod laws;
pub mod persist;
pub mod types;
