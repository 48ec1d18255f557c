//! A sharded in-memory key-value store with per-key expiry, a write-ahead
//! log and snapshots.
//!
//! The crate holds what a shard decides and computes: how a request changes
//! the state and what is answered, which keys a sweep removes, how a log
//! record is laid out and read back, how a shard is rebuilt at startup, and
//! which shard a key belongs to. Sockets, files, timers and tasks lie
//! outside; they hand the crate plain values and carry out what it returns.
//!
//! [`model`] states what a shard is and does, over maps and multisets;
//! [`laws`] proves what follows. The executable types have a view into the
//! model, and their contracts are equations over it.
pub mod command;
pub mod text;
pub mod parser;
pub mod order;
pub mod expiry;
pub mod table;
pub mod model;
pub mod apply;
pub mod laws;
pub mod wal;
pub mod snapshot;
pub mod shard;
pub mod router;
pub mod engine;
pub mod connection;
