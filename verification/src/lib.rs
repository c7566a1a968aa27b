//! An in-memory key/value server core speaking the RESP wire protocol,
//! with master/replica replication bookkeeping.
//!
//! The crate holds the pure, verified logic: the wire codec, the command
//! model, the keyspace with lazy expiry, the per-connection handlers and
//! the replication offset accounting. All socket and file I/O lives with
//! the caller, which hands plain values in and takes plain values back.

pub mod config;
pub mod redis;
pub mod store;
pub mod resp;
pub mod text;
