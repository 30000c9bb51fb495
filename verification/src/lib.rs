//! A verified core of a Redis-compatible server: the RESP wire codec,
//! the key/value and stream stores with TTL expiry, the command
//! dispatcher, the replication bookkeeping and the RDB snapshot reader.
//!
//! Networking, timers and process wiring live outside this crate; every
//! function here is a total computation from plain values to plain values,
//! specified by its contract.

pub mod assoc;
pub mod command;
pub mod dispatch;
pub mod loader;
pub mod master;
pub mod message;
pub mod rdb;
pub mod replica;
pub mod replication;
pub mod resp;
pub mod store;
pub mod stream;
pub mod text;
