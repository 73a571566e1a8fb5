//! Core of a cooperative multi-fuzzer orchestrator.
//!
//! The library holds the verified logic of the master process: the wire
//! message codec, per-driver path and argument derivation, the winner
//! selection strategies, the slow-driver throttling state machine, and the
//! structured log formats, together with the pure parts of the post-run log
//! analyzers. All process, socket, filesystem and signal handling lives in
//! the unverified edge around the library.

pub mod common;
pub mod coverage;
pub mod driver;
pub mod inputs;
pub mod intervals;
pub mod master;
pub mod messages;
pub mod metric;
pub mod strutil;
pub mod winning;
