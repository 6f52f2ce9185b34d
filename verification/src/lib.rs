//! Core of a Byzantine-fault-tolerant agreement engine.
//!
//! Among a fixed set of `n` validator nodes, of which up to `f = (n - 1) / 3`
//! may be faulty, the engine decides the single block digest to commit at each
//! sequence number.  It runs a three-phase quorum protocol
//! (pre-prepare / prepare / commit) under a numbered view whose primary is
//! chosen round-robin, replaces an unresponsive or faulty primary through a
//! view-change sub-protocol, and periodically agrees on a stable checkpoint
//! below which the message log is pruned.
//!
//! The library is the pure decision core: every transition is a function from
//! the node's state and one event (a peer message or a timer expiry) to the
//! next state and a list of actions for the caller to perform.  Transport,
//! signing and the ledger itself stay outside; the caller verifies signatures
//! before handing a message in and carries the returned actions out.

pub mod config;
pub mod error;
pub mod log;
pub mod message;
pub mod node;
