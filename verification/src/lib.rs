//! Coordination core for trustless multi-party CoinJoin pools.
//!
//! Independent peers, each owning one input coin, advertise and discover
//! pools on a public relay, commit one input and one equal-value output
//! each, and converge on a single canonical transaction template that all
//! of them sign.  This crate holds the protocol logic itself: the pool
//! directory, the per-participant session state machine, and the
//! deterministic transaction builder.  Wallets, chain data sources and the
//! relay transport are external collaborators reached from unverified glue
//! around this library.

pub mod builder;
pub mod directory;
pub mod order;
pub mod results;
pub mod session;
pub mod types;
