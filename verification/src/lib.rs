//! Account-activity reconciliation for a layer-2 rollup operator's API.
//!
//! The crate derives a transaction's or priority operation's lifecycle status
//! from the raw persisted fields, paginates receipt listings over a composite
//! (block number, intra-block index) key, aggregates unconfirmed layer-1
//! deposits into speculative per-token balances, and assembles the unified
//! account view.  All collaborator I/O (the durable store, the core-service
//! feed, token metadata) stays outside: every function here is pure logic
//! over plain values.

pub mod account;
pub mod cursor;
pub mod deposits;
pub mod engine;
pub mod pagination;
pub mod receipts;
pub mod types;
