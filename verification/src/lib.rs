//! An in-memory pool of unconfirmed transactions.
//!
//! The pool takes transactions that a validator has found valid, keeps them
//! keyed by sender and nonce, and parts them into three sub-pools by
//! readiness: *pending* for what can go into the next block, *base-fee* for
//! what only lacks a high enough fee cap, and *queued* for what waits for a
//! missing nonce or for funds. It hands out the best pending transactions
//! for block building and tells its listeners what happens to each
//! transaction.
//!
//! - [`pool`] holds the pool itself: the model of its residents, the
//!   sub-pool stores, admission, eviction, the updates on new blocks, the
//!   stream of the best transactions and the listeners.
//! - [`transaction`], [`identifier`], [`state`], [`config`] and [`error`]
//!   hold the values that the pool works on.
//! - [`maintain`] decides what the pool is told when the chain moves.
//! - [`primitives`], [`hex_bytes`], [`rpc_compat`], [`execute`] and
//!   [`prune`] hold values and conversions of the surrounding node.

pub mod config;
pub mod error;
pub mod execute;
pub mod hex_bytes;
pub mod identifier;
pub mod maintain;
pub mod pool;
pub mod primitives;
pub mod prune;
pub mod rpc_compat;
pub mod state;
pub mod transaction;
