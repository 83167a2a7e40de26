//! Core accounting engine of a two-pool staking and revenue-sharing ledger.
//!
//! Delegators stake tokens into a Growth pool and a Profit pool and receive
//! a pro-rata share of subsequent cash flows: income is split between both
//! pools, outlay is absorbed only by the Growth pool.  Settlement is
//! snapshot-based and incremental: each cash-flow event appends to (or
//! coalesces into) a reference-counted snapshot log, and per-owner
//! delegation checkpoints are folded over the log lazily at claim time.
//!
//! Storage, token transfers and access-control resolution are external
//! collaborators: the engine state lives in [`state::House`], every
//! operation is a plain function from state and event to new state and
//! result, and callers perform the scheduled transfers.

pub mod error;
pub mod models;
pub mod claim;
pub mod execute;
pub mod laws;
pub mod msg;
pub mod query;
pub mod state;
pub mod util;
