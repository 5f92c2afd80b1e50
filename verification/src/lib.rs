//! Cluster-state caches and block decoding for a lightweight relay node.
//!
//! The crate keeps a bounded view of what a cluster reports: the current and
//! the estimated slot, a sliding window of slot leaders, per-block metadata at
//! each commitment level, the fee and compute-unit records decoded from full
//! blocks, and the stake weight of one identity among all validators. Every
//! function here works on values already fetched; fetching is the caller's part.

use vstd::prelude::*;

pub mod block_processor;
pub mod block_store;
pub mod compute_budget;
pub mod data_cache;
pub mod identity_stakes;
pub mod leader_schedule;
pub mod scan;
pub mod solana_utils;
pub mod transaction;
pub mod transaction_sent_info;

verus! {

/// A position in the chain.
pub type Slot = u64;

} // verus!
