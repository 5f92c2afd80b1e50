//! What is kept of a transaction that was handed on for forwarding.

use vstd::prelude::*;

use crate::Slot;

verus! {

/// A transaction in the form it travels in.
pub type WireTransaction = Vec<u8>;

/// A transaction on its way to the leaders.
#[derive(Clone, Debug, PartialEq, PartialOrd, Eq)]
pub struct SentTransactionInfo {
    pub signature: String,
    pub slot: Slot,
    pub transaction: WireTransaction,
    pub last_valid_block_height: u64,
    pub prioritization_fee: u64,
}

} // verus!
