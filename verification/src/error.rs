//! What admission to the pool can fail with.

use crate::primitives::{Address, TxHash};
use vstd::prelude::*;

verus! {

/// Why the validator found a transaction invalid for good: the policy
/// that it breaks, or a reason of the validator's own.
#[derive(Debug, Clone, PartialEq, Eq)]
pub enum InvalidPoolTransactionError {
    /// The fee exceeds a configured cap.
    TxFeeExceedsCap,
    /// The transaction takes more slots than a transaction may.
    ExceedsSlotLimit,
    /// The init code of the creation is too large.
    ExceedsMaxInitCodeSize,
    /// The price is below what the pool accepts.
    Underpriced,
    /// Any other reason, in the validator's words.
    Other(String),
}

/// Why a transaction was not admitted, or did not stay.
#[derive(Debug, Clone, PartialEq, Eq)]
pub enum PoolError {
    /// The validator found the transaction invalid for good, for the
    /// reason that stands with the hash.
    InvalidTransaction(TxHash, InvalidPoolTransactionError),
    /// The nonce lies below the sender's nonce on chain.
    NonceTooLow { hash: TxHash, sender: Address, nonce: u64, state_nonce: u64 },
    /// The transaction would replace a resident one without paying the price bump.
    ReplacementUnderpriced(TxHash),
    /// A transaction with this hash is in the pool already.
    AlreadyImported(TxHash),
    /// The sender holds as many transactions as one sender may, and none of
    /// them gives way to this one.
    SpammerExceededCap(Address),
    /// The transaction was admitted and then evicted at once, to keep the size bounds.
    DiscardedOnInsert(TxHash),
    /// Any other failure of the validator or the pool; the cause is opaque.
    Other(TxHash, String),
}

/// What admission returns.
pub type PoolResult<T> = Result<T, PoolError>;

} // verus!
