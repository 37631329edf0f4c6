//! The three sub-pools and the chain state that decides between them.

use crate::primitives::{B256, U256};
use vstd::prelude::*;

verus! {

/// The sub-pool a transaction lives in.
#[derive(Clone, Copy, Debug, PartialEq, Eq, Structural, Hash)]
pub enum SubPool {
    /// Blocked by a nonce gap or by the sender's balance.
    Queued,
    /// Blocked only by a fee cap below the pending base fee.
    BaseFee,
    /// Executable on the current state.
    Pending,
}

impl SubPool {
    /// Whether this is the pending sub-pool.
    pub fn is_pending(&self) -> (r: bool)
        ensures
            r == (*self == SubPool::Pending),
    {
        match self {
            SubPool::Pending => true,
            _ => false,
        }
    }

    /// Whether this is the queued sub-pool.
    pub fn is_queued(&self) -> (r: bool)
        ensures
            r == (*self == SubPool::Queued),
    {
        match self {
            SubPool::Queued => true,
            _ => false,
        }
    }

    /// Whether this is the base-fee sub-pool.
    pub fn is_base_fee(&self) -> (r: bool)
        ensures
            r == (*self == SubPool::BaseFee),
    {
        match self {
            SubPool::BaseFee => true,
            _ => false,
        }
    }
}

/// What the chain has committed for a sender.
#[derive(Clone, Copy, Debug, PartialEq, Eq, Structural)]
pub struct SenderInfo {
    /// The next nonce the chain expects of the sender.
    pub state_nonce: u64,
    /// The sender's balance.
    pub balance: U256,
}

/// The block the pool last saw, and the base fee of the block to come.
#[derive(Clone, Copy, Debug, PartialEq, Eq, Structural)]
pub struct BlockInfo {
    /// The hash of the last block seen.
    pub last_seen_block_hash: B256,
    /// The number of the last block seen.
    pub last_seen_block_number: u64,
    /// The base fee of the block that will follow it.
    pub pending_basefee: u64,
}

impl BlockInfo {
    /// The same block with the pending base fee raised to `floor` where it is below.
    pub open spec fn floored(self, floor: u64) -> BlockInfo {
        BlockInfo {
            last_seen_block_hash: self.last_seen_block_hash,
            last_seen_block_number: self.last_seen_block_number,
            pending_basefee: if self.pending_basefee < floor {
                floor
            } else {
                self.pending_basefee
            },
        }
    }

    /// The same block with the pending base fee raised to `floor` where it is below.
    pub fn with_floor(self, floor: u64) -> (r: BlockInfo)
        ensures
            r == self.floored(floor),
    {
        BlockInfo {
            last_seen_block_hash: self.last_seen_block_hash,
            last_seen_block_number: self.last_seen_block_number,
            pending_basefee: if self.pending_basefee < floor {
                floor
            } else {
                self.pending_basefee
            },
        }
    }
}

/// An account whose committed state a new block changed.
#[derive(Clone, Copy, Debug, PartialEq, Eq, Structural)]
pub struct ChangedAccount {
    /// The account.
    pub address: crate::primitives::Address,
    /// Its nonce after the change.
    pub nonce: u64,
    /// Its balance after the change.
    pub balance: U256,
}

/// How many transactions, and how many bytes of them, each sub-pool holds.
#[derive(Clone, Copy, Debug, PartialEq, Eq, Structural)]
pub struct PoolSize {
    /// Transactions in the pending sub-pool.
    pub pending: usize,
    /// Bytes of the transactions in the pending sub-pool.
    pub pending_size: u128,
    /// Transactions in the base-fee sub-pool.
    pub basefee: usize,
    /// Bytes of the transactions in the base-fee sub-pool.
    pub basefee_size: u128,
    /// Transactions in the queued sub-pool.
    pub queued: usize,
    /// Bytes of the transactions in the queued sub-pool.
    pub queued_size: u128,
}

} // verus!
