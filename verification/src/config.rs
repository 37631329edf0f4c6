//! Limits and settings of the pool.

use vstd::prelude::*;

verus! {

/// The size of one slot of transaction data, in bytes.
pub const TX_SLOT_SIZE: usize = 32768;

/// The largest encoded transaction the pool is meant for: four slots.
pub const TX_MAX_SIZE: usize = 131072;

/// The largest contract code, in bytes.
pub const MAX_CODE_SIZE: usize = 24576;

/// The largest init code of a creation, in bytes: twice the largest code.
pub const MAX_INIT_CODE_SIZE: usize = 49152;

/// The default least price increase of a replacement, in percent.
pub const PRICE_BUMP: u32 = 10;

/// The default number of transactions one sender may hold in the pool.
pub const TXPOOL_MAX_ACCOUNT_SLOTS_PER_SENDER: usize = 16;

/// The default number of transactions a sub-pool may hold.
pub const TXPOOL_SUBPOOL_MAX_TXS_DEFAULT: usize = 10000;

/// The default size a sub-pool may reach, in megabytes.
pub const TXPOOL_SUBPOOL_MAX_SIZE_MB_DEFAULT: usize = 20;

/// The default floor of the base fee that the pool tracks.
pub const MIN_PROTOCOL_BASE_FEE: u64 = 7;

/// The bounds of one sub-pool.
#[derive(Clone, Copy, Debug, PartialEq, Eq, Structural)]
pub struct SubPoolLimit {
    /// The largest number of transactions.
    pub max_txs: usize,
    /// The largest sum of encoded lengths, in bytes.
    pub max_size: usize,
}

impl SubPoolLimit {
    /// Whether a sub-pool of `txs` transactions and `size` bytes is over either bound.
    pub open spec fn exceeded_by(&self, txs: nat, size: nat) -> bool {
        txs > self.max_txs || size > self.max_size
    }

    /// Whether a sub-pool of `txs` transactions and `size` bytes is over either bound.
    pub fn is_exceeded(&self, txs: usize, size: u128) -> (r: bool)
        ensures
            r == self.exceeded_by(txs as nat, size as nat),
    {
        txs > self.max_txs || size > self.max_size as u128
    }
}

impl Default for SubPoolLimit {
    /// Ten thousand transactions and twenty megabytes.
    fn default() -> (r: SubPoolLimit)
        ensures
            r.max_txs == TXPOOL_SUBPOOL_MAX_TXS_DEFAULT,
            r.max_size == 20 * 1024 * 1024,
    {
        SubPoolLimit { max_txs: TXPOOL_SUBPOOL_MAX_TXS_DEFAULT, max_size: 20971520 }
    }
}

/// The settings of a pool.
#[derive(Clone, Copy, Debug, PartialEq, Eq, Structural)]
pub struct PoolConfig {
    /// The bounds of the pending sub-pool.
    pub pending_limit: SubPoolLimit,
    /// The bounds of the base-fee sub-pool.
    pub basefee_limit: SubPoolLimit,
    /// The bounds of the queued sub-pool.
    pub queued_limit: SubPoolLimit,
    /// The largest number of transactions one sender may hold.
    pub max_account_slots: usize,
    /// The least price increase of a replacement, in percent.
    pub price_bump: u32,
    /// The floor of the base fee that the pool tracks.
    pub minimal_protocol_basefee: u64,
}

impl Default for PoolConfig {
    /// The default bounds for each sub-pool, sixteen slots per sender and a
    /// price bump of ten percent.
    fn default() -> (r: PoolConfig)
        ensures
            r.pending_limit.max_txs == TXPOOL_SUBPOOL_MAX_TXS_DEFAULT,
            r.pending_limit.max_size == 20 * 1024 * 1024,
            r.basefee_limit == r.pending_limit,
            r.queued_limit == r.pending_limit,
            r.max_account_slots == TXPOOL_MAX_ACCOUNT_SLOTS_PER_SENDER,
            r.price_bump == PRICE_BUMP,
            r.minimal_protocol_basefee == MIN_PROTOCOL_BASE_FEE,
    {
        let limit = SubPoolLimit { max_txs: TXPOOL_SUBPOOL_MAX_TXS_DEFAULT, max_size: 20971520 };
        PoolConfig {
            pending_limit: limit,
            basefee_limit: limit,
            queued_limit: limit,
            max_account_slots: TXPOOL_MAX_ACCOUNT_SLOTS_PER_SENDER,
            price_bump: PRICE_BUMP,
            minimal_protocol_basefee: MIN_PROTOCOL_BASE_FEE,
        }
    }
}

} // verus!
