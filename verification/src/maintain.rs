//! Keeping the pool in line with the chain: what to tell the pool when the
//! canonical chain grows or is reorganised.

use crate::pool::txpool::list_has;
use crate::pool::CanonicalStateUpdate;
use crate::primitives::{TxHash, B256};
use crate::state::ChangedAccount;
use crate::transaction::PooledTransaction;
use vstd::prelude::*;

verus! {

/// A block of the canonical chain, as far as the pool cares.
#[derive(Debug)]
pub struct ChainBlock {
    /// The hash of the block.
    pub hash: B256,
    /// The number of the block.
    pub number: u64,
    /// The timestamp of the block.
    pub timestamp: u64,
    /// The base fee of the block that will follow this one.
    pub next_base_fee: u64,
    /// The transactions of the block.
    pub transactions: Vec<PooledTransaction>,
    /// The accounts whose committed state is different after the block.
    pub changed_accounts: Vec<ChangedAccount>,
}

/// News of the canonical chain.
#[derive(Debug)]
pub enum CanonStateNotification {
    /// The chain grew by these blocks.
    Commit {
        /// The new blocks, oldest first.
        new: Vec<ChainBlock>,
    },
    /// The chain dropped some blocks and took others in their place.
    Reorg {
        /// The dropped blocks, oldest first.
        old: Vec<ChainBlock>,
        /// The blocks that took their place, oldest first. Their changed
        /// accounts cover the accounts that the dropped blocks had changed.
        new: Vec<ChainBlock>,
    },
}

/// What to do with the pool after news of the chain.
#[derive(Debug)]
pub struct MaintainAction {
    /// The update to hand to the pool.
    pub update: CanonicalStateUpdate,
    /// The transactions to validate and submit again: those of dropped
    /// blocks that the new chain has not mined.
    pub reinsert: Vec<PooledTransaction>,
}

/// The hashes of `txs`, in order.
pub open spec fn hashes_in(txs: Seq<PooledTransaction>) -> Seq<TxHash> {
    Seq::new(txs.len(), |i: int| txs[i].hash)
}

/// The hashes of the transactions of `blocks`, block by block.
pub open spec fn mined_hashes(blocks: Seq<ChainBlock>) -> Seq<TxHash>
    decreases blocks.len(),
{
    if blocks.len() == 0 {
        Seq::empty()
    } else {
        mined_hashes(blocks.drop_last()) + hashes_in(blocks.last().transactions@)
    }
}

/// The changed accounts of `blocks`, block by block.
pub open spec fn changed_in(blocks: Seq<ChainBlock>) -> Seq<ChangedAccount>
    decreases blocks.len(),
{
    if blocks.len() == 0 {
        Seq::empty()
    } else {
        changed_in(blocks.drop_last()) + blocks.last().changed_accounts@
    }
}

/// The transactions of `txs` whose hash is not among `mined`, in order.
pub open spec fn not_mined(txs: Seq<PooledTransaction>, mined: Seq<TxHash>) -> Seq<PooledTransaction>
    decreases txs.len(),
{
    if txs.len() == 0 {
        Seq::empty()
    } else if mined.contains(txs.last().hash) {
        not_mined(txs.drop_last(), mined)
    } else {
        not_mined(txs.drop_last(), mined).push(txs.last())
    }
}

/// The transactions of `blocks` whose hash is not among `mined`, block by block.
pub open spec fn orphaned(blocks: Seq<ChainBlock>, mined: Seq<TxHash>) -> Seq<PooledTransaction>
    decreases blocks.len(),
{
    if blocks.len() == 0 {
        Seq::empty()
    } else {
        orphaned(blocks.drop_last(), mined) + not_mined(blocks.last().transactions@, mined)
    }
}

/// The dropped blocks of a notification; none for a commit.
pub open spec fn dropped_blocks(notification: CanonStateNotification) -> Seq<ChainBlock> {
    match notification {
        CanonStateNotification::Commit { .. } => Seq::empty(),
        CanonStateNotification::Reorg { old, .. } => old@,
    }
}

/// The new blocks of a notification.
pub open spec fn new_blocks(notification: CanonStateNotification) -> Seq<ChainBlock> {
    match notification {
        CanonStateNotification::Commit { new } => new@,
        CanonStateNotification::Reorg { new, .. } => new@,
    }
}

fn append_hashes(out: &mut Vec<TxHash>, txs: &Vec<PooledTransaction>)
    ensures
        final(out)@ == old(out)@ + hashes_in(txs@),
{
    let ghost start = out@;
    let mut i: usize = 0;
    while i < txs.len()
        invariant
            i <= txs@.len(),
            out@ == start + hashes_in(txs@.take(i as int)),
        decreases txs@.len() - i,
    {
        out.push(txs[i].hash);
        assert(out@ =~= start + hashes_in(txs@.take(i + 1)));
        i += 1;
    }
    assert(txs@.take(i as int) =~= txs@);
}

fn append_accounts(out: &mut Vec<ChangedAccount>, accounts: &Vec<ChangedAccount>)
    ensures
        final(out)@ == old(out)@ + accounts@,
{
    let ghost start = out@;
    let mut i: usize = 0;
    while i < accounts.len()
        invariant
            i <= accounts@.len(),
            out@ == start + accounts@.take(i as int),
        decreases accounts@.len() - i,
    {
        out.push(accounts[i]);
        assert(out@ =~= start + accounts@.take(i + 1));
        i += 1;
    }
    assert(accounts@.take(i as int) =~= accounts@);
}

fn take_not_mined(out: &mut Vec<PooledTransaction>, txs: Vec<PooledTransaction>, mined: &Vec<TxHash>)
    ensures
        final(out)@ == old(out)@ + not_mined(txs@, mined@),
{
    let ghost start = out@;
    let ghost all = txs@;
    assert(all.take(0) =~= Seq::empty());
    assert(out@ =~= start + not_mined(all.take(0), mined@));
    for tx in iter: txs
        invariant
            iter.seq() == all,
            out@ == start + not_mined(all.take(iter.index() as int), mined@),
    {
        assert(all.take(iter.index() + 1).drop_last() =~= all.take(iter.index() as int));
        assert(all.take(iter.index() + 1).last() == tx);
        if !list_has(mined, &tx.hash) {
            out.push(tx);
            assert(out@ =~= start + not_mined(all.take(iter.index() + 1), mined@));
        }
    }
    assert(all.take(all.len() as int) =~= all);
}

/// Decides what to do with the pool after news of the chain.
///
/// Nothing, if the news brings no new block. Otherwise the pool is
/// updated to the last new block: its hash, number and timestamp, the base
/// fee that follows it, the changed accounts of all new blocks and the
/// hashes of all their transactions. The transactions of dropped blocks
/// that the new blocks have not mined are to be submitted again.
pub fn on_notification(notification: CanonStateNotification) -> (r: Option<MaintainAction>)
    ensures
        new_blocks(notification).len() == 0 ==> r.is_none(),
        new_blocks(notification).len() > 0 ==> r.is_some() && ({
            let action = r.unwrap();
            let tip = new_blocks(notification).last();
            &&& action.update.hash == tip.hash
            &&& action.update.number == tip.number
            &&& action.update.timestamp == tip.timestamp
            &&& action.update.pending_block_base_fee == tip.next_base_fee
            &&& action.update.mined_transactions@ == mined_hashes(new_blocks(notification))
            &&& action.update.changed_accounts@ == changed_in(new_blocks(notification))
            &&& action.reinsert@ == orphaned(
                dropped_blocks(notification),
                mined_hashes(new_blocks(notification)),
            )
        }),
{
    let (old, new): (Vec<ChainBlock>, Vec<ChainBlock>) = match notification {
        CanonStateNotification::Commit { new } => (Vec::new(), new),
        CanonStateNotification::Reorg { old, new } => (old, new),
    };
    if new.len() == 0 {
        return None;
    }
    let last: usize = new.len() - 1;
    let hash = new[last].hash;
    let number: u64 = new[last].number;
    let timestamp: u64 = new[last].timestamp;
    let pending_block_base_fee: u64 = new[last].next_base_fee;
    let mut mined: Vec<TxHash> = Vec::new();
    let mut changed: Vec<ChangedAccount> = Vec::new();
    let mut i: usize = 0;
    assert(new@.take(0) =~= Seq::empty());
    while i < new.len()
        invariant
            i <= new@.len(),
            mined@ == mined_hashes(new@.take(i as int)),
            changed@ == changed_in(new@.take(i as int)),
        decreases new@.len() - i,
    {
        assert(new@.take(i + 1).drop_last() =~= new@.take(i as int));
        assert(new@.take(i + 1).last() == new@[i as int]);
        append_hashes(&mut mined, &new[i].transactions);
        append_accounts(&mut changed, &new[i].changed_accounts);
        i += 1;
    }
    assert(new@.take(i as int) =~= new@);
    let mut reinsert: Vec<PooledTransaction> = Vec::new();
    let ghost dropped = old@;
    assert(dropped.take(0) =~= Seq::empty());
    for block in iter: old
        invariant
            iter.seq() == dropped,
            reinsert@ == orphaned(dropped.take(iter.index() as int), mined@),
    {
        assert(dropped.take(iter.index() + 1).drop_last() =~= dropped.take(iter.index() as int));
        assert(dropped.take(iter.index() + 1).last() == block);
        take_not_mined(&mut reinsert, block.transactions, &mined);
    }
    assert(dropped.take(dropped.len() as int) =~= dropped);
    Some(
        MaintainAction {
            update: CanonicalStateUpdate {
                hash,
                number,
                pending_block_base_fee,
                changed_accounts: changed,
                mined_transactions: mined,
                timestamp,
            },
            reinsert,
        },
    )
}

} // verus!
