//! The mathematical model of the pool: the resident transactions as a
//! sequence in id order, and what follows from it and the chain state.

use crate::identifier::{SenderId, TransactionId};
use crate::primitives::TxHash;
use crate::state::{SenderInfo, SubPool};
use crate::transaction::SharedTransaction;
use vstd::prelude::*;

verus! {

/// A resident transaction with the sub-pool it is in.
#[derive(Debug)]
pub struct PoolInternalTransaction {
    /// The transaction.
    pub transaction: SharedTransaction,
    /// The sub-pool it is in.
    pub subpool: SubPool,
}

/// The transactions of `entries`, without their sub-pools.
pub open spec fn txs_of(entries: Seq<PoolInternalTransaction>) -> Seq<SharedTransaction> {
    Seq::new(entries.len(), |i: int| entries[i].transaction)
}

/// Whether the ids of `txs` strictly increase.
pub open spec fn sorted_by_id(txs: Seq<SharedTransaction>) -> bool {
    forall|i: int, j: int|
        0 <= i < j < txs.len() ==> (#[trigger] txs[i]).transaction_id.before(
            (#[trigger] txs[j]).transaction_id,
        )
}

/// Whether no two transactions of `txs` share a hash.
pub open spec fn distinct_hashes(txs: Seq<SharedTransaction>) -> bool {
    forall|i: int, j: int|
        0 <= i < j < txs.len() ==> (#[trigger] txs[i]).transaction.hash != (
        #[trigger] txs[j]).transaction.hash
}

/// Whether `p` is where a transaction with id `id` stands, or would stand, in
/// `txs`: all before it have smaller ids, none from it on has.
pub open spec fn is_position(txs: Seq<SharedTransaction>, id: TransactionId, p: int) -> bool {
    &&& 0 <= p <= txs.len()
    &&& forall|k: int| 0 <= k < p ==> (#[trigger] txs[k]).transaction_id.before(id)
    &&& forall|k: int| p <= k < txs.len() ==> !(#[trigger] txs[k]).transaction_id.before(id)
}

/// The number of transactions at the front of the id-ordered `txs` whose id is below `id`.
pub open spec fn position_of(txs: Seq<SharedTransaction>, id: TransactionId) -> int
    decreases txs.len(),
{
    if txs.len() == 0 {
        0
    } else if txs.last().transaction_id.before(id) {
        txs.len() as int
    } else {
        position_of(txs.drop_last(), id)
    }
}

/// The place of the transaction with id `id` in the id-ordered `txs`, if it is there.
pub open spec fn index_of_id(txs: Seq<SharedTransaction>, id: TransactionId) -> Option<int> {
    let p = position_of(txs, id);
    if 0 <= p < txs.len() && txs[p].transaction_id == id {
        Some(p)
    } else {
        None
    }
}

/// Whether a transaction with hash `hash` is among `txs`.
pub open spec fn has_hash(txs: Seq<SharedTransaction>, hash: TxHash) -> bool {
    exists|i: int| 0 <= i < txs.len() && (#[trigger] txs[i]).transaction.hash == hash
}

/// In an id-ordered sequence, [`position_of`] is a position in the sense of [`is_position`].
pub proof fn lemma_position_of(txs: Seq<SharedTransaction>, id: TransactionId)
    requires
        sorted_by_id(txs),
    ensures
        is_position(txs, id, position_of(txs, id)),
    decreases txs.len(),
{
    if txs.len() == 0 {
    } else if txs.last().transaction_id.before(id) {
        assert forall|k: int| 0 <= k < txs.len() implies (#[trigger] txs[k]).transaction_id.before(
            id,
        ) by {
            if k < txs.len() - 1 {
                assert(txs[k].transaction_id.before(txs[txs.len() - 1].transaction_id));
            }
        }
    } else {
        let front = txs.drop_last();
        assert forall|i: int, j: int| 0 <= i < j < front.len() implies (
        #[trigger] front[i]).transaction_id.before((#[trigger] front[j]).transaction_id) by {
            assert(front[i] == txs[i] && front[j] == txs[j]);
        }
        lemma_position_of(front, id);
        let p = position_of(front, id);
        assert forall|k: int| 0 <= k < p implies (#[trigger] txs[k]).transaction_id.before(id) by {
            assert(front[k] == txs[k]);
        }
        assert forall|k: int| p <= k < txs.len() implies !(#[trigger] txs[k]).transaction_id.before(
            id,
        ) by {
            if k < txs.len() - 1 {
                assert(front[k] == txs[k]);
            }
        }
    }
}

/// A position in the sense of [`is_position`] is the one that [`position_of`] gives.
pub proof fn lemma_position_unique(txs: Seq<SharedTransaction>, id: TransactionId, p: int)
    requires
        is_position(txs, id, p),
    ensures
        p == position_of(txs, id),
    decreases txs.len(),
{
    if txs.len() == 0 {
    } else if txs.last().transaction_id.before(id) {
        if p < txs.len() {
            assert(!txs[txs.len() - 1].transaction_id.before(id));
        }
    } else {
        if p == txs.len() {
            assert(txs[txs.len() - 1].transaction_id.before(id));
        }
        let front = txs.drop_last();
        assert forall|k: int| 0 <= k < p implies (#[trigger] front[k]).transaction_id.before(
            id,
        ) by {
            assert(front[k] == txs[k]);
        }
        assert forall|k: int| p <= k < front.len() implies !(
        #[trigger] front[k]).transaction_id.before(id) by {
            assert(front[k] == txs[k]);
        }
        lemma_position_unique(front, id, p);
    }
}

/// In an id-ordered sequence, the transaction at place `i` is found under its id at `i`.
pub proof fn lemma_index_of_member(txs: Seq<SharedTransaction>, i: int)
    requires
        sorted_by_id(txs),
        0 <= i < txs.len(),
    ensures
        index_of_id(txs, txs[i].transaction_id) == Some(i),
{
    let id = txs[i].transaction_id;
    assert forall|k: int| 0 <= k < i implies (#[trigger] txs[k]).transaction_id.before(id) by {}
    assert forall|k: int| i <= k < txs.len() implies !(#[trigger] txs[k]).transaction_id.before(
        id,
    ) by {
        if k > i {
            assert(txs[i].transaction_id.before(txs[k].transaction_id));
        }
    }
    lemma_position_unique(txs, id, i);
}

/// In an id-ordered sequence, an id that [`index_of_id`] does not find is the id of no member.
pub proof fn lemma_index_of_absent(txs: Seq<SharedTransaction>, id: TransactionId)
    requires
        sorted_by_id(txs),
        index_of_id(txs, id).is_none(),
    ensures
        forall|k: int| 0 <= k < txs.len() ==> (#[trigger] txs[k]).transaction_id != id,
{
    assert forall|k: int| 0 <= k < txs.len() implies (#[trigger] txs[k]).transaction_id != id by {
        if txs[k].transaction_id == id {
            lemma_index_of_member(txs, k);
        }
    }
}

/// The sum of the encoded lengths of `txs`, in bytes.
pub open spec fn sum_bytes(txs: Seq<SharedTransaction>) -> nat
    decreases txs.len(),
{
    if txs.len() == 0 {
        0
    } else {
        sum_bytes(txs.drop_last()) + txs.last().encoded_length as nat
    }
}

/// The sender's nonce on chain, as far as `infos` knows it; zero for an unknown sender.
pub open spec fn state_nonce_of(infos: Map<u64, SenderInfo>, sender: SenderId) -> u64 {
    if infos.contains_key(sender.0) {
        infos[sender.0].state_nonce
    } else {
        0
    }
}

/// The sender's balance, as far as `infos` knows it; zero for an unknown sender.
pub open spec fn balance_of(infos: Map<u64, SenderInfo>, sender: SenderId) -> nat {
    if infos.contains_key(sender.0) {
        infos[sender.0].balance@
    } else {
        0
    }
}

/// Whether the transaction before place `i` of the id-ordered `txs` has the same sender.
pub open spec fn continues_chain(txs: Seq<SharedTransaction>, i: int) -> bool {
    0 < i < txs.len() && txs[i - 1].transaction_id.sender == txs[i].transaction_id.sender
}

/// Whether the transaction at place `i` of the id-ordered `txs` is gapless
/// from state: its sender's chain starts at the sender's nonce on chain and
/// reaches it one nonce at a time.
pub open spec fn is_gapless(txs: Seq<SharedTransaction>, infos: Map<u64, SenderInfo>, i: int) -> bool
    decreases i,
{
    if i < 0 || i >= txs.len() {
        false
    } else if continues_chain(txs, i) {
        txs[i].transaction_id.nonce == txs[i - 1].transaction_id.nonce + 1 && is_gapless(
            txs,
            infos,
            i - 1,
        )
    } else {
        txs[i].transaction_id.nonce == state_nonce_of(infos, txs[i].transaction_id.sender)
    }
}

/// The sum of the costs of the sender's transactions up to and with the one
/// at place `i` of the id-ordered `txs`.
pub open spec fn cumulative_cost(txs: Seq<SharedTransaction>, i: int) -> nat
    decreases i,
{
    if i < 0 || i >= txs.len() {
        0
    } else if continues_chain(txs, i) {
        cumulative_cost(txs, i - 1) + txs[i].spec_cost()
    } else {
        txs[i].spec_cost()
    }
}

/// The sub-pool that the transaction at place `i` of the id-ordered `txs`
/// belongs in: queued where its chain has a gap or the cumulative cost is
/// above the sender's balance; else base-fee where its fee cap is below the
/// pending base fee; else pending.
pub open spec fn classify(
    txs: Seq<SharedTransaction>,
    infos: Map<u64, SenderInfo>,
    base_fee: u64,
    i: int,
) -> SubPool {
    if !is_gapless(txs, infos, i) {
        SubPool::Queued
    } else if cumulative_cost(txs, i) > balance_of(infos, txs[i].transaction_id.sender) {
        SubPool::Queued
    } else if txs[i].transaction.max_fee_per_gas < base_fee {
        SubPool::BaseFee
    } else {
        SubPool::Pending
    }
}

/// Whether each of `entries` is in the sub-pool that [`classify`] gives it.
pub open spec fn classified(
    entries: Seq<PoolInternalTransaction>,
    infos: Map<u64, SenderInfo>,
    base_fee: u64,
) -> bool {
    forall|i: int|
        0 <= i < entries.len() ==> (#[trigger] entries[i]).subpool == classify(
            txs_of(entries),
            infos,
            base_fee,
            i,
        )
}

/// The transactions of `entries` that are in sub-pool `pool`, in the order of `entries`.
pub open spec fn project(entries: Seq<PoolInternalTransaction>, pool: SubPool) -> Seq<
    SharedTransaction,
>
    decreases entries.len(),
{
    if entries.len() == 0 {
        Seq::empty()
    } else if entries.last().subpool == pool {
        project(entries.drop_last(), pool).push(entries.last().transaction)
    } else {
        project(entries.drop_last(), pool)
    }
}

/// A transaction is in a projection exactly if it stands in `entries` with that sub-pool.
pub proof fn lemma_project_members(entries: Seq<PoolInternalTransaction>, pool: SubPool)
    ensures
        forall|k: int|
            0 <= k < project(entries, pool).len() ==> exists|j: int|
                0 <= j < entries.len() && (#[trigger] entries[j]).subpool == pool
                    && entries[j].transaction == #[trigger] project(entries, pool)[k],
        forall|j: int|
            0 <= j < entries.len() && (#[trigger] entries[j]).subpool == pool ==> project(
                entries,
                pool,
            ).contains(entries[j].transaction),
        project(entries, pool).len() <= entries.len(),
    decreases entries.len(),
{
    if entries.len() == 0 {
    } else {
        let front = entries.drop_last();
        let last = entries.last();
        lemma_project_members(front, pool);
        let pf = project(front, pool);
        let pe = project(entries, pool);
        assert forall|k: int| 0 <= k < pe.len() implies exists|j: int|
            0 <= j < entries.len() && (#[trigger] entries[j]).subpool == pool
                && entries[j].transaction == #[trigger] pe[k] by {
            if k < pf.len() {
                assert(pe[k] == pf[k]);
                let j = choose|j: int|
                    0 <= j < front.len() && (#[trigger] front[j]).subpool == pool
                        && front[j].transaction == pf[k];
                assert(entries[j] == front[j]);
            } else {
                assert(entries[entries.len() - 1].subpool == pool);
            }
        }
        assert forall|j: int|
            0 <= j < entries.len() && (#[trigger] entries[j]).subpool == pool implies pe.contains(
            entries[j].transaction,
        ) by {
            if j < front.len() {
                assert(entries[j] == front[j]);
                assert(pf.contains(front[j].transaction));
                let k = choose|k: int| 0 <= k < pf.len() && pf[k] == front[j].transaction;
                assert(pe[k] == front[j].transaction);
            } else {
                assert(pe[pe.len() - 1] == entries[j].transaction);
            }
        }
    }
}

/// Taking one transaction out of an id-ordered sequence without repeated
/// hashes leaves such a sequence.
pub proof fn lemma_remove_keeps_order(txs: Seq<SharedTransaction>, p: int)
    requires
        0 <= p < txs.len(),
    ensures
        sorted_by_id(txs) ==> sorted_by_id(txs.remove(p)),
        distinct_hashes(txs) ==> distinct_hashes(txs.remove(p)),
{
    let after = txs.remove(p);
    if sorted_by_id(txs) {
        assert forall|i: int, j: int| 0 <= i < j < after.len() implies (
        #[trigger] after[i]).transaction_id.before((#[trigger] after[j]).transaction_id) by {
            let oi = if i < p { i } else { i + 1 };
            let oj = if j < p { j } else { j + 1 };
            assert(after[i] == txs[oi] && after[j] == txs[oj]);
        }
    }
    if distinct_hashes(txs) {
        assert forall|i: int, j: int| 0 <= i < j < after.len() implies (
        #[trigger] after[i]).transaction.hash != (#[trigger] after[j]).transaction.hash by {
            let oi = if i < p { i } else { i + 1 };
            let oj = if j < p { j } else { j + 1 };
            assert(after[i] == txs[oi] && after[j] == txs[oj]);
        }
    }
}

/// Putting a transaction with a new id at its place into an id-ordered
/// sequence leaves such a sequence; a new hash leaves the hashes distinct.
pub proof fn lemma_insert_keeps_order(txs: Seq<SharedTransaction>, tx: SharedTransaction)
    requires
        sorted_by_id(txs),
        index_of_id(txs, tx.transaction_id).is_none(),
    ensures
        0 <= position_of(txs, tx.transaction_id) <= txs.len(),
        sorted_by_id(txs.insert(position_of(txs, tx.transaction_id), tx)),
        distinct_hashes(txs) && !has_hash(txs, tx.transaction.hash) ==> distinct_hashes(
            txs.insert(position_of(txs, tx.transaction_id), tx),
        ),
{
    lemma_position_of(txs, tx.transaction_id);
    lemma_index_of_absent(txs, tx.transaction_id);
    let p = position_of(txs, tx.transaction_id);
    let after = txs.insert(p, tx);
    assert forall|i: int, j: int| 0 <= i < j < after.len() implies (
    #[trigger] after[i]).transaction_id.before((#[trigger] after[j]).transaction_id) by {
        if j < p {
            assert(after[i] == txs[i] && after[j] == txs[j]);
        } else if j == p {
            assert(after[i] == txs[i]);
        } else if i < p {
            assert(after[i] == txs[i] && after[j] == txs[j - 1]);
        } else if i == p {
            assert(after[j] == txs[j - 1]);
            assert(!txs[j - 1].transaction_id.before(tx.transaction_id));
            assert(txs[j - 1].transaction_id != tx.transaction_id);
        } else {
            assert(after[i] == txs[i - 1] && after[j] == txs[j - 1]);
        }
    }
    if distinct_hashes(txs) && !has_hash(txs, tx.transaction.hash) {
        assert forall|i: int, j: int| 0 <= i < j < after.len() implies (
        #[trigger] after[i]).transaction.hash != (#[trigger] after[j]).transaction.hash by {
            let oi = if i < p { i } else { i - 1 };
            let oj = if j < p { j } else { j - 1 };
            if i != p {
                assert(after[i] == txs[oi]);
            }
            if j != p {
                assert(after[j] == txs[oj]);
            }
        }
    }
}

/// The number of transactions of `sender` among `txs`.
pub open spec fn sender_count(txs: Seq<SharedTransaction>, sender: SenderId) -> nat
    decreases txs.len(),
{
    if txs.len() == 0 {
        0
    } else if txs.last().transaction_id.sender == sender {
        sender_count(txs.drop_last(), sender) + 1
    } else {
        sender_count(txs.drop_last(), sender)
    }
}

/// Taking a transaction out lowers its sender's count by one and no other count.
pub proof fn lemma_sender_count_remove(txs: Seq<SharedTransaction>, p: int, sender: SenderId)
    requires
        0 <= p < txs.len(),
    ensures
        sender_count(txs.remove(p), sender) + (if txs[p].transaction_id.sender == sender {
            1nat
        } else {
            0nat
        }) == sender_count(txs, sender),
    decreases txs.len(),
{
    if p == txs.len() - 1 {
        assert(txs.remove(p) =~= txs.drop_last());
    } else {
        assert(txs.remove(p).drop_last() =~= txs.drop_last().remove(p));
        assert(txs.remove(p).last() == txs.last());
        lemma_sender_count_remove(txs.drop_last(), p, sender);
    }
}

/// Putting a transaction in raises its sender's count by one and no other count.
pub proof fn lemma_sender_count_insert(
    txs: Seq<SharedTransaction>,
    p: int,
    tx: SharedTransaction,
    sender: SenderId,
)
    requires
        0 <= p <= txs.len(),
    ensures
        sender_count(txs.insert(p, tx), sender)
            == sender_count(txs, sender) + (if tx.transaction_id.sender
            == sender {
            1nat
        } else {
            0nat
        }),
{
    let after = txs.insert(p, tx);
    assert(after.remove(p) =~= txs);
    lemma_sender_count_remove(after, p, sender);
}

/// The place of the last transaction of `sender` among `txs` that is not
/// local: the one that gives way when the sender's slots are used up.
pub open spec fn last_evictable(txs: Seq<SharedTransaction>, sender: SenderId) -> Option<int>
    decreases txs.len(),
{
    if txs.len() == 0 {
        None
    } else if txs.last().transaction_id.sender == sender && !txs.last().spec_is_local() {
        Some(txs.len() - 1)
    } else {
        last_evictable(txs.drop_last(), sender)
    }
}

/// What [`last_evictable`] finds is a place in the sequence, of a
/// transaction of the sender that is not local.
pub proof fn lemma_last_evictable(txs: Seq<SharedTransaction>, sender: SenderId)
    ensures
        last_evictable(txs, sender) matches Some(v) ==> 0 <= v < txs.len()
            && txs[v].transaction_id.sender == sender && !txs[v].spec_is_local(),
    decreases txs.len(),
{
    if txs.len() > 0 {
        lemma_last_evictable(txs.drop_last(), sender);
    }
}

} // verus!
