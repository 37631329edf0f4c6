//! The pool itself: the master index of resident transactions in id order,
//! the committed state of their senders, and the three sub-pool stores.

use crate::config::{PoolConfig, SubPoolLimit};
use crate::identifier::{SenderId, TransactionId};
use crate::pool::model::{
    balance_of, classified, classify, continues_chain, cumulative_cost, distinct_hashes, has_hash,
    index_of_id, is_gapless, is_position, lemma_index_of_absent, lemma_index_of_member,
    last_evictable, lemma_insert_keeps_order, lemma_last_evictable, lemma_position_of,
    lemma_position_unique, lemma_project_members, lemma_remove_keeps_order,
    lemma_sender_count_insert, lemma_sender_count_remove, position_of, project, sender_count,
    sorted_by_id, state_nonce_of, sum_bytes, txs_of, PoolInternalTransaction,
};
use crate::error::{PoolError, PoolResult};
use crate::pool::store::SubPoolStore;
use crate::pool::best::BestTransactions;
use crate::pool::store::is_worst_at;
use crate::pool::{AddedPendingTransaction, AddedTransaction, OnNewCanonicalStateOutcome};
use crate::primitives::{u256_limit, Address, TxHash, U256};
use crate::state::{BlockInfo, PoolSize, SenderInfo, SubPool};
use crate::transaction::{
    content, evicted_before, lemma_eviction_order_is_total, SharedTransaction,
    TransactionOrdering, ValidPoolTransaction,
};
use std::collections::HashMap;
use std::sync::Arc;
use vstd::prelude::*;

verus! {

broadcast use vstd::std_specs::hash::group_hash_axioms;

/// Whether a move from sub-pool `before` to sub-pool `after` is a promotion:
/// a move into the pending sub-pool.
pub open spec fn is_promotion(before: SubPool, after: SubPool) -> bool {
    before != SubPool::Pending && after == SubPool::Pending
}

/// Whether a move from sub-pool `before` to sub-pool `after` is a demotion:
/// a move out of the pending sub-pool, or into the queued one.
pub open spec fn is_demotion(before: SubPool, after: SubPool) -> bool {
    before != after && after != SubPool::Pending && (before == SubPool::Pending || after
        == SubPool::Queued)
}

/// The hashes of the first `n` transactions of `after` that were promoted
/// since `before`, in id order, but for the transaction with id `skip`.
/// The two sequences hold the same transactions, place by place.
pub open spec fn promoted_between(
    before: Seq<PoolInternalTransaction>,
    after: Seq<PoolInternalTransaction>,
    skip: Option<TransactionId>,
    n: int,
) -> Seq<TxHash>
    decreases n,
{
    if n <= 0 {
        Seq::empty()
    } else {
        let rest = promoted_between(before, after, skip, n - 1);
        if is_promotion(before[n - 1].subpool, after[n - 1].subpool) && Some(
            after[n - 1].transaction.transaction_id,
        ) != skip {
            rest.push(after[n - 1].transaction.transaction.hash)
        } else {
            rest
        }
    }
}

/// The hashes of the first `n` transactions of `after` that were demoted
/// since `before`, in id order, but for the transaction with id `skip`.
/// The two sequences hold the same transactions, place by place.
pub open spec fn demoted_between(
    before: Seq<PoolInternalTransaction>,
    after: Seq<PoolInternalTransaction>,
    skip: Option<TransactionId>,
    n: int,
) -> Seq<TxHash>
    decreases n,
{
    if n <= 0 {
        Seq::empty()
    } else {
        let rest = demoted_between(before, after, skip, n - 1);
        if is_demotion(before[n - 1].subpool, after[n - 1].subpool) && Some(
            after[n - 1].transaction.transaction_id,
        ) != skip {
            rest.push(after[n - 1].transaction.transaction.hash)
        } else {
            rest
        }
    }
}

proof fn lemma_between_frame(
    before: Seq<PoolInternalTransaction>,
    a1: Seq<PoolInternalTransaction>,
    a2: Seq<PoolInternalTransaction>,
    skip: Option<TransactionId>,
    n: int,
)
    requires
        n <= a1.len(),
        n <= a2.len(),
        forall|k: int| 0 <= k < n ==> a1[k] == a2[k],
    ensures
        promoted_between(before, a1, skip, n) == promoted_between(before, a2, skip, n),
        demoted_between(before, a1, skip, n) == demoted_between(before, a2, skip, n),
    decreases n,
{
    if n > 0 {
        lemma_between_frame(before, a1, a2, skip, n - 1);
    }
}

/// Whether no sender has more than `slots` transactions among `txs`.
pub open spec fn within_slots(txs: Seq<SharedTransaction>, slots: usize) -> bool {
    forall|sender: SenderId| #[trigger] sender_count(txs, sender) <= slots
}

/// Whether `infos` knows the sender of each of `txs`, and none of `txs` has a
/// nonce below its sender's nonce on chain.
pub open spec fn senders_known(txs: Seq<SharedTransaction>, infos: Map<u64, SenderInfo>) -> bool {
    forall|i: int|
        0 <= i < txs.len() ==> infos.contains_key((#[trigger] txs[i]).transaction_id.sender.0)
            && txs[i].transaction_id.nonce >= infos[txs[i].transaction_id.sender.0].state_nonce
}

/// What the pool goes by for a sender when one of its transactions arrives:
/// what it knows already, else what the validator saw.
pub open spec fn info_on_arrival(
    infos: Map<u64, SenderInfo>,
    sender: SenderId,
    balance: U256,
    state_nonce: u64,
) -> SenderInfo {
    if infos.contains_key(sender.0) {
        infos[sender.0]
    } else {
        SenderInfo { state_nonce, balance }
    }
}

/// Whether `candidate` is at least `existing` raised by `bump` percent.
pub open spec fn pays_bump(existing: u128, candidate: u128, bump: u32) -> bool {
    candidate * 100 >= existing * (100 + bump)
}

/// Whether `candidate` may not replace `existing`: its fee cap or its
/// priority fee is not raised by `bump` percent. A transaction without a
/// priority fee counts with its fee cap in its place.
pub open spec fn is_underpriced(
    existing: ValidPoolTransaction,
    candidate: ValidPoolTransaction,
    bump: u32,
) -> bool {
    !pays_bump(existing.transaction.max_fee_per_gas, candidate.transaction.max_fee_per_gas, bump)
        || !pays_bump(
        existing.spec_priority_fee_or_price(),
        candidate.spec_priority_fee_or_price(),
        bump,
    )
}

/// Why the pool with residents `txs` refuses `tx`, if it does.
///
/// In this order: the hash is resident; the nonce is below the sender's
/// nonce on chain; a resident has the same id and `tx` does not pay the
/// price bump; the sender's slots are used up and no resident gives way,
/// because none of the sender's is not local, or because `tx` is not local
/// either and has a higher nonce than the last of them.
pub open spec fn admission_error(
    txs: Seq<SharedTransaction>,
    infos: Map<u64, SenderInfo>,
    config: PoolConfig,
    tx: ValidPoolTransaction,
    balance: U256,
    state_nonce: u64,
) -> Option<PoolError> {
    let id = tx.transaction_id;
    let info = info_on_arrival(infos, id.sender, balance, state_nonce);
    if has_hash(txs, tx.transaction.hash) {
        Some(PoolError::AlreadyImported(tx.transaction.hash))
    } else if id.nonce < info.state_nonce {
        Some(
            PoolError::NonceTooLow {
                hash: tx.transaction.hash,
                sender: tx.transaction.sender,
                nonce: id.nonce,
                state_nonce: info.state_nonce,
            },
        )
    } else {
        match index_of_id(txs, id) {
            Some(p) => if is_underpriced(*txs[p], tx, config.price_bump) {
                Some(PoolError::ReplacementUnderpriced(tx.transaction.hash))
            } else {
                None
            },
            None => if sender_count(txs, id.sender) >= config.max_account_slots {
                match last_evictable(txs, id.sender) {
                    Some(v) => if !tx.spec_is_local() && txs[v].transaction_id.nonce < id.nonce {
                        Some(PoolError::SpammerExceededCap(tx.transaction.sender))
                    } else {
                        None
                    },
                    None => Some(PoolError::SpammerExceededCap(tx.transaction.sender)),
                }
            } else {
                None
            },
        }
    }
}

/// The place of the resident that leaves when a transaction with id `id` is
/// admitted: the one with the same id; else, where the sender's slots are
/// used up, the sender's last one that is not local.
pub open spec fn displaced(txs: Seq<SharedTransaction>, slots: usize, id: TransactionId) -> Option<int> {
    match index_of_id(txs, id) {
        Some(p) => Some(p),
        None => if sender_count(txs, id.sender) >= slots {
            last_evictable(txs, id.sender)
        } else {
            None
        },
    }
}

/// The residents without the displaced one.
pub open spec fn cleared(
    entries: Seq<PoolInternalTransaction>,
    slots: usize,
    id: TransactionId,
) -> Seq<PoolInternalTransaction> {
    match displaced(txs_of(entries), slots, id) {
        Some(d) => entries.remove(d),
        None => entries,
    }
}

/// The residents once `tx` is admitted, before anything is classified anew:
/// the displaced one is gone, `tx` stands at its place in the id order,
/// provisionally as queued, and the others are where they were.
pub open spec fn seated(
    entries: Seq<PoolInternalTransaction>,
    slots: usize,
    tx: SharedTransaction,
) -> Seq<PoolInternalTransaction> {
    let rest = cleared(entries, slots, tx.transaction_id);
    rest.insert(
        position_of(txs_of(rest), tx.transaction_id),
        PoolInternalTransaction { transaction: tx, subpool: SubPool::Queued },
    )
}

/// The resident transactions once `tx` is admitted: the displaced one is
/// gone, `tx` stands at its place in the id order.
pub open spec fn seated_txs(txs: Seq<SharedTransaction>, slots: usize, tx: SharedTransaction) -> Seq<
    SharedTransaction,
> {
    let rest = match displaced(txs, slots, tx.transaction_id) {
        Some(d) => txs.remove(d),
        None => txs,
    };
    rest.insert(position_of(rest, tx.transaction_id), tx)
}

/// Putting back what was taken out restores the residents: where the
/// transaction at place `p` of the id-ordered `txs` leaves and is admitted
/// again while its sender has a slot free, the residents are as they were
/// before it left.
pub proof fn lemma_put_back(txs: Seq<SharedTransaction>, slots: usize, p: int)
    requires
        sorted_by_id(txs),
        0 <= p < txs.len(),
        sender_count(txs.remove(p), txs[p].transaction_id.sender) < slots,
    ensures
        seated_txs(txs.remove(p), slots, txs[p]) == txs,
        index_of_id(txs.remove(p), txs[p].transaction_id).is_none(),
{
    let rest = txs.remove(p);
    let id = txs[p].transaction_id;
    assert forall|k: int| 0 <= k < p implies (#[trigger] rest[k]).transaction_id.before(id) by {
        assert(txs[k].transaction_id.before(txs[p].transaction_id));
    }
    assert forall|k: int| p <= k < rest.len() implies !(#[trigger] rest[k]).transaction_id.before(
        id,
    ) by {
        assert(txs[p].transaction_id.before(txs[k + 1].transaction_id));
    }
    lemma_position_unique(rest, id, p);
    if p < rest.len() {
        assert(txs[p].transaction_id.before(txs[p + 1].transaction_id));
        assert(rest[p] == txs[p + 1]);
    }
    assert(index_of_id(rest, id).is_none());
    assert(displaced(rest, slots, id).is_none());
    assert(rest.insert(p, txs[p]) =~= txs);
}

/// The hash of the resident that gives up its slot to a transaction with id
/// `id`, as a sequence of at most one hash. A replaced resident is not among them.
pub open spec fn evicted_for(txs: Seq<SharedTransaction>, slots: usize, id: TransactionId) -> Seq<
    TxHash,
> {
    match (index_of_id(txs, id), displaced(txs, slots, id)) {
        (None, Some(d)) => seq![txs[d].transaction.hash],
        _ => Seq::empty(),
    }
}

/// The resident that a transaction with id `id` replaces.
pub open spec fn replaced_by(txs: Seq<SharedTransaction>, id: TransactionId) -> Option<
    SharedTransaction,
> {
    match index_of_id(txs, id) {
        Some(p) => Some(txs[p]),
        None => None,
    }
}

/// Decides [`pays_bump`].
pub fn check_pays_bump(existing: u128, candidate: u128, bump: u32) -> (r: bool)
    ensures
        r == pays_bump(existing, candidate, bump),
{
    let factor: u64 = 100 + bump as u64;
    let raised = U256::mul_u64_u128(factor, existing);
    let offered = U256::mul_u64_u128(100, candidate);
    assert(factor * existing == existing * (100 + bump)) by (nonlinear_arith)
        requires
            factor == 100 + bump,
    ;
    raised.le(&offered)
}

/// Decides [`is_underpriced`].
pub fn check_underpriced(
    existing: &ValidPoolTransaction,
    candidate: &ValidPoolTransaction,
    bump: u32,
) -> (r: bool)
    ensures
        r == is_underpriced(*existing, *candidate, bump),
{
    !check_pays_bump(
        existing.transaction.max_fee_per_gas,
        candidate.transaction.max_fee_per_gas,
        bump,
    ) || !check_pays_bump(
        existing.priority_fee_or_price(),
        candidate.priority_fee_or_price(),
        bump,
    )
}

/// Once the displaced resident is gone, neither the id nor the hash of a
/// transaction that the pool admits is among the residents.
pub proof fn lemma_cleared(
    entries: Seq<PoolInternalTransaction>,
    slots: usize,
    id: TransactionId,
    hash: TxHash,
)
    requires
        sorted_by_id(txs_of(entries)),
        distinct_hashes(txs_of(entries)),
        !has_hash(txs_of(entries), hash),
    ensures
        sorted_by_id(txs_of(cleared(entries, slots, id))),
        distinct_hashes(txs_of(cleared(entries, slots, id))),
        index_of_id(txs_of(cleared(entries, slots, id)), id).is_none(),
        !has_hash(txs_of(cleared(entries, slots, id)), hash),
        displaced(txs_of(entries), slots, id) matches Some(d) ==> 0 <= d < entries.len()
            && txs_of(cleared(entries, slots, id)) == txs_of(entries).remove(d),
{
    let txs0 = txs_of(entries);
    let rest_txs = txs_of(cleared(entries, slots, id));
    lemma_position_of(txs0, id);
    lemma_last_evictable(txs0, id.sender);
    match displaced(txs0, slots, id) {
        Some(d) => {
            assert(rest_txs =~= txs0.remove(d));
            lemma_remove_keeps_order(txs0, d);
            assert forall|k: int| 0 <= k < rest_txs.len() implies (
            #[trigger] rest_txs[k]).transaction_id != id by {
                let ok = if k < d { k } else { k + 1 };
                assert(rest_txs[k] == txs0[ok]);
                if index_of_id(txs0, id).is_some() {
                    if ok < d {
                        assert(txs0[ok].transaction_id.before(txs0[d].transaction_id));
                    } else {
                        assert(txs0[d].transaction_id.before(txs0[ok].transaction_id));
                    }
                } else {
                    lemma_index_of_absent(txs0, id);
                }
            }
            assert forall|k: int| 0 <= k < rest_txs.len() implies (
            #[trigger] rest_txs[k]).transaction.hash != hash by {
                let ok = if k < d { k } else { k + 1 };
                assert(rest_txs[k] == txs0[ok]);
            }
        },
        None => {
            lemma_index_of_absent(txs0, id);
        },
    }
}

/// Seating a transaction that the pool admits keeps the residents in id
/// order, with distinct hashes, known senders and no sender over its slots.
pub proof fn lemma_seated(
    entries: Seq<PoolInternalTransaction>,
    infos: Map<u64, SenderInfo>,
    slots: usize,
    tx: SharedTransaction,
    info: SenderInfo,
)
    requires
        sorted_by_id(txs_of(entries)),
        distinct_hashes(txs_of(entries)),
        senders_known(txs_of(entries), infos),
        within_slots(txs_of(entries), slots),
        !has_hash(txs_of(entries), tx.transaction.hash),
        infos.contains_key(tx.transaction_id.sender.0) ==> info
            == infos[tx.transaction_id.sender.0],
        tx.transaction_id.nonce >= info.state_nonce,
        index_of_id(txs_of(entries), tx.transaction_id).is_some() || sender_count(
            txs_of(entries),
            tx.transaction_id.sender,
        ) < slots || last_evictable(txs_of(entries), tx.transaction_id.sender).is_some(),
    ensures
        sorted_by_id(txs_of(seated(entries, slots, tx))),
        distinct_hashes(txs_of(seated(entries, slots, tx))),
        senders_known(
            txs_of(seated(entries, slots, tx)),
            infos.insert(tx.transaction_id.sender.0, info),
        ),
        within_slots(txs_of(seated(entries, slots, tx)), slots),
        seated(entries, slots, tx).len() > 0,
        txs_of(seated(entries, slots, tx)) == seated_txs(txs_of(entries), slots, tx),
        index_of_id(txs_of(seated(entries, slots, tx)), tx.transaction_id) == Some(
            position_of(txs_of(cleared(entries, slots, tx.transaction_id)), tx.transaction_id),
        ),
        txs_of(seated(entries, slots, tx))[position_of(
            txs_of(cleared(entries, slots, tx.transaction_id)),
            tx.transaction_id,
        )] == tx,
{
    let id = tx.transaction_id;
    let sender = id.sender;
    let txs0 = txs_of(entries);
    let rest_txs = txs_of(cleared(entries, slots, id));
    let mid_txs = txs_of(seated(entries, slots, tx));
    let p = position_of(rest_txs, id);
    let infos1 = infos.insert(sender.0, info);
    lemma_cleared(entries, slots, tx.transaction_id, tx.transaction.hash);
    lemma_insert_keeps_order(rest_txs, tx);
    assert(mid_txs =~= rest_txs.insert(p, tx));
    lemma_index_of_member(mid_txs, p);
    assert forall|k: int| 0 <= k < mid_txs.len() implies infos1.contains_key(
        (#[trigger] mid_txs[k]).transaction_id.sender.0,
    ) && mid_txs[k].transaction_id.nonce >= infos1[mid_txs[k].transaction_id.sender.0].state_nonce by {
        if k != p {
            let rk = if k < p { k } else { k - 1 };
            assert(mid_txs[k] == rest_txs[rk]);
            match displaced(txs0, slots, id) {
                Some(d) => {
                    let ok = if rk < d { rk } else { rk + 1 };
                    assert(rest_txs[rk] == txs0[ok]);
                },
                None => {
                    assert(rest_txs[rk] == txs0[rk]);
                },
            }
        }
    }
    assert forall|s: SenderId| #[trigger] sender_count(mid_txs, s) <= slots by {
        lemma_sender_count_insert(rest_txs, p, tx, s);
        assert(sender_count(txs0, s) <= slots);
        lemma_last_evictable(txs0, sender);
        match displaced(txs0, slots, id) {
            Some(d) => {
                lemma_sender_count_remove(txs0, d, s);
                if index_of_id(txs0, id).is_some() {
                    lemma_position_of(txs0, id);
                }
            },
            None => {},
        }
    }
}

/// Whether a resident stays when the transactions with the hashes `gone`
/// leave and `infos` is the committed state: its hash is not among `gone`
/// and its nonce is not below its sender's nonce on chain.
pub open spec fn stays(tx: SharedTransaction, gone: Seq<TxHash>, infos: Map<u64, SenderInfo>) -> bool {
    !gone.contains(tx.transaction.hash) && tx.transaction_id.nonce >= state_nonce_of(
        infos,
        tx.transaction_id.sender,
    )
}

/// The residents that stay, in id order, each with the sub-pool it was in.
pub open spec fn retained(
    entries: Seq<PoolInternalTransaction>,
    gone: Seq<TxHash>,
    infos: Map<u64, SenderInfo>,
) -> Seq<PoolInternalTransaction>
    decreases entries.len(),
{
    if entries.len() == 0 {
        Seq::empty()
    } else if stays(entries.last().transaction, gone, infos) {
        retained(entries.drop_last(), gone, infos).push(entries.last())
    } else {
        retained(entries.drop_last(), gone, infos)
    }
}

/// The residents whose hash is among `gone`, in id order.
pub open spec fn taken_out(entries: Seq<PoolInternalTransaction>, gone: Seq<TxHash>) -> Seq<
    SharedTransaction,
>
    decreases entries.len(),
{
    if entries.len() == 0 {
        Seq::empty()
    } else if gone.contains(entries.last().transaction.transaction.hash) {
        taken_out(entries.drop_last(), gone).push(entries.last().transaction)
    } else {
        taken_out(entries.drop_last(), gone)
    }
}

/// The hashes of the residents that leave because their nonce is below their
/// sender's nonce on chain, and not because their hash is among `gone`; in id order.
pub open spec fn outdated(
    entries: Seq<PoolInternalTransaction>,
    gone: Seq<TxHash>,
    infos: Map<u64, SenderInfo>,
) -> Seq<TxHash>
    decreases entries.len(),
{
    if entries.len() == 0 {
        Seq::empty()
    } else if !gone.contains(entries.last().transaction.transaction.hash)
        && entries.last().transaction.transaction_id.nonce < state_nonce_of(
        infos,
        entries.last().transaction.transaction_id.sender,
    ) {
        outdated(entries.drop_last(), gone, infos).push(entries.last().transaction.transaction.hash)
    } else {
        outdated(entries.drop_last(), gone, infos)
    }
}

/// The committed state after the changes of `changed` were applied in order.
pub open spec fn updated_infos(infos: Map<u64, SenderInfo>, changed: Seq<(SenderId, SenderInfo)>) -> Map<
    u64,
    SenderInfo,
>
    decreases changed.len(),
{
    if changed.len() == 0 {
        infos
    } else {
        updated_infos(infos, changed.drop_last()).insert(changed.last().0.0, changed.last().1)
    }
}

/// Applying changes forgets no sender.
pub proof fn lemma_updated_infos_keys(
    infos: Map<u64, SenderInfo>,
    changed: Seq<(SenderId, SenderInfo)>,
)
    ensures
        forall|k: u64| infos.contains_key(k)
            ==> #[trigger] updated_infos(infos, changed).contains_key(k),
    decreases changed.len(),
{
    if changed.len() > 0 {
        lemma_updated_infos_keys(infos, changed.drop_last());
        assert forall|k: u64| infos.contains_key(k) implies #[trigger] updated_infos(
            infos,
            changed,
        ).contains_key(k) by {
            assert(updated_infos(infos, changed.drop_last()).contains_key(k));
        }
    }
}

/// What stays of the residents is a part of them in the same order: still
/// in id order, still with distinct hashes, with no sender holding more
/// than before, and with no nonce below its sender's nonce on chain.
pub proof fn lemma_retained(
    entries: Seq<PoolInternalTransaction>,
    gone: Seq<TxHash>,
    infos: Map<u64, SenderInfo>,
)
    ensures
        retained(entries, gone, infos).len() <= entries.len(),
        forall|k: int|
            0 <= k < retained(entries, gone, infos).len() ==> exists|j: int|
                0 <= j < entries.len() && entries[j] == #[trigger] retained(entries, gone, infos)[k],
        forall|k: int|
            0 <= k < retained(entries, gone, infos).len() ==> stays(
                (#[trigger] retained(entries, gone, infos)[k]).transaction,
                gone,
                infos,
            ),
        sorted_by_id(txs_of(entries)) ==> sorted_by_id(txs_of(retained(entries, gone, infos))),
        distinct_hashes(txs_of(entries)) ==> distinct_hashes(
            txs_of(retained(entries, gone, infos)),
        ),
        forall|s: SenderId| #[trigger]
            sender_count(txs_of(retained(entries, gone, infos)), s) <= sender_count(
                txs_of(entries),
                s,
            ),
        (forall|j: int| 0 <= j < entries.len()
            ==> stays((#[trigger] entries[j]).transaction, gone, infos))
            ==> retained(entries, gone, infos) == entries,
    decreases entries.len(),
{
    if entries.len() > 0 {
        let front = entries.drop_last();
        let last = entries.last();
        let r = retained(front, gone, infos);
        let whole = retained(entries, gone, infos);
        lemma_retained(front, gone, infos);
        assert(txs_of(entries).drop_last() =~= txs_of(front));
        assert forall|k: int| 0 <= k < whole.len() implies exists|j: int|
            0 <= j < entries.len() && entries[j] == #[trigger] whole[k] by {
            if k < r.len() {
                assert(whole[k] == r[k]);
                let j = choose|j: int| 0 <= j < front.len() && front[j] == r[k];
                assert(entries[j] == front[j]);
            } else {
                assert(entries[entries.len() - 1] == whole[k]);
            }
        }
        assert forall|k: int| 0 <= k < whole.len() implies stays(
            (#[trigger] whole[k]).transaction,
            gone,
            infos,
        ) by {
            if k < r.len() {
                assert(whole[k] == r[k]);
            }
        }
        if sorted_by_id(txs_of(entries)) {
            assert forall|i: int, j: int| 0 <= i < j < front.len() implies (#[trigger] txs_of(
                front,
            )[i]).transaction_id.before((#[trigger] txs_of(front)[j]).transaction_id) by {
                assert(txs_of(front)[i] == txs_of(entries)[i]);
                assert(txs_of(front)[j] == txs_of(entries)[j]);
            }
            let wt = txs_of(whole);
            assert forall|a: int, b: int| 0 <= a < b < wt.len() implies (
            #[trigger] wt[a]).transaction_id.before((#[trigger] wt[b]).transaction_id) by {
                if b < r.len() {
                    assert(wt[a] == txs_of(r)[a] && wt[b] == txs_of(r)[b]);
                } else {
                    assert(whole[a] == r[a]);
                    let j = choose|j: int| 0 <= j < front.len() && front[j] == r[a];
                    assert(txs_of(entries)[j] == wt[a]);
                    assert(txs_of(entries)[entries.len() - 1] == wt[b]);
                }
            }
        }
        if distinct_hashes(txs_of(entries)) {
            assert forall|i: int, j: int| 0 <= i < j < front.len() implies (#[trigger] txs_of(
                front,
            )[i]).transaction.hash != (#[trigger] txs_of(front)[j]).transaction.hash by {
                assert(txs_of(front)[i] == txs_of(entries)[i]);
                assert(txs_of(front)[j] == txs_of(entries)[j]);
            }
            let wt = txs_of(whole);
            assert forall|a: int, b: int| 0 <= a < b < wt.len() implies (
            #[trigger] wt[a]).transaction.hash != (#[trigger] wt[b]).transaction.hash by {
                if b < r.len() {
                    assert(wt[a] == txs_of(r)[a] && wt[b] == txs_of(r)[b]);
                } else {
                    assert(whole[a] == r[a]);
                    let j = choose|j: int| 0 <= j < front.len() && front[j] == r[a];
                    assert(txs_of(entries)[j] == wt[a]);
                    assert(txs_of(entries)[entries.len() - 1] == wt[b]);
                }
            }
        }
        assert forall|s: SenderId| #[trigger]
            sender_count(txs_of(whole), s) <= sender_count(txs_of(entries), s) by {
            assert(sender_count(txs_of(r), s) <= sender_count(txs_of(front), s));
            if stays(last.transaction, gone, infos) {
                assert(txs_of(whole).drop_last() =~= txs_of(r));
            }
        }
        if forall|j: int| 0 <= j < entries.len()
            ==> stays((#[trigger] entries[j]).transaction, gone, infos) {
            assert forall|j: int| 0 <= j < front.len() implies stays(
                (#[trigger] front[j]).transaction,
                gone,
                infos,
            ) by {
                assert(front[j] == entries[j]);
            }
            assert(stays(entries[entries.len() - 1].transaction, gone, infos));
            assert(whole =~= entries);
        }
    }
}

/// Decides whether `hash` is among `hashes`.
pub fn list_has(hashes: &Vec<TxHash>, hash: &TxHash) -> (r: bool)
    ensures
        r == hashes@.contains(*hash),
{
    let mut i: usize = 0;
    while i < hashes.len()
        invariant
            i <= hashes@.len(),
            forall|k: int| 0 <= k < i ==> hashes@[k] != *hash,
        decreases hashes@.len() - i,
    {
        if hashes[i] == *hash {
            return true;
        }
        i += 1;
    }
    false
}

/// What an update of the committed state did to the pool.
#[derive(Debug)]
pub struct UpdateOutcome {
    /// The hashes of the promoted transactions.
    pub promoted: Vec<TxHash>,
    /// The hashes of the demoted transactions.
    pub demoted: Vec<TxHash>,
    /// The hashes of the transactions that left because their nonce is used up.
    pub discarded: Vec<TxHash>,
}

/// The residents `txs`, each with the sub-pool that [`classify`] gives it.
pub open spec fn with_classes(
    txs: Seq<SharedTransaction>,
    infos: Map<u64, SenderInfo>,
    base_fee: u64,
) -> Seq<PoolInternalTransaction> {
    Seq::new(
        txs.len(),
        |i: int|
            PoolInternalTransaction {
                transaction: txs[i],
                subpool: classify(txs, infos, base_fee, i),
            },
    )
}

/// The transactions of `txs` that belong in sub-pool `pool`, in id order.
pub open spec fn members_of(
    txs: Seq<SharedTransaction>,
    infos: Map<u64, SenderInfo>,
    base_fee: u64,
    pool: SubPool,
) -> Seq<SharedTransaction> {
    project(with_classes(txs, infos, base_fee), pool)
}

/// Whether the transactions `members` of a sub-pool are over a bound of `limit`.
pub open spec fn over_budget(members: Seq<SharedTransaction>, limit: SubPoolLimit) -> bool {
    limit.exceeded_by(members.len(), sum_bytes(members))
}

/// By how many transactions `members` are above the number that `limit` allows.
pub open spec fn excess(members: Seq<SharedTransaction>, limit: SubPoolLimit) -> nat {
    if members.len() > limit.max_txs {
        (members.len() - limit.max_txs) as nat
    } else {
        0
    }
}

/// Which sub-pool gives up a transaction next, given for each whether it is
/// over budget and its excess: among those over budget the one with the
/// largest excess; of two with the same excess the pending sub-pool before
/// the base-fee one, and that before the queued one.
pub open spec fn pick_pool(
    pending_over: bool,
    pending_excess: nat,
    basefee_over: bool,
    basefee_excess: nat,
    queued_over: bool,
    queued_excess: nat,
) -> Option<SubPool> {
    if pending_over && (!basefee_over || pending_excess >= basefee_excess) && (!queued_over
        || pending_excess >= queued_excess) {
        Some(SubPool::Pending)
    } else if basefee_over && (!queued_over || basefee_excess >= queued_excess) {
        Some(SubPool::BaseFee)
    } else if queued_over {
        Some(SubPool::Queued)
    } else {
        None
    }
}

/// The sub-pool that is most over budget among the residents `txs`, if any is over budget.
pub open spec fn most_over_budget(
    txs: Seq<SharedTransaction>,
    infos: Map<u64, SenderInfo>,
    base_fee: u64,
    config: PoolConfig,
) -> Option<SubPool> {
    let pending = members_of(txs, infos, base_fee, SubPool::Pending);
    let basefee = members_of(txs, infos, base_fee, SubPool::BaseFee);
    let queued = members_of(txs, infos, base_fee, SubPool::Queued);
    pick_pool(
        over_budget(pending, config.pending_limit),
        excess(pending, config.pending_limit),
        over_budget(basefee, config.basefee_limit),
        excess(basefee, config.basefee_limit),
        over_budget(queued, config.queued_limit),
        excess(queued, config.queued_limit),
    )
}

/// The id of the transaction that is evicted next: the worst one, in the
/// sense of [`evicted_before`], of the sub-pool that is most over budget.
pub open spec fn next_victim<T: TransactionOrdering>(
    ordering: T,
    txs: Seq<SharedTransaction>,
    infos: Map<u64, SenderInfo>,
    base_fee: u64,
    config: PoolConfig,
) -> Option<TransactionId> {
    match most_over_budget(txs, infos, base_fee, config) {
        Some(pool) => {
            let members = members_of(txs, infos, base_fee, pool);
            let w = choose|w: int| is_worst_at(members, ordering, pool, base_fee, w);
            Some(members[w].transaction_id)
        },
        None => None,
    }
}

/// The residents that are left of `txs` once the size bounds are enforced:
/// as long as a sub-pool is over budget, the next victim leaves and the
/// rest is classified anew.
pub open spec fn after_discard<T: TransactionOrdering>(
    ordering: T,
    txs: Seq<SharedTransaction>,
    infos: Map<u64, SenderInfo>,
    base_fee: u64,
    config: PoolConfig,
) -> Seq<SharedTransaction>
    decreases txs.len(),
{
    match next_victim(ordering, txs, infos, base_fee, config) {
        Some(id) => match index_of_id(txs, id) {
            Some(p) => after_discard(ordering, txs.remove(p), infos, base_fee, config),
            None => txs,
        },
        None => txs,
    }
}

/// The transactions that leave `txs` when the size bounds are enforced, in
/// the order in which they leave.
pub open spec fn discarded_by<T: TransactionOrdering>(
    ordering: T,
    txs: Seq<SharedTransaction>,
    infos: Map<u64, SenderInfo>,
    base_fee: u64,
    config: PoolConfig,
) -> Seq<SharedTransaction>
    decreases txs.len(),
{
    match next_victim(ordering, txs, infos, base_fee, config) {
        Some(id) => match index_of_id(txs, id) {
            Some(p) => seq![txs[p]] + discarded_by(
                ordering,
                txs.remove(p),
                infos,
                base_fee,
                config,
            ),
            None => Seq::empty(),
        },
        None => Seq::empty(),
    }
}

/// In an id-ordered store only one transaction is evicted before every other one.
pub proof fn lemma_worst_unique<T: TransactionOrdering>(
    ordering: T,
    members: Seq<SharedTransaction>,
    pool: SubPool,
    base_fee: u64,
    w1: int,
    w2: int,
)
    requires
        sorted_by_id(members),
        is_worst_at(members, ordering, pool, base_fee, w1),
        is_worst_at(members, ordering, pool, base_fee, w2),
    ensures
        w1 == w2,
{
    if w1 != w2 {
        assert(evicted_before(ordering, pool, *members[w1], *members[w2], base_fee));
        assert(evicted_before(ordering, pool, *members[w2], *members[w1], base_fee));
        if w1 < w2 {
            assert(members[w1].transaction_id.before(members[w2].transaction_id));
        } else {
            assert(members[w2].transaction_id.before(members[w1].transaction_id));
        }
        lemma_eviction_order_is_total(
            ordering,
            pool,
            content(members[w1]),
            content(members[w2]),
            content(members[w1]),
            base_fee,
        );
    }
}

/// A transaction of a projection is found in the master index under its id.
pub proof fn lemma_member_index(entries: Seq<PoolInternalTransaction>, pool: SubPool, k: int)
    requires
        sorted_by_id(txs_of(entries)),
        0 <= k < project(entries, pool).len(),
    ensures
        index_of_id(txs_of(entries), project(entries, pool)[k].transaction_id) matches Some(j)
            && txs_of(entries)[j] == project(entries, pool)[k],
{
    lemma_project_members(entries, pool);
    let j = choose|j: int|
        0 <= j < entries.len() && (#[trigger] entries[j]).subpool == pool && entries[j].transaction
            == project(entries, pool)[k];
    assert(txs_of(entries)[j] == entries[j].transaction);
    lemma_index_of_member(txs_of(entries), j);
}

/// Taking one resident out keeps what the pool asks of its residents.
pub proof fn lemma_removed(
    txs: Seq<SharedTransaction>,
    infos: Map<u64, SenderInfo>,
    slots: usize,
    p: int,
)
    requires
        0 <= p < txs.len(),
        sorted_by_id(txs),
        distinct_hashes(txs),
        senders_known(txs, infos),
        within_slots(txs, slots),
    ensures
        sorted_by_id(txs.remove(p)),
        distinct_hashes(txs.remove(p)),
        senders_known(txs.remove(p), infos),
        within_slots(txs.remove(p), slots),
{
    lemma_remove_keeps_order(txs, p);
    let after = txs.remove(p);
    assert forall|k: int| 0 <= k < after.len() implies infos.contains_key(
        (#[trigger] after[k]).transaction_id.sender.0,
    ) && after[k].transaction_id.nonce >= infos[after[k].transaction_id.sender.0].state_nonce by {
        let ok = if k < p { k } else { k + 1 };
        assert(after[k] == txs[ok]);
    }
    assert forall|s: SenderId| #[trigger] sender_count(after, s) <= slots by {
        lemma_sender_count_remove(txs, p, s);
        assert(sender_count(txs, s) <= slots);
    }
}

/// Decides [`pick_pool`].
pub fn choose_pool(
    pending_over: bool,
    pending_excess: usize,
    basefee_over: bool,
    basefee_excess: usize,
    queued_over: bool,
    queued_excess: usize,
) -> (r: Option<SubPool>)
    ensures
        r == pick_pool(
            pending_over,
            pending_excess as nat,
            basefee_over,
            basefee_excess as nat,
            queued_over,
            queued_excess as nat,
        ),
{
    if pending_over && (!basefee_over || pending_excess >= basefee_excess) && (!queued_over
        || pending_excess >= queued_excess) {
        Some(SubPool::Pending)
    } else if basefee_over && (!queued_over || basefee_excess >= queued_excess) {
        Some(SubPool::BaseFee)
    } else if queued_over {
        Some(SubPool::Queued)
    } else {
        None
    }
}

/// No fee cap is below zero, so a fee floor of zero blocks nothing.
proof fn lemma_never_blocked(txs: Seq<SharedTransaction>)
    ensures
        forall|i: int| !#[trigger] crate::pool::best::is_blocked(txs, 0, i),
{
    assert forall|i: int| !#[trigger] crate::pool::best::is_blocked(txs, 0, i) by {
        lemma_not_blocked_at(txs, i);
    }
}

proof fn lemma_not_blocked_at(txs: Seq<SharedTransaction>, i: int)
    ensures
        !crate::pool::best::is_blocked(txs, 0, i),
    decreases i,
{
    if 0 <= i < txs.len() && continues_chain(txs, i) {
        lemma_not_blocked_at(txs, i - 1);
    }
}

/// Walking back along a gapless chain: `d` places before a gapless
/// transaction stands its sender's transaction with the nonce `d` lower,
/// gapless itself and with no higher cumulative cost.
pub proof fn lemma_chain_back(
    txs: Seq<SharedTransaction>,
    infos: Map<u64, SenderInfo>,
    i: int,
    d: int,
)
    requires
        0 <= i < txs.len(),
        is_gapless(txs, infos, i),
        0 <= d <= txs[i].transaction_id.nonce - state_nonce_of(infos, txs[i].transaction_id.sender),
    ensures
        0 <= i - d,
        txs[i - d].transaction_id.sender == txs[i].transaction_id.sender,
        txs[i - d].transaction_id.nonce == txs[i].transaction_id.nonce - d,
        is_gapless(txs, infos, i - d),
        cumulative_cost(txs, i - d) <= cumulative_cost(txs, i),
    decreases d,
{
    if d > 0 {
        lemma_chain_back(txs, infos, i - 1, d - 1);
    }
}

/// Whether no nonce is missing behind the transaction at place `i`: for
/// every nonce from its sender's nonce on chain up to its own, a
/// transaction of the sender with that nonce is among `txs`.
pub open spec fn is_unbroken(txs: Seq<SharedTransaction>, infos: Map<u64, SenderInfo>, i: int) -> bool {
    forall|nonce: u64|
        state_nonce_of(infos, txs[i].transaction_id.sender) <= nonce < txs[i].transaction_id.nonce
            ==> (#[trigger] index_of_id(
            txs,
            TransactionId { sender: txs[i].transaction_id.sender, nonce },
        )).is_some()
}

/// A transaction is gapless from state exactly if no nonce is missing
/// behind it.
pub proof fn lemma_gapless_iff_unbroken(
    txs: Seq<SharedTransaction>,
    infos: Map<u64, SenderInfo>,
    i: int,
)
    requires
        sorted_by_id(txs),
        0 <= i < txs.len(),
        forall|j: int|
            0 <= j < txs.len() ==> (#[trigger] txs[j]).transaction_id.nonce >= state_nonce_of(
                infos,
                txs[j].transaction_id.sender,
            ),
    ensures
        is_gapless(txs, infos, i) == is_unbroken(txs, infos, i),
    decreases i,
{
    let sender = txs[i].transaction_id.sender;
    let own = txs[i].transaction_id.nonce;
    let floor = state_nonce_of(infos, sender);
    if is_gapless(txs, infos, i) {
        assert forall|nonce: u64| floor <= nonce < own implies (#[trigger] index_of_id(
            txs,
            TransactionId { sender, nonce },
        )).is_some() by {
            lemma_chain_back(txs, infos, i, own - nonce);
            lemma_index_of_member(txs, i - (own - nonce));
        }
    }
    if is_unbroken(txs, infos, i) {
        if own == floor {
            if continues_chain(txs, i) {
                assert(txs[i - 1].transaction_id.before(txs[i].transaction_id));
                assert(txs[i - 1].transaction_id.nonce >= floor);
            }
        } else {
            let before = TransactionId { sender, nonce: (own - 1) as u64 };
            assert(index_of_id(txs, before).is_some());
            let j = index_of_id(txs, before).unwrap();
            assert(txs[j].transaction_id == before);
            assert(j == i - 1) by {
                if j >= i {
                    if j > i {
                        assert(txs[i].transaction_id.before(txs[j].transaction_id));
                    }
                } else if j < i - 1 {
                    assert(txs[j].transaction_id.before(txs[i - 1].transaction_id));
                    assert(txs[i - 1].transaction_id.before(txs[i].transaction_id));
                }
            }
            assert(continues_chain(txs, i));
            assert forall|nonce: u64|
                state_nonce_of(infos, txs[i - 1].transaction_id.sender) <= nonce < txs[i
                    - 1].transaction_id.nonce implies (#[trigger] index_of_id(
                txs,
                TransactionId { sender: txs[i - 1].transaction_id.sender, nonce },
            )).is_some() by {
                assert(index_of_id(txs, TransactionId { sender, nonce }).is_some());
            }
            lemma_gapless_iff_unbroken(txs, infos, i - 1);
        }
    }
}

/// The sub-pool of a transaction depends on the committed state of its own
/// sender only.
pub proof fn lemma_classify_local(
    txs: Seq<SharedTransaction>,
    a: Map<u64, SenderInfo>,
    b: Map<u64, SenderInfo>,
    base_fee: u64,
    i: int,
)
    requires
        0 <= i < txs.len(),
        forall|k: int|
            0 <= k < txs.len() ==> state_nonce_of(a, (#[trigger] txs[k]).transaction_id.sender)
                == state_nonce_of(b, txs[k].transaction_id.sender) && balance_of(
                a,
                txs[k].transaction_id.sender,
            ) == balance_of(b, txs[k].transaction_id.sender),
    ensures
        is_gapless(txs, a, i) == is_gapless(txs, b, i),
        classify(txs, a, base_fee, i) == classify(txs, b, base_fee, i),
    decreases i,
{
    assert(state_nonce_of(a, txs[i].transaction_id.sender) == state_nonce_of(
        b,
        txs[i].transaction_id.sender,
    ));
    if continues_chain(txs, i) {
        lemma_classify_local(txs, a, b, base_fee, i - 1);
    }
}

/// Where no sub-pool is over budget, enforcing the size bounds takes
/// nothing out.
pub proof fn lemma_nothing_leaves_within_bounds<T: TransactionOrdering>(
    ordering: T,
    txs: Seq<SharedTransaction>,
    infos: Map<u64, SenderInfo>,
    base_fee: u64,
    config: PoolConfig,
)
    requires
        most_over_budget(txs, infos, base_fee, config).is_none(),
    ensures
        after_discard(ordering, txs, infos, base_fee, config) == txs,
        discarded_by(ordering, txs, infos, base_fee, config) == Seq::<SharedTransaction>::empty(),
{
}

/// Where all residents stay but the one at place `p`, what is retained is
/// the residents without that one.
pub proof fn lemma_retained_but_one(
    entries: Seq<PoolInternalTransaction>,
    gone: Seq<TxHash>,
    infos: Map<u64, SenderInfo>,
    p: int,
)
    requires
        0 <= p < entries.len(),
        !stays(entries[p].transaction, gone, infos),
        forall|j: int|
            0 <= j < entries.len() && j != p ==> stays((#[trigger] entries[j]).transaction, gone, infos),
    ensures
        retained(entries, gone, infos) == entries.remove(p),
    decreases entries.len(),
{
    let front = entries.drop_last();
    if p == entries.len() - 1 {
        assert forall|j: int| 0 <= j < front.len() implies stays(
            (#[trigger] front[j]).transaction,
            gone,
            infos,
        ) by {
            assert(front[j] == entries[j]);
        }
        lemma_retained(front, gone, infos);
        assert(entries.remove(p) =~= front);
    } else {
        assert forall|j: int| 0 <= j < front.len() && j != p implies stays(
            (#[trigger] front[j]).transaction,
            gone,
            infos,
        ) by {
            assert(front[j] == entries[j]);
        }
        assert(front[p] == entries[p]);
        lemma_retained_but_one(front, gone, infos, p);
        assert(entries.remove(p) =~= front.remove(p).push(entries.last()));
    }
}

/// A state update that is undone restores the partition. Take a
/// well-formed pool with residents `txs`, committed state `senders` and
/// pending base fee `base_fee`. A block mines the transaction at place `p`
/// and leaves the committed state `senders_mined`, under which no other
/// resident is outdated, and the base fee `base_fee_mined`. The update is
/// undone: the committed state `senders_back` is that of before for every
/// sender of a resident, the base fee is `base_fee` again, and the mined
/// transaction is admitted once more. Then, unless a size bound was hit on
/// the way, the residents are those of before, each in the sub-pool it was
/// in. Where no bound is hit, enforcing the bounds changes nothing, see
/// [`lemma_nothing_leaves_within_bounds`]. Where the mined transaction is
/// put back before the committed state is restored, the pool refuses it
/// for its nonce if the block raised its sender's nonce above it.
pub proof fn lemma_round_trip(
    txs: Seq<SharedTransaction>,
    senders: Map<u64, SenderInfo>,
    base_fee: u64,
    config: PoolConfig,
    p: int,
    senders_mined: Map<u64, SenderInfo>,
    base_fee_mined: u64,
    senders_back: Map<u64, SenderInfo>,
    balance: U256,
    state_nonce: u64,
)
    requires
        sorted_by_id(txs),
        distinct_hashes(txs),
        senders_known(txs, senders),
        within_slots(txs, config.max_account_slots),
        0 <= p < txs.len(),
        forall|j: int|
            0 <= j < txs.len() && j != p ==> (#[trigger] txs[j]).transaction_id.nonce
                >= state_nonce_of(senders_mined, txs[j].transaction_id.sender),
        forall|j: int|
            0 <= j < txs.len() ==> senders_back.contains_key(
                (#[trigger] txs[j]).transaction_id.sender.0,
            ) && senders_back[txs[j].transaction_id.sender.0]
                == senders[txs[j].transaction_id.sender.0],
    ensures
        ({
            let slots = config.max_account_slots;
            let mined = seq![txs[p].transaction.hash];
            let after_block = retained(with_classes(txs, senders, base_fee), mined, senders_mined);
            let after_undo = retained(
                with_classes(txs_of(after_block), senders_mined, base_fee_mined),
                Seq::<TxHash>::empty(),
                senders_back,
            );
            let sender = txs[p].transaction_id.sender;
            let senders_last = senders_back.insert(
                sender.0,
                info_on_arrival(senders_back, sender, balance, state_nonce),
            );
            &&& txs_of(after_block) == txs.remove(p)
            &&& txs_of(after_undo) == txs.remove(p)
            &&& admission_error(
                txs_of(after_undo),
                senders_back,
                config,
                *txs[p],
                balance,
                state_nonce,
            ).is_none()
            &&& seated_txs(txs_of(after_undo), slots, txs[p]) == txs
            &&& with_classes(txs, senders_last, base_fee) == with_classes(txs, senders, base_fee)
        }),
{
    let slots = config.max_account_slots;
    let rest = txs.remove(p);
    let entries = with_classes(txs, senders, base_fee);
    assert(txs_of(entries) =~= txs);
    lemma_mined_leaves(entries, senders_mined, p);
    let entries_mined = with_classes(rest, senders_mined, base_fee_mined);
    assert(txs_of(entries_mined) =~= rest);
    lemma_undone_keeps(txs, senders, p, entries_mined, senders_back);
    lemma_admitted_again(txs, senders, config, p, senders_back, balance, state_nonce);
    lemma_put_back(txs, slots, p);
    let sender = txs[p].transaction_id.sender;
    let senders_last = senders_back.insert(
        sender.0,
        info_on_arrival(senders_back, sender, balance, state_nonce),
    );
    assert(senders_last =~= senders_back);
    lemma_same_classes(txs, senders_last, senders, base_fee);
}

/// An update that restores the committed state restores the partition.
/// Where the residents `txs` are those of a well-formed pool with committed
/// state `senders`, whatever sub-pools `entries` has them in by now, and an
/// update without mined transactions brings the committed state
/// `senders_back`, which is that of before for every sender of a resident:
/// then every resident stays, and under the base fee of before each is in
/// the sub-pool it was in.
pub proof fn lemma_undone_update(
    txs: Seq<SharedTransaction>,
    senders: Map<u64, SenderInfo>,
    base_fee: u64,
    entries: Seq<PoolInternalTransaction>,
    senders_back: Map<u64, SenderInfo>,
)
    requires
        senders_known(txs, senders),
        txs_of(entries) == txs,
        forall|j: int|
            0 <= j < txs.len() ==> senders_back.contains_key(
                (#[trigger] txs[j]).transaction_id.sender.0,
            ) && senders_back[txs[j].transaction_id.sender.0]
                == senders[txs[j].transaction_id.sender.0],
    ensures
        retained(entries, Seq::<TxHash>::empty(), senders_back) == entries,
        with_classes(txs, senders_back, base_fee) == with_classes(txs, senders, base_fee),
{
    let none = Seq::<TxHash>::empty();
    assert forall|j: int| 0 <= j < entries.len() implies stays(
        (#[trigger] entries[j]).transaction,
        none,
        senders_back,
    ) by {
        assert(txs_of(entries).len() == entries.len());
        assert(txs_of(entries)[j] == entries[j].transaction);
        assert(txs[j] == entries[j].transaction);
    }
    lemma_retained(entries, none, senders_back);
    lemma_same_classes(txs, senders_back, senders, base_fee);
}

/// Where a block mines the transaction at place `p` and outdates no
/// other, the residents afterwards are those of before without it.
proof fn lemma_mined_leaves(
    entries: Seq<PoolInternalTransaction>,
    infos: Map<u64, SenderInfo>,
    p: int,
)
    requires
        distinct_hashes(txs_of(entries)),
        0 <= p < entries.len(),
        forall|j: int|
            0 <= j < entries.len() && j != p ==> (
            #[trigger] entries[j]).transaction.transaction_id.nonce >= state_nonce_of(
                infos,
                entries[j].transaction.transaction_id.sender,
            ),
    ensures
        txs_of(retained(entries, seq![entries[p].transaction.transaction.hash], infos)) == txs_of(
            entries,
        ).remove(p),
{
    let txs = txs_of(entries);
    let hash = entries[p].transaction.transaction.hash;
    let mined = seq![hash];
    assert(mined[0] == hash);
    assert forall|j: int| 0 <= j < entries.len() && j != p implies stays(
        (#[trigger] entries[j]).transaction,
        mined,
        infos,
    ) by {
        assert(txs[j] == entries[j].transaction);
        assert(txs[p] == entries[p].transaction);
        if j < p {
            assert(txs[j].transaction.hash != txs[p].transaction.hash);
        } else {
            assert(txs[p].transaction.hash != txs[j].transaction.hash);
        }
    }
    lemma_retained_but_one(entries, mined, infos, p);
    assert(txs_of(entries.remove(p)) =~= txs.remove(p));
}

/// Where the committed state is that of before again, no resident is outdated.
proof fn lemma_undone_keeps(
    txs: Seq<SharedTransaction>,
    senders: Map<u64, SenderInfo>,
    p: int,
    entries: Seq<PoolInternalTransaction>,
    senders_back: Map<u64, SenderInfo>,
)
    requires
        senders_known(txs, senders),
        0 <= p < txs.len(),
        txs_of(entries) == txs.remove(p),
        forall|j: int|
            0 <= j < txs.len() ==> senders_back.contains_key(
                (#[trigger] txs[j]).transaction_id.sender.0,
            ) && senders_back[txs[j].transaction_id.sender.0]
                == senders[txs[j].transaction_id.sender.0],
    ensures
        retained(entries, Seq::<TxHash>::empty(), senders_back) == entries,
{
    let none = Seq::<TxHash>::empty();
    assert forall|j: int| 0 <= j < entries.len() implies stays(
        (#[trigger] entries[j]).transaction,
        none,
        senders_back,
    ) by {
        let k = if j < p { j } else { j + 1 };
        assert(txs_of(entries).len() == entries.len());
        assert(txs.remove(p).len() == txs.len() - 1);
        assert(txs_of(entries)[j] == entries[j].transaction);
        assert(txs.remove(p)[j] == txs[k]);
    }
    lemma_retained(entries, none, senders_back);
}

/// The pool admits again what a block took out, once the committed state
/// is that of before.
proof fn lemma_admitted_again(
    txs: Seq<SharedTransaction>,
    senders: Map<u64, SenderInfo>,
    config: PoolConfig,
    p: int,
    senders_back: Map<u64, SenderInfo>,
    balance: U256,
    state_nonce: u64,
)
    requires
        sorted_by_id(txs),
        distinct_hashes(txs),
        senders_known(txs, senders),
        within_slots(txs, config.max_account_slots),
        0 <= p < txs.len(),
        senders_back.contains_key(txs[p].transaction_id.sender.0),
        senders_back[txs[p].transaction_id.sender.0] == senders[txs[p].transaction_id.sender.0],
    ensures
        admission_error(txs.remove(p), senders_back, config, *txs[p], balance, state_nonce).is_none(),
        sender_count(txs.remove(p), txs[p].transaction_id.sender) < config.max_account_slots,
{
    let slots = config.max_account_slots;
    let rest = txs.remove(p);
    let hash = txs[p].transaction.hash;
    let sender = txs[p].transaction_id.sender;
    lemma_sender_count_remove(txs, p, sender);
    assert(sender_count(txs, sender) <= slots);
    lemma_put_back(txs, slots, p);
    assert(!has_hash(rest, hash)) by {
        if has_hash(rest, hash) {
            let j = choose|j: int|
                0 <= j < rest.len() && (#[trigger] rest[j]).transaction.hash == hash;
            let k = if j < p { j } else { j + 1 };
            assert(rest[j] == txs[k]);
            if k < p {
                assert(txs[k].transaction.hash != txs[p].transaction.hash);
            } else {
                assert(txs[p].transaction.hash != txs[k].transaction.hash);
            }
        }
    }
}

/// Where two committed states agree on the senders of the residents, the
/// residents are in the same sub-pools under both.
pub proof fn lemma_same_classes(
    txs: Seq<SharedTransaction>,
    a: Map<u64, SenderInfo>,
    b: Map<u64, SenderInfo>,
    base_fee: u64,
)
    requires
        forall|k: int|
            0 <= k < txs.len() ==> a.contains_key((#[trigger] txs[k]).transaction_id.sender.0)
                && b.contains_key(txs[k].transaction_id.sender.0)
                && a[txs[k].transaction_id.sender.0] == b[txs[k].transaction_id.sender.0],
    ensures
        with_classes(txs, a, base_fee) == with_classes(txs, b, base_fee),
{
    assert forall|i: int| 0 <= i < txs.len() implies #[trigger] with_classes(txs, a, base_fee)[i]
        == with_classes(txs, b, base_fee)[i] by {
        lemma_classify_local(txs, a, b, base_fee, i);
    }
    assert(with_classes(txs, a, base_fee) =~= with_classes(txs, b, base_fee));
}

/// A replacement pays the price bump: where the pool admits a transaction
/// with the id of a resident, its fee cap and its priority fee are each at
/// least those of the resident raised by the configured percentage; with a
/// bump of ten percent or more, at least eleven tenths of them.
pub proof fn lemma_replacement_pays_bump(
    txs: Seq<SharedTransaction>,
    infos: Map<u64, SenderInfo>,
    config: PoolConfig,
    tx: ValidPoolTransaction,
    balance: U256,
    state_nonce: u64,
)
    requires
        admission_error(txs, infos, config, tx, balance, state_nonce).is_none(),
        index_of_id(txs, tx.transaction_id).is_some(),
    ensures
        ({
            let existing = txs[index_of_id(txs, tx.transaction_id).unwrap()];
            &&& tx.transaction.max_fee_per_gas * 100 >= existing.transaction.max_fee_per_gas * (100
                + config.price_bump)
            &&& tx.spec_priority_fee_or_price() * 100 >= existing.spec_priority_fee_or_price() * (
            100 + config.price_bump)
            &&& config.price_bump >= 10 ==> tx.transaction.max_fee_per_gas * 10
                >= existing.transaction.max_fee_per_gas * 11 && tx.spec_priority_fee_or_price() * 10
                >= existing.spec_priority_fee_or_price() * 11
        }),
{
    let existing = txs[index_of_id(txs, tx.transaction_id).unwrap()];
    let bump = config.price_bump;
    if bump >= 10 {
        let e1 = existing.transaction.max_fee_per_gas;
        let e2 = existing.spec_priority_fee_or_price();
        assert(e1 * (100 + bump) >= e1 * 110) by (nonlinear_arith)
            requires
                bump >= 10,
                e1 >= 0,
        ;
        assert(e2 * (100 + bump) >= e2 * 110) by (nonlinear_arith)
            requires
                bump >= 10,
                e2 >= 0,
        ;
    }
}

/// The addresses of the senders of `txs`: for each run of one sender's
/// transactions in the id order, the address that its first one gives.
pub open spec fn sender_addresses(txs: Seq<SharedTransaction>) -> Seq<Address>
    decreases txs.len(),
{
    if txs.len() == 0 {
        Seq::empty()
    } else if continues_chain(txs, txs.len() - 1) {
        sender_addresses(txs.drop_last())
    } else {
        sender_addresses(txs.drop_last()).push(txs.last().transaction.sender)
    }
}

/// The first of `txs` with hash `hash`, if there is one.
pub open spec fn first_with_hash(txs: Seq<SharedTransaction>, hash: TxHash) -> Option<
    SharedTransaction,
> {
    if has_hash(txs, hash) {
        Some(
            txs[choose|i: int|
                0 <= i < txs.len() && txs[i].transaction.hash == hash && forall|k: int|
                    0 <= k < i ==> (#[trigger] txs[k]).transaction.hash != hash],
        )
    } else {
        None
    }
}

/// Whether `c` is the first place of `txs` with hash `hash`.
pub open spec fn is_first_with_hash(txs: Seq<SharedTransaction>, hash: TxHash, c: int) -> bool {
    &&& 0 <= c < txs.len()
    &&& txs[c].transaction.hash == hash
    &&& forall|k: int| 0 <= k < c ==> (#[trigger] txs[k]).transaction.hash != hash
}

/// Where a transaction with hash `hash` is among `txs`, the first with
/// that hash is found, and has that hash.
pub proof fn lemma_first_with_hash(txs: Seq<SharedTransaction>, hash: TxHash, j: int)
    requires
        0 <= j < txs.len(),
        txs[j].transaction.hash == hash,
    ensures
        first_with_hash(txs, hash) matches Some(tx) && tx.transaction.hash == hash
            && txs.contains(tx),
{
    lemma_least_with_hash(txs, hash, j);
    let c = choose|c: int| is_first_with_hash(txs, hash, c);
    assert(is_first_with_hash(txs, hash, c));
    let i = choose|i: int|
        0 <= i < txs.len() && txs[i].transaction.hash == hash && forall|k: int|
            0 <= k < i ==> (#[trigger] txs[k]).transaction.hash != hash;
    assert(0 <= i < txs.len() && txs[i].transaction.hash == hash);
}

/// Where the transaction at place `j` of `txs` has hash `hash`, some place
/// is the first with that hash.
proof fn lemma_least_with_hash(txs: Seq<SharedTransaction>, hash: TxHash, j: int)
    requires
        0 <= j < txs.len(),
        txs[j].transaction.hash == hash,
    ensures
        exists|c: int| is_first_with_hash(txs, hash, c),
    decreases j,
{
    if exists|k: int| 0 <= k < j && (#[trigger] txs[k]).transaction.hash == hash {
        let k = choose|k: int| 0 <= k < j && (#[trigger] txs[k]).transaction.hash == hash;
        lemma_least_with_hash(txs, hash, k);
    } else {
        assert(is_first_with_hash(txs, hash, j));
    }
}

/// The transactions of `txs` that the hashes `hashes` name, in the order of
/// the hashes; a hash that names none is passed over.
pub open spec fn found_all(txs: Seq<SharedTransaction>, hashes: Seq<TxHash>) -> Seq<
    SharedTransaction,
>
    decreases hashes.len(),
{
    if hashes.len() == 0 {
        Seq::empty()
    } else {
        match first_with_hash(txs, hashes.last()) {
            Some(tx) => found_all(txs, hashes.drop_last()).push(tx),
            None => found_all(txs, hashes.drop_last()),
        }
    }
}

/// The pool of transactions.
#[derive(Debug)]
pub struct TxPool<T: TransactionOrdering> {
    ordering: Arc<T>,
    config: PoolConfig,
    block_info: BlockInfo,
    sender_info: HashMap<u64, SenderInfo>,
    all: Vec<PoolInternalTransaction>,
    pending: SubPoolStore,
    basefee: SubPoolStore,
    queued: SubPoolStore,
}

impl<T: TransactionOrdering> TxPool<T> {
    /// The order of the pending sub-pool.
    pub closed spec fn ordering(&self) -> T {
        *self.ordering
    }

    /// The resident transactions in id order, each with its sub-pool.
    pub closed spec fn entries(&self) -> Seq<PoolInternalTransaction> {
        self.all@
    }

    /// What the pool knows of each sender's committed state, by sender id.
    pub closed spec fn senders(&self) -> Map<u64, SenderInfo> {
        self.sender_info@
    }

    /// The block the pool last saw.
    pub closed spec fn block(&self) -> BlockInfo {
        self.block_info
    }

    /// The settings the pool was made with.
    pub closed spec fn settings(&self) -> PoolConfig {
        self.config
    }

    /// The store of sub-pool `pool`.
    pub closed spec fn store(&self, pool: SubPool) -> SubPoolStore {
        match pool {
            SubPool::Pending => self.pending,
            SubPool::BaseFee => self.basefee,
            SubPool::Queued => self.queued,
        }
    }

    /// The resident transactions in id order.
    pub open spec fn all(&self) -> Seq<SharedTransaction> {
        txs_of(self.entries())
    }

    /// The transactions of sub-pool `pool`, in id order.
    pub open spec fn members(&self, pool: SubPool) -> Seq<SharedTransaction> {
        project(self.entries(), pool)
    }

    /// Whether each store holds exactly the transactions of its sub-pool.
    pub open spec fn stores_match(&self) -> bool {
        &&& self.store(SubPool::Pending).wf()
        &&& self.store(SubPool::BaseFee).wf()
        &&& self.store(SubPool::Queued).wf()
        &&& self.store(SubPool::Pending).kind() == SubPool::Pending
        &&& self.store(SubPool::BaseFee).kind() == SubPool::BaseFee
        &&& self.store(SubPool::Queued).kind() == SubPool::Queued
        &&& self.store(SubPool::Pending)@ == self.members(SubPool::Pending)
        &&& self.store(SubPool::BaseFee)@ == self.members(SubPool::BaseFee)
        &&& self.store(SubPool::Queued)@ == self.members(SubPool::Queued)
    }

    /// The pool's invariant: the resident transactions stand in id order,
    /// one per id and one per hash; the pool knows the committed state of
    /// each of their senders, and none has a nonce below its sender's nonce on
    /// chain; no sender holds more than the configured number of slots; each
    /// transaction is in the sub-pool that [`classify`] gives it; and each
    /// store holds exactly the transactions of its sub-pool.
    pub open spec fn wf(&self) -> bool {
        &&& sorted_by_id(self.all())
        &&& distinct_hashes(self.all())
        &&& senders_known(self.all(), self.senders())
        &&& within_slots(self.all(), self.settings().max_account_slots)
        &&& classified(self.entries(), self.senders(), self.block().pending_basefee)
        &&& self.stores_match()
    }

    /// An empty pool with the given order of the pending sub-pool and the
    /// given settings, before any block was seen.
    pub fn new(ordering: T, config: PoolConfig) -> (r: TxPool<T>)
        ensures
            r.wf(),
            r.ordering() == ordering,
            r.entries().len() == 0,
            r.senders() == Map::<u64, SenderInfo>::empty(),
            r.settings() == config,
            r.block() == (BlockInfo {
                last_seen_block_hash: crate::primitives::B256 { hi: 0, lo: 0 },
                last_seen_block_number: 0,
                pending_basefee: config.minimal_protocol_basefee,
            }),
    {
        let r = TxPool {
            ordering: Arc::new(ordering),
            config,
            block_info: BlockInfo {
                last_seen_block_hash: crate::primitives::B256 { hi: 0, lo: 0 },
                last_seen_block_number: 0,
                pending_basefee: config.minimal_protocol_basefee,
            },
            sender_info: HashMap::new(),
            all: Vec::new(),
            pending: SubPoolStore::new(SubPool::Pending),
            basefee: SubPoolStore::new(SubPool::BaseFee),
            queued: SubPoolStore::new(SubPool::Queued),
        };
        assert(r.store(SubPool::Pending)@ =~= r.members(SubPool::Pending));
        assert(r.store(SubPool::BaseFee)@ =~= r.members(SubPool::BaseFee));
        assert(r.store(SubPool::Queued)@ =~= r.members(SubPool::Queued));
        r
    }

    /// The settings the pool was made with.
    pub fn config(&self) -> (r: &PoolConfig)
        ensures
            *r == self.settings(),
    {
        &self.config
    }

    /// The block the pool last saw, and the base fee of the block to come.
    pub fn block_info(&self) -> (r: BlockInfo)
        ensures
            r == self.block(),
    {
        self.block_info
    }

    /// The number of resident transactions.
    pub fn len(&self) -> (r: usize)
        ensures
            r == self.all().len(),
    {
        self.all.len()
    }

    /// Whether no transaction is resident.
    pub fn is_empty(&self) -> (r: bool)
        ensures
            r == (self.all().len() == 0),
    {
        self.all.len() == 0
    }

    /// How many transactions, and how many bytes of them, each sub-pool holds.
    pub fn size(&self) -> (r: PoolSize)
        requires
            self.wf(),
        ensures
            r.pending == self.members(SubPool::Pending).len(),
            r.pending_size == sum_bytes(self.members(SubPool::Pending)),
            r.basefee == self.members(SubPool::BaseFee).len(),
            r.basefee_size == sum_bytes(self.members(SubPool::BaseFee)),
            r.queued == self.members(SubPool::Queued).len(),
            r.queued_size == sum_bytes(self.members(SubPool::Queued)),
    {
        PoolSize {
            pending: self.pending.len(),
            pending_size: self.pending.size_bytes(),
            basefee: self.basefee.len(),
            basefee_size: self.basefee.size_bytes(),
            queued: self.queued.len(),
            queued_size: self.queued.size_bytes(),
        }
    }

    /// What the pool knows of the committed state of `sender`.
    pub fn sender_info(&self, sender: SenderId) -> (r: Option<SenderInfo>)
        ensures
            self.senders().contains_key(sender.0) ==> r == Some(self.senders()[sender.0]),
            !self.senders().contains_key(sender.0) ==> r.is_none(),
    {
        match self.sender_info.get(&sender.0) {
            Some(info) => Some(*info),
            None => None,
        }
    }

    /// The place of the first resident transaction with hash `hash`.
    fn find_hash(&self, hash: &TxHash) -> (r: Option<usize>)
        ensures
            match r {
                Some(i) => i < self.all().len() && self.all()[i as int].transaction.hash == *hash
                    && forall|k: int|
                    0 <= k < i ==> (#[trigger] self.all()[k]).transaction.hash != *hash,
                None => !has_hash(self.all(), *hash),
            },
    {
        let mut i: usize = 0;
        while i < self.all.len()
            invariant
                i <= self.all@.len(),
                forall|k: int|
                    0 <= k < i ==> (#[trigger] txs_of(self.all@)[k]).transaction.hash != *hash,
            decreases self.all@.len() - i,
        {
            if self.all[i].transaction.transaction.hash == *hash {
                return Some(i);
            }
            i += 1;
        }
        None
    }

    /// Where a transaction with id `id` stands, or would stand, in the master index.
    fn locate(&self, id: &TransactionId) -> (p: usize)
        requires
            sorted_by_id(self.all()),
        ensures
            p == position_of(self.all(), *id),
            is_position(self.all(), *id, p as int),
    {
        let mut p: usize = 0;
        while p < self.all.len() && self.all[p].transaction.transaction_id.is_before(id)
            invariant
                p <= self.all@.len(),
                forall|k: int|
                    0 <= k < p ==> (#[trigger] txs_of(self.all@)[k]).transaction_id.before(*id),
            decreases self.all@.len() - p,
        {
            p += 1;
        }
        proof {
            let txs = txs_of(self.all@);
            assert forall|k: int| p <= k < txs.len() implies !(
            #[trigger] txs[k]).transaction_id.before(*id) by {
                if k > p {
                    assert(txs[p as int].transaction_id.before(txs[k].transaction_id));
                }
            }
            lemma_position_unique(txs, *id, p as int);
        }
        p
    }

    /// Whether a transaction with hash `hash` is resident.
    pub fn contains(&self, hash: &TxHash) -> (r: bool)
        ensures
            r == has_hash(self.all(), *hash),
    {
        self.find_hash(hash).is_some()
    }

    /// The resident transaction with hash `hash`.
    pub fn get(&self, hash: &TxHash) -> (r: Option<SharedTransaction>)
        ensures
            r == first_with_hash(self.all(), *hash),
            match r {
                Some(tx) => self.all().contains(tx) && tx.transaction.hash == *hash,
                None => !has_hash(self.all(), *hash),
            },
    {
        match self.find_hash(hash) {
            Some(i) => {
                assert(self.all()[i as int] == self.all@[i as int].transaction);
                proof {
                    let txs = self.all();
                    let c = choose|c: int|
                        0 <= c < txs.len() && txs[c].transaction.hash == *hash && forall|k: int|
                            0 <= k < c ==> (#[trigger] txs[k]).transaction.hash != *hash;
                    assert(c == i) by {
                        if c < i {
                            assert(txs[c].transaction.hash != *hash);
                        }
                        if i < c {
                            assert(txs[i as int].transaction.hash != *hash);
                        }
                    }
                }
                Some(self.all[i].transaction.clone())
            },
            None => None,
        }
    }

    /// The resident transactions that the given hashes name, in the order
    /// of the hashes; a hash that names none is passed over.
    pub fn get_all(&self, hashes: &Vec<TxHash>) -> (r: Vec<SharedTransaction>)
        ensures
            r@ == found_all(self.all(), hashes@),
    {
        let mut out: Vec<SharedTransaction> = Vec::new();
        let mut i: usize = 0;
        assert(hashes@.take(0) =~= Seq::empty());
        while i < hashes.len()
            invariant
                i <= hashes@.len(),
                out@ == found_all(self.all(), hashes@.take(i as int)),
            decreases hashes@.len() - i,
        {
            assert(hashes@.take(i + 1).drop_last() =~= hashes@.take(i as int));
            match self.get(&hashes[i]) {
                Some(tx) => {
                    out.push(tx);
                },
                None => {},
            }
            i += 1;
        }
        assert(hashes@.take(i as int) =~= hashes@);
        out
    }

    /// The addresses of the senders that have a resident transaction: see
    /// [`sender_addresses`].
    pub fn unique_senders(&self) -> (r: Vec<Address>)
        ensures
            r@ == sender_addresses(self.all()),
    {
        let mut out: Vec<Address> = Vec::new();
        let mut i: usize = 0;
        assert(txs_of(self.all@).take(0) =~= Seq::empty());
        while i < self.all.len()
            invariant
                i <= self.all@.len(),
                out@ == sender_addresses(txs_of(self.all@).take(i as int)),
            decreases self.all@.len() - i,
        {
            let ghost txs = txs_of(self.all@);
            assert(txs.take(i + 1).drop_last() =~= txs.take(i as int));
            assert(continues_chain(txs.take(i + 1), i as int) == continues_chain(txs, i as int));
            let continues: bool = i > 0 && self.all[i - 1].transaction.transaction_id.sender
                == self.all[i].transaction.transaction_id.sender;
            if !continues {
                out.push(self.all[i].transaction.transaction.sender);
            }
            i += 1;
        }
        assert(txs_of(self.all@).take(i as int) =~= txs_of(self.all@));
        out
    }

    /// The resident transaction with id `id`.
    pub fn get_by_id(&self, id: &TransactionId) -> (r: Option<SharedTransaction>)
        requires
            self.wf(),
        ensures
            match index_of_id(self.all(), *id) {
                Some(p) => r == Some(self.all()[p]),
                None => r.is_none(),
            },
    {
        let p: usize = self.locate(id);
        if p < self.all.len() && self.all[p].transaction.transaction_id == *id {
            Some(self.all[p].transaction.clone())
        } else {
            None
        }
    }

    /// The sub-pool of the resident transaction with id `id`.
    pub fn subpool_of(&self, id: &TransactionId) -> (r: Option<SubPool>)
        requires
            self.wf(),
        ensures
            match index_of_id(self.all(), *id) {
                Some(p) => r == Some(self.entries()[p].subpool),
                None => r.is_none(),
            },
    {
        let p: usize = self.locate(id);
        if p < self.all.len() && self.all[p].transaction.transaction_id == *id {
            Some(self.all[p].subpool)
        } else {
            None
        }
    }

    /// All resident transactions, in id order.
    pub fn all_transactions(&self) -> (r: Vec<SharedTransaction>)
        ensures
            r@ == self.all(),
    {
        let mut out: Vec<SharedTransaction> = Vec::new();
        let mut i: usize = 0;
        while i < self.all.len()
            invariant
                i <= self.all@.len(),
                out@ == txs_of(self.all@).take(i as int),
            decreases self.all@.len() - i,
        {
            out.push(self.all[i].transaction.clone());
            assert(txs_of(self.all@).take(i + 1) =~= txs_of(self.all@).take(i as int).push(
                txs_of(self.all@)[i as int],
            ));
            i += 1;
        }
        assert(txs_of(self.all@).take(i as int) =~= txs_of(self.all@));
        out
    }

    /// The transactions of the pending sub-pool, in id order.
    pub fn pending_transactions(&self) -> (r: Vec<SharedTransaction>)
        requires
            self.wf(),
        ensures
            r@ == self.members(SubPool::Pending),
    {
        self.pending.transactions()
    }

    /// The transactions of the two parked sub-pools: those of the base-fee
    /// sub-pool in id order, then those of the queued one in id order.
    pub fn queued_transactions(&self) -> (r: Vec<SharedTransaction>)
        requires
            self.wf(),
        ensures
            r@ == self.members(SubPool::BaseFee) + self.members(SubPool::Queued),
    {
        let mut out = self.basefee.transactions();
        let mut rest = self.queued.transactions();
        out.append(&mut rest);
        out
    }

    /// The resident transactions of `sender`, by rising nonce.
    pub fn get_transactions_by_sender(&self, sender: SenderId) -> (r: Vec<SharedTransaction>)
        ensures
            r@ == self.all().filter(|tx: SharedTransaction| tx.transaction_id.sender == sender),
    {
        let ghost keep = |tx: SharedTransaction| tx.transaction_id.sender == sender;
        let mut out: Vec<SharedTransaction> = Vec::new();
        let mut i: usize = 0;
        assert(txs_of(self.all@).take(0) =~= Seq::empty());
        proof {
            reveal(Seq::filter);
        }
        while i < self.all.len()
            invariant
                i <= self.all@.len(),
                keep == |tx: SharedTransaction| tx.transaction_id.sender == sender,
                out@ == txs_of(self.all@).take(i as int).filter(keep),
            decreases self.all@.len() - i,
        {
            proof {
                reveal(Seq::filter);
                assert(txs_of(self.all@).take(i + 1).drop_last() =~= txs_of(self.all@).take(i as int));
            }
            if self.all[i].transaction.transaction_id.sender == sender {
                out.push(self.all[i].transaction.clone());
            }
            i += 1;
        }
        assert(txs_of(self.all@).take(i as int) =~= txs_of(self.all@));
        out
    }

    /// The number of resident transactions of `sender`.
    pub fn count_sender(&self, sender: SenderId) -> (r: usize)
        ensures
            r == sender_count(self.all(), sender),
    {
        let mut count: usize = 0;
        let mut i: usize = 0;
        assert(txs_of(self.all@).take(0) =~= Seq::empty());
        while i < self.all.len()
            invariant
                i <= self.all@.len(),
                count <= i,
                count == sender_count(txs_of(self.all@).take(i as int), sender),
            decreases self.all@.len() - i,
        {
            assert(txs_of(self.all@).take(i + 1).drop_last() =~= txs_of(self.all@).take(i as int));
            if self.all[i].transaction.transaction_id.sender == sender {
                count += 1;
            }
            i += 1;
        }
        assert(txs_of(self.all@).take(i as int) =~= txs_of(self.all@));
        count
    }

    /// The place of the last resident transaction of `sender` that is not local.
    fn find_last_evictable(&self, sender: SenderId) -> (r: Option<usize>)
        ensures
            match r {
                Some(v) => last_evictable(self.all(), sender) == Some(v as int),
                None => last_evictable(self.all(), sender).is_none(),
            },
    {
        let mut found: Option<usize> = None;
        let mut i: usize = 0;
        assert(txs_of(self.all@).take(0) =~= Seq::empty());
        while i < self.all.len()
            invariant
                i <= self.all@.len(),
                match found {
                    Some(v) => last_evictable(txs_of(self.all@).take(i as int), sender) == Some(
                        v as int,
                    ),
                    None => last_evictable(txs_of(self.all@).take(i as int), sender).is_none(),
                },
            decreases self.all@.len() - i,
        {
            assert(txs_of(self.all@).take(i + 1).drop_last() =~= txs_of(self.all@).take(i as int));
            if self.all[i].transaction.transaction_id.sender == sender
                && !self.all[i].transaction.is_local() {
                found = Some(i);
            }
            i += 1;
        }
        assert(txs_of(self.all@).take(i as int) =~= txs_of(self.all@));
        found
    }

    /// Admits a validated transaction, unless [`admission_error`] names a
    /// reason not to; in that case nothing changes.
    ///
    /// A sender that the pool has no committed state of gets the state that
    /// the validator saw, `on_chain_balance` and `on_chain_nonce`. The
    /// transaction takes its place in the id order; the resident it replaces,
    /// or the one that gives up its slot, leaves. Then every transaction is
    /// classified anew. The result tells the sub-pool the transaction went
    /// to, the replaced transaction, the other transactions that were
    /// promoted, and the one pushed out of its slot.
    #[verifier::rlimit(40)]
    pub fn add_transaction(
        &mut self,
        tx: ValidPoolTransaction,
        on_chain_balance: U256,
        on_chain_nonce: u64,
    ) -> (r: PoolResult<AddedTransaction>)
        requires
            old(self).wf(),
        ensures
            final(self).wf(),
            final(self).block() == old(self).block(),
            final(self).settings() == old(self).settings(),
            final(self).ordering() == old(self).ordering(),
            match admission_error(
                old(self).all(),
                old(self).senders(),
                old(self).settings(),
                tx,
                on_chain_balance,
                on_chain_nonce,
            ) {
                Some(e) => r == Err::<AddedTransaction, PoolError>(e) && final(self).entries()
                    == old(self).entries() && final(self).senders() == old(self).senders(),
                None => r.is_ok() && ({
                    let added = r.unwrap();
                    let id = tx.transaction_id;
                    let slots = old(self).settings().max_account_slots;
                    let mid = seated(old(self).entries(), slots, added.spec_transaction());
                    &&& *added.spec_transaction() == tx
                    &&& final(self).senders() == old(self).senders().insert(
                        id.sender.0,
                        info_on_arrival(
                            old(self).senders(),
                            id.sender,
                            on_chain_balance,
                            on_chain_nonce,
                        ),
                    )
                    &&& final(self).all() == txs_of(mid)
                    &&& final(self).all() == seated_txs(
                        old(self).all(),
                        slots,
                        added.spec_transaction(),
                    )
                    &&& added.spec_replaced() == replaced_by(old(self).all(), id)
                    &&& index_of_id(final(self).all(), id) matches Some(p) && added.spec_subpool()
                        == final(self).entries()[p].subpool
                            && (added is Pending) == (final(self).entries()[p].subpool
                                == SubPool::Pending)
                    &&& added.spec_promoted() == promoted_between(
                        mid,
                        final(self).entries(),
                        Some(id),
                        mid.len() as int,
                    )
                    &&& added.spec_discarded() == evicted_for(old(self).all(), slots, id)
                }),
            },
    {
        let hash = tx.transaction.hash;
        let id = tx.transaction_id;
        let sender = id.sender;
        let address = tx.transaction.sender;
        let slots: usize = self.config.max_account_slots;
        let ghost txs0 = txs_of(self.all@);
        let ghost infos0 = self.sender_info@;
        if self.find_hash(&hash).is_some() {
            return Err(PoolError::AlreadyImported(hash));
        }
        let (known, info): (bool, SenderInfo) = match self.sender_info.get(&sender.0) {
            Some(info) => (true, *info),
            None => (false, SenderInfo { state_nonce: on_chain_nonce, balance: on_chain_balance }),
        };
        assert(info == info_on_arrival(infos0, sender, on_chain_balance, on_chain_nonce));
        if id.nonce < info.state_nonce {
            return Err(
                PoolError::NonceTooLow {
                    hash,
                    sender: address,
                    nonce: id.nonce,
                    state_nonce: info.state_nonce,
                },
            );
        }
        let p0: usize = self.locate(&id);
        let replacing: bool = p0 < self.all.len() && self.all[p0].transaction.transaction_id == id;
        assert(replacing == index_of_id(txs0, id).is_some());
        let mut replaced: Option<SharedTransaction> = None;
        let mut discarded: Vec<TxHash> = Vec::new();
        if replacing {
            if check_underpriced(&self.all[p0].transaction, &tx, self.config.price_bump) {
                return Err(PoolError::ReplacementUnderpriced(hash));
            }
            let entry = self.all.remove(p0);
            replaced = Some(entry.transaction);
        } else {
            let count: usize = self.count_sender(sender);
            if count >= slots {
                proof {
                    lemma_last_evictable(txs0, sender);
                }
                match self.find_last_evictable(sender) {
                    None => {
                        return Err(PoolError::SpammerExceededCap(address));
                    },
                    Some(v) => {
                        if !tx.is_local() && self.all[v].transaction.transaction_id.nonce
                            < id.nonce {
                            return Err(PoolError::SpammerExceededCap(address));
                        }
                        let entry = self.all.remove(v);
                        discarded.push(entry.transaction.transaction.hash);
                    },
                }
            }
        }
        let ghost rest = self.all@;
        assert(rest == cleared(old(self).entries(), slots, id));
        assert(txs_of(rest) == txs_of(cleared(old(self).entries(), slots, id)));
        proof {
            lemma_cleared(old(self).entries(), slots, id, hash);
        }
        if !known {
            self.sender_info.insert(sender.0, info);
        }
        assert(self.sender_info@ =~= infos0.insert(sender.0, info));
        let p: usize = self.locate(&id);
        let shared: SharedTransaction = Arc::new(tx);
        let held = shared.clone();
        self.all.insert(p, PoolInternalTransaction { transaction: held, subpool: SubPool::Queued });
        let ghost mid = self.all@;
        proof {
            assert(mid == seated(old(self).entries(), slots, shared));
            lemma_seated(old(self).entries(), infos0, slots, shared, info);
        }
        let (promoted, _demoted) = self.reclassify(Some(id));
        assert(txs_of(self.all@)[p as int] == shared);
        let subpool: SubPool = self.all[p].subpool;
        match subpool {
            SubPool::Pending => Ok(
                AddedTransaction::Pending(
                    AddedPendingTransaction { transaction: shared, replaced, promoted, discarded },
                ),
            ),
            _ => Ok(
                AddedTransaction::Parked {
                    transaction: shared,
                    replaced,
                    subpool,
                    promoted,
                    discarded,
                },
            ),
        }
    }

    /// Takes out the residents that do not stay in the sense of [`stays`],
    /// given the hashes `gone` and the committed state as it is now. The
    /// sub-pools are not brought up to date.
    fn prune(&mut self, gone: &Vec<TxHash>) -> (r: (Vec<SharedTransaction>, Vec<TxHash>))
        ensures
            final(self).entries() == retained(old(self).entries(), gone@, old(self).senders()),
            final(self).senders() == old(self).senders(),
            final(self).block() == old(self).block(),
            final(self).settings() == old(self).settings(),
            final(self).ordering() == old(self).ordering(),
            r.0@ == taken_out(old(self).entries(), gone@),
            r.1@ == outdated(old(self).entries(), gone@, old(self).senders()),
    {
        let ghost before = self.all@;
        let ghost infos = self.sender_info@;
        let mut kept: Vec<PoolInternalTransaction> = Vec::new();
        let mut removed: Vec<SharedTransaction> = Vec::new();
        let mut stale: Vec<TxHash> = Vec::new();
        let mut i: usize = 0;
        assert(self.all@.take(0) =~= Seq::empty());
        while i < self.all.len()
            invariant
                i <= self.all@.len(),
                self.all@ == before,
                self.sender_info@ == infos,
                self.block_info == old(self).block_info,
                self.config == old(self).config,
                self.ordering == old(self).ordering,
                kept@ == retained(before.take(i as int), gone@, infos),
                removed@ == taken_out(before.take(i as int), gone@),
                stale@ == outdated(before.take(i as int), gone@, infos),
            decreases self.all@.len() - i,
        {
            assert(before.take(i + 1).drop_last() =~= before.take(i as int));
            assert(before.take(i + 1).last() == before[i as int]);
            let tx = self.all[i].transaction.clone();
            let subpool: SubPool = self.all[i].subpool;
            let id = tx.transaction_id;
            let state_nonce: u64 = match self.sender_info.get(&id.sender.0) {
                Some(info) => info.state_nonce,
                None => 0,
            };
            assert(state_nonce == state_nonce_of(infos, id.sender));
            if list_has(gone, &tx.transaction.hash) {
                removed.push(tx);
            } else if id.nonce < state_nonce {
                stale.push(tx.transaction.hash);
            } else {
                kept.push(PoolInternalTransaction { transaction: tx, subpool });
            }
            i += 1;
        }
        assert(before.take(i as int) =~= before);
        self.all = kept;
        (removed, stale)
    }

    /// Applies the changes of `changed` to the committed state, in order.
    fn apply_changes(&mut self, changed: &Vec<(SenderId, SenderInfo)>)
        ensures
            final(self).senders() == updated_infos(old(self).senders(), changed@),
            final(self).entries() == old(self).entries(),
            final(self).block() == old(self).block(),
            final(self).settings() == old(self).settings(),
            final(self).ordering() == old(self).ordering(),
            final(self).store(SubPool::Pending) == old(self).store(SubPool::Pending),
            final(self).store(SubPool::BaseFee) == old(self).store(SubPool::BaseFee),
            final(self).store(SubPool::Queued) == old(self).store(SubPool::Queued),
    {
        let ghost infos = self.sender_info@;
        let mut i: usize = 0;
        assert(changed@.take(0) =~= Seq::empty());
        while i < changed.len()
            invariant
                i <= changed@.len(),
                self.sender_info@ == updated_infos(infos, changed@.take(i as int)),
                self.all == old(self).all,
                self.block_info == old(self).block_info,
                self.config == old(self).config,
                self.ordering == old(self).ordering,
                self.pending == old(self).pending,
                self.basefee == old(self).basefee,
                self.queued == old(self).queued,
            decreases changed@.len() - i,
        {
            assert(changed@.take(i + 1).drop_last() =~= changed@.take(i as int));
            let (sender, info): (SenderId, SenderInfo) = changed[i];
            self.sender_info.insert(sender.0, info);
            i += 1;
        }
        assert(changed@.take(i as int) =~= changed@);
    }

    /// Brings the pool in line with a state it is handed: takes out the
    /// hashes `gone` and what the state has made outdated, then classifies anew.
    fn settle(&mut self, gone: &Vec<TxHash>) -> (r: (Vec<SharedTransaction>, UpdateOutcome))
        requires
            sorted_by_id(old(self).all()),
            distinct_hashes(old(self).all()),
            within_slots(old(self).all(), old(self).settings().max_account_slots),
            forall|j: int|
                0 <= j < old(self).all().len() ==> old(self).senders().contains_key(
                    (#[trigger] old(self).all()[j]).transaction_id.sender.0,
                ),
        ensures
            final(self).wf(),
            final(self).senders() == old(self).senders(),
            final(self).block() == old(self).block(),
            final(self).settings() == old(self).settings(),
            final(self).ordering() == old(self).ordering(),
            final(self).all() == txs_of(
                retained(old(self).entries(), gone@, old(self).senders()),
            ),
            r.0@ == taken_out(old(self).entries(), gone@),
            r.1.discarded@ == outdated(old(self).entries(), gone@, old(self).senders()),
            r.1.promoted@ == promoted_between(
                retained(old(self).entries(), gone@, old(self).senders()),
                final(self).entries(),
                None,
                final(self).entries().len() as int,
            ),
            r.1.demoted@ == demoted_between(
                retained(old(self).entries(), gone@, old(self).senders()),
                final(self).entries(),
                None,
                final(self).entries().len() as int,
            ),
    {
        let ghost before = self.all@;
        let ghost infos = self.sender_info@;
        let (removed, discarded) = self.prune(gone);
        proof {
            lemma_retained(before, gone@, infos);
            let mid = txs_of(self.all@);
            assert forall|k: int| 0 <= k < mid.len() implies infos.contains_key(
                (#[trigger] mid[k]).transaction_id.sender.0,
            ) && mid[k].transaction_id.nonce >= infos[mid[k].transaction_id.sender.0].state_nonce by {
                let j = choose|j: int| 0 <= j < before.len() && before[j] == self.all@[k];
                assert(txs_of(before)[j] == mid[k]);
                assert(stays(self.all@[k].transaction, gone@, infos));
            }
            assert forall|s: SenderId| #[trigger]
                sender_count(mid, s) <= self.config.max_account_slots by {
                assert(sender_count(txs_of(before), s) <= self.config.max_account_slots);
            }
        }
        let (promoted, demoted) = self.reclassify(None);
        (removed, UpdateOutcome { promoted, demoted, discarded })
    }

    /// Takes the transactions with the given hashes out of the pool and
    /// classifies the others anew. Returns the ones taken out, in id order.
    pub fn remove_transactions(&mut self, hashes: &Vec<TxHash>) -> (r: Vec<SharedTransaction>)
        requires
            old(self).wf(),
        ensures
            final(self).wf(),
            final(self).senders() == old(self).senders(),
            final(self).block() == old(self).block(),
            final(self).settings() == old(self).settings(),
            final(self).ordering() == old(self).ordering(),
            final(self).all() == txs_of(
                retained(old(self).entries(), hashes@, old(self).senders()),
            ),
            r@ == taken_out(old(self).entries(), hashes@),
    {
        let (removed, _outcome) = self.settle(hashes);
        removed
    }

    /// Replaces the block the pool goes by and classifies every transaction
    /// anew under its pending base fee, which is raised to the configured
    /// floor where it is below. Returns the hashes of the promoted and of
    /// the demoted transactions.
    pub fn set_block_info(&mut self, info: BlockInfo) -> (r: (Vec<TxHash>, Vec<TxHash>))
        requires
            old(self).wf(),
        ensures
            final(self).wf(),
            final(self).block() == info.floored(old(self).settings().minimal_protocol_basefee),
            final(self).all() == old(self).all(),
            final(self).senders() == old(self).senders(),
            final(self).settings() == old(self).settings(),
            final(self).ordering() == old(self).ordering(),
            r.0@ == promoted_between(
                old(self).entries(),
                final(self).entries(),
                None,
                final(self).entries().len() as int,
            ),
            r.1@ == demoted_between(
                old(self).entries(),
                final(self).entries(),
                None,
                final(self).entries().len() as int,
            ),
    {
        self.block_info = info.with_floor(self.config.minimal_protocol_basefee);
        self.reclassify(None)
    }

    /// Takes over the committed state of the given senders, drops what their
    /// new nonces have made outdated and classifies the rest anew.
    pub fn update_accounts(&mut self, changed_senders: &Vec<(SenderId, SenderInfo)>) -> (r:
        UpdateOutcome)
        requires
            old(self).wf(),
        ensures
            final(self).wf(),
            final(self).block() == old(self).block(),
            final(self).settings() == old(self).settings(),
            final(self).ordering() == old(self).ordering(),
            final(self).senders() == updated_infos(old(self).senders(), changed_senders@),
            final(self).all() == txs_of(
                retained(old(self).entries(), Seq::<TxHash>::empty(), final(self).senders()),
            ),
            r.discarded@ == outdated(
                old(self).entries(),
                Seq::<TxHash>::empty(),
                final(self).senders(),
            ),
            r.promoted@ == promoted_between(
                retained(old(self).entries(), Seq::<TxHash>::empty(), final(self).senders()),
                final(self).entries(),
                None,
                final(self).entries().len() as int,
            ),
            r.demoted@ == demoted_between(
                retained(old(self).entries(), Seq::<TxHash>::empty(), final(self).senders()),
                final(self).entries(),
                None,
                final(self).entries().len() as int,
            ),
    {
        proof {
            lemma_updated_infos_keys(self.sender_info@, changed_senders@);
        }
        self.apply_changes(changed_senders);
        let none: Vec<TxHash> = Vec::new();
        let (_removed, outcome) = self.settle(&none);
        outcome
    }

    /// Takes over a new canonical block: the committed state of the changed
    /// senders and the block itself. The mined transactions leave, and so
    /// does what the new nonces have made outdated; the rest is classified
    /// anew under the new state and the new pending base fee, which is
    /// raised to the configured floor where it is below.
    pub fn on_canonical_state_change(
        &mut self,
        block_info: BlockInfo,
        mined_transactions: Vec<TxHash>,
        changed_senders: &Vec<(SenderId, SenderInfo)>,
    ) -> (r: OnNewCanonicalStateOutcome)
        requires
            old(self).wf(),
        ensures
            final(self).wf(),
            final(self).block() == block_info.floored(
                old(self).settings().minimal_protocol_basefee,
            ),
            final(self).settings() == old(self).settings(),
            final(self).ordering() == old(self).ordering(),
            final(self).senders() == updated_infos(old(self).senders(), changed_senders@),
            final(self).all() == txs_of(
                retained(old(self).entries(), mined_transactions@, final(self).senders()),
            ),
            r.block_hash == block_info.last_seen_block_hash,
            r.mined == mined_transactions,
            r.discarded@ == outdated(
                old(self).entries(),
                mined_transactions@,
                final(self).senders(),
            ),
            r.promoted@ == promoted_between(
                retained(old(self).entries(), mined_transactions@, final(self).senders()),
                final(self).entries(),
                None,
                final(self).entries().len() as int,
            ),
            r.demoted@ == demoted_between(
                retained(old(self).entries(), mined_transactions@, final(self).senders()),
                final(self).entries(),
                None,
                final(self).entries().len() as int,
            ),
    {
        proof {
            lemma_updated_infos_keys(self.sender_info@, changed_senders@);
        }
        self.apply_changes(changed_senders);
        self.block_info = block_info.with_floor(self.config.minimal_protocol_basefee);
        let (_removed, outcome) = self.settle(&mined_transactions);
        OnNewCanonicalStateOutcome {
            block_hash: block_info.last_seen_block_hash,
            mined: mined_transactions,
            promoted: outcome.promoted,
            demoted: outcome.demoted,
            discarded: outcome.discarded,
        }
    }

    /// What the invariant says of the stores: each holds the transactions
    /// that belong in its sub-pool.
    pub proof fn lemma_members(&self, pool: SubPool)
        requires
            self.wf(),
        ensures
            self.entries() == with_classes(
                self.all(),
                self.senders(),
                self.block().pending_basefee,
            ),
            self.store(pool)@ == self.members(pool),
            self.members(pool) == members_of(
                self.all(),
                self.senders(),
                self.block().pending_basefee,
                pool,
            ),
            self.store(pool).wf(),
            self.store(pool).kind() == pool,
    {
        assert(self.entries() =~= with_classes(
            self.all(),
            self.senders(),
            self.block().pending_basefee,
        ));
    }

    /// The sub-pool that is most over budget, if any is over budget.
    fn victim_pool(&self) -> (r: Option<SubPool>)
        requires
            self.wf(),
        ensures
            r == most_over_budget(
                self.all(),
                self.senders(),
                self.block().pending_basefee,
                self.settings(),
            ),
    {
        proof {
            self.lemma_members(SubPool::Pending);
            self.lemma_members(SubPool::BaseFee);
            self.lemma_members(SubPool::Queued);
        }
        let pending_over: bool = self.pending.exceeds(&self.config.pending_limit);
        let basefee_over: bool = self.basefee.exceeds(&self.config.basefee_limit);
        let queued_over: bool = self.queued.exceeds(&self.config.queued_limit);
        let pending_excess: usize = if self.pending.len() > self.config.pending_limit.max_txs {
            self.pending.len() - self.config.pending_limit.max_txs
        } else {
            0
        };
        let basefee_excess: usize = if self.basefee.len() > self.config.basefee_limit.max_txs {
            self.basefee.len() - self.config.basefee_limit.max_txs
        } else {
            0
        };
        let queued_excess: usize = if self.queued.len() > self.config.queued_limit.max_txs {
            self.queued.len() - self.config.queued_limit.max_txs
        } else {
            0
        };
        choose_pool(
            pending_over,
            pending_excess,
            basefee_over,
            basefee_excess,
            queued_over,
            queued_excess,
        )
    }

    /// The transaction that is evicted next, with its place in the master index.
    fn find_victim(&self) -> (r: Option<(usize, SharedTransaction)>)
        requires
            self.wf(),
        ensures
            match r {
                Some((p, tx)) => next_victim(
                    self.ordering(),
                    self.all(),
                    self.senders(),
                    self.block().pending_basefee,
                    self.settings(),
                ) == Some(tx.transaction_id) && index_of_id(self.all(), tx.transaction_id) == Some(
                    p as int,
                ) && self.all()[p as int] == tx,
                None => most_over_budget(
                    self.all(),
                    self.senders(),
                    self.block().pending_basefee,
                    self.settings(),
                ).is_none(),
            },
    {
        let base_fee: u64 = self.block_info.pending_basefee;
        match self.victim_pool() {
            None => None,
            Some(pool) => {
                proof {
                    self.lemma_members(pool);
                }
                let found = match pool {
                    SubPool::Pending => self.pending.worst(&*self.ordering, base_fee),
                    SubPool::BaseFee => self.basefee.worst(&*self.ordering, base_fee),
                    SubPool::Queued => self.queued.worst(&*self.ordering, base_fee),
                };
                let ghost members = self.members(pool);
                assert(members.len() > 0) by {
                    if members.len() == 0 {
                        assert(sum_bytes(members) == 0);
                    }
                }
                let (w, tx) = found.unwrap();
                proof {
                    self.store(pool).lemma_wf();
                    let chosen = choose|c: int|
                        is_worst_at(members, self.ordering(), pool, base_fee, c);
                    lemma_worst_unique(self.ordering(), members, pool, base_fee, w as int, chosen);
                    lemma_member_index(self.entries(), pool, w as int);
                }
                let p: usize = self.locate(&tx.transaction_id);
                Some((p, tx))
            },
        }
    }

    /// Enforces the size bounds: as long as a sub-pool is over budget, the
    /// worst transaction of the sub-pool that is most over budget leaves, and
    /// the rest is classified anew. Returns the transactions that left, in
    /// the order in which they left. Afterwards no sub-pool is over budget.
    pub fn discard_worst(&mut self) -> (r: Vec<SharedTransaction>)
        requires
            old(self).wf(),
        ensures
            final(self).wf(),
            final(self).senders() == old(self).senders(),
            final(self).block() == old(self).block(),
            final(self).settings() == old(self).settings(),
            final(self).ordering() == old(self).ordering(),
            final(self).all() == after_discard(
                old(self).ordering(),
                old(self).all(),
                old(self).senders(),
                old(self).block().pending_basefee,
                old(self).settings(),
            ),
            r@ == discarded_by(
                old(self).ordering(),
                old(self).all(),
                old(self).senders(),
                old(self).block().pending_basefee,
                old(self).settings(),
            ),
            !over_budget(final(self).members(SubPool::Pending), final(self).settings().pending_limit),
            !over_budget(final(self).members(SubPool::BaseFee), final(self).settings().basefee_limit),
            !over_budget(final(self).members(SubPool::Queued), final(self).settings().queued_limit),
    {
        let ghost infos = self.sender_info@;
        let ghost base_fee = self.block_info.pending_basefee;
        let ghost config = self.config;
        let ghost order = self.ordering();
        let ghost start = txs_of(self.all@);
        let mut removed: Vec<SharedTransaction> = Vec::new();
        assert(removed@ + discarded_by(order, start, infos, base_fee, config) =~= discarded_by(
            order,
            start,
            infos,
            base_fee,
            config,
        ));
        loop
            invariant
                self.wf(),
                self.sender_info@ == infos,
                self.block_info == old(self).block_info,
                self.block_info.pending_basefee == base_fee,
                self.config == config,
                self.ordering() == order,
                order == old(self).ordering(),
                config == old(self).config,
                infos == old(self).sender_info@,
                start == old(self).all(),
                after_discard(order, txs_of(self.all@), infos, base_fee, config) == after_discard(
                    order,
                    start,
                    infos,
                    base_fee,
                    config,
                ),
                removed@ + discarded_by(order, txs_of(self.all@), infos, base_fee, config)
                    == discarded_by(order, start, infos, base_fee, config),
            ensures
                self.wf(),
                self.sender_info@ == infos,
                self.block_info == old(self).block_info,
                self.config == config,
                self.ordering() == order,
                order == old(self).ordering(),
                txs_of(self.all@) == after_discard(order, start, infos, base_fee, config),
                removed@ == discarded_by(order, start, infos, base_fee, config),
                most_over_budget(txs_of(self.all@), infos, base_fee, config).is_none(),
            decreases self.all@.len(),
        {
            let ghost now = txs_of(self.all@);
            match self.find_victim() {
                None => {
                    assert(removed@ + Seq::<SharedTransaction>::empty() =~= removed@);
                    break ;
                },
                Some((p, tx)) => {
                    proof {
                        lemma_removed(now, infos, config.max_account_slots, p as int);
                    }
                    let _entry = self.all.remove(p);
                    assert(txs_of(self.all@) =~= now.remove(p as int));
                    let _moves = self.reclassify(None);
                    removed.push(tx);
                    assert(removed@ + discarded_by(order, txs_of(self.all@), infos, base_fee, config)
                        =~= (removed@.drop_last() + (seq![tx] + discarded_by(
                        order,
                        now.remove(p as int),
                        infos,
                        base_fee,
                        config,
                    ))));
                },
            }
        }
        proof {
            self.lemma_members(SubPool::Pending);
            self.lemma_members(SubPool::BaseFee);
            self.lemma_members(SubPool::Queued);
        }
        removed
    }

    /// A stream of the pending transactions as they are now, best first
    /// under the pending base fee, each sender's by rising nonce.
    pub fn best_transactions(&self) -> (r: BestTransactions<T>)
        requires
            self.wf(),
        ensures
            r.wf(),
            r.snapshot() == self.members(SubPool::Pending),
            r.ordering() == self.ordering(),
            r.fee() == self.block().pending_basefee,
            forall|i: int|
                0 <= i < r.snapshot().len() ==> #[trigger] r.progress()[i]
                    == crate::pool::best::Progress::Waiting,
    {
        proof {
            self.lemma_members(SubPool::Pending);
            self.store(SubPool::Pending).lemma_wf();
        }
        let snapshot = self.pending.transactions();
        proof {
            lemma_never_blocked(snapshot@);
        }
        BestTransactions::new(snapshot, self.ordering.clone(), self.block_info.pending_basefee, 0)
    }

    /// A stream of the pending transactions as they are now for a block
    /// with base fee `base_fee`: best first under the pending base fee, as
    /// in [`Self::best_transactions`], but without the transactions whose
    /// fee cap is below `base_fee` and what follows them in their senders'
    /// chains.
    pub fn best_transactions_with_base_fee(&self, base_fee: u64) -> (r: BestTransactions<T>)
        requires
            self.wf(),
        ensures
            r.wf(),
            r.snapshot() == self.members(SubPool::Pending),
            r.ordering() == self.ordering(),
            r.fee() == self.block().pending_basefee,
            forall|i: int|
                0 <= i < r.snapshot().len() ==> #[trigger] r.progress()[i] == (
                if crate::pool::best::is_blocked(r.snapshot(), base_fee, i) {
                    crate::pool::best::Progress::Invalid
                } else {
                    crate::pool::best::Progress::Waiting
                }),
    {
        proof {
            self.lemma_members(SubPool::Pending);
            self.store(SubPool::Pending).lemma_wf();
        }
        BestTransactions::new(
            self.pending.transactions(),
            self.ordering.clone(),
            self.block_info.pending_basefee,
            base_fee,
        )
    }

    /// The sub-pools part the pool: every resident transaction is in the
    /// store of exactly one sub-pool, and the stores hold resident
    /// transactions only.
    pub proof fn lemma_partition(&self)
        requires
            self.wf(),
        ensures
            self.store(SubPool::Pending)@.to_set().union(
                self.store(SubPool::BaseFee)@.to_set(),
            ).union(self.store(SubPool::Queued)@.to_set()) == self.all().to_set(),
            self.store(SubPool::Pending)@.to_set().disjoint(self.store(SubPool::BaseFee)@.to_set()),
            self.store(SubPool::Pending)@.to_set().disjoint(self.store(SubPool::Queued)@.to_set()),
            self.store(SubPool::BaseFee)@.to_set().disjoint(self.store(SubPool::Queued)@.to_set()),
            self.store(SubPool::Pending)@.len() + self.store(SubPool::BaseFee)@.len() + self.store(
                SubPool::Queued,
            )@.len() == self.all().len(),
    {
        let entries = self.entries();
        let txs = self.all();
        let p = self.store(SubPool::Pending)@;
        let b = self.store(SubPool::BaseFee)@;
        let q = self.store(SubPool::Queued)@;
        lemma_project_members(entries, SubPool::Pending);
        lemma_project_members(entries, SubPool::BaseFee);
        lemma_project_members(entries, SubPool::Queued);
        assert forall|t: SharedTransaction|
            p.contains(t) || b.contains(t) || q.contains(t) implies txs.contains(t) by {
            Self::lemma_member_is_resident(entries, SubPool::Pending, t);
            Self::lemma_member_is_resident(entries, SubPool::BaseFee, t);
            Self::lemma_member_is_resident(entries, SubPool::Queued, t);
        }
        assert forall|t: SharedTransaction| txs.contains(t) implies p.contains(t) || b.contains(t)
            || q.contains(t) by {
            let j = choose|j: int| 0 <= j < txs.len() && txs[j] == t;
            assert(entries[j].transaction == t);
            match entries[j].subpool {
                SubPool::Pending => {
                    assert(p.contains(entries[j].transaction));
                },
                SubPool::BaseFee => {
                    assert(b.contains(entries[j].transaction));
                },
                SubPool::Queued => {
                    assert(q.contains(entries[j].transaction));
                },
            }
        }
        assert forall|t: SharedTransaction| !(p.contains(t) && b.contains(t)) && !(p.contains(t)
            && q.contains(t)) && !(b.contains(t) && q.contains(t)) by {
            Self::lemma_member_tag(entries, SubPool::Pending, SubPool::BaseFee, t);
            Self::lemma_member_tag(entries, SubPool::Pending, SubPool::Queued, t);
            Self::lemma_member_tag(entries, SubPool::BaseFee, SubPool::Queued, t);
        }
        assert(p.to_set().union(b.to_set()).union(q.to_set()) =~= txs.to_set());
        Self::lemma_project_lengths(entries);
    }

    proof fn lemma_member_is_resident(
        entries: Seq<PoolInternalTransaction>,
        pool: SubPool,
        t: SharedTransaction,
    )
        ensures
            project(entries, pool).contains(t) ==> txs_of(entries).contains(t),
    {
        lemma_project_members(entries, pool);
        if project(entries, pool).contains(t) {
            let k = choose|k: int| 0 <= k < project(entries, pool).len()
                && project(entries, pool)[k] == t;
            let j = choose|j: int|
                0 <= j < entries.len() && (#[trigger] entries[j]).subpool == pool
                    && entries[j].transaction == project(entries, pool)[k];
            assert(txs_of(entries)[j] == t);
        }
    }

    proof fn lemma_member_tag(
        entries: Seq<PoolInternalTransaction>,
        x: SubPool,
        y: SubPool,
        t: SharedTransaction,
    )
        requires
            sorted_by_id(txs_of(entries)),
            x != y,
        ensures
            !(project(entries, x).contains(t) && project(entries, y).contains(t)),
    {
        lemma_project_members(entries, x);
        lemma_project_members(entries, y);
        if project(entries, x).contains(t) && project(entries, y).contains(t) {
            let k1 = choose|k: int| 0 <= k < project(entries, x).len() && project(entries, x)[k] == t;
            let j1 = choose|j: int|
                0 <= j < entries.len() && (#[trigger] entries[j]).subpool == x
                    && entries[j].transaction == project(entries, x)[k1];
            let k2 = choose|k: int| 0 <= k < project(entries, y).len() && project(entries, y)[k] == t;
            let j2 = choose|j: int|
                0 <= j < entries.len() && (#[trigger] entries[j]).subpool == y
                    && entries[j].transaction == project(entries, y)[k2];
            assert(txs_of(entries)[j1] == t && txs_of(entries)[j2] == t);
            if j1 < j2 {
                assert(txs_of(entries)[j1].transaction_id.before(txs_of(entries)[j2].transaction_id));
            } else if j2 < j1 {
                assert(txs_of(entries)[j2].transaction_id.before(txs_of(entries)[j1].transaction_id));
            }
        }
    }

    proof fn lemma_project_lengths(entries: Seq<PoolInternalTransaction>)
        ensures
            project(entries, SubPool::Pending).len() + project(entries, SubPool::BaseFee).len()
                + project(entries, SubPool::Queued).len() == entries.len(),
        decreases entries.len(),
    {
        if entries.len() > 0 {
            Self::lemma_project_lengths(entries.drop_last());
        }
    }

    /// What the sub-pools mean: a resident transaction is queued exactly if
    /// a nonce is missing behind it or the cumulative cost up to it is above
    /// its sender's balance; else it is in the base-fee sub-pool exactly if
    /// its fee cap is below the pending base fee; else it is pending.
    pub proof fn lemma_sub_pool_meaning(&self, i: int)
        requires
            self.wf(),
            0 <= i < self.all().len(),
        ensures
            ({
                let blocked = !is_unbroken(self.all(), self.senders(), i) || cumulative_cost(
                    self.all(),
                    i,
                ) > balance_of(self.senders(), self.all()[i].transaction_id.sender);
                let below = self.all()[i].transaction.max_fee_per_gas
                    < self.block().pending_basefee;
                self.entries()[i].subpool == (if blocked {
                    SubPool::Queued
                } else if below {
                    SubPool::BaseFee
                } else {
                    SubPool::Pending
                })
            }),
            self.all()[i].transaction_id.nonce >= state_nonce_of(
                self.senders(),
                self.all()[i].transaction_id.sender,
            ),
            index_of_id(self.all(), self.all()[i].transaction_id) == Some(i),
    {
        let txs = self.all();
        assert forall|j: int| 0 <= j < txs.len() implies (#[trigger] txs[j]).transaction_id.nonce
            >= state_nonce_of(self.senders(), txs[j].transaction_id.sender) by {}
        lemma_gapless_iff_unbroken(txs, self.senders(), i);
        lemma_index_of_member(txs, i);
    }

    /// A pending transaction has no gap behind it: for every nonce from its
    /// sender's nonce on chain up to its own, a transaction of the sender
    /// with that nonce is resident and not queued; it is pending itself
    /// unless its fee cap is below the pending base fee, in which case it
    /// is in the base-fee sub-pool.
    pub proof fn lemma_pending_gapless(&self, i: int, nonce: u64)
        requires
            self.wf(),
            0 <= i < self.all().len(),
            self.entries()[i].subpool == SubPool::Pending,
            state_nonce_of(self.senders(), self.all()[i].transaction_id.sender) <= nonce
                < self.all()[i].transaction_id.nonce,
        ensures
            ({
                let id = TransactionId { sender: self.all()[i].transaction_id.sender, nonce };
                &&& index_of_id(self.all(), id) matches Some(j) && (self.entries()[j].subpool == (
                if self.all()[j].transaction.max_fee_per_gas < self.block().pending_basefee {
                    SubPool::BaseFee
                } else {
                    SubPool::Pending
                }))
            }),
    {
        let txs = self.all();
        let d = txs[i].transaction_id.nonce - nonce;
        lemma_chain_back(txs, self.senders(), i, d);
        lemma_index_of_member(txs, i - d);
        assert(self.entries()[i - d].subpool == classify(
            txs,
            self.senders(),
            self.block().pending_basefee,
            i - d,
        ));
        assert(self.entries()[i].subpool == classify(
            txs,
            self.senders(),
            self.block().pending_basefee,
            i,
        ));
    }

    /// The partition is a function of the residents, the committed state of
    /// their senders and the pending base fee: two pools that agree on these
    /// have the same transactions in the same sub-pools. So a state update
    /// that is undone, with what it removed put back, restores the
    /// partition: see [`lemma_round_trip`] for the whole way, and
    /// [`lemma_undone_update`] for the undoing update alone.
    pub proof fn lemma_partition_determined(&self, other: &TxPool<T>)
        requires
            self.wf(),
            other.wf(),
            self.all() == other.all(),
            self.block().pending_basefee == other.block().pending_basefee,
            forall|k: int|
                0 <= k < self.all().len() ==> self.senders()[(
                #[trigger] self.all()[k]).transaction_id.sender.0]
                    == other.senders()[self.all()[k].transaction_id.sender.0],
        ensures
            self.entries() == other.entries(),
            self.store(SubPool::Pending)@ == other.store(SubPool::Pending)@,
            self.store(SubPool::BaseFee)@ == other.store(SubPool::BaseFee)@,
            self.store(SubPool::Queued)@ == other.store(SubPool::Queued)@,
    {
        let txs = self.all();
        assert forall|i: int| 0 <= i < self.entries().len() implies self.entries()[i]
            == other.entries()[i] by {
            lemma_classify_local(
                txs,
                self.senders(),
                other.senders(),
                self.block().pending_basefee,
                i,
            );
            assert(txs_of(self.entries())[i] == txs_of(other.entries())[i]);
        }
        assert(self.entries().len() == txs.len());
        assert(other.entries().len() == txs.len());
        assert(self.entries() =~= other.entries());
    }

    /// Puts every transaction into the sub-pool that [`classify`] gives it
    /// and fills the stores anew. Returns the hashes of the promoted and of
    /// the demoted transactions, each in id order, leaving out the
    /// transaction with id `skip`.
    fn reclassify(&mut self, skip: Option<TransactionId>) -> (r: (Vec<TxHash>, Vec<TxHash>))
        requires
            sorted_by_id(old(self).all()),
        ensures
            final(self).all() == old(self).all(),
            final(self).entries().len() == old(self).entries().len(),
            final(self).senders() == old(self).senders(),
            final(self).block() == old(self).block(),
            final(self).settings() == old(self).settings(),
            final(self).ordering() == old(self).ordering(),
            classified(
                final(self).entries(),
                final(self).senders(),
                final(self).block().pending_basefee,
            ),
            final(self).stores_match(),
            r.0@ == promoted_between(
                old(self).entries(),
                final(self).entries(),
                skip,
                final(self).entries().len() as int,
            ),
            r.1@ == demoted_between(
                old(self).entries(),
                final(self).entries(),
                skip,
                final(self).entries().len() as int,
            ),
    {
        let ghost before = self.all@;
        let ghost txs = txs_of(self.all@);
        let ghost infos = self.sender_info@;
        let base_fee: u64 = self.block_info.pending_basefee;
        let n: usize = self.all.len();
        let mut pending = SubPoolStore::new(SubPool::Pending);
        let mut basefee = SubPoolStore::new(SubPool::BaseFee);
        let mut queued = SubPoolStore::new(SubPool::Queued);
        let mut promoted: Vec<TxHash> = Vec::new();
        let mut demoted: Vec<TxHash> = Vec::new();
        let mut prev_sender: u64 = 0;
        let mut prev_nonce: u64 = 0;
        let mut prev_gapless: bool = false;
        let mut prev_cost: Option<U256> = None;
        let mut i: usize = 0;
        assert(project(self.all@.take(0), SubPool::Pending) =~= Seq::empty());
        assert(project(self.all@.take(0), SubPool::BaseFee) =~= Seq::empty());
        assert(project(self.all@.take(0), SubPool::Queued) =~= Seq::empty());
        while i < n
            invariant
                n == self.all@.len(),
                n == before.len(),
                i <= n,
                txs_of(self.all@) == txs,
                txs.len() == n,
                sorted_by_id(txs),
                self.sender_info@ == infos,
                self.block_info == old(self).block_info,
                self.block_info.pending_basefee == base_fee,
                self.config == old(self).config,
                self.ordering == old(self).ordering,
                forall|k: int|
                    0 <= k < i ==> (#[trigger] self.all@[k]).subpool == classify(
                        txs,
                        infos,
                        base_fee,
                        k,
                    ),
                forall|k: int| i <= k < n ==> self.all@[k] == before[k],
                pending.wf() && basefee.wf() && queued.wf(),
                pending.kind() == SubPool::Pending,
                basefee.kind() == SubPool::BaseFee,
                queued.kind() == SubPool::Queued,
                pending@ == project(self.all@.take(i as int), SubPool::Pending),
                basefee@ == project(self.all@.take(i as int), SubPool::BaseFee),
                queued@ == project(self.all@.take(i as int), SubPool::Queued),
                forall|k: int, j: int|
                    0 <= k < pending@.len() && i <= j < n ==> (
                    #[trigger] pending@[k]).transaction_id.before(
                        (#[trigger] txs[j]).transaction_id,
                    ),
                forall|k: int, j: int|
                    0 <= k < basefee@.len() && i <= j < n ==> (
                    #[trigger] basefee@[k]).transaction_id.before(
                        (#[trigger] txs[j]).transaction_id,
                    ),
                forall|k: int, j: int|
                    0 <= k < queued@.len() && i <= j < n ==> (
                    #[trigger] queued@[k]).transaction_id.before(
                        (#[trigger] txs[j]).transaction_id,
                    ),
                promoted@ == promoted_between(before, self.all@, skip, i as int),
                demoted@ == demoted_between(before, self.all@, skip, i as int),
                i > 0 ==> prev_sender == txs[i - 1].transaction_id.sender.0 && prev_nonce
                    == txs[i - 1].transaction_id.nonce && prev_gapless == is_gapless(
                    txs,
                    infos,
                    i - 1,
                ) && (match prev_cost {
                    Some(c) => c@ == cumulative_cost(txs, i - 1),
                    None => cumulative_cost(txs, i - 1) >= u256_limit(),
                }),
            decreases n - i,
        {
            let ghost entries_before = self.all@;
            let tx = self.all[i].transaction.clone();
            assert(tx == txs[i as int]);
            let id = tx.transaction_id;
            let continues: bool = i > 0 && prev_sender == id.sender.0;
            assert(continues == continues_chain(txs, i as int));
            let (state_nonce, balance): (u64, U256) = match self.sender_info.get(&id.sender.0) {
                Some(info) => (info.state_nonce, info.balance),
                None => (0, U256::zero()),
            };
            assert(state_nonce == state_nonce_of(infos, id.sender));
            assert(balance@ == balance_of(infos, id.sender));
            let gapless: bool = if continues {
                prev_gapless && prev_nonce < u64::MAX && id.nonce == prev_nonce + 1
            } else {
                id.nonce == state_nonce
            };
            assert(gapless == is_gapless(txs, infos, i as int));
            let own_cost = tx.cost();
            let cost: Option<U256> = if continues {
                match (prev_cost, own_cost) {
                    (Some(a), Some(b)) => a.checked_add(b),
                    _ => None,
                }
            } else {
                own_cost
            };
            assert(match cost {
                Some(c) => c@ == cumulative_cost(txs, i as int),
                None => cumulative_cost(txs, i as int) >= u256_limit(),
            });
            let class: SubPool = if !gapless {
                SubPool::Queued
            } else {
                match cost {
                    None => SubPool::Queued,
                    Some(c) => {
                        if balance.lt(&c) {
                            SubPool::Queued
                        } else if tx.transaction.max_fee_per_gas < base_fee as u128 {
                            SubPool::BaseFee
                        } else {
                            SubPool::Pending
                        }
                    },
                }
            };
            assert(class == classify(txs, infos, base_fee, i as int));
            let was: SubPool = self.all[i].subpool;
            self.all[i].subpool = class;
            proof {
                assert(txs_of(self.all@) =~= txs);
                assert(self.all@.take(i as int) =~= entries_before.take(i as int));
                assert(self.all@.take(i + 1).drop_last() =~= self.all@.take(i as int));
                assert(self.all@.take(i + 1).last() == self.all@[i as int]);
                lemma_between_frame(before, entries_before, self.all@, skip, i as int);
            }
            let hash = tx.transaction.hash;
            let skipped: bool = match skip {
                Some(s) => s == id,
                None => false,
            };
            let to_pending: bool = match class {
                SubPool::Pending => match was {
                    SubPool::Pending => false,
                    _ => true,
                },
                _ => false,
            };
            let to_parked: bool = match class {
                SubPool::Pending => false,
                SubPool::Queued => match was {
                    SubPool::Queued => false,
                    _ => true,
                },
                SubPool::BaseFee => match was {
                    SubPool::Pending => true,
                    _ => false,
                },
            };
            assert(to_pending == is_promotion(was, class));
            assert(to_parked == is_demotion(was, class));
            if to_pending && !skipped {
                promoted.push(hash);
            }
            if to_parked && !skipped {
                demoted.push(hash);
            }
            match class {
                SubPool::Pending => {
                    proof {
                        Self::lemma_goes_last(pending@, tx, txs, i as int);
                    }
                    pending.insert(tx);
                    assert(pending@ =~= project(self.all@.take(i + 1), SubPool::Pending));
                },
                SubPool::BaseFee => {
                    proof {
                        Self::lemma_goes_last(basefee@, tx, txs, i as int);
                    }
                    basefee.insert(tx);
                    assert(basefee@ =~= project(self.all@.take(i + 1), SubPool::BaseFee));
                },
                SubPool::Queued => {
                    proof {
                        Self::lemma_goes_last(queued@, tx, txs, i as int);
                    }
                    queued.insert(tx);
                    assert(queued@ =~= project(self.all@.take(i + 1), SubPool::Queued));
                },
            }
            prev_sender = id.sender.0;
            prev_nonce = id.nonce;
            prev_gapless = gapless;
            prev_cost = cost;
            i += 1;
        }
        assert(self.all@.take(n as int) =~= self.all@);
        self.pending = pending;
        self.basefee = basefee;
        self.queued = queued;
        (promoted, demoted)
    }

    /// A transaction whose id is above all ids of an id-ordered store is not
    /// in the store, and its place is the end.
    proof fn lemma_goes_last(
        stored: Seq<SharedTransaction>,
        tx: SharedTransaction,
        txs: Seq<SharedTransaction>,
        i: int,
    )
        requires
            0 <= i < txs.len(),
            tx == txs[i],
            forall|k: int, j: int|
                0 <= k < stored.len() && i <= j < txs.len() ==> (
                #[trigger] stored[k]).transaction_id.before((#[trigger] txs[j]).transaction_id),
        ensures
            position_of(stored, tx.transaction_id) == stored.len(),
            index_of_id(stored, tx.transaction_id).is_none(),
            stored.insert(stored.len() as int, tx) == stored.push(tx),
    {
        assert forall|k: int| 0 <= k < stored.len() implies (
        #[trigger] stored[k]).transaction_id.before(tx.transaction_id) by {
            assert(stored[k].transaction_id.before(txs[i].transaction_id));
        }
        lemma_position_unique(stored, tx.transaction_id, stored.len() as int);
        assert(stored.insert(stored.len() as int, tx) =~= stored.push(tx));
    }
}

} // verus!
