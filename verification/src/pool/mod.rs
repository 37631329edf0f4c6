//! The pool: its model, its stores and the orchestration around them.

use crate::config::PoolConfig;
use crate::error::{PoolError, PoolResult};
use crate::identifier::{id_for, ids_with, SenderId, SenderIdentifiers, TransactionId};
use crate::pool::best::BestTransactions;
use crate::pool::events::{
    FullTransactionEvent, NewTransactionEvent, PendingTransactionListenerKind, PropagateKind,
    PropagatedTransactions, TransactionEvent,
};
use crate::pool::listener::{
    bounded_channel, is_closed, is_selection, kept_after, selected_from, stays_after,
    told_as_propagated, try_send, AllTransactionsEvents, Contact, PoolEventBroadcast,
    TransactionEvents,
};
use crate::pool::model::{
    distinct_hashes, has_hash, index_of_id, sorted_by_id, sum_bytes, txs_of,
    PoolInternalTransaction,
};
use crate::pool::txpool::{
    admission_error, after_discard, demoted_between, discarded_by, evicted_for, first_with_hash,
    found_all, info_on_arrival, is_promotion, is_underpriced, lemma_first_with_hash,
    lemma_replacement_pays_bump, lemma_seated, list_has, outdated, over_budget, promoted_between,
    replaced_by, retained, seated, seated_txs, sender_addresses, senders_known, taken_out,
    updated_infos, with_classes, within_slots, TxPool, UpdateOutcome,
};
use crate::primitives::{Address, TxHash, B256};
use crate::state::{BlockInfo, ChangedAccount, PoolSize, SenderInfo, SubPool};
use crate::transaction::{
    PooledTransaction, SharedTransaction, TransactionOrdering, TransactionOrigin,
    TransactionValidationOutcome, ValidPoolTransaction,
};
use std::sync::Arc;
use tokio::sync::mpsc::{Receiver, Sender};
use vstd::prelude::*;

pub mod best;
pub mod events;
pub mod listener;
pub mod model;
pub mod store;
pub mod txpool;

verus! {

/// A transaction that was admitted to the pending sub-pool, with what its
/// admission did to other transactions.
#[derive(Debug)]
pub struct AddedPendingTransaction {
    /// The admitted transaction.
    pub transaction: SharedTransaction,
    /// The transaction with the same id that it replaced.
    pub replaced: Option<SharedTransaction>,
    /// The hashes of the transactions that its admission promoted.
    pub promoted: Vec<TxHash>,
    /// The hashes of the transactions that its admission pushed out.
    pub discarded: Vec<TxHash>,
}

/// A transaction that was admitted, and where it went.
#[derive(Debug)]
pub enum AddedTransaction {
    /// The transaction went to the pending sub-pool.
    Pending(AddedPendingTransaction),
    /// The transaction is not executable yet and went to a parked sub-pool.
    Parked {
        /// The admitted transaction.
        transaction: SharedTransaction,
        /// The transaction with the same id that it replaced.
        replaced: Option<SharedTransaction>,
        /// The sub-pool it went to.
        subpool: SubPool,
        /// The hashes of the transactions that its admission promoted.
        promoted: Vec<TxHash>,
        /// The hashes of the transactions that its admission pushed out.
        discarded: Vec<TxHash>,
    },
}

/// What a new canonical block did to the pool.
#[derive(Debug)]
pub struct OnNewCanonicalStateOutcome {
    /// The hash of the block.
    pub block_hash: B256,
    /// The hashes of the transactions that the block mined.
    pub mined: Vec<TxHash>,
    /// The hashes of the promoted transactions.
    pub promoted: Vec<TxHash>,
    /// The hashes of the demoted transactions.
    pub demoted: Vec<TxHash>,
    /// The hashes of the transactions that left because their nonce is used up.
    pub discarded: Vec<TxHash>,
}

impl AddedTransaction {
    /// The admitted transaction.
    pub open spec fn spec_transaction(&self) -> SharedTransaction {
        match self {
            AddedTransaction::Pending(tx) => tx.transaction,
            AddedTransaction::Parked { transaction, .. } => *transaction,
        }
    }

    /// The transaction that the admitted one replaced.
    pub open spec fn spec_replaced(&self) -> Option<SharedTransaction> {
        match self {
            AddedTransaction::Pending(tx) => tx.replaced,
            AddedTransaction::Parked { replaced, .. } => *replaced,
        }
    }

    /// The hashes of the transactions that the admission promoted.
    pub open spec fn spec_promoted(&self) -> Seq<TxHash> {
        match self {
            AddedTransaction::Pending(tx) => tx.promoted@,
            AddedTransaction::Parked { promoted, .. } => promoted@,
        }
    }

    /// The hashes of the transactions that the admission pushed out.
    pub open spec fn spec_discarded(&self) -> Seq<TxHash> {
        match self {
            AddedTransaction::Pending(tx) => tx.discarded@,
            AddedTransaction::Parked { discarded, .. } => discarded@,
        }
    }

    /// The sub-pool that the admitted transaction went to.
    pub open spec fn spec_subpool(&self) -> SubPool {
        match self {
            AddedTransaction::Pending(_) => SubPool::Pending,
            AddedTransaction::Parked { subpool, .. } => *subpool,
        }
    }

    /// Whether the transaction went to the pending sub-pool.
    pub fn is_pending(&self) -> (r: bool)
        ensures
            r == (self is Pending),
    {
        match self {
            AddedTransaction::Pending(_) => true,
            _ => false,
        }
    }

    /// The hash of the admitted transaction.
    pub fn hash(&self) -> (r: TxHash)
        ensures
            r == self.spec_transaction().transaction.hash,
    {
        match self {
            AddedTransaction::Pending(tx) => tx.transaction.transaction.hash,
            AddedTransaction::Parked { transaction, .. } => transaction.transaction.hash,
        }
    }

    /// Whether the admitted transaction may be announced to peers.
    pub fn is_propagate_allowed(&self) -> (r: bool)
        ensures
            r == self.spec_transaction().propagate,
    {
        match self {
            AddedTransaction::Pending(tx) => tx.transaction.propagate,
            AddedTransaction::Parked { transaction, .. } => transaction.propagate,
        }
    }

    /// The sub-pool that the admitted transaction went to.
    pub fn subpool(&self) -> (r: SubPool)
        ensures
            r == self.spec_subpool(),
    {
        match self {
            AddedTransaction::Pending(_) => SubPool::Pending,
            AddedTransaction::Parked { subpool, .. } => *subpool,
        }
    }

    /// What the listeners to all admitted transactions are told of this one.
    pub fn into_new_transaction_event(self) -> (r: NewTransactionEvent)
        ensures
            r.subpool == self.spec_subpool(),
            r.transaction == self.spec_transaction(),
    {
        match self {
            AddedTransaction::Pending(tx) => NewTransactionEvent {
                subpool: SubPool::Pending,
                transaction: tx.transaction,
            },
            AddedTransaction::Parked { transaction, subpool, .. } => NewTransactionEvent {
                transaction,
                subpool,
            },
        }
    }
}

/// The listeners' buffer for hashes of pending transactions.
pub const PENDING_LISTENER_BUFFER_SIZE: usize = 2048;

/// The listeners' buffer for admitted transactions.
pub const NEW_TRANSACTION_LISTENER_BUFFER_SIZE: usize = 1024;

/// A listener to the hashes of the transactions that enter the pending sub-pool.
#[derive(Debug)]
pub struct PendingTransactionListener {
    sender: Sender<TxHash>,
    kind: PendingTransactionListenerKind,
}

impl PendingTransactionListener {
    /// Which pending transactions the listener wants to hear of.
    pub closed spec fn wants(&self) -> PendingTransactionListenerKind {
        self.kind
    }
}

/// Whether a listener of kind `kind` is told of a pending transaction: one
/// that wants only transactions that may be announced is told nothing of
/// one that may not.
pub open spec fn is_told(kind: PendingTransactionListenerKind, propagate_allowed: bool) -> bool {
    kind == PendingTransactionListenerKind::All || propagate_allowed
}

/// Computes [`is_told`].
pub fn tells_listener(kind: PendingTransactionListenerKind, propagate_allowed: bool) -> (r: bool)
    ensures
        r == is_told(kind, propagate_allowed),
{
    !kind.is_propagate_only() || propagate_allowed
}

/// The hash of a transaction that entered the pending sub-pool, as it went
/// round the listeners to pending transactions: it was sent to every
/// listener if the transaction may be announced to peers, and else only to
/// the listeners that want all pending transactions.
pub ghost struct PendingNotice {
    pub hash: TxHash,
    pub propagate: bool,
}

/// Whether `contacts` holds, for each of the listeners `all`, a contact of
/// the kind that a pending transaction makes: an attempt to send where the
/// listener is told of the transaction, a question where it is not.
pub open spec fn is_pending_round(
    all: Seq<PendingTransactionListener>,
    propagate_allowed: bool,
    contacts: Seq<Contact>,
) -> bool {
    &&& contacts.len() == all.len()
    &&& forall|i: int|
        0 <= i < all.len() ==> (#[trigger] contacts[i] is Tried) == is_told(
            all[i].wants(),
            propagate_allowed,
        )
}

/// Whether `contacts` holds, for each of `count` listeners, an attempt to send.
pub open spec fn is_full_round(count: nat, contacts: Seq<Contact>) -> bool {
    &&& contacts.len() == count
    &&& forall|i: int| 0 <= i < count ==> #[trigger] contacts[i] is Tried
}

/// The event `event` of the transaction with hash `hash`.
pub open spec fn event_of(hash: TxHash, event: TransactionEvent) -> FullTransactionEvent {
    FullTransactionEvent { hash, event }
}

/// For each hash of `hashes`, in order, the event that `make` gives it.
pub open spec fn events_for(hashes: Seq<TxHash>, make: spec_fn(TxHash) -> TransactionEvent) -> Seq<
    FullTransactionEvent,
> {
    Seq::new(hashes.len(), |i: int| event_of(hashes[i], make(hashes[i])))
}

/// Whether one of `events` is an event of the transaction with hash `hash`.
pub open spec fn names(events: Seq<FullTransactionEvent>, hash: TxHash) -> bool {
    exists|k: int| 0 <= k < events.len() && (#[trigger] events[k]).hash == hash
}

/// For each of `list`, in order, the event that the transaction was sent
/// to the peers that stand with its hash.
pub open spec fn propagation_events(list: Seq<(TxHash, Vec<PropagateKind>)>) -> Seq<
    FullTransactionEvent,
> {
    Seq::new(list.len(), |i: int| told_as_propagated(list[i].0, list[i].1))
}

/// The events that follow from an admission, in the order in which the
/// listeners are told: the admitted transaction is pending or queued; the
/// one it replaced is replaced by it; then every promoted transaction is
/// pending and every one pushed out is discarded.
pub open spec fn events_of_added(added: AddedTransaction) -> Seq<FullTransactionEvent> {
    let hash = added.spec_transaction().transaction.hash;
    let first = if added is Pending {
        event_of(hash, TransactionEvent::Pending)
    } else {
        event_of(hash, TransactionEvent::Queued)
    };
    let replaced: Seq<FullTransactionEvent> = match added.spec_replaced() {
        Some(gone) => seq![event_of(gone.transaction.hash, TransactionEvent::Replaced(hash))],
        None => Seq::empty(),
    };
    seq![first] + replaced + events_for(added.spec_promoted(), |h: TxHash| TransactionEvent::Pending)
        + events_for(added.spec_discarded(), |h: TxHash| TransactionEvent::Discarded)
}

/// The events that follow from a new canonical block, in the order in
/// which the listeners are told: every mined transaction is mined in the
/// block, every promoted one pending, every demoted one queued, every
/// outdated one discarded.
pub open spec fn events_of_outcome(outcome: OnNewCanonicalStateOutcome) -> Seq<
    FullTransactionEvent,
> {
    events_for(outcome.mined@, |h: TxHash| TransactionEvent::Mined(outcome.block_hash))
        + events_for(outcome.promoted@, |h: TxHash| TransactionEvent::Pending) + events_for(
        outcome.demoted@,
        |h: TxHash| TransactionEvent::Queued,
    ) + events_for(outcome.discarded@, |h: TxHash| TransactionEvent::Discarded)
}

/// Appends to `events`, for each hash of `hashes` in order, the event `kind`.
fn push_events(events: &mut Vec<FullTransactionEvent>, hashes: &Vec<TxHash>, kind: &TransactionEvent)
    ensures
        final(events)@ == old(events)@ + events_for(hashes@, |h: TxHash| *kind),
{
    let ghost start = events@;
    let mut i: usize = 0;
    while i < hashes.len()
        invariant
            i <= hashes@.len(),
            events@ == start + events_for(hashes@.take(i as int), |h: TxHash| *kind),
        decreases hashes@.len() - i,
    {
        events.push(FullTransactionEvent { hash: hashes[i], event: kind.duplicate() });
        assert(events@ =~= start + events_for(hashes@.take(i + 1), |h: TxHash| *kind));
        i += 1;
    }
    assert(hashes@.take(i as int) =~= hashes@);
}

/// Computes [`events_of_added`].
pub fn added_events(added: &AddedTransaction) -> (r: Vec<FullTransactionEvent>)
    ensures
        r@ == events_of_added(*added),
{
    let hash = added.hash();
    let mut events: Vec<FullTransactionEvent> = Vec::new();
    match added {
        AddedTransaction::Pending(tx) => {
            events.push(FullTransactionEvent { hash, event: TransactionEvent::Pending });
            match &tx.replaced {
                Some(gone) => {
                    events.push(
                        FullTransactionEvent {
                            hash: gone.transaction.hash,
                            event: TransactionEvent::Replaced(hash),
                        },
                    );
                },
                None => {},
            }
            push_events(&mut events, &tx.promoted, &TransactionEvent::Pending);
            push_events(&mut events, &tx.discarded, &TransactionEvent::Discarded);
            assert(events@ =~= events_of_added(*added));
        },
        AddedTransaction::Parked { transaction, replaced, promoted, discarded, .. } => {
            events.push(FullTransactionEvent { hash, event: TransactionEvent::Queued });
            match replaced {
                Some(gone) => {
                    events.push(
                        FullTransactionEvent {
                            hash: gone.transaction.hash,
                            event: TransactionEvent::Replaced(hash),
                        },
                    );
                },
                None => {},
            }
            push_events(&mut events, promoted, &TransactionEvent::Pending);
            push_events(&mut events, discarded, &TransactionEvent::Discarded);
            assert(events@ =~= events_of_added(*added));
        },
    }
    events
}

/// Computes [`events_of_outcome`].
pub fn outcome_events(outcome: &OnNewCanonicalStateOutcome) -> (r: Vec<FullTransactionEvent>)
    ensures
        r@ == events_of_outcome(*outcome),
{
    let mut events: Vec<FullTransactionEvent> = Vec::new();
    push_events(&mut events, &outcome.mined, &TransactionEvent::Mined(outcome.block_hash));
    push_events(&mut events, &outcome.promoted, &TransactionEvent::Pending);
    push_events(&mut events, &outcome.demoted, &TransactionEvent::Queued);
    push_events(&mut events, &outcome.discarded, &TransactionEvent::Discarded);
    assert(events@ =~= events_of_outcome(*outcome));
    events
}

/// The transaction that the pool makes of a valid one: keyed by the
/// sender's id and the transaction's nonce, stamped with the time of
/// submission and the origin. Whether it may be announced goes by the
/// origin first, see [`TransactionOrigin::may_propagate`].
pub open spec fn wrapped(
    transaction: PooledTransaction,
    sender_id: SenderId,
    propagate: bool,
    now: u64,
    origin: TransactionOrigin,
) -> ValidPoolTransaction {
    ValidPoolTransaction {
        transaction,
        transaction_id: TransactionId { sender: sender_id, nonce: transaction.nonce },
        propagate: origin.may_propagate(propagate),
        timestamp: now,
        origin,
        encoded_length: transaction.encoded_length,
    }
}

/// What admission goes by and changes: the table of sender ids, the
/// resident transactions in id order, and the committed state of the senders.
pub ghost struct PoolModel {
    pub ids: Seq<Address>,
    pub txs: Seq<SharedTransaction>,
    pub senders: Map<u64, SenderInfo>,
}

/// What the admission of one validated transaction does, and returns.
///
/// A valid transaction whose hash is resident is refused as already
/// imported, and nothing changes. Any other valid one has its sender
/// interned; then the pool admits it, or refuses it with the error that
/// [`admission_error`] names. An invalid one is refused as an invalid
/// transaction, with the validator's reason, whatever the reason is; a
/// failed validation with its cause; and nothing changes.
pub open spec fn admission(
    m: PoolModel,
    config: PoolConfig,
    origin: TransactionOrigin,
    outcome: TransactionValidationOutcome,
    now: u64,
) -> (PoolModel, PoolResult<TxHash>) {
    match outcome {
        TransactionValidationOutcome::Valid { balance, state_nonce, transaction, propagate } => {
            if has_hash(m.txs, transaction.hash) {
                (m, Err(PoolError::AlreadyImported(transaction.hash)))
            } else {
                let sender_id = id_for(m.ids, transaction.sender);
                let ids = ids_with(m.ids, transaction.sender);
                let tx = wrapped(transaction, sender_id, propagate, now, origin);
                match admission_error(m.txs, m.senders, config, tx, balance, state_nonce) {
                    Some(e) => (PoolModel { ids, txs: m.txs, senders: m.senders }, Err(e)),
                    None => (
                        PoolModel {
                            ids,
                            txs: seated_txs(m.txs, config.max_account_slots, Arc::new(tx)),
                            senders: m.senders.insert(
                                sender_id.0,
                                info_on_arrival(m.senders, sender_id, balance, state_nonce),
                            ),
                        },
                        Ok(transaction.hash),
                    ),
                }
            }
        },
        TransactionValidationOutcome::Invalid(transaction, reason) => (
            m,
            Err(PoolError::InvalidTransaction(transaction.hash, reason)),
        ),
        TransactionValidationOutcome::Error(hash, cause) => (m, Err(PoolError::Other(hash, cause))),
    }
}

/// The sub-pool that `tx` goes to when the pool with residents `txs`
/// admits it; `senders_after` is the committed state of the senders once
/// its sender is known.
pub open spec fn class_on_seating(
    txs: Seq<SharedTransaction>,
    senders_after: Map<u64, SenderInfo>,
    config: PoolConfig,
    base_fee: u64,
    tx: SharedTransaction,
) -> SubPool {
    let after = seated_txs(txs, config.max_account_slots, tx);
    let place = index_of_id(after, tx.transaction_id).unwrap();
    with_classes(after, senders_after, base_fee)[place].subpool
}

/// What the event listeners are told when the pool with residents `txs`
/// admits `tx`: that it is pending or queued, by the sub-pool it goes to;
/// that the resident with its id was replaced by it; that the other
/// transactions which its admission promoted are pending, in id order; and
/// that the one pushed out of its slot is discarded.
pub open spec fn events_of_seating(
    txs: Seq<SharedTransaction>,
    senders: Map<u64, SenderInfo>,
    senders_after: Map<u64, SenderInfo>,
    config: PoolConfig,
    base_fee: u64,
    tx: SharedTransaction,
) -> Seq<FullTransactionEvent> {
    let slots = config.max_account_slots;
    let id = tx.transaction_id;
    let hash = tx.transaction.hash;
    let mid = seated(with_classes(txs, senders, base_fee), slots, tx);
    let after = with_classes(seated_txs(txs, slots, tx), senders_after, base_fee);
    let first = if class_on_seating(txs, senders_after, config, base_fee, tx) == SubPool::Pending {
        event_of(hash, TransactionEvent::Pending)
    } else {
        event_of(hash, TransactionEvent::Queued)
    };
    let replaced: Seq<FullTransactionEvent> = match replaced_by(txs, id) {
        Some(gone) => seq![event_of(gone.transaction.hash, TransactionEvent::Replaced(hash))],
        None => Seq::empty(),
    };
    seq![first] + replaced + events_for(
        promoted_between(mid, after, Some(id), mid.len() as int),
        |h: TxHash| TransactionEvent::Pending,
    ) + events_for(evicted_for(txs, slots, id), |h: TxHash| TransactionEvent::Discarded)
}

/// What the event listeners are told by the admission of one validated
/// transaction, under pending base fee `base_fee`.
///
/// Nothing, where the hash is resident already. Where the pool admits the
/// transaction, the events of [`events_of_seating`]. Where the pool or the
/// validator refuses it, or validation failed, that it is discarded.
pub open spec fn admission_events(
    m: PoolModel,
    config: PoolConfig,
    base_fee: u64,
    origin: TransactionOrigin,
    outcome: TransactionValidationOutcome,
    now: u64,
) -> Seq<FullTransactionEvent> {
    match outcome {
        TransactionValidationOutcome::Valid { balance, state_nonce, transaction, propagate } => {
            if has_hash(m.txs, transaction.hash) {
                Seq::empty()
            } else {
                let sender_id = id_for(m.ids, transaction.sender);
                let tx = wrapped(transaction, sender_id, propagate, now, origin);
                match admission_error(m.txs, m.senders, config, tx, balance, state_nonce) {
                    Some(_) => seq![event_of(transaction.hash, TransactionEvent::Discarded)],
                    None => events_of_seating(
                        m.txs,
                        m.senders,
                        m.senders.insert(
                            sender_id.0,
                            info_on_arrival(m.senders, sender_id, balance, state_nonce),
                        ),
                        config,
                        base_fee,
                        Arc::new(tx),
                    ),
                }
            }
        },
        TransactionValidationOutcome::Invalid(transaction, _) => seq![
            event_of(transaction.hash, TransactionEvent::Discarded),
        ],
        TransactionValidationOutcome::Error(hash, _) => seq![
            event_of(hash, TransactionEvent::Discarded),
        ],
    }
}

/// What goes round the listeners to admitted transactions by the
/// admission of one validated transaction, under pending base fee
/// `base_fee`: the transaction and the sub-pool it went to, where the pool
/// admits it; nothing, where it does not.
pub open spec fn admission_notices(
    m: PoolModel,
    config: PoolConfig,
    base_fee: u64,
    origin: TransactionOrigin,
    outcome: TransactionValidationOutcome,
    now: u64,
) -> Seq<NewTransactionEvent> {
    match outcome {
        TransactionValidationOutcome::Valid { balance, state_nonce, transaction, propagate } => {
            let sender_id = id_for(m.ids, transaction.sender);
            let tx = wrapped(transaction, sender_id, propagate, now, origin);
            if has_hash(m.txs, transaction.hash) || admission_error(
                m.txs,
                m.senders,
                config,
                tx,
                balance,
                state_nonce,
            ).is_some() {
                Seq::empty()
            } else {
                seq![
                    NewTransactionEvent {
                        subpool: class_on_seating(
                            m.txs,
                            m.senders.insert(
                                sender_id.0,
                                info_on_arrival(m.senders, sender_id, balance, state_nonce),
                            ),
                            config,
                            base_fee,
                            Arc::new(tx),
                        ),
                        transaction: Arc::new(tx),
                    },
                ]
            }
        },
        _ => Seq::empty(),
    }
}

/// What goes round the listeners to admitted transactions by the
/// admission of a batch, one transaction after the other.
pub open spec fn admission_all_notices(
    m: PoolModel,
    config: PoolConfig,
    base_fee: u64,
    origin: TransactionOrigin,
    outcomes: Seq<TransactionValidationOutcome>,
    now: u64,
) -> Seq<NewTransactionEvent>
    decreases outcomes.len(),
{
    if outcomes.len() == 0 {
        Seq::empty()
    } else {
        admission_all_notices(m, config, base_fee, origin, outcomes.drop_last(), now)
            + admission_notices(
            admission_all(m, config, origin, outcomes.drop_last(), now).0,
            config,
            base_fee,
            origin,
            outcomes.last(),
            now,
        )
    }
}

/// The notice that the hash of `tx` makes when it goes round the listeners
/// to pending transactions.
pub open spec fn notice_of(tx: SharedTransaction) -> PendingNotice {
    PendingNotice { hash: tx.transaction.hash, propagate: tx.propagate }
}

/// The notices of the transactions `txs`, in order.
pub open spec fn notices_of(txs: Seq<SharedTransaction>) -> Seq<PendingNotice> {
    Seq::new(txs.len(), |i: int| notice_of(txs[i]))
}

/// The notices of the promoted transactions: of the residents `txs` that
/// the hashes `promoted` name, in the order of the hashes.
pub open spec fn promotion_notices(txs: Seq<SharedTransaction>, promoted: Seq<TxHash>) -> Seq<
    PendingNotice,
> {
    notices_of(found_all(txs, promoted))
}

/// The transactions that entered the pending sub-pool by the admission
/// `added`, `txs` being the residents after it: the admitted one, if it
/// went there, then the promoted ones.
pub open spec fn entered_pending(txs: Seq<SharedTransaction>, added: AddedTransaction) -> Seq<
    SharedTransaction,
> {
    (if added is Pending {
        seq![added.spec_transaction()]
    } else {
        Seq::empty()
    }) + found_all(txs, added.spec_promoted())
}

/// What goes round the listeners to pending transactions when the pool
/// with residents `txs` admits `tx`: the hash of `tx`, if it goes to the
/// pending sub-pool, then the hashes of the other transactions that its
/// admission promoted, in id order. This is the order in which the event
/// listeners are told that these are pending.
pub open spec fn notices_of_seating(
    txs: Seq<SharedTransaction>,
    senders: Map<u64, SenderInfo>,
    senders_after: Map<u64, SenderInfo>,
    config: PoolConfig,
    base_fee: u64,
    tx: SharedTransaction,
) -> Seq<PendingNotice> {
    let slots = config.max_account_slots;
    let mid = seated(with_classes(txs, senders, base_fee), slots, tx);
    let after = with_classes(seated_txs(txs, slots, tx), senders_after, base_fee);
    let first: Seq<PendingNotice> = if class_on_seating(txs, senders_after, config, base_fee, tx)
        == SubPool::Pending {
        seq![notice_of(tx)]
    } else {
        Seq::empty()
    };
    first + promotion_notices(
        seated_txs(txs, slots, tx),
        promoted_between(mid, after, Some(tx.transaction_id), mid.len() as int),
    )
}

/// What goes round the listeners to pending transactions by the admission
/// of one validated transaction, under pending base fee `base_fee`: the
/// notices of [`notices_of_seating`] where the pool admits it; nothing,
/// where it does not.
pub open spec fn admission_pending_notices(
    m: PoolModel,
    config: PoolConfig,
    base_fee: u64,
    origin: TransactionOrigin,
    outcome: TransactionValidationOutcome,
    now: u64,
) -> Seq<PendingNotice> {
    match outcome {
        TransactionValidationOutcome::Valid { balance, state_nonce, transaction, propagate } => {
            let sender_id = id_for(m.ids, transaction.sender);
            let tx = wrapped(transaction, sender_id, propagate, now, origin);
            if has_hash(m.txs, transaction.hash) || admission_error(
                m.txs,
                m.senders,
                config,
                tx,
                balance,
                state_nonce,
            ).is_some() {
                Seq::empty()
            } else {
                notices_of_seating(
                    m.txs,
                    m.senders,
                    m.senders.insert(
                        sender_id.0,
                        info_on_arrival(m.senders, sender_id, balance, state_nonce),
                    ),
                    config,
                    base_fee,
                    Arc::new(tx),
                )
            }
        },
        _ => Seq::empty(),
    }
}

/// What goes round the listeners to pending transactions by the admission
/// of a batch, one transaction after the other.
pub open spec fn admission_all_pending_notices(
    m: PoolModel,
    config: PoolConfig,
    base_fee: u64,
    origin: TransactionOrigin,
    outcomes: Seq<TransactionValidationOutcome>,
    now: u64,
) -> Seq<PendingNotice>
    decreases outcomes.len(),
{
    if outcomes.len() == 0 {
        Seq::empty()
    } else {
        admission_all_pending_notices(m, config, base_fee, origin, outcomes.drop_last(), now)
            + admission_pending_notices(
            admission_all(m, config, origin, outcomes.drop_last(), now).0,
            config,
            base_fee,
            origin,
            outcomes.last(),
            now,
        )
    }
}

/// What goes round the listeners to pending transactions when the
/// residents `before` are classified anew as `after`: the hashes of the
/// promoted ones, in id order.
pub open spec fn reclass_notices(
    before: Seq<PoolInternalTransaction>,
    after: Seq<PoolInternalTransaction>,
) -> Seq<PendingNotice> {
    promotion_notices(txs_of(after), promoted_between(before, after, None, after.len() as int))
}

/// What goes round the listeners to pending transactions when the
/// residents `entries` are brought in line with the committed state `infos`
/// and the base fee `base_fee`, the transactions with the hashes `gone`
/// having left: the hashes of the promoted ones, in id order.
pub open spec fn update_notices(
    entries: Seq<PoolInternalTransaction>,
    gone: Seq<TxHash>,
    infos: Map<u64, SenderInfo>,
    base_fee: u64,
) -> Seq<PendingNotice> {
    let kept = retained(entries, gone, infos);
    reclass_notices(kept, with_classes(txs_of(kept), infos, base_fee))
}

/// Every promotion makes a notice: the notices of the transactions
/// promoted between `before` and `after` are as many as the promoted
/// hashes, and each carries its hash, in the same order.
pub proof fn lemma_promotion_notices(
    before: Seq<PoolInternalTransaction>,
    after: Seq<PoolInternalTransaction>,
    skip: Option<TransactionId>,
    n: int,
)
    requires
        0 <= n <= after.len(),
    ensures
        ({
            let promoted = promoted_between(before, after, skip, n);
            let notices = promotion_notices(txs_of(after), promoted);
            &&& notices.len() == promoted.len()
            &&& forall|k: int| 0 <= k < promoted.len() ==> (#[trigger] notices[k]).hash == promoted[k]
        }),
    decreases n,
{
    let txs = txs_of(after);
    let promoted = promoted_between(before, after, skip, n);
    if n <= 0 {
        assert(found_all(txs, promoted) =~= Seq::empty());
    } else {
        lemma_promotion_notices(before, after, skip, n - 1);
        let rest = promoted_between(before, after, skip, n - 1);
        if is_promotion(before[n - 1].subpool, after[n - 1].subpool) && Some(
            after[n - 1].transaction.transaction_id,
        ) != skip {
            let hash = after[n - 1].transaction.transaction.hash;
            assert(promoted == rest.push(hash));
            assert(promoted.drop_last() =~= rest);
            assert(promoted.last() == hash);
            assert(txs[n - 1].transaction.hash == hash);
            lemma_first_with_hash(txs, hash, n - 1);
            let tx = first_with_hash(txs, hash).unwrap();
            assert(found_all(txs, promoted) == found_all(txs, rest).push(tx));
            let notices = promotion_notices(txs, promoted);
            let earlier = promotion_notices(txs, rest);
            assert forall|k: int| 0 <= k < promoted.len() implies (#[trigger] notices[k]).hash
                == promoted[k] by {
                if k < rest.len() {
                    assert(notices[k] == earlier[k]);
                    assert(promoted[k] == rest[k]);
                }
            }
        } else {
            assert(promoted == rest);
        }
    }
}

/// The listeners that are left of `all` once the notices `notices` went
/// round, one after the other, where `rounds` holds the contacts of each
/// round. There is none if `rounds` does not hold, for each notice, a round
/// of the kind that the notice makes among the listeners left by then.
pub open spec fn left_after_rounds(
    all: Seq<PendingTransactionListener>,
    notices: Seq<PendingNotice>,
    rounds: Seq<Seq<Contact>>,
) -> Option<Seq<PendingTransactionListener>>
    decreases notices.len(),
{
    if rounds.len() != notices.len() {
        None
    } else if notices.len() == 0 {
        Some(all)
    } else {
        match left_after_rounds(all, notices.drop_last(), rounds.drop_last()) {
            Some(before) => if is_pending_round(before, notices.last().propagate, rounds.last()) {
                Some(kept_after(before, rounds.last()))
            } else {
                None
            },
            None => None,
        }
    }
}

/// One more admission of a batch appends its notices to those of the
/// admissions before it, for both kinds of listeners.
proof fn lemma_notices_grow(
    admitted: Seq<NewTransactionEvent>,
    pending: Seq<PendingNotice>,
    m: PoolModel,
    config: PoolConfig,
    base_fee: u64,
    origin: TransactionOrigin,
    outcomes: Seq<TransactionValidationOutcome>,
    i: int,
    now: u64,
)
    requires
        0 <= i < outcomes.len(),
    ensures
        ({
            let before = admission_all(m, config, origin, outcomes.take(i), now).0;
            &&& admitted + admission_all_notices(
                m,
                config,
                base_fee,
                origin,
                outcomes.take(i + 1),
                now,
            ) == admitted + admission_all_notices(m, config, base_fee, origin, outcomes.take(i), now)
                + admission_notices(before, config, base_fee, origin, outcomes[i], now)
            &&& pending + admission_all_pending_notices(
                m,
                config,
                base_fee,
                origin,
                outcomes.take(i + 1),
                now,
            ) == pending + admission_all_pending_notices(
                m,
                config,
                base_fee,
                origin,
                outcomes.take(i),
                now,
            ) + admission_pending_notices(before, config, base_fee, origin, outcomes[i], now)
        }),
{
    let before = admission_all(m, config, origin, outcomes.take(i), now).0;
    assert(outcomes.take(i + 1).drop_last() =~= outcomes.take(i));
    assert(outcomes.take(i + 1).last() == outcomes[i]);
    assert(admitted + admission_all_notices(m, config, base_fee, origin, outcomes.take(i + 1), now)
        =~= admitted + admission_all_notices(m, config, base_fee, origin, outcomes.take(i), now)
        + admission_notices(before, config, base_fee, origin, outcomes[i], now));
    assert(pending + admission_all_pending_notices(
        m,
        config,
        base_fee,
        origin,
        outcomes.take(i + 1),
        now,
    ) =~= pending + admission_all_pending_notices(m, config, base_fee, origin, outcomes.take(i), now)
        + admission_pending_notices(before, config, base_fee, origin, outcomes[i], now));
}

/// What the event listeners are told by the admission of a batch, one
/// transaction after the other.
pub open spec fn admission_all_events(
    m: PoolModel,
    config: PoolConfig,
    base_fee: u64,
    origin: TransactionOrigin,
    outcomes: Seq<TransactionValidationOutcome>,
    now: u64,
) -> Seq<FullTransactionEvent>
    decreases outcomes.len(),
{
    if outcomes.len() == 0 {
        Seq::empty()
    } else {
        admission_all_events(m, config, base_fee, origin, outcomes.drop_last(), now)
            + admission_events(
            admission_all(m, config, origin, outcomes.drop_last(), now).0,
            config,
            base_fee,
            origin,
            outcomes.last(),
            now,
        )
    }
}

/// What the event listeners are told when the size bounds are enforced on
/// the residents `txs`: that each transaction that leaves is discarded, in
/// the order in which they leave.
pub open spec fn eviction_events<T: TransactionOrdering>(
    ordering: T,
    txs: Seq<SharedTransaction>,
    senders: Map<u64, SenderInfo>,
    base_fee: u64,
    config: PoolConfig,
) -> Seq<FullTransactionEvent> {
    events_for(
        hashes_of(discarded_by(ordering, txs, senders, base_fee, config)),
        |h: TxHash| TransactionEvent::Discarded,
    )
}

/// What the event listeners are told of a batch of admissions: the events
/// of each admission in order, then, if a transaction was admitted, the
/// events of the eviction that follows.
pub open spec fn batch_events<T: TransactionOrdering>(
    ordering: T,
    m: PoolModel,
    config: PoolConfig,
    base_fee: u64,
    origin: TransactionOrigin,
    outcomes: Seq<TransactionValidationOutcome>,
    now: u64,
) -> Seq<FullTransactionEvent> {
    let (after, results) = admission_all(m, config, origin, outcomes, now);
    admission_all_events(m, config, base_fee, origin, outcomes, now) + (if any_ok(results) {
        eviction_events(ordering, after.txs, after.senders, base_fee, config)
    } else {
        Seq::empty()
    })
}

/// What the event listeners are told when the residents `before` are
/// classified anew as `after`: that the promoted ones are pending, then that
/// the demoted ones are queued, each in id order.
pub open spec fn reclass_events(
    before: Seq<PoolInternalTransaction>,
    after: Seq<PoolInternalTransaction>,
) -> Seq<FullTransactionEvent> {
    events_for(
        promoted_between(before, after, None, after.len() as int),
        |h: TxHash| TransactionEvent::Pending,
    ) + events_for(
        demoted_between(before, after, None, after.len() as int),
        |h: TxHash| TransactionEvent::Queued,
    )
}

/// What the event listeners are told when the residents `entries` are
/// brought in line with the committed state `infos` and the base fee
/// `base_fee`, the transactions with the hashes `gone` having left: the
/// events of the new classification of those that stay, then that each
/// outdated one is discarded.
pub open spec fn update_events(
    entries: Seq<PoolInternalTransaction>,
    gone: Seq<TxHash>,
    infos: Map<u64, SenderInfo>,
    base_fee: u64,
) -> Seq<FullTransactionEvent> {
    let kept = retained(entries, gone, infos);
    reclass_events(kept, with_classes(txs_of(kept), infos, base_fee)) + events_for(
        outdated(entries, gone, infos),
        |h: TxHash| TransactionEvent::Discarded,
    )
}

/// What the admission of a batch of validated transactions does, one after
/// the other, and the result of each.
pub open spec fn admission_all(
    m: PoolModel,
    config: PoolConfig,
    origin: TransactionOrigin,
    outcomes: Seq<TransactionValidationOutcome>,
    now: u64,
) -> (PoolModel, Seq<PoolResult<TxHash>>)
    decreases outcomes.len(),
{
    if outcomes.len() == 0 {
        (m, Seq::empty())
    } else {
        let (before, results) = admission_all(m, config, origin, outcomes.drop_last(), now);
        let (after, result) = admission(before, config, origin, outcomes.last(), now);
        (after, results.push(result))
    }
}

/// Whether the model is well formed for a pool where a sender may hold
/// `slots` transactions: the residents are in id order, with distinct
/// hashes and known senders, none has a nonce below its sender's nonce on
/// chain, and no sender holds more than `slots`.
pub open spec fn model_valid(m: PoolModel, slots: usize) -> bool {
    &&& sorted_by_id(m.txs)
    &&& distinct_hashes(m.txs)
    &&& senders_known(m.txs, m.senders)
    &&& within_slots(m.txs, slots)
}

/// The transaction that the pool makes of the valid outcome `outcome`
/// when it arrives at the model `m`, see [`wrapped`].
pub open spec fn candidate(
    m: PoolModel,
    origin: TransactionOrigin,
    outcome: TransactionValidationOutcome,
    now: u64,
) -> ValidPoolTransaction
    recommends
        outcome is Valid,
{
    wrapped(
        outcome->Valid_transaction,
        id_for(m.ids, outcome->Valid_transaction.sender),
        outcome->Valid_propagate,
        now,
        origin,
    )
}

/// An admission leaves a well-formed model well formed.
pub proof fn lemma_admission_keeps_valid(
    m: PoolModel,
    config: PoolConfig,
    origin: TransactionOrigin,
    outcome: TransactionValidationOutcome,
    now: u64,
)
    requires
        model_valid(m, config.max_account_slots),
    ensures
        model_valid(admission(m, config, origin, outcome, now).0, config.max_account_slots),
{
    if let TransactionValidationOutcome::Valid { balance, state_nonce, transaction, propagate } =
        outcome {
        let tx = candidate(m, origin, outcome, now);
        if !has_hash(m.txs, transaction.hash) && admission_error(
            m.txs,
            m.senders,
            config,
            tx,
            balance,
            state_nonce,
        ).is_none() {
            let entries = with_classes(m.txs, m.senders, 0);
            assert(txs_of(entries) =~= m.txs);
            lemma_seated(
                entries,
                m.senders,
                config.max_account_slots,
                Arc::new(tx),
                info_on_arrival(m.senders, tx.transaction_id.sender, balance, state_nonce),
            );
        }
    }
}

/// The admissions of a batch leave a well-formed model well formed, and
/// give one result for each outcome.
pub proof fn lemma_admission_all_keeps_valid(
    m: PoolModel,
    config: PoolConfig,
    origin: TransactionOrigin,
    outcomes: Seq<TransactionValidationOutcome>,
    now: u64,
)
    requires
        model_valid(m, config.max_account_slots),
    ensures
        model_valid(admission_all(m, config, origin, outcomes, now).0, config.max_account_slots),
        admission_all(m, config, origin, outcomes, now).1.len() == outcomes.len(),
    decreases outcomes.len(),
{
    if outcomes.len() > 0 {
        lemma_admission_all_keeps_valid(m, config, origin, outcomes.drop_last(), now);
        lemma_admission_keeps_valid(
            admission_all(m, config, origin, outcomes.drop_last(), now).0,
            config,
            origin,
            outcomes.last(),
            now,
        );
    }
}

/// In a batch each outcome is admitted to what the outcomes before it
/// left. Its result is that of its own admission, but that a success
/// becomes "discarded on insert" where the eviction after the batch takes
/// the transaction out again.
pub proof fn lemma_batch_results<T: TransactionOrdering>(
    ordering: T,
    m: PoolModel,
    config: PoolConfig,
    base_fee: u64,
    origin: TransactionOrigin,
    outcomes: Seq<TransactionValidationOutcome>,
    now: u64,
    i: int,
)
    requires
        0 <= i < outcomes.len(),
    ensures
        ({
            let before = admission_all(m, config, origin, outcomes.take(i), now).0;
            let own = admission(before, config, origin, outcomes[i], now).1;
            let results = batch_admission(ordering, m, config, base_fee, origin, outcomes, now).1;
            &&& results.len() == outcomes.len()
            &&& admission_all(m, config, origin, outcomes, now).1[i] == own
            &&& own is Err ==> results[i] == own
            &&& results[i] is Ok ==> results[i] == own
            &&& own matches Ok(hash) ==> results[i] == own || results[i] == Err::<
                TxHash,
                PoolError,
            >(PoolError::DiscardedOnInsert(hash))
        }),
    decreases outcomes.len(),
{
    let all = admission_all(m, config, origin, outcomes, now);
    let front = outcomes.drop_last();
    if i < outcomes.len() - 1 {
        lemma_batch_results(ordering, m, config, base_fee, origin, front, now, i);
        assert(front.take(i) =~= outcomes.take(i));
        assert(front[i] == outcomes[i]);
    } else {
        assert(outcomes.take(i) =~= front);
    }
    lemma_admission_all_length(m, config, origin, front, now);
    lemma_admission_all_length(m, config, origin, outcomes, now);
}

/// The admissions of a batch give one result for each outcome.
pub proof fn lemma_admission_all_length(
    m: PoolModel,
    config: PoolConfig,
    origin: TransactionOrigin,
    outcomes: Seq<TransactionValidationOutcome>,
    now: u64,
)
    ensures
        admission_all(m, config, origin, outcomes, now).1.len() == outcomes.len(),
    decreases outcomes.len(),
{
    if outcomes.len() > 0 {
        lemma_admission_all_length(m, config, origin, outcomes.drop_last(), now);
    }
}

/// A replacement in a batch pays the price bump. Where outcome `i` of a
/// batch is valid, with a hash that is not resident when it is admitted
/// and the id of a transaction that is: if its result is a success, its
/// fee cap and its priority fee are each at least those of the resident
/// raised by the configured percentage; if one of them is not, the result
/// is "replacement underpriced" and the residents stay as they are. A
/// transaction without a priority fee counts with its fee cap in its place.
pub proof fn lemma_replacement_in_batch<T: TransactionOrdering>(
    ordering: T,
    m: PoolModel,
    config: PoolConfig,
    base_fee: u64,
    origin: TransactionOrigin,
    outcomes: Seq<TransactionValidationOutcome>,
    now: u64,
    i: int,
)
    requires
        model_valid(m, config.max_account_slots),
        0 <= i < outcomes.len(),
        outcomes[i] is Valid,
        ({
            let before = admission_all(m, config, origin, outcomes.take(i), now).0;
            let tx = candidate(before, origin, outcomes[i], now);
            index_of_id(before.txs, tx.transaction_id).is_some() && !has_hash(
                before.txs,
                tx.transaction.hash,
            )
        }),
    ensures
        ({
            let before = admission_all(m, config, origin, outcomes.take(i), now).0;
            let tx = candidate(before, origin, outcomes[i], now);
            let resident = before.txs[index_of_id(before.txs, tx.transaction_id).unwrap()];
            let result = batch_admission(ordering, m, config, base_fee, origin, outcomes, now).1[i];
            let bump = config.price_bump;
            &&& result is Ok ==> tx.transaction.max_fee_per_gas * 100
                >= resident.transaction.max_fee_per_gas * (100 + bump)
                && tx.spec_priority_fee_or_price() * 100 >= resident.spec_priority_fee_or_price() * (
                100 + bump)
            &&& is_underpriced(*resident, tx, bump) ==> result == Err::<TxHash, PoolError>(
                PoolError::ReplacementUnderpriced(tx.transaction.hash),
            ) && admission(before, config, origin, outcomes[i], now).0.txs == before.txs
        }),
{
    let before = admission_all(m, config, origin, outcomes.take(i), now).0;
    let tx = candidate(before, origin, outcomes[i], now);
    lemma_admission_all_keeps_valid(m, config, origin, outcomes.take(i), now);
    lemma_batch_results(ordering, m, config, base_fee, origin, outcomes, now, i);
    let p = index_of_id(before.txs, tx.transaction_id).unwrap();
    assert(before.txs[p].transaction_id == tx.transaction_id);
    assert(before.senders.contains_key(before.txs[p].transaction_id.sender.0));
    let balance = outcomes[i]->Valid_balance;
    let state_nonce = outcomes[i]->Valid_state_nonce;
    if admission_error(before.txs, before.senders, config, tx, balance, state_nonce).is_none() {
        lemma_replacement_pays_bump(before.txs, before.senders, config, tx, balance, state_nonce);
    }
}

/// A second admission in a batch is refused. Where outcome `i` of a batch
/// is valid and its hash is resident when it is admitted, its result is
/// "already imported" with that hash, and its admission changes nothing.
pub proof fn lemma_readd_in_batch<T: TransactionOrdering>(
    ordering: T,
    m: PoolModel,
    config: PoolConfig,
    base_fee: u64,
    origin: TransactionOrigin,
    outcomes: Seq<TransactionValidationOutcome>,
    now: u64,
    i: int,
)
    requires
        0 <= i < outcomes.len(),
        outcomes[i] is Valid,
        has_hash(
            admission_all(m, config, origin, outcomes.take(i), now).0.txs,
            outcomes[i]->Valid_transaction.hash,
        ),
    ensures
        batch_admission(ordering, m, config, base_fee, origin, outcomes, now).1[i] == Err::<
            TxHash,
            PoolError,
        >(PoolError::AlreadyImported(outcomes[i]->Valid_transaction.hash)),
        ({
            let before = admission_all(m, config, origin, outcomes.take(i), now).0;
            admission(before, config, origin, outcomes[i], now).0 == before
        }),
{
    lemma_batch_results(ordering, m, config, base_fee, origin, outcomes, now, i);
}

/// Whether one of the results is a success.
pub open spec fn any_ok(results: Seq<PoolResult<TxHash>>) -> bool {
    exists|i: int| 0 <= i < results.len() && (#[trigger] results[i]).is_ok()
}

/// The hashes of `txs`, in order.
pub open spec fn hashes_of(txs: Seq<SharedTransaction>) -> Seq<TxHash> {
    Seq::new(txs.len(), |i: int| txs[i].transaction.hash)
}

/// The results once the transactions with the hashes `gone` were evicted:
/// a success whose hash is among them has become the failure "discarded on insert".
pub open spec fn adjusted(results: Seq<PoolResult<TxHash>>, gone: Seq<TxHash>) -> Seq<
    PoolResult<TxHash>,
> {
    Seq::new(
        results.len(),
        |i: int|
            match results[i] {
                Ok(hash) => if gone.contains(hash) {
                    Err(PoolError::DiscardedOnInsert(hash))
                } else {
                    Ok(hash)
                },
                Err(e) => Err(e),
            },
    )
}

/// What a batch of admissions leaves and returns, with the size bounds
/// enforced afterwards if a transaction was admitted.
pub open spec fn batch_admission<T: TransactionOrdering>(
    ordering: T,
    m: PoolModel,
    config: PoolConfig,
    base_fee: u64,
    origin: TransactionOrigin,
    outcomes: Seq<TransactionValidationOutcome>,
    now: u64,
) -> (PoolModel, Seq<PoolResult<TxHash>>) {
    let (after, results) = admission_all(m, config, origin, outcomes, now);
    if any_ok(results) {
        (
            PoolModel {
                ids: after.ids,
                txs: after_discard(ordering, after.txs, after.senders, base_fee, config),
                senders: after.senders,
            },
            adjusted(
                results,
                hashes_of(discarded_by(ordering, after.txs, after.senders, base_fee, config)),
            ),
        )
    } else {
        (after, results)
    }
}

/// The table of sender ids once the addresses of `accounts` are interned,
/// and the committed state of each account under its sender id, in order.
pub open spec fn interned(ids: Seq<Address>, accounts: Seq<ChangedAccount>) -> (
    Seq<Address>,
    Seq<(SenderId, SenderInfo)>,
)
    decreases accounts.len(),
{
    if accounts.len() == 0 {
        (ids, Seq::empty())
    } else {
        let (before, changed) = interned(ids, accounts.drop_last());
        let last = accounts.last();
        (
            ids_with(before, last.address),
            changed.push(
                (
                    id_for(before, last.address),
                    SenderInfo { state_nonce: last.nonce, balance: last.balance },
                ),
            ),
        )
    }
}

/// What a new canonical block brings.
#[derive(Debug)]
pub struct CanonicalStateUpdate {
    /// The hash of the block.
    pub hash: B256,
    /// The number of the block.
    pub number: u64,
    /// The base fee of the block that will follow it.
    pub pending_block_base_fee: u64,
    /// The accounts whose committed state the block changed.
    pub changed_accounts: Vec<ChangedAccount>,
    /// The hashes of the transactions that the block mined.
    pub mined_transactions: Vec<TxHash>,
    /// The timestamp of the block.
    pub timestamp: u64,
}

/// The resident transactions by readiness.
#[derive(Debug)]
pub struct AllPoolTransactions {
    /// The transactions of the pending sub-pool.
    pub pending: Vec<SharedTransaction>,
    /// The transactions of the two parked sub-pools.
    pub queued: Vec<SharedTransaction>,
}

/// Computes [`adjusted`].
pub fn adjust_results(results: Vec<PoolResult<TxHash>>, gone: &Vec<TxHash>) -> (r: Vec<
    PoolResult<TxHash>,
>)
    ensures
        r@ == adjusted(results@, gone@),
{
    let ghost all = results@;
    let mut out: Vec<PoolResult<TxHash>> = Vec::new();
    for result in iter: results
        invariant
            iter.seq() == all,
            out@.len() == iter.index(),
            forall|k: int| 0 <= k < out@.len() ==> out@[k] == adjusted(all, gone@)[k],
    {
        let mapped: PoolResult<TxHash> = match result {
            Ok(hash) => {
                if list_has(gone, &hash) {
                    Err(PoolError::DiscardedOnInsert(hash))
                } else {
                    Ok(hash)
                }
            },
            Err(e) => Err(e),
        };
        out.push(mapped);
    }
    assert(out@ =~= adjusted(all, gone@));
    out
}

/// The pool with what surrounds it: the table of sender ids and the listeners.
pub struct PoolInner<T: TransactionOrdering> {
    identifiers: SenderIdentifiers,
    pool: TxPool<T>,
    config: PoolConfig,
    event_listener: PoolEventBroadcast,
    pending_transaction_listener: Vec<PendingTransactionListener>,
    transaction_listener: Vec<Sender<NewTransactionEvent>>,
    pending_told: Ghost<Seq<PendingNotice>>,
    admitted_told: Ghost<Seq<NewTransactionEvent>>,
}

impl<T: TransactionOrdering> PoolInner<T> {
    /// The pool of transactions.
    pub closed spec fn pool(&self) -> TxPool<T> {
        self.pool
    }

    /// The table of sender ids.
    pub closed spec fn identifiers(&self) -> SenderIdentifiers {
        self.identifiers
    }

    /// The listeners to transaction events.
    pub closed spec fn broadcast(&self) -> PoolEventBroadcast {
        self.event_listener
    }

    /// Every event that was handed to the event listeners so far, in order.
    pub open spec fn told(&self) -> Seq<FullTransactionEvent> {
        self.broadcast().told()
    }

    /// The listeners to the hashes of pending transactions.
    pub closed spec fn pending_listeners(&self) -> Seq<PendingTransactionListener> {
        self.pending_transaction_listener@
    }

    /// The listeners to admitted transactions.
    pub closed spec fn transaction_listeners(&self) -> Seq<Sender<NewTransactionEvent>> {
        self.transaction_listener@
    }

    /// Every hash that went round the listeners to pending transactions so
    /// far, in order.
    pub closed spec fn pending_told(&self) -> Seq<PendingNotice> {
        self.pending_told@
    }

    /// Every event that went round the listeners to admitted transactions
    /// so far, in order. An event is sent to each listener; one whose
    /// channel is full or closed misses it.
    pub closed spec fn admitted_told(&self) -> Seq<NewTransactionEvent> {
        self.admitted_told@
    }

    /// The settings.
    pub closed spec fn settings(&self) -> PoolConfig {
        self.config
    }

    /// What admission goes by.
    pub open spec fn model(&self) -> PoolModel {
        PoolModel {
            ids: self.identifiers()@,
            txs: self.pool().all(),
            senders: self.pool().senders(),
        }
    }

    /// The pool, the table of sender ids and the event listeners are well
    /// formed, and the pool has the settings of the whole.
    pub open spec fn consistent(&self) -> bool {
        &&& self.pool().wf()
        &&& self.identifiers().wf()
        &&& self.broadcast().wf()
        &&& self.pool().settings() == self.settings()
    }

    /// No sub-pool is over its bounds.
    pub open spec fn within_bounds(&self) -> bool {
        &&& !over_budget(self.pool().members(SubPool::Pending), self.settings().pending_limit)
        &&& !over_budget(self.pool().members(SubPool::BaseFee), self.settings().basefee_limit)
        &&& !over_budget(self.pool().members(SubPool::Queued), self.settings().queued_limit)
    }

    /// The invariant of the whole: all parts are well formed and fit
    /// together, and no sub-pool is over its bounds. The bounds may be
    /// exceeded while a batch is admitted; they are restored before any
    /// public call returns.
    pub open spec fn wf(&self) -> bool {
        self.consistent() && self.within_bounds()
    }

    /// Whether sending events left the listeners as they were, but for
    /// those that were dropped.
    pub open spec fn listeners_only_dropped(&self, before: &PoolInner<T>) -> bool {
        &&& selected_from(self.pending_listeners(), before.pending_listeners())
        &&& selected_from(self.transaction_listeners(), before.transaction_listeners())
        &&& self.broadcast().all_listeners() <= before.broadcast().all_listeners()
        &&& forall|hash: TxHash|
            self.broadcast().hashes().contains(hash) ==> before.broadcast().hashes().contains(
                hash,
            )
    }

    /// An empty pool with the given order of the pending sub-pool, the
    /// given settings and no listeners, before any block was seen: the last
    /// block has the zero hash and the number 0, and the pending base fee is
    /// the least that the settings allow.
    pub fn new(ordering: T, config: PoolConfig) -> (r: PoolInner<T>)
        ensures
            r.wf(),
            r.pool().ordering() == ordering,
            r.settings() == config,
            r.model().ids.len() == 0,
            r.model().txs.len() == 0,
            r.pool().senders() == Map::<u64, SenderInfo>::empty(),
            r.pending_listeners().len() == 0,
            r.transaction_listeners().len() == 0,
            r.broadcast().hashes().len() == 0,
            r.broadcast().all_listeners() == 0,
            r.pool().block() == (BlockInfo {
                last_seen_block_hash: B256 { hi: 0, lo: 0 },
                last_seen_block_number: 0,
                pending_basefee: config.minimal_protocol_basefee,
            }),
            r.told() == Seq::<FullTransactionEvent>::empty(),
            r.pending_told() == Seq::<PendingNotice>::empty(),
            r.admitted_told() == Seq::<NewTransactionEvent>::empty(),
    {
        PoolInner {
            identifiers: SenderIdentifiers::new(),
            pool: TxPool::new(ordering, config),
            config,
            event_listener: PoolEventBroadcast::new(),
            pending_transaction_listener: Vec::new(),
            transaction_listener: Vec::new(),
            pending_told: Ghost(Seq::empty()),
            admitted_told: Ghost(Seq::empty()),
        }
    }

    /// The settings the pool was made with.
    pub fn config(&self) -> (r: &PoolConfig)
        ensures
            *r == self.settings(),
    {
        &self.config
    }

    /// How many transactions, and how many bytes of them, each sub-pool holds.
    pub fn size(&self) -> (r: PoolSize)
        requires
            self.wf(),
        ensures
            r.pending == self.pool().members(SubPool::Pending).len(),
            r.pending_size == sum_bytes(self.pool().members(SubPool::Pending)),
            r.basefee == self.pool().members(SubPool::BaseFee).len(),
            r.basefee_size == sum_bytes(self.pool().members(SubPool::BaseFee)),
            r.queued == self.pool().members(SubPool::Queued).len(),
            r.queued_size == sum_bytes(self.pool().members(SubPool::Queued)),
    {
        self.pool.size()
    }

    /// The block the pool last saw.
    pub fn block_info(&self) -> (r: BlockInfo)
        ensures
            r == self.pool().block(),
    {
        self.pool.block_info()
    }

    /// The id of `addr`, which is interned if it is new.
    pub fn get_sender_id(&mut self, addr: Address) -> (r: SenderId)
        requires
            old(self).identifiers().wf(),
        ensures
            final(self).pending_told() == old(self).pending_told(),
            final(self).admitted_told() == old(self).admitted_told(),
            final(self).identifiers().wf(),
            r == id_for(old(self).identifiers()@, addr),
            final(self).identifiers()@ == ids_with(old(self).identifiers()@, addr),
            final(self).pool() == old(self).pool(),
            final(self).settings() == old(self).settings(),
            final(self).pool().ordering() == old(self).pool().ordering(),
            final(self).broadcast() == old(self).broadcast(),
            final(self).pending_listeners() == old(self).pending_listeners(),
            final(self).transaction_listeners() == old(self).transaction_listeners(),
    {
        self.identifiers.sender_id_or_create(addr)
    }

    /// Registers a listener to the hashes of the transactions that enter
    /// the pending sub-pool, and returns its receiving end.
    pub fn add_pending_listener(&mut self, kind: PendingTransactionListenerKind) -> (r: Receiver<
        TxHash,
    >)
        ensures
            final(self).pending_told() == old(self).pending_told(),
            final(self).admitted_told() == old(self).admitted_told(),
            final(self).pending_listeners().len() == old(self).pending_listeners().len() + 1,
            final(self).pending_listeners().drop_last() == old(self).pending_listeners(),
            final(self).pending_listeners().last().wants() == kind,
            final(self).pool() == old(self).pool(),
            final(self).identifiers() == old(self).identifiers(),
            final(self).settings() == old(self).settings(),
            final(self).pool().ordering() == old(self).pool().ordering(),
            final(self).broadcast() == old(self).broadcast(),
            final(self).transaction_listeners() == old(self).transaction_listeners(),
    {
        let (sender, rx) = bounded_channel::<TxHash>(PENDING_LISTENER_BUFFER_SIZE);
        self.pending_transaction_listener.push(PendingTransactionListener { sender, kind });
        let ghost before = old(self).pending_transaction_listener@;
        assert(self.pending_transaction_listener@.drop_last() =~= before);
        rx
    }

    /// Registers a listener to every admitted transaction, and returns its
    /// receiving end.
    pub fn add_new_transaction_listener(&mut self) -> (r: Receiver<NewTransactionEvent>)
        ensures
            final(self).pending_told() == old(self).pending_told(),
            final(self).admitted_told() == old(self).admitted_told(),
            final(self).transaction_listeners().len() == old(self).transaction_listeners().len()
                + 1,
            final(self).transaction_listeners().drop_last() == old(self).transaction_listeners(),
            final(self).pool() == old(self).pool(),
            final(self).identifiers() == old(self).identifiers(),
            final(self).settings() == old(self).settings(),
            final(self).pool().ordering() == old(self).pool().ordering(),
            final(self).broadcast() == old(self).broadcast(),
            final(self).pending_listeners() == old(self).pending_listeners(),
    {
        let (tx, rx) = bounded_channel::<NewTransactionEvent>(NEW_TRANSACTION_LISTENER_BUFFER_SIZE);
        self.transaction_listener.push(tx);
        assert(self.transaction_listener@.drop_last() =~= old(self).transaction_listener@);
        rx
    }

    /// Registers a listener to the events of the transaction with hash
    /// `tx_hash`, if that transaction is resident.
    pub fn add_transaction_event_listener(&mut self, tx_hash: TxHash) -> (r: Option<
        TransactionEvents,
    >)
        requires
            old(self).wf(),
        ensures
            final(self).pending_told() == old(self).pending_told(),
            final(self).admitted_told() == old(self).admitted_told(),
            final(self).wf(),
            r.is_some() == has_hash(old(self).pool().all(), tx_hash),
            r matches Some(events)
                ==> events.hash == tx_hash && final(self).broadcast().hashes().contains(tx_hash),
            r.is_none() ==> final(self).broadcast() == old(self).broadcast(),
            final(self).pool() == old(self).pool(),
            final(self).identifiers() == old(self).identifiers(),
            final(self).settings() == old(self).settings(),
            final(self).pool().ordering() == old(self).pool().ordering(),
            final(self).pending_listeners() == old(self).pending_listeners(),
            final(self).transaction_listeners() == old(self).transaction_listeners(),
    {
        if self.pool.contains(&tx_hash) {
            Some(self.event_listener.subscribe(tx_hash))
        } else {
            None
        }
    }

    /// Registers a listener to the events of all transactions.
    pub fn add_all_transactions_event_listener(&mut self) -> (r: AllTransactionsEvents)
        requires
            old(self).wf(),
        ensures
            final(self).pending_told() == old(self).pending_told(),
            final(self).admitted_told() == old(self).admitted_told(),
            final(self).wf(),
            final(self).broadcast().all_listeners() == old(self).broadcast().all_listeners() + 1,
            final(self).broadcast().hashes() == old(self).broadcast().hashes(),
            final(self).pool() == old(self).pool(),
            final(self).identifiers() == old(self).identifiers(),
            final(self).settings() == old(self).settings(),
            final(self).pool().ordering() == old(self).pool().ordering(),
            final(self).pending_listeners() == old(self).pending_listeners(),
            final(self).transaction_listeners() == old(self).transaction_listeners(),
    {
        self.event_listener.subscribe_all()
    }

    /// Sends the hash of a transaction that entered the pending sub-pool
    /// round the listeners to pending transactions. A listener that wants
    /// only transactions that may be announced is not sent the hash of one
    /// that may not; the pool only asks whether its channel is closed. A
    /// listener whose channel is closed is dropped; one whose channel is
    /// full misses the hash and stays.
    pub fn announce_pending(&mut self, tx_hash: TxHash, propagate_allowed: bool)
        ensures
            exists|contacts: Seq<Contact>|
                is_pending_round(old(self).pending_listeners(), propagate_allowed, contacts)
                    && final(self).pending_listeners() == kept_after(
                    old(self).pending_listeners(),
                    contacts,
                ),
            final(self).pending_told() == old(self).pending_told().push(
                PendingNotice { hash: tx_hash, propagate: propagate_allowed },
            ),
            final(self).admitted_told() == old(self).admitted_told(),
            selected_from(final(self).pending_listeners(), old(self).pending_listeners()),
            final(self).pool() == old(self).pool(),
            final(self).identifiers() == old(self).identifiers(),
            final(self).settings() == old(self).settings(),
            final(self).pool().ordering() == old(self).pool().ordering(),
            final(self).broadcast() == old(self).broadcast(),
            final(self).transaction_listeners() == old(self).transaction_listeners(),
    {
        let mut list: Vec<PendingTransactionListener> = Vec::new();
        std::mem::swap(&mut self.pending_transaction_listener, &mut list);
        let ghost all = list@;
        let ghost mut places: Seq<int> = Seq::empty();
        let ghost mut contacts: Seq<Contact> = Seq::empty();
        proof {
            assert(all.take(0) =~= Seq::empty());
        }
        for listener in iter: list
            invariant
                iter.seq() == all,
                is_selection(self.pending_transaction_listener@, all, places),
                forall|k: int| 0 <= k < places.len() ==> places[k] < iter.index(),
                is_pending_round(all.take(iter.index() as int), propagate_allowed, contacts),
                self.pending_transaction_listener@ == kept_after(
                    all.take(iter.index() as int),
                    contacts,
                ),
                self.pool == old(self).pool,
                self.identifiers == old(self).identifiers,
                self.config == old(self).config,
                self.pool.ordering() == old(self).pool.ordering(),
                self.event_listener == old(self).event_listener,
                self.transaction_listener == old(self).transaction_listener,
                self.pending_told == old(self).pending_told,
                self.admitted_told == old(self).admitted_told,
        {
            let contact: Contact = if tells_listener(listener.kind, propagate_allowed) {
                Contact::Tried(try_send(&listener.sender, tx_hash))
            } else {
                Contact::Asked { closed: is_closed(&listener.sender) }
            };
            proof {
                let seen = all.take(iter.index() as int);
                let next = all.take(iter.index() + 1);
                assert(next.drop_last() =~= seen);
                assert(next.last() == listener);
                assert(contacts.push(contact).drop_last() =~= contacts);
                assert(is_pending_round(next, propagate_allowed, contacts.push(contact))) by {
                    assert forall|i: int| 0 <= i < next.len() implies (#[trigger] contacts.push(
                        contact,
                    )[i] is Tried) == is_told(next[i].wants(), propagate_allowed) by {
                        if i < seen.len() {
                            assert(contacts.push(contact)[i] == contacts[i]);
                            assert(next[i] == seen[i]);
                        }
                    }
                }
                contacts = contacts.push(contact);
            }
            if stays_after(contact) {
                proof {
                    places = places.push(iter.index() as int);
                }
                self.pending_transaction_listener.push(listener);
            }
        }
        proof {
            assert(all.take(all.len() as int) =~= all);
            self.pending_told@ = self.pending_told@.push(
                PendingNotice { hash: tx_hash, propagate: propagate_allowed },
            );
            assert(is_pending_round(old(self).pending_listeners(), propagate_allowed, contacts)
                && self.pending_listeners() == kept_after(old(self).pending_listeners(), contacts));
        }
    }

    /// Sends the hashes of the given transactions, which entered the
    /// pending sub-pool, round the listeners to pending transactions, one
    /// after the other: see [`Self::announce_pending`] for each round.
    pub fn announce_all_pending(&mut self, txs: &Vec<SharedTransaction>)
        ensures
            exists|rounds: Seq<Seq<Contact>>|
                left_after_rounds(old(self).pending_listeners(), notices_of(txs@), rounds) == Some(
                    final(self).pending_listeners(),
                ),
            final(self).pending_told() == old(self).pending_told() + notices_of(txs@),
            final(self).admitted_told() == old(self).admitted_told(),
            selected_from(final(self).pending_listeners(), old(self).pending_listeners()),
            final(self).pool() == old(self).pool(),
            final(self).identifiers() == old(self).identifiers(),
            final(self).settings() == old(self).settings(),
            final(self).pool().ordering() == old(self).pool().ordering(),
            final(self).broadcast() == old(self).broadcast(),
            final(self).transaction_listeners() == old(self).transaction_listeners(),
    {
        let ghost notices = notices_of(txs@);
        let ghost mut rounds: Seq<Seq<Contact>> = Seq::empty();
        let mut i: usize = 0;
        proof {
            lemma_selected_from_self(self.pending_listeners());
            assert(notices.take(0) =~= Seq::empty());
            assert(self.pending_told@ =~= old(self).pending_told@ + notices.take(0));
        }
        while i < txs.len()
            invariant
                i <= txs@.len(),
                notices == notices_of(txs@),
                rounds.len() == i,
                left_after_rounds(
                    old(self).pending_transaction_listener@,
                    notices.take(i as int),
                    rounds,
                ) == Some(self.pending_transaction_listener@),
                self.pending_told@ == old(self).pending_told@ + notices.take(i as int),
                selected_from(
                    self.pending_transaction_listener@,
                    old(self).pending_transaction_listener@,
                ),
                self.pool == old(self).pool,
                self.identifiers == old(self).identifiers,
                self.config == old(self).config,
                self.pool.ordering() == old(self).pool.ordering(),
                self.event_listener == old(self).event_listener,
                self.transaction_listener@ == old(self).transaction_listener@,
                self.admitted_told == old(self).admitted_told,
            decreases txs@.len() - i,
        {
            let ghost before = self.pending_transaction_listener@;
            self.announce_pending(txs[i].transaction.hash, txs[i].propagate);
            proof {
                let contacts = choose|contacts: Seq<Contact>|
                    is_pending_round(before, txs@[i as int].propagate, contacts)
                        && self.pending_listeners() == kept_after(before, contacts);
                let next = notices.take(i + 1);
                assert(next.drop_last() =~= notices.take(i as int));
                assert(next.last() == notice_of(txs@[i as int]));
                assert(rounds.push(contacts).drop_last() =~= rounds);
                rounds = rounds.push(contacts);
                assert(self.pending_told@ =~= old(self).pending_told@ + next);
                lemma_selected_from_chain(
                    self.pending_listeners(),
                    before,
                    old(self).pending_listeners(),
                );
            }
            i += 1;
        }
        proof {
            assert(notices.take(txs@.len() as int) =~= notices);
        }
    }

    /// Sends the hashes of the promoted transactions round the listeners
    /// to pending transactions, in the given order.
    pub fn on_promoted_transactions(&mut self, promoted: &Vec<TxHash>)
        ensures
            exists|rounds: Seq<Seq<Contact>>|
                left_after_rounds(
                    old(self).pending_listeners(),
                    promotion_notices(old(self).pool().all(), promoted@),
                    rounds,
                ) == Some(final(self).pending_listeners()),
            final(self).pending_told() == old(self).pending_told() + promotion_notices(
                old(self).pool().all(),
                promoted@,
            ),
            final(self).admitted_told() == old(self).admitted_told(),
            selected_from(final(self).pending_listeners(), old(self).pending_listeners()),
            final(self).pool() == old(self).pool(),
            final(self).identifiers() == old(self).identifiers(),
            final(self).settings() == old(self).settings(),
            final(self).pool().ordering() == old(self).pool().ordering(),
            final(self).broadcast() == old(self).broadcast(),
            final(self).transaction_listeners() == old(self).transaction_listeners(),
    {
        let txs = self.pool.get_all(promoted);
        self.announce_all_pending(&txs);
        proof {
            let rounds = choose|rounds: Seq<Seq<Contact>>|
                left_after_rounds(old(self).pending_listeners(), notices_of(txs@), rounds) == Some(
                    self.pending_listeners(),
                );
            assert(left_after_rounds(
                old(self).pending_listeners(),
                promotion_notices(old(self).pool().all(), promoted@),
                rounds,
            ) == Some(self.pending_listeners()));
        }
    }

    /// Sends the hashes of the transactions that entered the pending
    /// sub-pool by the admission `added` round the listeners to pending
    /// transactions: that of the admitted one, if it went there, then those
    /// of the promoted ones, see [`entered_pending`]. Where none entered,
    /// nothing is sent and no listener is dropped.
    pub fn on_new_pending_transaction(&mut self, added: &AddedTransaction)
        ensures
            exists|rounds: Seq<Seq<Contact>>|
                left_after_rounds(
                    old(self).pending_listeners(),
                    notices_of(entered_pending(old(self).pool().all(), *added)),
                    rounds,
                ) == Some(final(self).pending_listeners()),
            final(self).pending_told() == old(self).pending_told() + notices_of(
                entered_pending(old(self).pool().all(), *added),
            ),
            final(self).admitted_told() == old(self).admitted_told(),
            selected_from(final(self).pending_listeners(), old(self).pending_listeners()),
            final(self).pool() == old(self).pool(),
            final(self).identifiers() == old(self).identifiers(),
            final(self).settings() == old(self).settings(),
            final(self).pool().ordering() == old(self).pool().ordering(),
            final(self).broadcast() == old(self).broadcast(),
            final(self).transaction_listeners() == old(self).transaction_listeners(),
    {
        let mut entered: Vec<SharedTransaction> = Vec::new();
        let mut promoted: Vec<SharedTransaction> = match added {
            AddedTransaction::Pending(tx) => {
                entered.push(tx.transaction.clone());
                self.pool.get_all(&tx.promoted)
            },
            AddedTransaction::Parked { promoted, .. } => self.pool.get_all(promoted),
        };
        entered.append(&mut promoted);
        assert(entered@ =~= entered_pending(self.pool.all(), *added));
        self.announce_all_pending(&entered);
        proof {
            let rounds = choose|rounds: Seq<Seq<Contact>>|
                left_after_rounds(old(self).pending_listeners(), notices_of(entered@), rounds)
                    == Some(self.pending_listeners());
            assert(left_after_rounds(
                old(self).pending_listeners(),
                notices_of(entered_pending(old(self).pool().all(), *added)),
                rounds,
            ) == Some(self.pending_listeners()));
        }
    }

    /// Sends `event` round the listeners to admitted transactions. A
    /// listener whose channel is closed is dropped; one whose channel is
    /// full misses the event and stays.
    pub fn on_new_transaction(&mut self, event: NewTransactionEvent)
        ensures
            exists|contacts: Seq<Contact>|
                is_full_round(old(self).transaction_listeners().len(), contacts)
                    && final(self).transaction_listeners() == kept_after(
                    old(self).transaction_listeners(),
                    contacts,
                ),
            final(self).admitted_told() == old(self).admitted_told().push(event),
            final(self).pending_told() == old(self).pending_told(),
            selected_from(final(self).transaction_listeners(), old(self).transaction_listeners()),
            final(self).pool() == old(self).pool(),
            final(self).identifiers() == old(self).identifiers(),
            final(self).settings() == old(self).settings(),
            final(self).pool().ordering() == old(self).pool().ordering(),
            final(self).broadcast() == old(self).broadcast(),
            final(self).pending_listeners() == old(self).pending_listeners(),
    {
        let mut list: Vec<Sender<NewTransactionEvent>> = Vec::new();
        std::mem::swap(&mut self.transaction_listener, &mut list);
        let ghost all = list@;
        let ghost mut places: Seq<int> = Seq::empty();
        let ghost mut contacts: Seq<Contact> = Seq::empty();
        proof {
            assert(all.take(0) =~= Seq::empty());
        }
        for listener in iter: list
            invariant
                iter.seq() == all,
                is_selection(self.transaction_listener@, all, places),
                forall|k: int| 0 <= k < places.len() ==> places[k] < iter.index(),
                is_full_round(iter.index() as nat, contacts),
                self.transaction_listener@ == kept_after(all.take(iter.index() as int), contacts),
                self.pool == old(self).pool,
                self.identifiers == old(self).identifiers,
                self.config == old(self).config,
                self.pool.ordering() == old(self).pool.ordering(),
                self.event_listener == old(self).event_listener,
                self.pending_transaction_listener == old(self).pending_transaction_listener,
                self.pending_told == old(self).pending_told,
                self.admitted_told == old(self).admitted_told,
        {
            let contact: Contact = Contact::Tried(try_send(&listener, event.duplicate()));
            proof {
                let seen = all.take(iter.index() as int);
                let next = all.take(iter.index() + 1);
                assert(next.drop_last() =~= seen);
                assert(next.last() == listener);
                assert(contacts.push(contact).drop_last() =~= contacts);
                contacts = contacts.push(contact);
            }
            if stays_after(contact) {
                proof {
                    places = places.push(iter.index() as int);
                }
                self.transaction_listener.push(listener);
            }
        }
        proof {
            assert(all.take(all.len() as int) =~= all);
            self.admitted_told@ = self.admitted_told@.push(event);
            assert(is_full_round(old(self).transaction_listeners().len(), contacts)
                && self.transaction_listeners() == kept_after(
                old(self).transaction_listeners(),
                contacts,
            ));
        }
    }

    /// Sends the given events to the event listeners, in order. The
    /// transaction of an event that nothing can follow has no listeners of
    /// its own afterwards; a hash that no event names keeps its listeners.
    fn send_events(&mut self, events: Vec<FullTransactionEvent>)
        requires
            old(self).broadcast().wf(),
        ensures
            final(self).pending_told() == old(self).pending_told(),
            final(self).admitted_told() == old(self).admitted_told(),
            final(self).broadcast().wf(),
            final(self).told() == old(self).told() + events@,
            forall|hash: TxHash|
                !names(events@, hash) ==> #[trigger] final(self).broadcast().hashes().contains(hash)
                    == old(self).broadcast().hashes().contains(hash),
            final(self).broadcast().all_listeners() <= old(self).broadcast().all_listeners(),
            forall|hash: TxHash|
                final(self).broadcast().hashes().contains(hash)
                    ==> old(self).broadcast().hashes().contains(hash),
            forall|k: int|
                0 <= k < events@.len() && (#[trigger] events@[k]).event.spec_is_final()
                    ==> !final(self).broadcast().hashes().contains(events@[k].hash),
            final(self).pool() == old(self).pool(),
            final(self).identifiers() == old(self).identifiers(),
            final(self).settings() == old(self).settings(),
            final(self).pool().ordering() == old(self).pool().ordering(),
            final(self).pending_listeners() == old(self).pending_listeners(),
            final(self).transaction_listeners() == old(self).transaction_listeners(),
    {
        let ghost all = events@;
        assert(self.told() =~= old(self).told() + all.take(0));
        for item in iter: events
            invariant
                self.pending_told == old(self).pending_told,
                self.admitted_told == old(self).admitted_told,
                iter.seq() == all,
                self.event_listener.wf(),
                self.event_listener.told() == old(self).event_listener.told() + all.take(
                    iter.index() as int,
                ),
                forall|hash: TxHash|
                    !names(all.take(iter.index() as int), hash)
                        ==> #[trigger] self.event_listener.hashes().contains(hash)
                            == old(self).event_listener.hashes().contains(hash),
                self.event_listener.all_listeners() <= old(self).event_listener.all_listeners(),
                forall|hash: TxHash|
                    self.event_listener.hashes().contains(hash)
                        ==> old(self).event_listener.hashes().contains(hash),
                forall|k: int|
                    0 <= k < iter.index() && (#[trigger] all[k]).event.spec_is_final()
                        ==> !self.event_listener.hashes().contains(all[k].hash),
                self.pool == old(self).pool,
                self.identifiers == old(self).identifiers,
                self.config == old(self).config,
                self.pool.ordering() == old(self).pool.ordering(),
                self.pending_transaction_listener == old(self).pending_transaction_listener,
                self.transaction_listener == old(self).transaction_listener,
        {
            let ghost before = self.event_listener;
            let ghost done = iter.index() as int;
            self.event_listener.broadcast(item.hash, item.event);
            proof {
                assert(all.take(done + 1) =~= all.take(done).push(all[done]));
                assert(self.event_listener.told() =~= old(self).event_listener.told() + all.take(
                    done + 1,
                ));
                assert forall|hash: TxHash| !names(all.take(done + 1), hash) implies (
                #[trigger] self.event_listener.hashes().contains(hash))
                    == old(self).event_listener.hashes().contains(hash) by {
                    assert(all.take(done + 1)[done] == all[done]);
                    assert(hash != all[done].hash);
                    if names(all.take(done), hash) {
                        let k = choose|k: int|
                            0 <= k < all.take(done).len() && (#[trigger] all.take(done)[k]).hash
                                == hash;
                        assert(all.take(done + 1)[k].hash == hash);
                    }
                    assert(before.hashes().contains(hash)
                        == old(self).event_listener.hashes().contains(hash));
                }
            }
        }
        assert(all.take(all.len() as int) =~= all);
    }

    /// Tells the event listeners what followed from an admission: the
    /// events of [`events_of_added`], in order. The replaced transaction and
    /// those pushed out have no listeners of their own afterwards; a hash
    /// that none of the events names keeps its listeners.
    pub fn notify_event_listeners(&mut self, tx: &AddedTransaction)
        requires
            old(self).broadcast().wf(),
        ensures
            final(self).pending_told() == old(self).pending_told(),
            final(self).admitted_told() == old(self).admitted_told(),
            final(self).broadcast().wf(),
            final(self).told() == old(self).told() + events_of_added(*tx),
            tx.spec_replaced() matches Some(gone) ==> !final(self).broadcast().hashes().contains(
                gone.transaction.hash,
            ),
            forall|k: int|
                0 <= k < tx.spec_discarded().len() ==> !final(self).broadcast().hashes().contains(
                    #[trigger] tx.spec_discarded()[k],
                ),
            forall|hash: TxHash|
                !names(events_of_added(*tx), hash)
                    ==> #[trigger] final(self).broadcast().hashes().contains(hash)
                        == old(self).broadcast().hashes().contains(
                    hash,
                ),
            final(self).broadcast().all_listeners() <= old(self).broadcast().all_listeners(),
            forall|hash: TxHash|
                final(self).broadcast().hashes().contains(hash)
                    ==> old(self).broadcast().hashes().contains(hash),
            final(self).pool() == old(self).pool(),
            final(self).identifiers() == old(self).identifiers(),
            final(self).settings() == old(self).settings(),
            final(self).pool().ordering() == old(self).pool().ordering(),
            final(self).pending_listeners() == old(self).pending_listeners(),
            final(self).transaction_listeners() == old(self).transaction_listeners(),
    {
        let events = added_events(tx);
        proof {
            let hash = tx.spec_transaction().transaction.hash;
            let replaced: Seq<FullTransactionEvent> = match tx.spec_replaced() {
                Some(gone) => seq![
                    event_of(gone.transaction.hash, TransactionEvent::Replaced(hash)),
                ],
                None => Seq::empty(),
            };
            let promoted = events_for(tx.spec_promoted(), |h: TxHash| TransactionEvent::Pending);
            let discarded = events_for(
                tx.spec_discarded(),
                |h: TxHash| TransactionEvent::Discarded,
            );
            if tx.spec_replaced().is_some() {
                assert(events@[1] == replaced[0]);
            }
            assert forall|k: int| 0 <= k < tx.spec_discarded().len() implies events@[1
                + replaced.len() + promoted.len() + k].hash == tx.spec_discarded()[k] && events@[1
                + replaced.len() + promoted.len() + k].event.spec_is_final() by {
                assert(events@[1 + replaced.len() + promoted.len() + k] == discarded[k]);
            }
        }
        self.send_events(events);
    }

    /// Tells the event listeners what followed from a new canonical block:
    /// the events of [`events_of_outcome`], in order.
    pub fn notify_on_new_state(&mut self, outcome: &OnNewCanonicalStateOutcome)
        requires
            old(self).broadcast().wf(),
        ensures
            final(self).pending_told() == old(self).pending_told(),
            final(self).admitted_told() == old(self).admitted_told(),
            final(self).broadcast().wf(),
            final(self).told() == old(self).told() + events_of_outcome(*outcome),
            forall|k: int|
                0 <= k < outcome.mined@.len() ==> !final(self).broadcast().hashes().contains(
                    #[trigger] outcome.mined@[k],
                ),
            final(self).broadcast().all_listeners() <= old(self).broadcast().all_listeners(),
            forall|hash: TxHash|
                final(self).broadcast().hashes().contains(hash)
                    ==> old(self).broadcast().hashes().contains(hash),
            final(self).pool() == old(self).pool(),
            final(self).identifiers() == old(self).identifiers(),
            final(self).settings() == old(self).settings(),
            final(self).pool().ordering() == old(self).pool().ordering(),
            final(self).pending_listeners() == old(self).pending_listeners(),
            final(self).transaction_listeners() == old(self).transaction_listeners(),
    {
        let events = outcome_events(outcome);
        proof {
            let mined = events_for(
                outcome.mined@,
                |h: TxHash| TransactionEvent::Mined(outcome.block_hash),
            );
            assert forall|k: int| 0 <= k < outcome.mined@.len() implies events@[k].hash
                == outcome.mined@[k] && events@[k].event.spec_is_final() by {
                assert(events@[k] == mined[k]);
            }
        }
        self.send_events(events);
    }

    /// Admits one validated transaction and tells the listeners: see
    /// [`admission`] for what changes and what is returned. `now` is the time
    /// of submission. Where the pool admits the transaction, the listeners
    /// to pending transactions hear of it if it is pending, and of every
    /// transaction that its admission promoted; the event listeners hear
    /// the events of [`events_of_added`], and the listeners to admitted
    /// transactions hear of it. A transaction that the validator
    /// or the pool refused is told to the event listeners as discarded; but
    /// a transaction whose hash is resident already causes no event and
    /// changes nothing. The size bounds are not enforced here.
    fn add_transaction(
        &mut self,
        origin: TransactionOrigin,
        tx: TransactionValidationOutcome,
        now: u64,
    ) -> (r: PoolResult<TxHash>)
        requires
            old(self).consistent(),
        ensures
            final(self).consistent(),
            final(self).settings() == old(self).settings(),
            final(self).pool().ordering() == old(self).pool().ordering(),
            final(self).pool().block() == old(self).pool().block(),
            (final(self).model(), r)
                == admission(old(self).model(), old(self).settings(), origin, tx, now),
            final(self).told() == old(self).told() + admission_events(
                old(self).model(),
                old(self).settings(),
                old(self).pool().block().pending_basefee,
                origin,
                tx,
                now,
            ),
            final(self).admitted_told() == old(self).admitted_told() + admission_notices(
                old(self).model(),
                old(self).settings(),
                old(self).pool().block().pending_basefee,
                origin,
                tx,
                now,
            ),
            final(self).pending_told() == old(self).pending_told() + admission_pending_notices(
                old(self).model(),
                old(self).settings(),
                old(self).pool().block().pending_basefee,
                origin,
                tx,
                now,
            ),
            final(self).listeners_only_dropped(old(self)),
            r.is_err() ==> final(self).pending_listeners() == old(self).pending_listeners()
                && final(self).transaction_listeners() == old(self).transaction_listeners()
                && final(self).pool().entries() == old(self).pool().entries()
                    && final(self).pool().senders() == old(self).pool().senders(),
            r matches Err(PoolError::AlreadyImported(_))
                ==> final(self).broadcast() == old(self).broadcast()
                    && final(self).identifiers() == old(self).identifiers(),
            r.is_err() && !(r matches Err(PoolError::AlreadyImported(_)))
                ==> !final(self).broadcast().hashes().contains(tx.spec_tx_hash()),
            tx is Valid && has_hash(old(self).pool().all(), tx.spec_tx_hash()) ==> r == Err::<
                TxHash,
                PoolError,
            >(PoolError::AlreadyImported(tx.spec_tx_hash()))
                && final(self).pool().entries() == old(self).pool().entries()
                && final(self).pool().senders() == old(self).pool().senders()
                && final(self).identifiers() == old(self).identifiers() && final(self).broadcast()
                == old(self).broadcast(),
    {
        let ghost notices = admission_notices(
            self.model(),
            self.config,
            self.pool.block().pending_basefee,
            origin,
            tx,
            now,
        );
        proof {
            lemma_selected_from_self(self.pending_listeners());
            lemma_selected_from_self(self.transaction_listeners());
            assert(self.admitted_told() =~= self.admitted_told() + Seq::empty());
            assert(self.pending_told() =~= self.pending_told() + Seq::empty());
        }
        match tx {
            TransactionValidationOutcome::Valid { balance, state_nonce, transaction, propagate } => {
                if self.pool.contains(&transaction.hash) {
                    assert(self.told() =~= old(self).told() + Seq::empty());
                    return Err(PoolError::AlreadyImported(transaction.hash));
                }
                let ghost pool_before = self.pool;
                let ghost base_fee = self.pool.block().pending_basefee;
                let sender_id = self.get_sender_id(transaction.sender);
                let hash = transaction.hash;
                let tx = ValidPoolTransaction::new(
                    transaction,
                    sender_id,
                    origin.allows_propagation(propagate),
                    now,
                    origin,
                );
                assert(tx == wrapped(transaction, sender_id, propagate, now, origin));
                match self.pool.add_transaction(tx, balance, state_nonce) {
                    Err(e) => {
                        self.event_listener.discarded(hash);
                        assert(self.told() =~= old(self).told() + seq![
                            event_of(hash, TransactionEvent::Discarded),
                        ]);
                        Err(e)
                    },
                    Ok(added) => {
                        assert(added.spec_transaction() == Arc::new(tx));
                        proof {
                            pool_before.lemma_members(SubPool::Pending);
                            self.pool.lemma_members(SubPool::Pending);
                            assert(events_of_added(added) =~= events_of_seating(
                                pool_before.all(),
                                pool_before.senders(),
                                self.pool.senders(),
                                self.config,
                                base_fee,
                                added.spec_transaction(),
                            ));
                        }
                        let ghost entered = notices_of(entered_pending(self.pool.all(), added));
                        proof {
                            assert(entered =~= notices_of_seating(
                                pool_before.all(),
                                pool_before.senders(),
                                self.pool.senders(),
                                self.config,
                                base_fee,
                                added.spec_transaction(),
                            ));
                        }
                        self.on_new_pending_transaction(&added);
                        self.notify_event_listeners(&added);
                        let ghost notice = NewTransactionEvent {
                            subpool: added.spec_subpool(),
                            transaction: added.spec_transaction(),
                        };
                        self.on_new_transaction(added.into_new_transaction_event());
                        proof {
                            assert(notices =~= seq![notice]);
                            assert(notices.drop_last() =~= Seq::empty());
                            assert(notices.last() == notice);
                            assert(self.admitted_told() =~= old(self).admitted_told() + notices);
                            assert(self.pending_told() =~= old(self).pending_told() + entered);
                        }
                        Ok(hash)
                    },
                }
            },
            TransactionValidationOutcome::Invalid(transaction, reason) => {
                self.event_listener.discarded(transaction.hash);
                assert(self.told() =~= old(self).told() + seq![
                    event_of(transaction.hash, TransactionEvent::Discarded),
                ]);
                Err(PoolError::InvalidTransaction(transaction.hash, reason))
            },
            TransactionValidationOutcome::Error(hash, cause) => {
                self.event_listener.discarded(hash);
                assert(self.told() =~= old(self).told() + seq![
                    event_of(hash, TransactionEvent::Discarded),
                ]);
                Err(PoolError::Other(hash, cause))
            },
        }
    }

    /// The hashes of `txs`, in order.
    fn hashes_from(txs: &Vec<SharedTransaction>) -> (r: Vec<TxHash>)
        ensures
            r@ == hashes_of(txs@),
    {
        let mut out: Vec<TxHash> = Vec::new();
        let mut i: usize = 0;
        while i < txs.len()
            invariant
                i <= txs@.len(),
                out@.len() == i,
                forall|k: int| 0 <= k < i ==> out@[k] == txs@[k].transaction.hash,
            decreases txs@.len() - i,
        {
            out.push(txs[i].transaction.hash);
            i += 1;
        }
        assert(out@ =~= hashes_of(txs@));
        out
    }

    /// Tells the event listeners that each of the given transactions was
    /// discarded, in order. None of them has listeners of its own
    /// afterwards; every other hash keeps its listeners.
    fn send_discarded(&mut self, hashes: &Vec<TxHash>)
        requires
            old(self).broadcast().wf(),
        ensures
            final(self).pending_told() == old(self).pending_told(),
            final(self).admitted_told() == old(self).admitted_told(),
            final(self).broadcast().wf(),
            final(self).told() == old(self).told() + events_for(
                hashes@,
                |h: TxHash| TransactionEvent::Discarded,
            ),
            forall|k: int|
                0 <= k < hashes@.len() ==> !final(self).broadcast().hashes().contains(
                    #[trigger] hashes@[k],
                ),
            forall|hash: TxHash|
                !hashes@.contains(hash) ==> #[trigger] final(self).broadcast().hashes().contains(
                    hash,
                ) == old(self).broadcast().hashes().contains(hash),
            final(self).broadcast().all_listeners() <= old(self).broadcast().all_listeners(),
            forall|hash: TxHash|
                final(self).broadcast().hashes().contains(hash)
                    ==> old(self).broadcast().hashes().contains(hash),
            final(self).pool() == old(self).pool(),
            final(self).identifiers() == old(self).identifiers(),
            final(self).settings() == old(self).settings(),
            final(self).pool().ordering() == old(self).pool().ordering(),
            final(self).pending_listeners() == old(self).pending_listeners(),
            final(self).transaction_listeners() == old(self).transaction_listeners(),
    {
        let mut events: Vec<FullTransactionEvent> = Vec::new();
        push_events(&mut events, hashes, &TransactionEvent::Discarded);
        proof {
            let told = events_for(hashes@, |h: TxHash| TransactionEvent::Discarded);
            assert(events@ =~= told);
            assert forall|k: int| 0 <= k < hashes@.len() implies events@[k].hash == hashes@[k]
                && events@[k].event.spec_is_final() by {
                assert(events@[k] == told[k]);
            }
            assert forall|hash: TxHash| !hashes@.contains(hash) implies !names(events@, hash) by {
                if names(events@, hash) {
                    let k = choose|k: int|
                        0 <= k < events@.len() && (#[trigger] events@[k]).hash == hash;
                    assert(events@[k] == told[k]);
                    assert(hashes@[k] == hash);
                }
            }
        }
        self.send_events(events);
    }

    /// Enforces the size bounds of the pool, tells the event listeners of
    /// each transaction that left, and returns their hashes in the order in
    /// which they left. Afterwards no sub-pool is over budget.
    pub fn discard_worst(&mut self) -> (r: Vec<TxHash>)
        requires
            old(self).consistent(),
        ensures
            final(self).pending_told() == old(self).pending_told(),
            final(self).admitted_told() == old(self).admitted_told(),
            final(self).wf(),
            final(self).settings() == old(self).settings(),
            final(self).pool().ordering() == old(self).pool().ordering(),
            final(self).identifiers() == old(self).identifiers(),
            final(self).pool().block() == old(self).pool().block(),
            final(self).pool().senders() == old(self).pool().senders(),
            final(self).pool().all() == after_discard(
                old(self).pool().ordering(),
                old(self).pool().all(),
                old(self).pool().senders(),
                old(self).pool().block().pending_basefee,
                old(self).settings(),
            ),
            r@ == hashes_of(
                discarded_by(
                    old(self).pool().ordering(),
                    old(self).pool().all(),
                    old(self).pool().senders(),
                    old(self).pool().block().pending_basefee,
                    old(self).settings(),
                ),
            ),
            final(self).told() == old(self).told() + events_for(
                r@,
                |h: TxHash| TransactionEvent::Discarded,
            ),
            !over_budget(
                final(self).pool().members(SubPool::Pending),
                final(self).settings().pending_limit,
            ),
            !over_budget(
                final(self).pool().members(SubPool::BaseFee),
                final(self).settings().basefee_limit,
            ),
            !over_budget(
                final(self).pool().members(SubPool::Queued),
                final(self).settings().queued_limit,
            ),
            final(self).listeners_only_dropped(old(self)),
    {
        proof {
            lemma_selected_from_self(self.pending_listeners());
            lemma_selected_from_self(self.transaction_listeners());
        }
        let discarded = self.pool.discard_worst();
        let hashes = Self::hashes_from(&discarded);
        self.send_discarded(&hashes);
        hashes
    }

    /// Admits a batch of validated transactions, one after the other, then
    /// enforces the size bounds if one was admitted: see
    /// [`batch_admission`] for what changes and what is returned,
    /// [`batch_events`] for what the event listeners are told,
    /// [`admission_all_notices`] for what goes round the listeners to
    /// admitted transactions, and [`admission_all_pending_notices`] for what
    /// goes round the listeners to pending transactions. There is one result
    /// for each transaction, in order. `now` is the time of submission.
    pub fn add_transactions(
        &mut self,
        origin: TransactionOrigin,
        transactions: Vec<TransactionValidationOutcome>,
        now: u64,
    ) -> (r: Vec<PoolResult<TxHash>>)
        requires
            old(self).wf(),
        ensures
            final(self).wf(),
            final(self).settings() == old(self).settings(),
            final(self).pool().ordering() == old(self).pool().ordering(),
            final(self).pool().block() == old(self).pool().block(),
            r@.len() == transactions@.len(),
            (final(self).model(), r@) == batch_admission(
                old(self).pool().ordering(),
                old(self).model(),
                old(self).settings(),
                old(self).pool().block().pending_basefee,
                origin,
                transactions@,
                now,
            ),
            final(self).told() == old(self).told() + batch_events(
                old(self).pool().ordering(),
                old(self).model(),
                old(self).settings(),
                old(self).pool().block().pending_basefee,
                origin,
                transactions@,
                now,
            ),
            final(self).admitted_told() == old(self).admitted_told() + admission_all_notices(
                old(self).model(),
                old(self).settings(),
                old(self).pool().block().pending_basefee,
                origin,
                transactions@,
                now,
            ),
            final(self).pending_told() == old(self).pending_told() + admission_all_pending_notices(
                old(self).model(),
                old(self).settings(),
                old(self).pool().block().pending_basefee,
                origin,
                transactions@,
                now,
            ),
            any_ok(
                admission_all(old(self).model(), old(self).settings(), origin, transactions@, now).1,
            ) ==> !over_budget(
                final(self).pool().members(SubPool::Pending),
                final(self).settings().pending_limit,
            ) && !over_budget(
                final(self).pool().members(SubPool::BaseFee),
                final(self).settings().basefee_limit,
            ) && !over_budget(
                final(self).pool().members(SubPool::Queued),
                final(self).settings().queued_limit,
            ),
            final(self).listeners_only_dropped(old(self)),
            (forall|k: int|
                0 <= k < r@.len() ==> (#[trigger] r@[k]) matches Err(PoolError::AlreadyImported(_)))
                ==> final(self).pool().entries() == old(self).pool().entries()
                    && final(self).pool().senders() == old(self).pool().senders()
                    && final(self).identifiers() == old(self).identifiers()
                    && final(self).broadcast() == old(self).broadcast()
                    && final(self).pending_listeners() == old(self).pending_listeners()
                    && final(self).transaction_listeners() == old(self).transaction_listeners(),
    {
        let ghost all = transactions@;
        let ghost start = self.model();
        let ghost config = self.config;
        let ghost base_fee = self.pool.block().pending_basefee;
        let mut added: Vec<PoolResult<TxHash>> = Vec::new();
        let mut any: bool = false;
        proof {
            lemma_selected_from_self(self.pending_listeners());
            lemma_selected_from_self(self.transaction_listeners());
            assert(all.take(0) =~= Seq::empty());
            assert(self.admitted_told() =~= old(self).admitted_told() + admission_all_notices(
                start,
                config,
                base_fee,
                origin,
                all.take(0),
                now,
            ));
            assert(self.pending_told() =~= old(self).pending_told()
                + admission_all_pending_notices(start, config, base_fee, origin, all.take(0), now));
            assert(self.told() =~= old(self).told() + admission_all_events(
                start,
                config,
                base_fee,
                origin,
                all.take(0),
                now,
            ));
        }
        for tx in iter: transactions
            invariant
                iter.seq() == all,
                self.consistent(),
                old(self).wf(),
                self.config == config,
                config == old(self).config,
                self.pool.ordering() == old(self).pool.ordering(),
                self.pool.block() == old(self).pool.block(),
                start == old(self).model(),
                (self.model(), added@) == admission_all(
                    start,
                    config,
                    origin,
                    all.take(iter.index() as int),
                    now,
                ),
                added@.len() == iter.index(),
                base_fee == old(self).pool.block().pending_basefee,
                self.event_listener.told() == old(self).event_listener.told()
                    + admission_all_events(
                    start,
                    config,
                    base_fee,
                    origin,
                    all.take(iter.index() as int),
                    now,
                ),
                self.admitted_told@ == old(self).admitted_told@ + admission_all_notices(
                    start,
                    config,
                    base_fee,
                    origin,
                    all.take(iter.index() as int),
                    now,
                ),
                self.pending_told@ == old(self).pending_told@ + admission_all_pending_notices(
                    start,
                    config,
                    base_fee,
                    origin,
                    all.take(iter.index() as int),
                    now,
                ),
                any == any_ok(added@),
                !any ==> self.pool.entries() == old(self).pool.entries() && self.pool.senders()
                    == old(self).pool.senders()
                        && self.pending_transaction_listener@ == old(self).pending_transaction_listener@
                        && self.transaction_listener@ == old(self).transaction_listener@,
                (forall|k: int|
                    0 <= k < added@.len() ==> (#[trigger] added@[k]) matches Err(
                        PoolError::AlreadyImported(_),
                    )) ==> self.event_listener == old(self).event_listener && self.identifiers
                    == old(self).identifiers,
                self.listeners_only_dropped(old(self)),
        {
            let ghost before = *self;
            let ghost results = added@;
            assert(all.take(iter.index() + 1).drop_last() =~= all.take(iter.index() as int));
            assert(all.take(iter.index() + 1).last() == tx);
            let result = self.add_transaction(origin, tx, now);
            if result.is_ok() {
                any = true;
            }
            let ghost last = result;
            added.push(result);
            proof {
                lemma_notices_grow(
                    old(self).admitted_told@,
                    old(self).pending_told@,
                    start,
                    config,
                    base_fee,
                    origin,
                    all,
                    iter.index() as int,
                    now,
                );
                assert(self.event_listener.told() =~= old(self).event_listener.told()
                    + admission_all_events(
                    start,
                    config,
                    base_fee,
                    origin,
                    all.take(iter.index() + 1),
                    now,
                ));
                if forall|k: int|
                    0 <= k < added@.len() ==> (#[trigger] added@[k]) matches Err(
                        PoolError::AlreadyImported(_),
                    ) {
                    assert forall|k: int| 0 <= k < results.len() implies (
                    #[trigger] results[k]) matches Err(PoolError::AlreadyImported(_)) by {
                        assert(added@[k] == results[k]);
                    }
                    assert(added@[added@.len() - 1] == last);
                }
                lemma_selected_from_chain(
                    self.pending_listeners(),
                    before.pending_listeners(),
                    old(self).pending_listeners(),
                );
                lemma_selected_from_chain(
                    self.transaction_listeners(),
                    before.transaction_listeners(),
                    old(self).transaction_listeners(),
                );
                if any_ok(results) {
                    let w = choose|w: int| 0 <= w < results.len() && (#[trigger] results[w]).is_ok();
                    assert(added@[w].is_ok());
                }
                if result.is_ok() {
                    assert(added@[added@.len() - 1].is_ok());
                }
                if any_ok(added@) && !result.is_ok() {
                    let w = choose|w: int| 0 <= w < added@.len() && (#[trigger] added@[w]).is_ok();
                    assert(results[w].is_ok());
                }
            }
        }
        assert(all.take(all.len() as int) =~= all);
        if !any {
            assert(self.told() =~= old(self).told() + batch_events(
                old(self).pool().ordering(),
                start,
                config,
                base_fee,
                origin,
                all,
                now,
            ));
            return added;
        }

        let ghost before = *self;
        let discarded = self.discard_worst();
        proof {
            lemma_selected_from_chain(
                self.pending_listeners(),
                before.pending_listeners(),
                old(self).pending_listeners(),
            );
            lemma_selected_from_chain(
                self.transaction_listeners(),
                before.transaction_listeners(),
                old(self).transaction_listeners(),
            );
        }
        let ghost admitted = added@;
        let results = adjust_results(added, &discarded);
        proof {
            assert(self.told() =~= old(self).told() + batch_events(
                old(self).pool().ordering(),
                start,
                config,
                base_fee,
                origin,
                all,
                now,
            ));
            let w = choose|w: int| 0 <= w < admitted.len() && (#[trigger] admitted[w]).is_ok();
            assert(results@[w] == adjusted(admitted, discarded@)[w]);
            assert(!(results@[w] matches Err(PoolError::AlreadyImported(_))));
        }
        results
    }

    /// Subscribes to the events of the transaction and then admits it as a
    /// batch of one: see [`batch_admission`]. On success returns the
    /// receiving end of the subscription.
    pub fn add_transaction_and_subscribe(
        &mut self,
        origin: TransactionOrigin,
        tx: TransactionValidationOutcome,
        now: u64,
    ) -> (r: PoolResult<TransactionEvents>)
        requires
            old(self).wf(),
        ensures
            final(self).wf(),
            final(self).settings() == old(self).settings(),
            final(self).pool().ordering() == old(self).pool().ordering(),
            final(self).pool().block() == old(self).pool().block(),
            ({
                let (model, results) = batch_admission(
                    old(self).pool().ordering(),
                    old(self).model(),
                    old(self).settings(),
                    old(self).pool().block().pending_basefee,
                    origin,
                    seq![tx],
                    now,
                );
                &&& final(self).model() == model
                &&& match results[0] {
                    Ok(_) => r matches Ok(events) && events.hash == tx.spec_tx_hash(),
                    Err(e) => r matches Err(f) && f == e,
                }
            }),
            final(self).told() == old(self).told() + batch_events(
                old(self).pool().ordering(),
                old(self).model(),
                old(self).settings(),
                old(self).pool().block().pending_basefee,
                origin,
                seq![tx],
                now,
            ),
            final(self).admitted_told() == old(self).admitted_told() + admission_all_notices(
                old(self).model(),
                old(self).settings(),
                old(self).pool().block().pending_basefee,
                origin,
                seq![tx],
                now,
            ),
            final(self).pending_told() == old(self).pending_told() + admission_all_pending_notices(
                old(self).model(),
                old(self).settings(),
                old(self).pool().block().pending_basefee,
                origin,
                seq![tx],
                now,
            ),
    {
        let listener = self.event_listener.subscribe(tx.tx_hash());
        let mut batch: Vec<TransactionValidationOutcome> = Vec::new();
        batch.push(tx);
        assert(batch@ =~= seq![tx]);
        let mut results = self.add_transactions(origin, batch, now);
        match results.pop() {
            Some(Ok(_)) => Ok(listener),
            Some(Err(e)) => Err(e),
            None => Ok(listener),
        }
    }

    /// Interns the addresses of the changed accounts and returns the
    /// committed state of each under its sender id, in order.
    pub fn changed_senders(&mut self, accs: Vec<ChangedAccount>) -> (r: Vec<(SenderId, SenderInfo)>)
        requires
            old(self).identifiers().wf(),
        ensures
            final(self).pending_told() == old(self).pending_told(),
            final(self).admitted_told() == old(self).admitted_told(),
            final(self).identifiers().wf(),
            (final(self).identifiers()@, r@) == interned(old(self).identifiers()@, accs@),
            final(self).pool() == old(self).pool(),
            final(self).settings() == old(self).settings(),
            final(self).pool().ordering() == old(self).pool().ordering(),
            final(self).broadcast() == old(self).broadcast(),
            final(self).pending_listeners() == old(self).pending_listeners(),
            final(self).transaction_listeners() == old(self).transaction_listeners(),
    {
        let ghost all = accs@;
        let ghost start = self.identifiers@;
        let mut out: Vec<(SenderId, SenderInfo)> = Vec::new();
        assert(all.take(0) =~= Seq::empty());
        for acc in iter: accs
            invariant
                self.pending_told == old(self).pending_told,
                self.admitted_told == old(self).admitted_told,
                iter.seq() == all,
                self.identifiers.wf(),
                start == old(self).identifiers@,
                (self.identifiers@, out@) == interned(start, all.take(iter.index() as int)),
                self.pool == old(self).pool,
                self.config == old(self).config,
                self.pool.ordering() == old(self).pool.ordering(),
                self.event_listener == old(self).event_listener,
                self.pending_transaction_listener == old(self).pending_transaction_listener,
                self.transaction_listener == old(self).transaction_listener,
        {
            assert(all.take(iter.index() + 1).drop_last() =~= all.take(iter.index() as int));
            assert(all.take(iter.index() + 1).last() == acc);
            let sender_id = self.identifiers.sender_id_or_create(acc.address);
            out.push((sender_id, SenderInfo { state_nonce: acc.nonce, balance: acc.balance }));
        }
        assert(all.take(all.len() as int) =~= all);
        out
    }

    /// Takes over a new canonical block and tells the event listeners what
    /// followed: the addresses of the changed accounts are interned, the pool
    /// takes over their committed state and the block, and the events of
    /// [`events_of_outcome`] are sent. The hashes of the promoted
    /// transactions go round the listeners to pending transactions. Then
    /// the size bounds are enforced.
    pub fn on_canonical_state_change(&mut self, update: CanonicalStateUpdate)
        requires
            old(self).wf(),
        ensures
            final(self).pending_told() == old(self).pending_told() + update_notices(
                old(self).pool().entries(),
                update.mined_transactions@,
                final(self).pool().senders(),
                final(self).pool().block().pending_basefee,
            ),
            final(self).admitted_told() == old(self).admitted_told(),
            final(self).wf(),
            final(self).settings() == old(self).settings(),
            final(self).pool().ordering() == old(self).pool().ordering(),
            ({
                let (ids, changed) = interned(old(self).identifiers()@, update.changed_accounts@);
                &&& final(self).identifiers()@ == ids
                &&& final(self).pool().senders() == updated_infos(
                    old(self).pool().senders(),
                    changed,
                )
            }),
            final(self).pool().block() == (BlockInfo {
                last_seen_block_hash: update.hash,
                last_seen_block_number: update.number,
                pending_basefee: update.pending_block_base_fee,
            }).floored(old(self).settings().minimal_protocol_basefee),
            final(self).pool().all() == after_discard(
                old(self).pool().ordering(),
                txs_of(
                    retained(
                        old(self).pool().entries(),
                        update.mined_transactions@,
                        final(self).pool().senders(),
                    ),
                ),
                final(self).pool().senders(),
                final(self).pool().block().pending_basefee,
                old(self).settings(),
            ),
            final(self).told() == old(self).told() + events_for(
                update.mined_transactions@,
                |h: TxHash| TransactionEvent::Mined(update.hash),
            ) + update_events(
                old(self).pool().entries(),
                update.mined_transactions@,
                final(self).pool().senders(),
                final(self).pool().block().pending_basefee,
            ) + eviction_events(
                old(self).pool().ordering(),
                txs_of(
                    retained(
                        old(self).pool().entries(),
                        update.mined_transactions@,
                        final(self).pool().senders(),
                    ),
                ),
                final(self).pool().senders(),
                final(self).pool().block().pending_basefee,
                old(self).settings(),
            ),
            final(self).listeners_only_dropped(old(self)),
            forall|k: int|
                0 <= k < update.mined_transactions@.len()
                    ==> !final(self).broadcast().hashes().contains(
                    #[trigger] update.mined_transactions@[k],
                ),
    {
        proof {
            lemma_selected_from_self(self.pending_listeners());
            lemma_selected_from_self(self.transaction_listeners());
        }
        let CanonicalStateUpdate {
            hash,
            number,
            pending_block_base_fee,
            changed_accounts,
            mined_transactions,
            timestamp: _,
        } = update;
        let changed_senders = self.changed_senders(changed_accounts);
        let block_info = BlockInfo {
            last_seen_block_hash: hash,
            last_seen_block_number: number,
            pending_basefee: pending_block_base_fee,
        };
        let outcome = self.pool.on_canonical_state_change(
            block_info,
            mined_transactions,
            &changed_senders,
        );
        proof {
            self.pool.lemma_members(SubPool::Pending);
        }
        let ghost mined_events = events_for(
            outcome.mined@,
            |h: TxHash| TransactionEvent::Mined(outcome.block_hash),
        );
        let ghost changes = update_events(
            old(self).pool.entries(),
            outcome.mined@,
            self.pool.senders(),
            self.pool.block().pending_basefee,
        );
        assert(events_of_outcome(outcome) =~= mined_events + changes);
        let ghost notices = update_notices(
            old(self).pool.entries(),
            outcome.mined@,
            self.pool.senders(),
            self.pool.block().pending_basefee,
        );
        assert(promotion_notices(self.pool.all(), outcome.promoted@) == notices);
        self.on_promoted_transactions(&outcome.promoted);
        self.notify_on_new_state(&outcome);
        let ghost told = *self;
        let evicted = self.discard_worst();
        proof {
            lemma_selected_from_chain(
                self.pending_listeners(),
                told.pending_listeners(),
                old(self).pending_listeners(),
            );
        }
        assert(self.told() =~= old(self).told() + mined_events + changes + events_for(
            evicted@,
            |h: TxHash| TransactionEvent::Discarded,
        ));
    }

    /// Takes over the committed state of the given accounts and tells the
    /// event listeners what followed: promoted transactions are pending,
    /// demoted ones queued, outdated ones discarded. The hashes of the
    /// promoted ones go round the listeners to pending transactions. Then
    /// the size bounds are enforced.
    pub fn update_accounts(&mut self, accounts: Vec<ChangedAccount>)
        requires
            old(self).wf(),
        ensures
            final(self).pending_told() == old(self).pending_told() + update_notices(
                old(self).pool().entries(),
                Seq::<TxHash>::empty(),
                final(self).pool().senders(),
                old(self).pool().block().pending_basefee,
            ),
            final(self).admitted_told() == old(self).admitted_told(),
            final(self).wf(),
            final(self).settings() == old(self).settings(),
            final(self).pool().ordering() == old(self).pool().ordering(),
            final(self).pool().block() == old(self).pool().block(),
            ({
                let (ids, changed) = interned(old(self).identifiers()@, accounts@);
                &&& final(self).identifiers()@ == ids
                &&& final(self).pool().senders() == updated_infos(
                    old(self).pool().senders(),
                    changed,
                )
            }),
            final(self).pool().all() == after_discard(
                old(self).pool().ordering(),
                txs_of(
                    retained(
                        old(self).pool().entries(),
                        Seq::<TxHash>::empty(),
                        final(self).pool().senders(),
                    ),
                ),
                final(self).pool().senders(),
                old(self).pool().block().pending_basefee,
                old(self).settings(),
            ),
            final(self).told() == old(self).told() + update_events(
                old(self).pool().entries(),
                Seq::<TxHash>::empty(),
                final(self).pool().senders(),
                old(self).pool().block().pending_basefee,
            ) + eviction_events(
                old(self).pool().ordering(),
                txs_of(
                    retained(
                        old(self).pool().entries(),
                        Seq::<TxHash>::empty(),
                        final(self).pool().senders(),
                    ),
                ),
                final(self).pool().senders(),
                old(self).pool().block().pending_basefee,
                old(self).settings(),
            ),
            final(self).listeners_only_dropped(old(self)),
    {
        proof {
            lemma_selected_from_self(self.pending_listeners());
            lemma_selected_from_self(self.transaction_listeners());
        }
        let changed_senders = self.changed_senders(accounts);
        let UpdateOutcome { promoted, demoted, discarded } = self.pool.update_accounts(
            &changed_senders,
        );
        let mut events: Vec<FullTransactionEvent> = Vec::new();
        push_events(&mut events, &promoted, &TransactionEvent::Pending);
        push_events(&mut events, &demoted, &TransactionEvent::Queued);
        push_events(&mut events, &discarded, &TransactionEvent::Discarded);
        proof {
            self.pool.lemma_members(SubPool::Pending);
        }
        let ghost changes = update_events(
            old(self).pool.entries(),
            Seq::<TxHash>::empty(),
            self.pool.senders(),
            self.pool.block().pending_basefee,
        );
        assert(events@ =~= changes);
        let ghost notices = update_notices(
            old(self).pool.entries(),
            Seq::<TxHash>::empty(),
            self.pool.senders(),
            self.pool.block().pending_basefee,
        );
        assert(promotion_notices(self.pool.all(), promoted@) == notices);
        self.on_promoted_transactions(&promoted);
        self.send_events(events);
        let ghost told = *self;
        let evicted = self.discard_worst();
        proof {
            lemma_selected_from_chain(
                self.pending_listeners(),
                told.pending_listeners(),
                old(self).pending_listeners(),
            );
        }
        assert(self.told() =~= old(self).told() + changes + events_for(
            evicted@,
            |h: TxHash| TransactionEvent::Discarded,
        ));
    }

    /// Replaces the block the pool goes by and tells the event listeners
    /// of the transactions that the new pending base fee promoted or
    /// demoted. The hashes of the promoted ones go round the listeners to
    /// pending transactions. Then the size bounds are enforced.
    pub fn set_block_info(&mut self, info: BlockInfo)
        requires
            old(self).wf(),
        ensures
            final(self).pending_told() == old(self).pending_told() + reclass_notices(
                old(self).pool().entries(),
                with_classes(
                    old(self).pool().all(),
                    old(self).pool().senders(),
                    final(self).pool().block().pending_basefee,
                ),
            ),
            final(self).admitted_told() == old(self).admitted_told(),
            final(self).wf(),
            final(self).settings() == old(self).settings(),
            final(self).pool().ordering() == old(self).pool().ordering(),
            final(self).identifiers() == old(self).identifiers(),
            final(self).pool().block() == info.floored(
                old(self).settings().minimal_protocol_basefee,
            ),
            final(self).pool().all() == after_discard(
                old(self).pool().ordering(),
                old(self).pool().all(),
                old(self).pool().senders(),
                final(self).pool().block().pending_basefee,
                old(self).settings(),
            ),
            final(self).pool().senders() == old(self).pool().senders(),
            final(self).told() == old(self).told() + reclass_events(
                old(self).pool().entries(),
                with_classes(
                    old(self).pool().all(),
                    old(self).pool().senders(),
                    final(self).pool().block().pending_basefee,
                ),
            ) + eviction_events(
                old(self).pool().ordering(),
                old(self).pool().all(),
                old(self).pool().senders(),
                final(self).pool().block().pending_basefee,
                old(self).settings(),
            ),
            final(self).listeners_only_dropped(old(self)),
    {
        proof {
            lemma_selected_from_self(self.pending_listeners());
            lemma_selected_from_self(self.transaction_listeners());
        }
        let (promoted, demoted) = self.pool.set_block_info(info);
        let mut events: Vec<FullTransactionEvent> = Vec::new();
        push_events(&mut events, &promoted, &TransactionEvent::Pending);
        push_events(&mut events, &demoted, &TransactionEvent::Queued);
        proof {
            self.pool.lemma_members(SubPool::Pending);
        }
        let ghost changes = reclass_events(old(self).pool.entries(), self.pool.entries());
        assert(events@ =~= changes);
        let ghost notices = reclass_notices(old(self).pool.entries(), self.pool.entries());
        assert(promotion_notices(self.pool.all(), promoted@) == notices);
        self.on_promoted_transactions(&promoted);
        self.send_events(events);
        let ghost told = *self;
        let evicted = self.discard_worst();
        proof {
            lemma_selected_from_chain(
                self.pending_listeners(),
                told.pending_listeners(),
                old(self).pending_listeners(),
            );
        }
        assert(self.told() =~= old(self).told() + changes + events_for(
            evicted@,
            |h: TxHash| TransactionEvent::Discarded,
        ));
    }

    /// Takes the transactions with the given hashes out of the pool, tells
    /// the event listeners that they were discarded, and returns them in id
    /// order. What follows them in their senders' chains is queued; then the
    /// size bounds are enforced.
    pub fn remove_transactions(&mut self, hashes: &Vec<TxHash>) -> (r: Vec<SharedTransaction>)
        requires
            old(self).wf(),
        ensures
            final(self).pending_told() == old(self).pending_told(),
            final(self).admitted_told() == old(self).admitted_told(),
            final(self).wf(),
            final(self).settings() == old(self).settings(),
            final(self).pool().ordering() == old(self).pool().ordering(),
            final(self).identifiers() == old(self).identifiers(),
            final(self).pool().block() == old(self).pool().block(),
            final(self).pool().senders() == old(self).pool().senders(),
            final(self).pool().all() == after_discard(
                old(self).pool().ordering(),
                txs_of(retained(old(self).pool().entries(), hashes@, old(self).pool().senders())),
                old(self).pool().senders(),
                old(self).pool().block().pending_basefee,
                old(self).settings(),
            ),
            r@ == taken_out(old(self).pool().entries(), hashes@),
            final(self).told() == old(self).told() + events_for(
                hashes_of(r@),
                |h: TxHash| TransactionEvent::Discarded,
            ) + eviction_events(
                old(self).pool().ordering(),
                txs_of(retained(old(self).pool().entries(), hashes@, old(self).pool().senders())),
                old(self).pool().senders(),
                old(self).pool().block().pending_basefee,
                old(self).settings(),
            ),
            final(self).listeners_only_dropped(old(self)),
    {
        proof {
            lemma_selected_from_self(self.pending_listeners());
            lemma_selected_from_self(self.transaction_listeners());
        }
        let removed = self.pool.remove_transactions(hashes);
        let gone = Self::hashes_from(&removed);
        self.send_discarded(&gone);
        let evicted = self.discard_worst();
        assert(self.told() =~= old(self).told() + events_for(
            gone@,
            |h: TxHash| TransactionEvent::Discarded,
        ) + events_for(evicted@, |h: TxHash| TransactionEvent::Discarded));
        removed
    }

    /// Takes out of `hashes` those of resident transactions.
    pub fn retain_unknown(&self, hashes: &mut Vec<TxHash>)
        ensures
            final(hashes)@ == old(hashes)@.filter(|hash: TxHash| !has_hash(self.pool().all(), hash)),
    {
        let mut list: Vec<TxHash> = Vec::new();
        std::mem::swap(hashes, &mut list);
        let ghost all = list@;
        let ghost keep = |hash: TxHash| !has_hash(self.pool().all(), hash);
        let mut i: usize = 0;
        assert(all.take(0) =~= Seq::empty());
        proof {
            reveal(Seq::filter);
        }
        while i < list.len()
            invariant
                i <= list@.len(),
                list@ == all,
                keep == |hash: TxHash| !has_hash(self.pool().all(), hash),
                hashes@ == all.take(i as int).filter(keep),
            decreases list@.len() - i,
        {
            proof {
                reveal(Seq::filter);
                assert(all.take(i + 1).drop_last() =~= all.take(i as int));
            }
            if !self.pool.contains(&list[i]) {
                hashes.push(list[i]);
            }
            i += 1;
        }
        assert(all.take(i as int) =~= all);
    }

    /// The resident transaction with hash `tx_hash`.
    pub fn get(&self, tx_hash: &TxHash) -> (r: Option<SharedTransaction>)
        ensures
            match r {
                Some(tx) => self.pool().all().contains(tx) && tx.transaction.hash == *tx_hash,
                None => !has_hash(self.pool().all(), *tx_hash),
            },
    {
        self.pool.get(tx_hash)
    }

    /// The resident transactions that the given hashes name, in the order
    /// of the hashes; a hash that names none is passed over.
    pub fn get_all(&self, txs: &Vec<TxHash>) -> (r: Vec<SharedTransaction>)
        ensures
            r@ == found_all(self.pool().all(), txs@),
    {
        self.pool.get_all(txs)
    }

    /// The resident transactions of the sender with address `sender`, by
    /// rising nonce. The address is interned if it is new.
    pub fn get_transactions_by_sender(&mut self, sender: Address) -> (r: Vec<SharedTransaction>)
        requires
            old(self).wf(),
        ensures
            final(self).pending_told() == old(self).pending_told(),
            final(self).admitted_told() == old(self).admitted_told(),
            final(self).wf(),
            final(self).identifiers()@ == ids_with(old(self).identifiers()@, sender),
            final(self).pool() == old(self).pool(),
            r@ == old(self).pool().all().filter(
                |tx: SharedTransaction|
                    tx.transaction_id.sender == id_for(old(self).identifiers()@, sender),
            ),
    {
        let sender_id = self.get_sender_id(sender);
        self.pool.get_transactions_by_sender(sender_id)
    }

    /// The resident transactions that may be announced to peers, in id order.
    pub fn pooled_transactions(&self) -> (r: Vec<SharedTransaction>)
        ensures
            r@ == self.pool().all().filter(|tx: SharedTransaction| tx.propagate),
    {
        let all = self.pool.all_transactions();
        let ghost keep = |tx: SharedTransaction| tx.propagate;
        let mut out: Vec<SharedTransaction> = Vec::new();
        let mut i: usize = 0;
        assert(all@.take(0) =~= Seq::empty());
        proof {
            reveal(Seq::filter);
        }
        while i < all.len()
            invariant
                i <= all@.len(),
                all@ == self.pool.all(),
                keep == |tx: SharedTransaction| tx.propagate,
                out@ == all@.take(i as int).filter(keep),
            decreases all@.len() - i,
        {
            proof {
                reveal(Seq::filter);
                assert(all@.take(i + 1).drop_last() =~= all@.take(i as int));
            }
            if all[i].propagate {
                out.push(all[i].clone());
            }
            i += 1;
        }
        assert(all@.take(i as int) =~= all@);
        out
    }

    /// The hashes of the resident transactions that may be announced to
    /// peers, in id order.
    pub fn pooled_transactions_hashes(&self) -> (r: Vec<TxHash>)
        ensures
            r@ == hashes_of(self.pool().all().filter(|tx: SharedTransaction| tx.propagate)),
    {
        let txs = self.pooled_transactions();
        Self::hashes_from(&txs)
    }

    /// A stream of the pending transactions as they are now, best first.
    pub fn best_transactions(&self) -> (r: BestTransactions<T>)
        requires
            self.wf(),
        ensures
            r.wf(),
            r.snapshot() == self.pool().members(SubPool::Pending),
            r.ordering() == self.pool().ordering(),
            r.fee() == self.pool().block().pending_basefee,
            forall|i: int|
                0 <= i < r.snapshot().len() ==> #[trigger] r.progress()[i]
                    == crate::pool::best::Progress::Waiting,
    {
        self.pool.best_transactions()
    }

    /// A stream of the pending transactions as they are now for a block
    /// with base fee `base_fee`: best first under the pending base fee,
    /// without those whose fee cap is below `base_fee` and what follows them
    /// in their senders' chains. What it hands out, the stream of
    /// [`Self::best_transactions`] hands out in the same order, see
    /// [`crate::pool::best::lemma_fee_cap_only_leaves_out`].
    pub fn best_transactions_with_base_fee(&self, base_fee: u64) -> (r: BestTransactions<T>)
        requires
            self.wf(),
        ensures
            r.wf(),
            r.snapshot() == self.pool().members(SubPool::Pending),
            r.ordering() == self.pool().ordering(),
            r.fee() == self.pool().block().pending_basefee,
            forall|i: int|
                0 <= i < r.snapshot().len() ==> #[trigger] r.progress()[i] == (
                if crate::pool::best::is_blocked(r.snapshot(), base_fee, i) {
                    crate::pool::best::Progress::Invalid
                } else {
                    crate::pool::best::Progress::Waiting
                }),
    {
        self.pool.best_transactions_with_base_fee(base_fee)
    }

    /// The transactions of the pending sub-pool, in id order.
    pub fn pending_transactions(&self) -> (r: Vec<SharedTransaction>)
        requires
            self.wf(),
        ensures
            r@ == self.pool().members(SubPool::Pending),
    {
        self.pool.pending_transactions()
    }

    /// The transactions of the two parked sub-pools.
    pub fn queued_transactions(&self) -> (r: Vec<SharedTransaction>)
        requires
            self.wf(),
        ensures
            r@ == self.pool().members(SubPool::BaseFee) + self.pool().members(SubPool::Queued),
    {
        self.pool.queued_transactions()
    }

    /// The resident transactions by readiness.
    pub fn all_transactions(&self) -> (r: AllPoolTransactions)
        requires
            self.wf(),
        ensures
            r.pending@ == self.pool().members(SubPool::Pending),
            r.queued@ == self.pool().members(SubPool::BaseFee) + self.pool().members(
                SubPool::Queued,
            ),
    {
        AllPoolTransactions {
            pending: self.pool.pending_transactions(),
            queued: self.pool.queued_transactions(),
        }
    }

    /// The addresses of the senders that have a resident transaction.
    pub fn unique_senders(&self) -> (r: Vec<Address>)
        ensures
            r@ == sender_addresses(self.pool().all()),
    {
        self.pool.unique_senders()
    }

    /// Tells the event listeners of each transaction the peers it was sent
    /// to: the events of [`propagation_events`], in order. A hash that is
    /// not among them keeps its listeners.
    pub fn on_propagated(&mut self, txs: PropagatedTransactions)
        requires
            old(self).wf(),
        ensures
            final(self).pending_told() == old(self).pending_told(),
            final(self).admitted_told() == old(self).admitted_told(),
            final(self).wf(),
            final(self).told() == old(self).told() + propagation_events(txs.0@),
            forall|hash: TxHash|
                !names(propagation_events(txs.0@), hash)
                    ==> #[trigger] final(self).broadcast().hashes().contains(hash)
                        == old(self).broadcast().hashes().contains(
                    hash,
                ),
            final(self).pool() == old(self).pool(),
            final(self).identifiers() == old(self).identifiers(),
            final(self).settings() == old(self).settings(),
            final(self).pool().ordering() == old(self).pool().ordering(),
            final(self).pending_listeners() == old(self).pending_listeners(),
            final(self).transaction_listeners() == old(self).transaction_listeners(),
            final(self).broadcast().all_listeners() <= old(self).broadcast().all_listeners(),
            forall|hash: TxHash|
                final(self).broadcast().hashes().contains(hash)
                    ==> old(self).broadcast().hashes().contains(hash),
    {
        let PropagatedTransactions(list) = txs;
        let ghost all = list@;
        let ghost events = propagation_events(all);
        assert(self.told() =~= old(self).told() + events.take(0));
        for item in iter: list
            invariant
                self.pending_told == old(self).pending_told,
                self.admitted_told == old(self).admitted_told,
                iter.seq() == all,
                events == propagation_events(all),
                self.wf(),
                self.event_listener.told() == old(self).event_listener.told() + events.take(
                    iter.index() as int,
                ),
                forall|hash: TxHash|
                    !names(events.take(iter.index() as int), hash)
                        ==> #[trigger] self.event_listener.hashes().contains(hash)
                            == old(self).event_listener.hashes().contains(hash),
                self.pool == old(self).pool,
                self.identifiers == old(self).identifiers,
                self.config == old(self).config,
                self.pool.ordering() == old(self).pool.ordering(),
                self.pending_transaction_listener == old(self).pending_transaction_listener,
                self.transaction_listener == old(self).transaction_listener,
                self.event_listener.all_listeners() <= old(self).event_listener.all_listeners(),
                forall|hash: TxHash|
                    self.event_listener.hashes().contains(hash)
                        ==> old(self).event_listener.hashes().contains(hash),
        {
            let ghost before = self.event_listener;
            let ghost done = iter.index() as int;
            let (hash, peers) = item;
            self.event_listener.propagated(hash, peers);
            proof {
                assert(events[done] == told_as_propagated(hash, peers));
                assert(events.take(done + 1) =~= events.take(done).push(events[done]));
                assert(self.event_listener.told() =~= old(self).event_listener.told()
                    + events.take(done + 1));
                assert forall|other: TxHash| !names(events.take(done + 1), other) implies (
                #[trigger] self.event_listener.hashes().contains(other))
                    == old(self).event_listener.hashes().contains(other) by {
                    assert(events.take(done + 1)[done] == events[done]);
                    assert(other != hash);
                    if names(events.take(done), other) {
                        let k = choose|k: int|
                            0 <= k < events.take(done).len() && (#[trigger] events.take(
                                done,
                            )[k]).hash == other;
                        assert(events.take(done + 1)[k].hash == other);
                    }
                    assert(before.hashes().contains(other)
                        == old(self).event_listener.hashes().contains(other));
                }
            }
        }
        assert(events.take(events.len() as int) =~= events);
    }

    /// The number of listeners to the hashes of pending transactions.
    pub fn pending_listener_count(&self) -> (r: usize)
        ensures
            r == self.pending_listeners().len(),
    {
        self.pending_transaction_listener.len()
    }

    /// The number of listeners to admitted transactions.
    pub fn transaction_listener_count(&self) -> (r: usize)
        ensures
            r == self.transaction_listeners().len(),
    {
        self.transaction_listener.len()
    }

    /// Whether the transaction with hash `tx_hash` has event listeners of its own.
    pub fn has_event_listener(&self, tx_hash: &TxHash) -> (r: bool)
        ensures
            r == self.broadcast().hashes().contains(*tx_hash),
    {
        self.event_listener.is_subscribed(tx_hash)
    }

    /// The number of resident transactions.
    pub fn len(&self) -> (r: usize)
        ensures
            r == self.pool().all().len(),
    {
        self.pool.len()
    }

    /// Whether no transaction is resident.
    pub fn is_empty(&self) -> (r: bool)
        ensures
            r == (self.pool().all().len() == 0),
    {
        self.pool.is_empty()
    }
}

/// Every sequence is a selection from itself.
pub proof fn lemma_selected_from_self<T>(all: Seq<T>)
    ensures
        selected_from(all, all),
{
    let places = Seq::new(all.len(), |i: int| i);
    assert(is_selection(all, all, places));
}

/// A selection from a selection is a selection.
pub proof fn lemma_selected_from_chain<T>(a: Seq<T>, b: Seq<T>, c: Seq<T>)
    requires
        selected_from(a, b),
        selected_from(b, c),
    ensures
        selected_from(a, c),
{
    let ab = choose|places: Seq<int>| is_selection(a, b, places);
    let bc = choose|places: Seq<int>| is_selection(b, c, places);
    let ac = Seq::new(a.len(), |k: int| bc[ab[k]]);
    assert(is_selection(a, c, ac)) by {
        assert forall|k: int| 0 <= k < a.len() implies 0 <= #[trigger] ac[k] < c.len() && a[k]
            == c[ac[k]] by {
            assert(0 <= ab[k] < b.len());
            assert(0 <= bc[ab[k]] < c.len());
        }
        assert forall|x: int, y: int| 0 <= x < y < ac.len() implies ac[x] < ac[y] by {
            assert(0 <= ab[x] < b.len() && 0 <= ab[y] < b.len());
            assert(ab[x] < ab[y]);
        }
    }
}

} // verus!
