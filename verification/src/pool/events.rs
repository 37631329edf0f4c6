//! What the pool tells its listeners.

use crate::primitives::{PeerId, TxHash, B256};
use crate::state::SubPool;
use crate::transaction::SharedTransaction;
use std::sync::Arc;
use vstd::prelude::*;

verus! {

/// How a transaction was sent to a peer.
#[derive(Clone, Copy, Debug, PartialEq, Eq, Structural)]
pub enum PropagateKind {
    /// The whole transaction was sent.
    Full(PeerId),
    /// Only the hash was announced.
    Hash(PeerId),
}

/// The peers that each of some transactions was sent to.
#[derive(Debug)]
pub struct PropagatedTransactions(pub Vec<(TxHash, Vec<PropagateKind>)>);

/// Which pending transactions a listener wants to hear of.
#[derive(Clone, Copy, Debug, PartialEq, Eq, Structural)]
pub enum PendingTransactionListenerKind {
    /// All of them.
    All,
    /// Only those that may be announced to peers.
    PropagateOnly,
}

impl PendingTransactionListenerKind {
    /// Whether the listener wants only transactions that may be announced.
    pub fn is_propagate_only(&self) -> (r: bool)
        ensures
            r == (*self == PendingTransactionListenerKind::PropagateOnly),
    {
        match self {
            PendingTransactionListenerKind::PropagateOnly => true,
            _ => false,
        }
    }
}

/// Something that happened to one transaction.
#[derive(Debug, PartialEq, Eq)]
pub enum TransactionEvent {
    /// It entered the pending sub-pool.
    Pending,
    /// It entered a parked sub-pool.
    Queued,
    /// It was mined in the block with this hash.
    Mined(B256),
    /// It was replaced by the transaction with this hash.
    Replaced(TxHash),
    /// It was dropped.
    Discarded,
    /// It was sent to these peers.
    Propagated(Arc<Vec<PropagateKind>>),
}

impl TransactionEvent {
    /// Whether no event can follow this one: the transaction was mined,
    /// replaced or dropped.
    pub open spec fn spec_is_final(&self) -> bool {
        self is Mined || self is Replaced || self is Discarded
    }

    /// Whether no event can follow this one.
    pub fn is_final(&self) -> (r: bool)
        ensures
            r == self.spec_is_final(),
    {
        match self {
            TransactionEvent::Mined(_) => true,
            TransactionEvent::Replaced(_) => true,
            TransactionEvent::Discarded => true,
            _ => false,
        }
    }

    /// A second handle on the same event.
    pub fn duplicate(&self) -> (r: TransactionEvent)
        ensures
            r == *self,
    {
        match self {
            TransactionEvent::Pending => TransactionEvent::Pending,
            TransactionEvent::Queued => TransactionEvent::Queued,
            TransactionEvent::Mined(block) => TransactionEvent::Mined(*block),
            TransactionEvent::Replaced(by) => TransactionEvent::Replaced(*by),
            TransactionEvent::Discarded => TransactionEvent::Discarded,
            TransactionEvent::Propagated(peers) => TransactionEvent::Propagated(peers.clone()),
        }
    }
}

/// An event together with the hash of the transaction it happened to.
#[derive(Debug, PartialEq, Eq)]
pub struct FullTransactionEvent {
    /// The hash of the transaction.
    pub hash: TxHash,
    /// What happened to it.
    pub event: TransactionEvent,
}

impl FullTransactionEvent {
    /// A second handle on the same event.
    pub fn duplicate(&self) -> (r: FullTransactionEvent)
        ensures
            r == *self,
    {
        FullTransactionEvent { hash: self.hash, event: self.event.duplicate() }
    }
}

/// A transaction that was admitted, and the sub-pool it went to.
#[derive(Debug)]
pub struct NewTransactionEvent {
    /// The sub-pool it went to.
    pub subpool: SubPool,
    /// The transaction.
    pub transaction: SharedTransaction,
}

impl NewTransactionEvent {
    /// A second handle on the same event.
    pub fn duplicate(&self) -> (r: NewTransactionEvent)
        ensures
            r == *self,
    {
        NewTransactionEvent { subpool: self.subpool, transaction: self.transaction.clone() }
    }
}

} // verus!
