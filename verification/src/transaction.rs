//! Validated transactions as the pool holds them, and the orders among them.

use crate::error::InvalidPoolTransactionError;
use crate::identifier::{SenderId, TransactionId};
use crate::primitives::{
    compute_effective_tip_per_gas, effective_tip_per_gas, Address, TransactionKind, TxHash, B256,
    U256,
};
use crate::state::SubPool;
use std::sync::Arc;
use vstd::prelude::*;
use vstd::std_specs::cmp::PartialEqSpecImpl;

verus! {

/// Where a transaction came from.
#[derive(Clone, Copy, Debug, PartialEq, Eq, Structural, Hash)]
pub enum TransactionOrigin {
    /// Submitted to this node directly. Evicted last, and always propagated.
    Local,
    /// Received from the network.
    External,
    /// Submitted to this node and never announced.
    Private,
}

impl TransactionOrigin {
    /// Whether the origin is [`TransactionOrigin::Local`].
    pub open spec fn spec_is_local(&self) -> bool {
        *self == TransactionOrigin::Local
    }

    /// Whether the origin is [`TransactionOrigin::Local`].
    pub fn is_local(&self) -> (r: bool)
        ensures
            r == self.spec_is_local(),
    {
        match self {
            TransactionOrigin::Local => true,
            _ => false,
        }
    }

    /// Whether a transaction of this origin may be announced to peers: a
    /// local one always, a private one never, any other if the validator
    /// allows it.
    pub open spec fn may_propagate(&self, allowed: bool) -> bool {
        match self {
            TransactionOrigin::Local => true,
            TransactionOrigin::Private => false,
            TransactionOrigin::External => allowed,
        }
    }

    /// Decides [`Self::may_propagate`].
    pub fn allows_propagation(&self, allowed: bool) -> (r: bool)
        ensures
            r == self.may_propagate(allowed),
    {
        match self {
            TransactionOrigin::Local => true,
            TransactionOrigin::Private => false,
            TransactionOrigin::External => allowed,
        }
    }
}

/// A transaction as the validator hands it to the pool.
#[derive(Debug)]
pub struct PooledTransaction {
    /// The transaction hash.
    pub hash: TxHash,
    /// The signer.
    pub sender: Address,
    /// The sender's nonce.
    pub nonce: u64,
    /// The gas limit.
    pub gas_limit: u64,
    /// The fee cap per gas; the gas price for types without a cap.
    pub max_fee_per_gas: u128,
    /// The priority fee per gas, where the type has one.
    pub max_priority_fee_per_gas: Option<u128>,
    /// The fee cap per blob gas, for blob transactions.
    pub max_fee_per_blob_gas: Option<u128>,
    /// The versioned hashes of the blobs.
    pub blob_versioned_hashes: Vec<B256>,
    /// Creation or call target.
    pub kind: TransactionKind,
    /// The transferred value.
    pub value: U256,
    /// The call data.
    pub input: Vec<u8>,
    /// The length of the encoded transaction, in bytes.
    pub encoded_length: usize,
}

/// A validated transaction in the pool, with what the pool adds to it.
///
/// The pool shares each one behind an [`Arc`] and never changes it.
#[derive(Debug)]
pub struct ValidPoolTransaction {
    /// The transaction.
    pub transaction: PooledTransaction,
    /// The key of the transaction in the pool.
    pub transaction_id: TransactionId,
    /// Whether the transaction may be announced to peers.
    pub propagate: bool,
    /// When the transaction was submitted.
    pub timestamp: u64,
    /// Where the transaction came from.
    pub origin: TransactionOrigin,
    /// The length of the encoded transaction, in bytes.
    pub encoded_length: usize,
}

/// A transaction as the pool shares it.
pub type SharedTransaction = Arc<ValidPoolTransaction>;

impl PartialEq for ValidPoolTransaction {
    /// Two pool transactions are the same if their hashes are.
    fn eq(&self, other: &ValidPoolTransaction) -> (r: bool) {
        self.transaction.hash == other.transaction.hash
    }
}

impl Eq for ValidPoolTransaction {

}

impl PartialEqSpecImpl for ValidPoolTransaction {
    open spec fn obeys_eq_spec() -> bool {
        true
    }

    open spec fn eq_spec(&self, other: &ValidPoolTransaction) -> bool {
        self.transaction.hash == other.transaction.hash
    }
}

/// The transaction behind a shared handle.
pub open spec fn content(tx: SharedTransaction) -> ValidPoolTransaction {
    *tx
}

impl ValidPoolTransaction {
    /// Wraps `transaction` for the pool: its id is the sender id with the
    /// transaction's nonce, its size the transaction's encoded length.
    pub fn new(
        transaction: PooledTransaction,
        sender_id: SenderId,
        propagate: bool,
        timestamp: u64,
        origin: TransactionOrigin,
    ) -> (r: ValidPoolTransaction)
        ensures
            r.transaction == transaction,
            r.transaction_id == (TransactionId { sender: sender_id, nonce: transaction.nonce }),
            r.propagate == propagate,
            r.timestamp == timestamp,
            r.origin == origin,
            r.encoded_length == transaction.encoded_length,
    {
        let transaction_id = TransactionId::new(sender_id, transaction.nonce);
        let encoded_length: usize = transaction.encoded_length;
        ValidPoolTransaction {
            transaction,
            transaction_id,
            propagate,
            timestamp,
            origin,
            encoded_length,
        }
    }

    /// The transaction hash.
    pub fn hash(&self) -> (r: TxHash)
        ensures
            r == self.transaction.hash,
    {
        self.transaction.hash
    }

    /// The key of the transaction in the pool.
    pub fn id(&self) -> (r: TransactionId)
        ensures
            r == self.transaction_id,
    {
        self.transaction_id
    }

    /// The signer's address.
    pub fn sender(&self) -> (r: Address)
        ensures
            r == self.transaction.sender,
    {
        self.transaction.sender
    }

    /// The signer's id in the pool.
    pub fn sender_id(&self) -> (r: SenderId)
        ensures
            r == self.transaction_id.sender,
    {
        self.transaction_id.sender
    }

    /// The nonce under which the pool holds the transaction.
    pub fn nonce(&self) -> (r: u64)
        ensures
            r == self.transaction_id.nonce,
    {
        self.transaction_id.nonce
    }

    /// The gas limit.
    pub fn gas_limit(&self) -> (r: u64)
        ensures
            r == self.transaction.gas_limit,
    {
        self.transaction.gas_limit
    }

    /// The fee cap per gas.
    pub fn max_fee_per_gas(&self) -> (r: u128)
        ensures
            r == self.transaction.max_fee_per_gas,
    {
        self.transaction.max_fee_per_gas
    }

    /// The priority fee per gas, where the transaction has one.
    pub fn max_priority_fee_per_gas(&self) -> (r: Option<u128>)
        ensures
            r == self.transaction.max_priority_fee_per_gas,
    {
        self.transaction.max_priority_fee_per_gas
    }

    /// The fee cap per blob gas, where the transaction has one.
    pub fn max_fee_per_blob_gas(&self) -> (r: Option<u128>)
        ensures
            r == self.transaction.max_fee_per_blob_gas,
    {
        self.transaction.max_fee_per_blob_gas
    }

    /// The versioned hashes of the transaction's blobs.
    pub fn blob_versioned_hashes(&self) -> (r: &Vec<B256>)
        ensures
            *r == self.transaction.blob_versioned_hashes,
    {
        &self.transaction.blob_versioned_hashes
    }

    /// Creation or call target.
    pub fn kind(&self) -> (r: TransactionKind)
        ensures
            r == self.transaction.kind,
    {
        self.transaction.kind
    }

    /// The transferred value.
    pub fn value(&self) -> (r: U256)
        ensures
            r == self.transaction.value,
    {
        self.transaction.value
    }

    /// The call data.
    pub fn input(&self) -> (r: &Vec<u8>)
        ensures
            *r == self.transaction.input,
    {
        &self.transaction.input
    }

    /// The length of the encoded transaction, in bytes.
    pub fn size(&self) -> (r: usize)
        ensures
            r == self.encoded_length,
    {
        self.encoded_length
    }

    /// Whether the transaction was submitted to this node directly.
    pub open spec fn spec_is_local(&self) -> bool {
        self.origin.spec_is_local()
    }

    /// Whether the transaction was submitted to this node directly.
    pub fn is_local(&self) -> (r: bool)
        ensures
            r == self.spec_is_local(),
    {
        self.origin.is_local()
    }

    /// The priority fee, or the fee cap where the transaction has no priority fee.
    pub open spec fn spec_priority_fee_or_price(&self) -> u128 {
        match self.transaction.max_priority_fee_per_gas {
            Some(fee) => fee,
            None => self.transaction.max_fee_per_gas,
        }
    }

    /// The priority fee, or the fee cap where the transaction has no priority fee.
    pub fn priority_fee_or_price(&self) -> (r: u128)
        ensures
            r == self.spec_priority_fee_or_price(),
    {
        match self.transaction.max_priority_fee_per_gas {
            Some(fee) => fee,
            None => self.transaction.max_fee_per_gas,
        }
    }

    /// The priority fee per gas that the transaction pays on top of `base_fee`.
    pub open spec fn spec_effective_tip_per_gas(&self, base_fee: u64) -> Option<u128> {
        effective_tip_per_gas(
            self.transaction.max_fee_per_gas,
            self.transaction.max_priority_fee_per_gas,
            base_fee,
        )
    }

    /// The priority fee per gas that the transaction pays on top of `base_fee`.
    pub fn effective_tip_per_gas(&self, base_fee: u64) -> (r: Option<u128>)
        ensures
            r == self.spec_effective_tip_per_gas(base_fee),
    {
        compute_effective_tip_per_gas(
            self.transaction.max_fee_per_gas,
            self.transaction.max_priority_fee_per_gas,
            base_fee,
        )
    }

    /// The most the transaction can take from its sender's balance:
    /// `gas_limit * max_fee_per_gas + value`.
    pub open spec fn spec_cost(&self) -> nat {
        (self.transaction.gas_limit * self.transaction.max_fee_per_gas) as nat
            + self.transaction.value@
    }

    /// Computes [`Self::spec_cost`]; `None` exactly where it does not fit in 256 bits.
    pub fn cost(&self) -> (r: Option<U256>)
        ensures
            self.spec_cost() < crate::primitives::u256_limit() ==> r.is_some() && r.unwrap()@
                == self.spec_cost(),
            self.spec_cost() >= crate::primitives::u256_limit() ==> r.is_none(),
    {
        let gas_cost = U256::mul_u64_u128(
            self.transaction.gas_limit,
            self.transaction.max_fee_per_gas,
        );
        gas_cost.checked_add(self.transaction.value)
    }
}

/// How high a transaction stands in the order of the pending sub-pool.
#[derive(Clone, Copy, Debug, PartialEq, Eq, Structural)]
pub enum Priority {
    /// Below every value: the transaction cannot go into a block now.
    Lowest,
    /// Above none and above every lower value.
    Value(u128),
}

impl Priority {
    /// The priority as a number: `-1` for the lowest, else the value.
    pub open spec fn rank(self) -> int {
        match self {
            Priority::Lowest => -1,
            Priority::Value(value) => value as int,
        }
    }

    /// Whether `self` stands above `other`.
    pub fn is_above(&self, other: &Priority) -> (r: bool)
        ensures
            r == (self.rank() > other.rank()),
    {
        match (*self, *other) {
            (Priority::Value(x), Priority::Value(y)) => x > y,
            (Priority::Value(_), Priority::Lowest) => true,
            (Priority::Lowest, _) => false,
        }
    }
}

/// A way to order the pending sub-pool: it gives each transaction a
/// priority under the base fee at hand.
pub trait TransactionOrdering {
    /// The priority of `tx` under `base_fee`.
    spec fn priority_of(&self, tx: ValidPoolTransaction, base_fee: u64) -> Priority;

    /// Computes the priority of `tx` under `base_fee`.
    fn priority(&self, tx: &ValidPoolTransaction, base_fee: u64) -> (r: Priority)
        ensures
            r == self.priority_of(*tx, base_fee),
    ;
}

/// The default order of the pending sub-pool: by what a transaction pays the
/// block producer per gas on top of the base fee.
#[derive(Clone, Copy, Debug, Default)]
pub struct GasCostOrdering;

impl TransactionOrdering for GasCostOrdering {
    /// The effective tip of `tx` under `base_fee`; the lowest priority
    /// where its fee cap does not cover the base fee.
    open spec fn priority_of(&self, tx: ValidPoolTransaction, base_fee: u64) -> Priority {
        match tx.spec_effective_tip_per_gas(base_fee) {
            Some(tip) => Priority::Value(tip),
            None => Priority::Lowest,
        }
    }

    fn priority(&self, tx: &ValidPoolTransaction, base_fee: u64) -> (r: Priority) {
        match tx.effective_tip_per_gas(base_fee) {
            Some(tip) => Priority::Value(tip),
            None => Priority::Lowest,
        }
    }
}

/// Whether `a` goes into a block before `b` under `ordering`: it has the
/// higher priority; or the same and the earlier timestamp; or both the same
/// and the lower id.
pub open spec fn better<T: TransactionOrdering>(
    ordering: T,
    a: ValidPoolTransaction,
    b: ValidPoolTransaction,
    base_fee: u64,
) -> bool {
    let pa = ordering.priority_of(a, base_fee).rank();
    let pb = ordering.priority_of(b, base_fee).rank();
    pa > pb || (pa == pb && (a.timestamp < b.timestamp || (a.timestamp == b.timestamp
        && a.transaction_id.before(b.transaction_id))))
}

/// Decides [`better`].
pub fn is_better<T: TransactionOrdering>(
    ordering: &T,
    a: &ValidPoolTransaction,
    b: &ValidPoolTransaction,
    base_fee: u64,
) -> (r: bool)
    ensures
        r == better(*ordering, *a, *b, base_fee),
{
    let pa = ordering.priority(a, base_fee);
    let pb = ordering.priority(b, base_fee);
    pa.is_above(&pb) || (!pb.is_above(&pa) && (a.timestamp < b.timestamp || (a.timestamp
        == b.timestamp && a.transaction_id.is_before(&b.transaction_id))))
}

/// Whether, within sub-pool `pool`, `a` is evicted before `b`.
///
/// A transaction that is not local goes before a local one. Among
/// transactions of the same locality: in the pending sub-pool the one that
/// goes into a block later under `ordering`; in the base-fee sub-pool the
/// one with the lower fee cap, and with equal caps the higher id; in the
/// queued sub-pool the higher id.
pub open spec fn evicted_before<T: TransactionOrdering>(
    ordering: T,
    pool: SubPool,
    a: ValidPoolTransaction,
    b: ValidPoolTransaction,
    base_fee: u64,
) -> bool {
    if a.spec_is_local() != b.spec_is_local() {
        !a.spec_is_local()
    } else {
        match pool {
            SubPool::Pending => better(ordering, b, a, base_fee),
            SubPool::BaseFee => a.transaction.max_fee_per_gas < b.transaction.max_fee_per_gas || (
            a.transaction.max_fee_per_gas == b.transaction.max_fee_per_gas
                && b.transaction_id.before(a.transaction_id)),
            SubPool::Queued => b.transaction_id.before(a.transaction_id),
        }
    }
}

/// Decides [`evicted_before`].
pub fn is_evicted_before<T: TransactionOrdering>(
    ordering: &T,
    pool: SubPool,
    a: &ValidPoolTransaction,
    b: &ValidPoolTransaction,
    base_fee: u64,
) -> (r: bool)
    ensures
        r == evicted_before(*ordering, pool, *a, *b, base_fee),
{
    let a_local: bool = a.is_local();
    let b_local: bool = b.is_local();
    if a_local != b_local {
        !a_local
    } else {
        match pool {
            SubPool::Pending => is_better(ordering, b, a, base_fee),
            SubPool::BaseFee => a.transaction.max_fee_per_gas < b.transaction.max_fee_per_gas || (
            a.transaction.max_fee_per_gas == b.transaction.max_fee_per_gas
                && b.transaction_id.is_before(&a.transaction_id)),
            SubPool::Queued => b.transaction_id.is_before(&a.transaction_id),
        }
    }
}

/// Among transactions with different ids, exactly one of two is evicted
/// before the other, and the order has no cycles of length two or three.
pub proof fn lemma_eviction_order_is_total<T: TransactionOrdering>(
    ordering: T,
    pool: SubPool,
    a: ValidPoolTransaction,
    b: ValidPoolTransaction,
    c: ValidPoolTransaction,
    base_fee: u64,
)
    ensures
        !evicted_before(ordering, pool, a, a, base_fee),
        a.transaction_id != b.transaction_id ==> (evicted_before(ordering, pool, a, b, base_fee)
            != evicted_before(ordering, pool, b, a, base_fee)),
        evicted_before(ordering, pool, a, b, base_fee) && evicted_before(
            ordering,
            pool,
            b,
            c,
            base_fee,
        ) ==> evicted_before(ordering, pool, a, c, base_fee),
{
}

/// What the validator found of a transaction.
#[derive(Debug)]
pub enum TransactionValidationOutcome {
    /// The transaction is valid on the state the validator looked at.
    Valid {
        /// The sender's balance on that state.
        balance: U256,
        /// The sender's nonce on that state.
        state_nonce: u64,
        /// The transaction.
        transaction: PooledTransaction,
        /// Whether the transaction may be announced to peers.
        propagate: bool,
    },
    /// The transaction can never be valid.
    Invalid(PooledTransaction, InvalidPoolTransactionError),
    /// Validation itself failed on the transaction with this hash.
    Error(TxHash, String),
}

impl TransactionValidationOutcome {
    /// The hash of the transaction that the outcome is about.
    pub open spec fn spec_tx_hash(&self) -> TxHash {
        match self {
            TransactionValidationOutcome::Valid { transaction, .. } => transaction.hash,
            TransactionValidationOutcome::Invalid(transaction, _) => transaction.hash,
            TransactionValidationOutcome::Error(hash, _) => *hash,
        }
    }

    /// The hash of the transaction that the outcome is about.
    pub fn tx_hash(&self) -> (r: TxHash)
        ensures
            r == self.spec_tx_hash(),
    {
        match self {
            TransactionValidationOutcome::Valid { transaction, .. } => transaction.hash,
            TransactionValidationOutcome::Invalid(transaction, _) => transaction.hash,
            TransactionValidationOutcome::Error(hash, _) => *hash,
        }
    }
}

} // verus!
