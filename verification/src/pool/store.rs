//! The store of one sub-pool: its transactions in id order, with their
//! number and size, and the best and the worst among them.

use crate::config::SubPoolLimit;
use crate::identifier::TransactionId;
use crate::pool::model::{
    index_of_id, is_position, lemma_index_of_absent, lemma_position_unique, position_of,
    sorted_by_id, sum_bytes,
};
use crate::state::SubPool;
use crate::transaction::{
    better, evicted_before, is_better, is_evicted_before, lemma_eviction_order_is_total,
    SharedTransaction, TransactionOrdering,
};
use vstd::prelude::*;

verus! {

/// Whether the transaction at place `w` of `txs` is evicted before every other one.
pub open spec fn is_worst_at<T: TransactionOrdering>(
    txs: Seq<SharedTransaction>,
    ordering: T,
    pool: SubPool,
    base_fee: u64,
    w: int,
) -> bool {
    &&& 0 <= w < txs.len()
    &&& forall|k: int|
        0 <= k < txs.len() && k != w ==> evicted_before(
            ordering,
            pool,
            *txs[w],
            *#[trigger] txs[k],
            base_fee,
        )
}

/// Whether the transaction at place `b` of `txs` goes into a block before every other one.
pub open spec fn is_best_at<T: TransactionOrdering>(
    txs: Seq<SharedTransaction>,
    ordering: T,
    base_fee: u64,
    b: int,
) -> bool {
    &&& 0 <= b < txs.len()
    &&& forall|k: int|
        0 <= k < txs.len() && k != b ==> better(ordering, *txs[b], *#[trigger] txs[k], base_fee)
}

/// Removing one transaction takes its length from the sum.
pub proof fn lemma_sum_bytes_remove(txs: Seq<SharedTransaction>, p: int)
    requires
        0 <= p < txs.len(),
    ensures
        sum_bytes(txs.remove(p)) + txs[p].encoded_length == sum_bytes(txs),
    decreases txs.len(),
{
    if p == txs.len() - 1 {
        assert(txs.remove(p) =~= txs.drop_last());
    } else {
        assert(txs.remove(p).drop_last() =~= txs.drop_last().remove(p));
        assert(txs.remove(p).last() == txs.last());
        lemma_sum_bytes_remove(txs.drop_last(), p);
    }
}

/// Inserting one transaction adds its length to the sum.
pub proof fn lemma_sum_bytes_insert(txs: Seq<SharedTransaction>, p: int, tx: SharedTransaction)
    requires
        0 <= p <= txs.len(),
    ensures
        sum_bytes(txs.insert(p, tx)) == sum_bytes(txs) + tx.encoded_length,
{
    let after = txs.insert(p, tx);
    assert(after.remove(p) =~= txs);
    lemma_sum_bytes_remove(after, p);
}

/// No sum of lengths is above the number of transactions times the largest length.
pub proof fn lemma_sum_bytes_bound(txs: Seq<SharedTransaction>)
    ensures
        sum_bytes(txs) <= txs.len() * 0xFFFF_FFFF_FFFF_FFFF,
    decreases txs.len(),
{
    if txs.len() > 0 {
        lemma_sum_bytes_bound(txs.drop_last());
    }
}

/// Finds where a transaction with id `id` stands, or would stand, in the id-ordered `txs`.
pub fn find_position(txs: &Vec<SharedTransaction>, id: &TransactionId) -> (p: usize)
    requires
        sorted_by_id(txs@),
    ensures
        p == position_of(txs@, *id),
        is_position(txs@, *id, p as int),
{
    let mut p: usize = 0;
    while p < txs.len() && txs[p].transaction_id.is_before(id)
        invariant
            p <= txs@.len(),
            forall|k: int| 0 <= k < p ==> (#[trigger] txs@[k]).transaction_id.before(*id),
        decreases txs@.len() - p,
    {
        p += 1;
    }
    proof {
        assert forall|k: int| p <= k < txs@.len() implies !(
        #[trigger] txs@[k]).transaction_id.before(*id) by {
            if k > p {
                assert(txs@[p as int].transaction_id.before(txs@[k].transaction_id));
            }
        }
        lemma_position_unique(txs@, *id, p as int);
    }
    p
}

/// The transactions of one sub-pool.
#[derive(Debug)]
pub struct SubPoolStore {
    kind: SubPool,
    txs: Vec<SharedTransaction>,
    size: u128,
}

impl SubPoolStore {
    /// The transactions in the store, in id order.
    pub closed spec fn view(&self) -> Seq<SharedTransaction> {
        self.txs@
    }

    /// The sub-pool that this is the store of.
    pub closed spec fn kind(&self) -> SubPool {
        self.kind
    }

    /// The ids strictly increase, and the size kept is the sum of the encoded lengths.
    pub closed spec fn wf(&self) -> bool {
        &&& sorted_by_id(self.txs@)
        &&& self.size == sum_bytes(self.txs@)
    }

    /// What [`Self::wf`] says of the view.
    pub proof fn lemma_wf(&self)
        requires
            self.wf(),
        ensures
            sorted_by_id(self@),
    {
    }

    /// An empty store for sub-pool `kind`.
    pub fn new(kind: SubPool) -> (r: SubPoolStore)
        ensures
            r.wf(),
            r@.len() == 0,
            r.kind() == kind,
    {
        SubPoolStore { kind, txs: Vec::new(), size: 0 }
    }

    /// The number of transactions.
    pub fn len(&self) -> (r: usize)
        ensures
            r == self@.len(),
    {
        self.txs.len()
    }

    /// Whether the store is empty.
    pub fn is_empty(&self) -> (r: bool)
        ensures
            r == (self@.len() == 0),
    {
        self.txs.len() == 0
    }

    /// The sum of the encoded lengths, in bytes.
    pub fn size_bytes(&self) -> (r: u128)
        requires
            self.wf(),
        ensures
            r == sum_bytes(self@),
    {
        self.size
    }

    /// Whether the store is over either bound of `limit`.
    pub fn exceeds(&self, limit: &SubPoolLimit) -> (r: bool)
        requires
            self.wf(),
        ensures
            r == limit.exceeded_by(self@.len(), sum_bytes(self@)),
    {
        limit.is_exceeded(self.txs.len(), self.size)
    }

    /// Whether a transaction with id `id` is in the store.
    pub fn contains(&self, id: &TransactionId) -> (r: bool)
        requires
            self.wf(),
        ensures
            r == index_of_id(self@, *id).is_some(),
    {
        let p: usize = find_position(&self.txs, id);
        p < self.txs.len() && self.txs[p].transaction_id == *id
    }

    /// The transaction with id `id`, if it is in the store.
    pub fn get(&self, id: &TransactionId) -> (r: Option<SharedTransaction>)
        requires
            self.wf(),
        ensures
            match index_of_id(self@, *id) {
                Some(p) => r == Some(self@[p]),
                None => r.is_none(),
            },
    {
        let p: usize = find_position(&self.txs, id);
        if p < self.txs.len() && self.txs[p].transaction_id == *id {
            Some(self.txs[p].clone())
        } else {
            None
        }
    }

    /// Puts `tx` into the store, at its place in the id order.
    pub fn insert(&mut self, tx: SharedTransaction)
        requires
            old(self).wf(),
            index_of_id(old(self)@, tx.transaction_id).is_none(),
        ensures
            final(self).wf(),
            final(self).kind() == old(self).kind(),
            final(self)@ == old(self)@.insert(position_of(old(self)@, tx.transaction_id), tx),
    {
        let p: usize = find_position(&self.txs, &tx.transaction_id);
        proof {
            lemma_sum_bytes_insert(self.txs@, p as int, tx);
            lemma_sum_bytes_bound(self.txs@);
            lemma_index_of_absent(self.txs@, tx.transaction_id);
        }
        let ghost before = self.txs@;
        let count: usize = self.txs.len();
        assert(self.size <= count * 0xFFFF_FFFF_FFFF_FFFF);
        self.size = self.size + tx.encoded_length as u128;
        self.txs.insert(p, tx);
        proof {
            let after = self.txs@;
            assert forall|i: int, j: int| 0 <= i < j < after.len() implies (
            #[trigger] after[i]).transaction_id.before((#[trigger] after[j]).transaction_id) by {
                if j < p {
                    assert(after[i] == before[i] && after[j] == before[j]);
                } else if j == p {
                    assert(after[i] == before[i]);
                } else if i < p {
                    assert(after[i] == before[i] && after[j] == before[j - 1]);
                } else if i == p {
                    assert(after[j] == before[j - 1]);
                    assert(!before[j - 1].transaction_id.before(tx.transaction_id));
                    assert(before[j - 1].transaction_id != tx.transaction_id);
                } else {
                    assert(after[i] == before[i - 1] && after[j] == before[j - 1]);
                }
            }
        }
    }

    /// Takes the transaction with id `id` out of the store, if it is there.
    pub fn remove(&mut self, id: &TransactionId) -> (r: Option<SharedTransaction>)
        requires
            old(self).wf(),
        ensures
            final(self).wf(),
            final(self).kind() == old(self).kind(),
            match index_of_id(old(self)@, *id) {
                Some(p) => r == Some(old(self)@[p]) && final(self)@ == old(self)@.remove(p),
                None => r.is_none() && final(self)@ == old(self)@,
            },
    {
        let p: usize = find_position(&self.txs, id);
        if p < self.txs.len() && self.txs[p].transaction_id == *id {
            let ghost before = self.txs@;
            proof {
                lemma_sum_bytes_remove(before, p as int);
            }
            let tx = self.txs.remove(p);
            self.size = self.size - tx.encoded_length as u128;
            proof {
                let after = self.txs@;
                assert forall|i: int, j: int| 0 <= i < j < after.len() implies (
                #[trigger] after[i]).transaction_id.before(
                    (#[trigger] after[j]).transaction_id,
                ) by {
                    let oi = if i < p { i } else { i + 1 };
                    let oj = if j < p { j } else { j + 1 };
                    assert(after[i] == before[oi] && after[j] == before[oj]);
                }
            }
            Some(tx)
        } else {
            None
        }
    }

    /// The transaction that is evicted first: see [`evicted_before`]. None in an empty store.
    pub fn worst<T: TransactionOrdering>(&self, ordering: &T, base_fee: u64) -> (r: Option<
        (usize, SharedTransaction),
    >)
        requires
            self.wf(),
        ensures
            self@.len() == 0 ==> r.is_none(),
            self@.len() > 0 ==> r.is_some() && is_worst_at(
                self@,
                *ordering,
                self.kind(),
                base_fee,
                r.unwrap().0 as int,
            ) && r.unwrap().1 == self@[r.unwrap().0 as int],
    {
        if self.txs.len() == 0 {
            return None;
        }
        let mut w: usize = 0;
        let mut i: usize = 1;
        while i < self.txs.len()
            invariant
                sorted_by_id(self.txs@),
                0 <= w < i <= self.txs@.len(),
                forall|k: int|
                    0 <= k < i && k != w ==> evicted_before(
                        *ordering,
                        self.kind,
                        *self.txs@[w as int],
                        *#[trigger] self.txs@[k],
                        base_fee,
                    ),
            decreases self.txs@.len() - i,
        {
            let ghost old_w = w;
            if is_evicted_before(ordering, self.kind, &self.txs[i], &self.txs[w], base_fee) {
                w = i;
            }
            proof {
                assert(self.txs@[old_w as int].transaction_id.before(
                    self.txs@[i as int].transaction_id,
                ));
                assert forall|k: int| 0 <= k < i + 1 && k != w implies evicted_before(
                    *ordering,
                    self.kind,
                    *self.txs@[w as int],
                    *#[trigger] self.txs@[k],
                    base_fee,
                ) by {
                    lemma_eviction_order_is_total(
                        *ordering,
                        self.kind,
                        *self.txs@[i as int],
                        *self.txs@[old_w as int],
                        *self.txs@[k],
                        base_fee,
                    );
                }
            }
            i += 1;
        }
        Some((w, self.txs[w].clone()))
    }

    /// The transaction that goes into a block first under `base_fee`: see
    /// [`better`]. None in an empty store.
    pub fn best<T: TransactionOrdering>(&self, ordering: &T, base_fee: u64) -> (r: Option<
        (usize, SharedTransaction),
    >)
        requires
            self.wf(),
        ensures
            self@.len() == 0 ==> r.is_none(),
            self@.len() > 0 ==> r.is_some() && is_best_at(
                self@,
                *ordering,
                base_fee,
                r.unwrap().0 as int,
            )
                && r.unwrap().1 == self@[r.unwrap().0 as int],
    {
        if self.txs.len() == 0 {
            return None;
        }
        let mut b: usize = 0;
        let mut i: usize = 1;
        while i < self.txs.len()
            invariant
                sorted_by_id(self.txs@),
                0 <= b < i <= self.txs@.len(),
                forall|k: int|
                    0 <= k < i && k != b ==> better(
                        *ordering,
                        *self.txs@[b as int],
                        *#[trigger] self.txs@[k],
                        base_fee,
                    ),
            decreases self.txs@.len() - i,
        {
            let ghost old_b = b;
            if is_better(ordering, &self.txs[i], &self.txs[b], base_fee) {
                b = i;
            }
            proof {
                assert(self.txs@[old_b as int].transaction_id.before(
                    self.txs@[i as int].transaction_id,
                ));
            }
            i += 1;
        }
        Some((b, self.txs[b].clone()))
    }

    /// All transactions of the store, in id order.
    pub fn transactions(&self) -> (r: Vec<SharedTransaction>)
        ensures
            r@ == self@,
    {
        let mut out: Vec<SharedTransaction> = Vec::new();
        let mut i: usize = 0;
        while i < self.txs.len()
            invariant
                i <= self.txs@.len(),
                out@ == self.txs@.take(i as int),
            decreases self.txs@.len() - i,
        {
            out.push(self.txs[i].clone());
            assert(self.txs@.take(i + 1) =~= self.txs@.take(i as int).push(self.txs@[i as int]));
            i += 1;
        }
        assert(self.txs@.take(i as int) =~= self.txs@);
        out
    }
}

} // verus!
