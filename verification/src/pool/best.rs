//! The stream of the best transactions for a block: a snapshot of the
//! pending sub-pool, handed out by priority, each sender's by rising nonce.

use crate::pool::model::{continues_chain, sorted_by_id};
use crate::transaction::{
    better, is_better, SharedTransaction, TransactionOrdering, ValidPoolTransaction,
};
use std::sync::Arc;
use vstd::prelude::*;

verus! {

/// What has become of one transaction of the snapshot.
#[derive(Clone, Copy, Debug, PartialEq, Eq, Structural)]
pub enum Progress {
    /// Not handed out yet.
    Waiting,
    /// Handed out.
    Yielded,
    /// Taken out of the stream.
    Invalid,
}

/// Whether the transaction at place `i` of the snapshot `txs`, or one
/// before it in its sender's chain, has a fee cap below `min_fee_cap`.
pub open spec fn is_blocked(txs: Seq<SharedTransaction>, min_fee_cap: u64, i: int) -> bool
    decreases i,
{
    if i < 0 || i >= txs.len() {
        false
    } else if txs[i].transaction.max_fee_per_gas < min_fee_cap {
        true
    } else if continues_chain(txs, i) {
        is_blocked(txs, min_fee_cap, i - 1)
    } else {
        false
    }
}

/// Whether the transaction at place `i` follows its sender's transaction at
/// place `i - 1` without a gap in the nonces.
pub open spec fn is_linked(txs: Seq<SharedTransaction>, i: int) -> bool {
    continues_chain(txs, i) && txs[i].transaction_id.nonce == txs[i - 1].transaction_id.nonce + 1
}

/// Whether the transaction at place `i` can be handed out now: it waits,
/// and it is its sender's first in the snapshot, or follows without a gap
/// one that was handed out.
pub open spec fn is_ready(txs: Seq<SharedTransaction>, progress: Seq<Progress>, i: int) -> bool {
    &&& 0 <= i < txs.len()
    &&& progress[i] == Progress::Waiting
    &&& (!continues_chain(txs, i) || (is_linked(txs, i) && progress[i - 1] == Progress::Yielded))
}

/// Whether the transaction at place `i`, if it was handed out and is not
/// its sender's first in the snapshot, followed without a gap one that was
/// handed out.
pub open spec fn follows_yielded(
    txs: Seq<SharedTransaction>,
    progress: Seq<Progress>,
    i: int,
) -> bool {
    progress[i] == Progress::Yielded && continues_chain(txs, i) ==> is_linked(txs, i)
        && progress[i - 1] == Progress::Yielded
}

/// Whether the transaction at place `i` is the one handed out next: it is
/// ready, and goes into a block before every other ready one.
pub open spec fn is_next<T: TransactionOrdering>(
    ordering: T,
    txs: Seq<SharedTransaction>,
    progress: Seq<Progress>,
    base_fee: u64,
    i: int,
) -> bool {
    &&& is_ready(txs, progress, i)
    &&& forall|j: int|
        j != i && #[trigger] is_ready(txs, progress, j) ==> better(
            ordering,
            *txs[i],
            *txs[j],
            base_fee,
        )
}

/// Whether a stream with progress `filtered` stands where a stream over the
/// same snapshot with progress `plain` stands, but for the transactions
/// that the minimum fee cap `min_fee_cap` blocks, which it leaves out.
pub open spec fn leaves_out(
    txs: Seq<SharedTransaction>,
    plain: Seq<Progress>,
    filtered: Seq<Progress>,
    min_fee_cap: u64,
) -> bool {
    &&& plain.len() == txs.len()
    &&& filtered.len() == txs.len()
    &&& forall|i: int|
        0 <= i < txs.len() ==> #[trigger] filtered[i] == (if is_blocked(txs, min_fee_cap, i) {
            Progress::Invalid
        } else {
            plain[i]
        })
}

/// At most one transaction is the one handed out next.
pub proof fn lemma_next_is_unique<T: TransactionOrdering>(
    ordering: T,
    txs: Seq<SharedTransaction>,
    progress: Seq<Progress>,
    base_fee: u64,
    i: int,
    j: int,
)
    requires
        is_next(ordering, txs, progress, base_fee, i),
        is_next(ordering, txs, progress, base_fee, j),
    ensures
        i == j,
{
    if i != j {
        assert(is_ready(txs, progress, i));
        assert(is_ready(txs, progress, j));
        assert(better(ordering, *txs[i], *txs[j], base_fee));
        assert(better(ordering, *txs[j], *txs[i], base_fee));
    }
}

/// A minimum fee cap only leaves transactions out; it does not change the
/// order. Where a stream with the cap stands where a stream without it
/// stands, and the latter hands out the transaction at place `i`: if the
/// cap blocks that transaction, the stream with the cap stays as it is; if
/// not, it hands out the same transaction. Either way the two stand at the
/// same point again.
pub proof fn lemma_fee_cap_only_leaves_out<T: TransactionOrdering>(
    ordering: T,
    txs: Seq<SharedTransaction>,
    plain: Seq<Progress>,
    filtered: Seq<Progress>,
    base_fee: u64,
    min_fee_cap: u64,
    i: int,
)
    requires
        leaves_out(txs, plain, filtered, min_fee_cap),
        is_next(ordering, txs, plain, base_fee, i),
    ensures
        is_blocked(txs, min_fee_cap, i) ==> leaves_out(
            txs,
            plain.update(i, Progress::Yielded),
            filtered,
            min_fee_cap,
        ),
        !is_blocked(txs, min_fee_cap, i) ==> is_next(ordering, txs, filtered, base_fee, i)
            && leaves_out(
            txs,
            plain.update(i, Progress::Yielded),
            filtered.update(i, Progress::Yielded),
            min_fee_cap,
        ),
{
    if !is_blocked(txs, min_fee_cap, i) {
        assert(filtered[i] == plain[i]);
        if continues_chain(txs, i) {
            assert(!is_blocked(txs, min_fee_cap, i - 1));
            assert(filtered[i - 1] == plain[i - 1]);
        }
        assert(is_ready(txs, filtered, i));
        assert forall|j: int| j != i && #[trigger] is_ready(txs, filtered, j) implies better(
            ordering,
            *txs[i],
            *txs[j],
            base_fee,
        ) by {
            lemma_ready_in_both(txs, plain, filtered, min_fee_cap, j);
        }
    }
}

/// Where a stream with a minimum fee cap stands where a stream without it
/// stands, and the latter has nothing left to hand out, neither has the former.
pub proof fn lemma_fee_cap_ends_together(
    txs: Seq<SharedTransaction>,
    plain: Seq<Progress>,
    filtered: Seq<Progress>,
    min_fee_cap: u64,
)
    requires
        leaves_out(txs, plain, filtered, min_fee_cap),
        forall|j: int| !#[trigger] is_ready(txs, plain, j),
    ensures
        forall|j: int| !#[trigger] is_ready(txs, filtered, j),
{
    assert forall|j: int| !#[trigger] is_ready(txs, filtered, j) by {
        if is_ready(txs, filtered, j) {
            lemma_ready_in_both(txs, plain, filtered, min_fee_cap, j);
        }
    }
}

/// What is ready in the stream with the cap is ready in the stream without
/// it, and not blocked.
proof fn lemma_ready_in_both(
    txs: Seq<SharedTransaction>,
    plain: Seq<Progress>,
    filtered: Seq<Progress>,
    min_fee_cap: u64,
    j: int,
)
    requires
        leaves_out(txs, plain, filtered, min_fee_cap),
        is_ready(txs, filtered, j),
    ensures
        !is_blocked(txs, min_fee_cap, j),
        is_ready(txs, plain, j),
{
    assert(filtered[j] == Progress::Waiting);
    assert(!is_blocked(txs, min_fee_cap, j));
    if continues_chain(txs, j) {
        assert(!is_blocked(txs, min_fee_cap, j - 1));
        assert(filtered[j - 1] == plain[j - 1]);
    }
}

/// The progress after `tx` was marked invalid: its sender's waiting
/// transactions from the nonce of `tx` on are invalid, the rest is as it was.
pub open spec fn invalidated(
    txs: Seq<SharedTransaction>,
    progress: Seq<Progress>,
    tx: ValidPoolTransaction,
) -> Seq<Progress> {
    Seq::new(
        progress.len(),
        |i: int|
            if progress[i] == Progress::Waiting && txs[i].transaction_id.sender
                == tx.transaction_id.sender && txs[i].transaction_id.nonce
                >= tx.transaction_id.nonce {
                Progress::Invalid
            } else {
                progress[i]
            },
    )
}

/// The stream of the best transactions.
#[derive(Debug)]
pub struct BestTransactions<T: TransactionOrdering> {
    ordering: Arc<T>,
    txs: Vec<SharedTransaction>,
    progress: Vec<Progress>,
    base_fee: u64,
}

impl<T: TransactionOrdering> BestTransactions<T> {
    /// The order by which the stream hands out.
    pub closed spec fn ordering(&self) -> T {
        *self.ordering
    }

    /// The snapshot that the stream hands out, in id order.
    pub closed spec fn snapshot(&self) -> Seq<SharedTransaction> {
        self.txs@
    }

    /// What has become of each transaction of the snapshot.
    pub closed spec fn progress(&self) -> Seq<Progress> {
        self.progress@
    }

    /// The base fee under which priorities are taken.
    pub closed spec fn fee(&self) -> u64 {
        self.base_fee
    }

    /// The snapshot is in id order, and whatever was handed out of a
    /// sender's chain but its first followed, without a gap, one that was
    /// handed out before.
    pub open spec fn wf(&self) -> bool {
        &&& sorted_by_id(self.snapshot())
        &&& self.progress().len() == self.snapshot().len()
        &&& forall|i: int|
            0 <= i < self.snapshot().len() ==> #[trigger] follows_yielded(
                self.snapshot(),
                self.progress(),
                i,
            )
    }

    /// A stream over `snapshot`, with priorities taken under `base_fee`. A
    /// transaction whose fee cap is below `min_fee_cap` is left out, and
    /// with it what follows in its sender's chain.
    pub fn new(
        snapshot: Vec<SharedTransaction>,
        ordering: Arc<T>,
        base_fee: u64,
        min_fee_cap: u64,
    ) -> (r: BestTransactions<T>)
        requires
            sorted_by_id(snapshot@),
        ensures
            r.wf(),
            r.snapshot() == snapshot@,
            r.ordering() == *ordering,
            r.fee() == base_fee,
            forall|i: int|
                0 <= i < snapshot@.len() ==> #[trigger] r.progress()[i] == (if is_blocked(
                    snapshot@,
                    min_fee_cap,
                    i,
                ) {
                    Progress::Invalid
                } else {
                    Progress::Waiting
                }),
    {
        let mut progress: Vec<Progress> = Vec::new();
        let mut blocked: bool = false;
        let mut i: usize = 0;
        while i < snapshot.len()
            invariant
                i <= snapshot@.len(),
                progress@.len() == i,
                i > 0 ==> blocked == is_blocked(snapshot@, min_fee_cap, i - 1),
                forall|k: int|
                    0 <= k < i ==> #[trigger] progress@[k] == (if is_blocked(
                        snapshot@,
                        min_fee_cap,
                        k,
                    ) {
                        Progress::Invalid
                    } else {
                        Progress::Waiting
                    }),
            decreases snapshot@.len() - i,
        {
            let continues: bool = i > 0 && snapshot[i - 1].transaction_id.sender
                == snapshot[i].transaction_id.sender;
            let below: bool = snapshot[i].transaction.max_fee_per_gas < min_fee_cap as u128;
            blocked = below || (continues && blocked);
            if blocked {
                progress.push(Progress::Invalid);
            } else {
                progress.push(Progress::Waiting);
            }
            i += 1;
        }
        BestTransactions { ordering, txs: snapshot, progress, base_fee }
    }

    /// Hands out the next transaction: of those that are ready, the one
    /// that goes into a block first. None when none is ready; the stream
    /// then stays as it is.
    pub fn next(&mut self) -> (r: Option<SharedTransaction>)
        requires
            old(self).wf(),
        ensures
            final(self).wf(),
            final(self).snapshot() == old(self).snapshot(),
            final(self).ordering() == old(self).ordering(),
            final(self).fee() == old(self).fee(),
            match r {
                Some(tx) => exists|i: int|
                    #[trigger] is_next(
                        old(self).ordering(),
                        old(self).snapshot(),
                        old(self).progress(),
                        old(self).fee(),
                        i,
                    )
                        && tx == old(self).snapshot()[i]
                            && final(self).progress()
                                == old(self).progress().update(i, Progress::Yielded),
                None => final(self).progress() == old(self).progress() && forall|i: int|
                    !#[trigger] is_ready(old(self).snapshot(), old(self).progress(), i),
            },
    {
        let n: usize = self.txs.len();
        let mut best: Option<usize> = None;
        let mut i: usize = 0;
        while i < n
            invariant
                n == self.txs@.len(),
                n == self.progress@.len(),
                i <= n,
                sorted_by_id(self.txs@),
                match best {
                    Some(b) => b < i && is_ready(self.txs@, self.progress@, b as int)
                        && forall|j: int|
                        0 <= j < i && j != b && #[trigger] is_ready(self.txs@, self.progress@, j)
                            ==> better(
                            *self.ordering,
                            *self.txs@[b as int],
                            *self.txs@[j],
                            self.base_fee,
                        ),
                    None => forall|j: int|
                        0 <= j < i ==> !#[trigger] is_ready(self.txs@, self.progress@, j),
                },
            decreases n - i,
        {
            let waiting: bool = match self.progress[i] {
                Progress::Waiting => true,
                _ => false,
            };
            let continues: bool = i > 0 && self.txs[i - 1].transaction_id.sender
                == self.txs[i].transaction_id.sender;
            let ready: bool = waiting && (!continues || (self.txs[i - 1].transaction_id.nonce
                < u64::MAX && self.txs[i].transaction_id.nonce == self.txs[i
                - 1].transaction_id.nonce + 1 && match self.progress[i - 1] {
                Progress::Yielded => true,
                _ => false,
            }));
            assert(ready == is_ready(self.txs@, self.progress@, i as int));
            if ready {
                match best {
                    None => {
                        best = Some(i);
                    },
                    Some(b) => {
                        assert(self.txs@[b as int].transaction_id.before(
                            self.txs@[i as int].transaction_id,
                        ));
                        if is_better(&*self.ordering, &self.txs[i], &self.txs[b], self.base_fee) {
                            best = Some(i);
                        }
                    },
                }
            }
            i += 1;
        }
        match best {
            None => None,
            Some(b) => {
                let ghost before = self.progress@;
                self.progress[b] = Progress::Yielded;
                assert(self.progress@ == before.update(b as int, Progress::Yielded));
                assert(is_next(*self.ordering, self.txs@, before, self.base_fee, b as int));
                assert forall|i: int| 0 <= i < self.txs@.len() implies #[trigger] follows_yielded(
                    self.txs@,
                    self.progress@,
                    i,
                ) by {
                    assert(follows_yielded(self.txs@, before, i));
                }
                Some(self.txs[b].clone())
            },
        }
    }

    /// Takes `tx` out of the stream, and with it every transaction of its
    /// sender with a higher nonce. What was handed out stays handed out.
    pub fn mark_invalid(&mut self, tx: &ValidPoolTransaction)
        requires
            old(self).wf(),
        ensures
            final(self).wf(),
            final(self).snapshot() == old(self).snapshot(),
            final(self).ordering() == old(self).ordering(),
            final(self).fee() == old(self).fee(),
            final(self).progress() == invalidated(old(self).snapshot(), old(self).progress(), *tx),
    {
        let ghost before = self.progress@;
        let n: usize = self.txs.len();
        let mut i: usize = 0;
        while i < n
            invariant
                n == self.txs@.len(),
                n == self.progress@.len(),
                n == before.len(),
                i <= n,
                self.txs@ == old(self).txs@,
                self.ordering == old(self).ordering,
                self.base_fee == old(self).base_fee,
                forall|k: int|
                    0 <= k < i ==> #[trigger] self.progress@[k] == invalidated(
                        self.txs@,
                        before,
                        *tx,
                    )[k],
                forall|k: int| i <= k < n ==> #[trigger] self.progress@[k] == before[k],
            decreases n - i,
        {
            let waiting: bool = match self.progress[i] {
                Progress::Waiting => true,
                _ => false,
            };
            if waiting && self.txs[i].transaction_id.sender == tx.transaction_id.sender
                && self.txs[i].transaction_id.nonce >= tx.transaction_id.nonce {
                self.progress[i] = Progress::Invalid;
            }
            i += 1;
        }
        assert(self.progress@ =~= invalidated(self.txs@, before, *tx));
        assert forall|k: int| 0 <= k < self.txs@.len() implies #[trigger] follows_yielded(
            self.txs@,
            self.progress@,
            k,
        ) by {
            assert(follows_yielded(self.txs@, before, k));
        }
    }

    /// For each sender, the stream hands out a gapless run of nonces: when a
    /// transaction is ready, what was handed out of its sender's
    /// transactions is exactly those before it in the snapshot, their
    /// nonces rise one by one, and the ready one has the next nonce.
    pub proof fn lemma_nonce_order(&self, i: int, j: int)
        requires
            self.wf(),
            is_ready(self.snapshot(), self.progress(), j),
            0 <= i < self.snapshot().len(),
            self.snapshot()[i].transaction_id.sender == self.snapshot()[j].transaction_id.sender,
        ensures
            i < j ==> self.progress()[i] == Progress::Yielded
                && self.snapshot()[j].transaction_id.nonce - self.snapshot()[i].transaction_id.nonce
                == j - i,
            i > j ==> self.progress()[i] != Progress::Yielded,
        decreases
                (if i < j {
                    j - i
                } else {
                    i - j
                }),
    {
        let txs = self.snapshot();
        assert(follows_yielded(txs, self.progress(), i));
        if i < j {
            assert(continues_chain(txs, j)) by {
                self.lemma_run(i, j, j - 1);
            }
            if i < j - 1 {
                self.lemma_run(i, j, j - 1);
                self.lemma_yielded_back(i, j - 1);
            }
        } else if i > j {
            if self.progress()[i] == Progress::Yielded {
                self.lemma_run(j, i, i - 1);
                assert(continues_chain(txs, i));
                if i - 1 > j {
                    self.lemma_nonce_order(i - 1, j);
                }
            }
        }
    }

    /// In the id order, what stands between two transactions of one sender is of that sender.
    proof fn lemma_run(&self, lo: int, hi: int, k: int)
        requires
            self.wf(),
            0 <= lo <= k <= hi < self.snapshot().len(),
            self.snapshot()[lo].transaction_id.sender == self.snapshot()[hi].transaction_id.sender,
        ensures
            self.snapshot()[k].transaction_id.sender == self.snapshot()[lo].transaction_id.sender,
    {
        let txs = self.snapshot();
        if lo < k {
            assert(txs[lo].transaction_id.before(txs[k].transaction_id));
        }
        if k < hi {
            assert(txs[k].transaction_id.before(txs[hi].transaction_id));
        }
    }

    /// Before a transaction that was handed out, all of its sender's were
    /// handed out, and their nonces rise one by one.
    proof fn lemma_yielded_back(&self, i: int, j: int)
        requires
            self.wf(),
            0 <= i <= j < self.snapshot().len(),
            self.progress()[j] == Progress::Yielded,
            self.snapshot()[i].transaction_id.sender == self.snapshot()[j].transaction_id.sender,
        ensures
            self.progress()[i] == Progress::Yielded,
            self.snapshot()[j].transaction_id.nonce - self.snapshot()[i].transaction_id.nonce == j
                - i,
        decreases j - i,
    {
        if i < j {
            self.lemma_run(i, j, j - 1);
            assert(continues_chain(self.snapshot(), j));
            assert(follows_yielded(self.snapshot(), self.progress(), j));
            self.lemma_yielded_back(i, j - 1);
        }
    }
}

} // verus!
