use std::sync::Arc;
use transaction_pool::config::PoolConfig;
use transaction_pool::identifier::SenderId;
use transaction_pool::pool::best::BestTransactions;
use transaction_pool::pool::txpool::TxPool;
use transaction_pool::primitives::{Address, TransactionKind, B256, U256};
use transaction_pool::state::BlockInfo;
use transaction_pool::transaction::{
    Priority, TransactionOrdering, is_better, 
    GasCostOrdering, PooledTransaction, TransactionOrigin, ValidPoolTransaction,
};

fn make(sender: u64, nonce: u64, cap: u128, tip: Option<u128>, time: u64) -> ValidPoolTransaction {
    ValidPoolTransaction::new(
        PooledTransaction {
            hash: B256 { hi: sender as u128, lo: nonce as u128 },
            sender: Address { hi: 0, lo: sender as u128 },
            nonce,
            gas_limit: 1,
            max_fee_per_gas: cap,
            max_priority_fee_per_gas: tip,
            max_fee_per_blob_gas: None,
            blob_versioned_hashes: Vec::new(),
            kind: TransactionKind::Create,
            value: U256 { hi: 0, lo: 0 },
            input: Vec::new(),
            encoded_length: 1,
        },
        SenderId(sender),
        true,
        time,
        TransactionOrigin::External,
    )
}

fn drain(best: &mut BestTransactions<GasCostOrdering>) -> Vec<(u64, u64)> {
    let mut out = Vec::new();
    while let Some(t) = best.next() {
        out.push((t.sender_id().0, t.nonce()));
    }
    out
}

fn pool_with(txs: Vec<ValidPoolTransaction>, base_fee: u64) -> TxPool<GasCostOrdering> {
    let mut config = PoolConfig::default();
    config.minimal_protocol_basefee = 0;
    let mut pool = TxPool::new(GasCostOrdering, config);
    pool.set_block_info(BlockInfo {
        last_seen_block_hash: B256 { hi: 0, lo: 0 },
        last_seen_block_number: 0,
        pending_basefee: base_fee,
    });
    for t in txs {
        assert!(pool.add_transaction(t, U256 { hi: 1, lo: 0 }, 0).is_ok());
    }
    pool
}

#[test]
fn best_first_and_each_sender_by_rising_nonce() {
    let pool = pool_with(
        vec![
            make(1, 0, 100, Some(1), 0),
            make(1, 1, 100, Some(50), 0),
            make(1, 2, 100, Some(2), 0),
            make(2, 0, 100, Some(10), 0),
            make(2, 1, 100, Some(3), 0),
            make(3, 0, 100, Some(5), 0),
        ],
        10,
    );
    let mut best = pool.best_transactions();
    // ready: 1/0 (tip 1), 2/0 (10), 3/0 (5)
    assert_eq!(
        drain(&mut best),
        vec![(2, 0), (3, 0), (2, 1), (1, 0), (1, 1), (1, 2)]
    );
    assert!(best.next().is_none());
}

#[test]
fn yielded_nonces_of_one_sender_rise_without_gaps() {
    let mut txs = Vec::new();
    for sender in 1..5u64 {
        for nonce in 0..6u64 {
            txs.push(make(sender, nonce, 1000, Some(((sender * 7 + nonce * 13) % 10) as u128), 0));
        }
    }
    let pool = pool_with(txs, 1);
    let mut best = pool.best_transactions();
    let yielded = drain(&mut best);
    assert_eq!(yielded.len(), 24);
    for sender in 1..5u64 {
        let nonces: Vec<u64> =
            yielded.iter().filter(|(s, _)| *s == sender).map(|(_, n)| *n).collect();
        assert_eq!(nonces, vec![0, 1, 2, 3, 4, 5]);
    }
}

#[test]
fn ties_go_to_the_earlier_timestamp_then_the_lower_id() {
    let pool = pool_with(
        vec![
            make(1, 0, 100, Some(5), 9),
            make(2, 0, 100, Some(5), 3),
            make(3, 0, 100, Some(5), 3),
        ],
        0,
    );
    let mut best = pool.best_transactions();
    assert_eq!(drain(&mut best), vec![(2, 0), (3, 0), (1, 0)]);
    let a = make(1, 0, 100, Some(5), 9);
    let b = make(2, 0, 100, Some(5), 3);
    assert!(is_better(&GasCostOrdering, &b, &a, 0));
    assert!(!is_better(&GasCostOrdering, &a, &b, 0));
    assert!(!is_better(&GasCostOrdering, &a, &a, 0));
}

#[test]
fn effective_tip_decides_not_the_priority_fee() {
    // cap 12 under base fee 10 leaves a tip of 2, whatever the priority fee
    let pool = pool_with(vec![make(1, 0, 12, Some(100), 0), make(2, 0, 100, Some(3), 0)], 10);
    let mut best = pool.best_transactions();
    assert_eq!(drain(&mut best), vec![(2, 0), (1, 0)]);
}

#[test]
fn mark_invalid_takes_out_the_transaction_and_what_follows() {
    let pool = pool_with(
        vec![
            make(1, 0, 100, Some(9), 0),
            make(1, 1, 100, Some(9), 0),
            make(1, 2, 100, Some(9), 0),
            make(2, 0, 100, Some(1), 0),
            make(2, 1, 100, Some(1), 0),
        ],
        0,
    );
    let mut best = pool.best_transactions();
    let first = best.next().unwrap();
    assert_eq!((first.sender_id().0, first.nonce()), (1, 0));
    best.mark_invalid(&make(1, 1, 100, Some(9), 0));
    assert_eq!(drain(&mut best), vec![(2, 0), (2, 1)]);
}

#[test]
fn with_base_fee_leaves_out_what_cannot_pay_and_what_follows() {
    let pool = pool_with(
        vec![
            make(1, 0, 100, Some(1), 0),
            make(1, 1, 20, Some(1), 0),
            make(1, 2, 100, Some(1), 0),
            make(2, 0, 30, Some(5), 0),
            make(3, 0, 29, Some(9), 0),
        ],
        10,
    );
    let mut best = pool.best_transactions_with_base_fee(30);
    // 1/1 and 3/0 have caps below 30; 1/2 follows 1/1; under the pending
    // base fee of 10 the tip of 2/0 is 5, that of 1/0 is 1
    assert_eq!(drain(&mut best), vec![(2, 0), (1, 0)]);
    let mut plain = pool.best_transactions();
    assert_eq!(drain(&mut plain).len(), 5);
}

#[test]
fn a_snapshot_with_a_gap_stops_at_the_gap() {
    let snapshot = vec![
        Arc::new(make(1, 0, 100, Some(1), 0)),
        Arc::new(make(1, 2, 100, Some(1), 0)),
        Arc::new(make(2, 5, 100, Some(1), 0)),
    ];
    let mut best = BestTransactions::new(snapshot, Arc::new(GasCostOrdering), 0, 0);
    assert_eq!(drain(&mut best), vec![(1, 0), (2, 5)]);
}

#[test]
fn later_changes_of_the_pool_do_not_reach_the_stream() {
    let mut pool = pool_with(vec![make(1, 0, 100, Some(1), 0), make(1, 1, 100, Some(1), 0)], 0);
    let mut best = pool.best_transactions();
    let removed = pool.remove_transactions(&vec![B256 { hi: 1, lo: 0 }]);
    assert_eq!(removed.len(), 1);
    assert!(pool.add_transaction(make(9, 0, 100, Some(99), 0), U256 { hi: 1, lo: 0 }, 0).is_ok());
    assert_eq!(drain(&mut best), vec![(1, 0), (1, 1)]);
}

struct ByGasLimit;

impl TransactionOrdering for ByGasLimit {
    fn priority_of(&self, tx: ValidPoolTransaction, base_fee: u64) -> Priority {
        self.priority(&tx, base_fee)
    }

    fn priority(&self, tx: &ValidPoolTransaction, _base_fee: u64) -> Priority {
        if tx.gas_limit() == 0 {
            Priority::Lowest
        } else {
            Priority::Value(tx.gas_limit() as u128)
        }
    }
}

#[test]
fn another_ordering_can_be_plugged_in() {
    let mut config = PoolConfig::default();
    config.pending_limit.max_txs = 2;
    let mut pool = TxPool::new(ByGasLimit, config);
    let with_gas = |sender: u64, gas: u64, tip: u128| {
        let mut t = make(sender, 0, 100, Some(tip), 0);
        t.transaction.gas_limit = gas;
        t
    };
    assert!(pool.add_transaction(with_gas(1, 5, 90), U256 { hi: 1, lo: 0 }, 0).is_ok());
    assert!(pool.add_transaction(with_gas(2, 9, 1), U256 { hi: 1, lo: 0 }, 0).is_ok());
    assert!(pool.add_transaction(with_gas(3, 7, 50), U256 { hi: 1, lo: 0 }, 0).is_ok());
    let mut best = pool.best_transactions();
    let mut order = Vec::new();
    while let Some(t) = best.next() {
        order.push(t.sender_id().0);
    }
    assert_eq!(order, vec![2, 3, 1]);
    // the one with the least gas goes first when the sub-pool is over its bound
    let gone = pool.discard_worst();
    assert_eq!(gone.len(), 1);
    assert_eq!(gone[0].sender_id().0, 1);
    assert!(Priority::Value(0).is_above(&Priority::Lowest));
    assert!(!Priority::Lowest.is_above(&Priority::Lowest));
    assert!(Priority::Value(2).is_above(&Priority::Value(1)));
    assert_eq!(GasCostOrdering.priority(&make(1, 0, 12, Some(100), 0), 10), Priority::Value(2));
    assert_eq!(GasCostOrdering.priority(&make(1, 0, 9, Some(100), 0), 10), Priority::Lowest);
}

#[test]
fn the_base_fee_stream_is_a_part_of_the_plain_stream_in_the_same_order() {
    // pending base fee 10: the effective tips are 10 and 20
    let pool = pool_with(vec![make(1, 0, 100, Some(10), 0), make(2, 0, 40, Some(20), 0)], 10);
    let mut plain = pool.best_transactions();
    assert_eq!(drain(&mut plain), vec![(2, 0), (1, 0)]);
    let mut filtered = pool.best_transactions_with_base_fee(35);
    assert_eq!(drain(&mut filtered), vec![(2, 0), (1, 0)]);
    let mut narrow = pool.best_transactions_with_base_fee(41);
    assert_eq!(drain(&mut narrow), vec![(1, 0)]);
    let mut none = pool.best_transactions_with_base_fee(101);
    assert!(drain(&mut none).is_empty());
}
