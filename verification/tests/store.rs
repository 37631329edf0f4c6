use std::sync::Arc;
use transaction_pool::config::{PoolConfig, SubPoolLimit};
use transaction_pool::identifier::{SenderId, TransactionId};
use transaction_pool::pool::store::{find_position, SubPoolStore};
use transaction_pool::pool::txpool::{list_has, TxPool};
use transaction_pool::primitives::{Address, TransactionKind, B256, U256};
use transaction_pool::state::SubPool;
use transaction_pool::transaction::{
    GasCostOrdering, PooledTransaction, SharedTransaction, TransactionOrigin, ValidPoolTransaction,
};

fn shared(sender: u64, nonce: u64, cap: u128, tip: u128, size: usize, local: bool) -> SharedTransaction {
    Arc::new(ValidPoolTransaction::new(
        PooledTransaction {
            hash: B256 { hi: sender as u128, lo: nonce as u128 },
            sender: Address { hi: 0, lo: sender as u128 },
            nonce,
            gas_limit: 1,
            max_fee_per_gas: cap,
            max_priority_fee_per_gas: Some(tip),
            max_fee_per_blob_gas: None,
            blob_versioned_hashes: Vec::new(),
            kind: TransactionKind::Create,
            value: U256 { hi: 0, lo: 0 },
            input: Vec::new(),
            encoded_length: size,
        },
        SenderId(sender),
        true,
        0,
        if local { TransactionOrigin::Local } else { TransactionOrigin::External },
    ))
}

fn id(sender: u64, nonce: u64) -> TransactionId {
    TransactionId { sender: SenderId(sender), nonce }
}

fn ids(store: &SubPoolStore) -> Vec<(u64, u64)> {
    store.transactions().iter().map(|t| (t.sender_id().0, t.nonce())).collect()
}

#[test]
fn store_keeps_id_order_and_size() {
    let mut store = SubPoolStore::new(SubPool::Pending);
    assert!(store.is_empty());
    assert_eq!(store.size_bytes(), 0);
    store.insert(shared(2, 0, 100, 5, 10, false));
    store.insert(shared(1, 3, 100, 9, 20, false));
    store.insert(shared(1, 1, 100, 1, 30, false));
    store.insert(shared(3, 0, 100, 7, 40, true));
    assert_eq!(ids(&store), vec![(1, 1), (1, 3), (2, 0), (3, 0)]);
    assert_eq!(store.len(), 4);
    assert_eq!(store.size_bytes(), 100);
    assert!(store.contains(&id(1, 3)));
    assert!(!store.contains(&id(1, 2)));
    assert_eq!(store.get(&id(2, 0)).unwrap().size(), 10);
    assert!(store.get(&id(2, 1)).is_none());
    assert!(!store.exceeds(&SubPoolLimit { max_txs: 4, max_size: 100 }));
    assert!(store.exceeds(&SubPoolLimit { max_txs: 3, max_size: 100 }));
    assert!(store.exceeds(&SubPoolLimit { max_txs: 4, max_size: 99 }));

    let removed = store.remove(&id(1, 3)).unwrap();
    assert_eq!(removed.nonce(), 3);
    assert!(store.remove(&id(1, 3)).is_none());
    assert_eq!(ids(&store), vec![(1, 1), (2, 0), (3, 0)]);
    assert_eq!(store.size_bytes(), 80);
    assert_eq!(find_position(&store.transactions(), &id(1, 2)), 1);
    assert_eq!(find_position(&store.transactions(), &id(0, 0)), 0);
    assert_eq!(find_position(&store.transactions(), &id(9, 0)), 3);
    assert_eq!(find_position(&store.transactions(), &id(2, 0)), 1);
}

#[test]
fn store_best_and_worst() {
    let mut store = SubPoolStore::new(SubPool::Pending);
    assert!(store.best(&GasCostOrdering, 0).is_none());
    assert!(store.worst(&GasCostOrdering, 0).is_none());
    store.insert(shared(1, 0, 100, 5, 1, false));
    store.insert(shared(2, 0, 100, 9, 1, false));
    store.insert(shared(3, 0, 100, 1, 1, true));
    store.insert(shared(4, 0, 100, 3, 1, false));
    let (place, best) = store.best(&GasCostOrdering, 0).unwrap();
    assert_eq!((place, best.sender_id().0), (1, 2));
    // the local one pays least, but locals leave last
    let (place, worst) = store.worst(&GasCostOrdering, 0).unwrap();
    assert_eq!((place, worst.sender_id().0), (3, 4));
    // under a base fee of 95 every tip is cut to 5: the earliest id is best
    let (_, best) = store.best(&GasCostOrdering, 95).unwrap();
    assert_eq!(best.sender_id().0, 1);

    let mut parked = SubPoolStore::new(SubPool::BaseFee);
    parked.insert(shared(1, 0, 30, 1, 1, false));
    parked.insert(shared(2, 0, 10, 1, 1, false));
    parked.insert(shared(3, 0, 20, 1, 1, false));
    assert_eq!(parked.worst(&GasCostOrdering, 0).unwrap().1.sender_id().0, 2);

    let mut queued = SubPoolStore::new(SubPool::Queued);
    queued.insert(shared(1, 5, 30, 1, 1, false));
    queued.insert(shared(2, 9, 10, 1, 1, false));
    queued.insert(shared(2, 7, 20, 1, 1, false));
    let (_, worst) = queued.worst(&GasCostOrdering, 0).unwrap();
    assert_eq!((worst.sender_id().0, worst.nonce()), (2, 9));
}

#[test]
fn queries_by_id_and_hash() {
    let mut pool = TxPool::new(GasCostOrdering, PoolConfig::default());
    let make = |sender: u64, nonce: u64| {
        ValidPoolTransaction::new(
            PooledTransaction {
                hash: B256 { hi: sender as u128, lo: nonce as u128 },
                sender: Address { hi: 0, lo: sender as u128 },
                nonce,
                gas_limit: 1,
                max_fee_per_gas: 100,
                max_priority_fee_per_gas: Some(1),
                max_fee_per_blob_gas: None,
                blob_versioned_hashes: Vec::new(),
                kind: TransactionKind::Create,
                value: U256 { hi: 0, lo: 0 },
                input: Vec::new(),
                encoded_length: 1,
            },
            SenderId(sender),
            true,
            0,
            TransactionOrigin::External,
        )
    };
    assert!(pool.add_transaction(make(2, 0), U256 { hi: 0, lo: 1000 }, 0).is_ok());
    assert!(pool.add_transaction(make(1, 1), U256 { hi: 0, lo: 1000 }, 0).is_ok());
    assert_eq!(pool.get_by_id(&id(1, 1)).unwrap().hash(), B256 { hi: 1, lo: 1 });
    assert!(pool.get_by_id(&id(1, 0)).is_none());
    assert_eq!(pool.get(&B256 { hi: 2, lo: 0 }).unwrap().id(), id(2, 0));
    assert!(pool.get(&B256 { hi: 2, lo: 1 }).is_none());
    assert!(pool.contains(&B256 { hi: 1, lo: 1 }));
    assert_eq!(pool.get_all(&vec![B256 { hi: 2, lo: 0 }, B256 { hi: 7, lo: 7 }]).len(), 1);
    assert_eq!(pool.get_transactions_by_sender(SenderId(1)).len(), 1);
    assert_eq!(pool.get_transactions_by_sender(SenderId(3)).len(), 0);
    assert_eq!(pool.unique_senders(), vec![Address { hi: 0, lo: 1 }, Address { hi: 0, lo: 2 }]);
    assert_eq!(pool.count_sender(SenderId(2)), 1);
    assert_eq!(pool.config().price_bump, 10);
    assert_eq!(pool.block_info().pending_basefee, 7);
    assert!(list_has(&vec![B256 { hi: 1, lo: 1 }], &B256 { hi: 1, lo: 1 }));
    assert!(!list_has(&vec![B256 { hi: 1, lo: 1 }], &B256 { hi: 1, lo: 2 }));
}
