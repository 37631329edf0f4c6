use transaction_pool::config::PoolConfig;
use transaction_pool::error::{InvalidPoolTransactionError, PoolError};
use transaction_pool::identifier::{SenderId, TransactionId};
use transaction_pool::pool::events::TransactionEvent;
use transaction_pool::pool::txpool::TxPool;
use transaction_pool::pool::{AddedTransaction, CanonicalStateUpdate, PoolInner};
use transaction_pool::primitives::{Address, TransactionKind, B256, U256};
use transaction_pool::state::{BlockInfo, ChangedAccount, SenderInfo, SubPool};
use transaction_pool::transaction::{GasCostOrdering, 
    PooledTransaction, TransactionOrigin, TransactionValidationOutcome, ValidPoolTransaction,
};

fn addr(n: u128) -> Address {
    Address { hi: 0, lo: n }
}

fn hash(n: u128) -> B256 {
    B256 { hi: 0, lo: n }
}

fn amount(n: u128) -> U256 {
    U256 { hi: 0, lo: n }
}

fn raw(sender: u128, nonce: u64, h: u128, cap: u128, tip: u128, size: usize) -> PooledTransaction {
    PooledTransaction {
        hash: hash(h),
        sender: addr(sender),
        nonce,
        gas_limit: 10,
        max_fee_per_gas: cap,
        max_priority_fee_per_gas: Some(tip),
        max_fee_per_blob_gas: None,
        blob_versioned_hashes: Vec::new(),
        kind: TransactionKind::Create,
        value: amount(0),
        input: Vec::new(),
        encoded_length: size,
    }
}

fn pooled(sender: u64, nonce: u64, h: u128, cap: u128, tip: u128) -> ValidPoolTransaction {
    ValidPoolTransaction::new(
        raw(sender as u128, nonce, h, cap, tip, 50),
        SenderId(sender),
        true,
        h as u64,
        TransactionOrigin::External,
    )
}

fn local(sender: u64, nonce: u64, h: u128, cap: u128, tip: u128) -> ValidPoolTransaction {
    ValidPoolTransaction::new(
        raw(sender as u128, nonce, h, cap, tip, 50),
        SenderId(sender),
        true,
        h as u64,
        TransactionOrigin::Local,
    )
}

fn valid(t: PooledTransaction, balance: u128, state_nonce: u64) -> TransactionValidationOutcome {
    TransactionValidationOutcome::Valid {
        balance: amount(balance),
        state_nonce,
        transaction: t,
        propagate: true,
    }
}

fn hashes(txs: &[std::sync::Arc<ValidPoolTransaction>]) -> Vec<u128> {
    txs.iter().map(|t| t.hash().lo).collect()
}

fn subpool(pool: &TxPool<GasCostOrdering>, sender: u64, nonce: u64) -> Option<SubPool> {
    pool.subpool_of(&TransactionId { sender: SenderId(sender), nonce })
}

fn mixed_pool() -> TxPool<GasCostOrdering> {
    let mut pool = TxPool::new(GasCostOrdering, PoolConfig::default());
    pool.set_block_info(BlockInfo {
        last_seen_block_hash: hash(0),
        last_seen_block_number: 0,
        pending_basefee: 20,
    });
    // sender 1: gapless chain 0, 1, 2 with the middle one below the base fee
    assert!(pool.add_transaction(pooled(1, 0, 10, 100, 1), amount(1_000_000), 0).is_ok());
    assert!(pool.add_transaction(pooled(1, 1, 11, 15, 1), amount(1_000_000), 0).is_ok());
    assert!(pool.add_transaction(pooled(1, 2, 12, 100, 1), amount(1_000_000), 0).is_ok());
    // sender 2: a gap at nonce 4
    assert!(pool.add_transaction(pooled(2, 3, 23, 100, 1), amount(1_000_000), 3).is_ok());
    assert!(pool.add_transaction(pooled(2, 5, 25, 100, 1), amount(1_000_000), 3).is_ok());
    // sender 3: the second transaction is beyond the balance
    assert!(pool.add_transaction(pooled(3, 0, 30, 100, 1), amount(1_500), 0).is_ok());
    assert!(pool.add_transaction(pooled(3, 1, 31, 100, 1), amount(1_500), 0).is_ok());
    pool
}

#[test]
fn classification_follows_gap_funds_and_fee_cap() {
    let pool = mixed_pool();
    assert_eq!(subpool(&pool, 1, 0), Some(SubPool::Pending));
    assert_eq!(subpool(&pool, 1, 1), Some(SubPool::BaseFee));
    assert_eq!(subpool(&pool, 1, 2), Some(SubPool::Pending));
    assert_eq!(subpool(&pool, 2, 3), Some(SubPool::Pending));
    assert_eq!(subpool(&pool, 2, 5), Some(SubPool::Queued));
    // cost of each is 10 * 100 = 1000; the cumulative cost of the second is 2000 > 1500
    assert_eq!(subpool(&pool, 3, 0), Some(SubPool::Pending));
    assert_eq!(subpool(&pool, 3, 1), Some(SubPool::Queued));
    assert_eq!(subpool(&pool, 3, 2), None);
}

#[test]
fn cumulative_cost_at_the_balance_is_still_funded() {
    let mut pool = TxPool::new(GasCostOrdering, PoolConfig::default());
    assert!(pool.add_transaction(pooled(3, 0, 30, 100, 1), amount(2_000), 0).is_ok());
    assert!(pool.add_transaction(pooled(3, 1, 31, 100, 1), amount(2_000), 0).is_ok());
    assert!(pool.add_transaction(pooled(3, 2, 32, 100, 1), amount(2_000), 0).is_ok());
    assert_eq!(subpool(&pool, 3, 1), Some(SubPool::Pending));
    assert_eq!(subpool(&pool, 3, 2), Some(SubPool::Queued));
}

#[test]
fn sub_pools_part_the_pool() {
    let pool = mixed_pool();
    let pending = hashes(&pool.pending_transactions());
    let parked = hashes(&pool.queued_transactions());
    let mut all = hashes(&pool.all_transactions());
    assert_eq!(pending, vec![10, 12, 23, 30]);
    assert_eq!(parked, vec![11, 25, 31]);
    for h in &pending {
        assert!(!parked.contains(h));
    }
    let mut union: Vec<u128> = pending.iter().chain(parked.iter()).cloned().collect();
    union.sort();
    all.sort();
    assert_eq!(union, all);
    let size = pool.size();
    assert_eq!(size.pending + size.basefee + size.queued, pool.len());
    assert_eq!((size.pending, size.basefee, size.queued), (4, 1, 2));
    assert_eq!((size.pending_size, size.basefee_size, size.queued_size), (200, 50, 100));
}

#[test]
fn pending_transactions_have_no_gap_behind_them() {
    let pool = mixed_pool();
    for t in pool.pending_transactions() {
        let sender = t.sender_id();
        let state_nonce = pool.sender_info(sender).unwrap().state_nonce;
        for nonce in state_nonce..t.nonce() {
            let before = pool.subpool_of(&TransactionId { sender, nonce });
            assert!(before == Some(SubPool::Pending) || before == Some(SubPool::BaseFee));
        }
    }
}

#[test]
fn replacement_pays_ten_percent_on_cap_and_tip() {
    let cases: Vec<(u128, u128, bool)> = vec![
        (110, 11, true),
        (109, 11, false),
        (110, 10, false),
        (200, 50, true),
        (100, 10, false),
    ];
    for (cap, tip, accepted) in cases {
        let mut pool = TxPool::new(GasCostOrdering, PoolConfig::default());
        assert!(pool.add_transaction(pooled(1, 0, 1, 100, 10), amount(1_000_000), 0).is_ok());
        let r = pool.add_transaction(pooled(1, 0, 2, cap, tip), amount(1_000_000), 0);
        match r {
            Ok(added) => {
                assert!(accepted);
                assert!(cap * 10 >= 100 * 11 && tip * 10 >= 10 * 11);
                let replaced = match added {
                    AddedTransaction::Pending(p) => p.replaced,
                    AddedTransaction::Parked { replaced, .. } => replaced,
                };
                assert_eq!(replaced.unwrap().hash(), hash(1));
                assert!(pool.contains(&hash(2)));
                assert!(!pool.contains(&hash(1)));
            }
            Err(e) => {
                assert!(!accepted);
                assert_eq!(e, PoolError::ReplacementUnderpriced(hash(2)));
                assert!(pool.contains(&hash(1)));
                assert_eq!(pool.len(), 1);
            }
        }
    }
}

#[test]
fn replacement_without_priority_fee_counts_the_fee_cap() {
    let mut pool = TxPool::new(GasCostOrdering, PoolConfig::default());
    let mut legacy = raw(1, 0, 1, 100, 0, 50);
    legacy.max_priority_fee_per_gas = None;
    let first =
        ValidPoolTransaction::new(legacy, SenderId(1), true, 0, TransactionOrigin::External);
    assert!(pool.add_transaction(first, amount(1_000_000), 0).is_ok());
    // the tip 109 is below 1.1 times the old price of 100
    let r = pool.add_transaction(pooled(1, 0, 2, 200, 109), amount(1_000_000), 0);
    assert_eq!(r.err(), Some(PoolError::ReplacementUnderpriced(hash(2))));
    let r = pool.add_transaction(pooled(1, 0, 3, 200, 110), amount(1_000_000), 0);
    assert!(r.is_ok());
}

#[test]
fn size_bounds_hold_after_every_batch() {
    let mut config = PoolConfig::default();
    config.pending_limit.max_txs = 3;
    config.queued_limit.max_txs = 2;
    config.basefee_limit.max_size = 120;
    let mut pool = PoolInner::new(GasCostOrdering, config);
    pool.set_block_info(BlockInfo {
        last_seen_block_hash: hash(0),
        last_seen_block_number: 0,
        pending_basefee: 50,
    });
    let mut next = 0u128;
    for round in 0..6u64 {
        let mut batch = Vec::new();
        for sender in 1..6u128 {
            next += 1;
            // pending: senders 1, 2; base fee: 3; queued (gap): 4, 5
            let cap = if sender == 3 { 10 } else { 100 + next };
            let nonce = if sender >= 4 { round + 1 } else { round };
            batch.push(valid(raw(sender, nonce, next, cap, next, 50), 10_000_000, 0));
        }
        let results = pool.add_transactions(TransactionOrigin::External, batch, round);
        assert_eq!(results.len(), 5);
        let size = pool.size();
        assert!(size.pending <= 3);
        assert!(size.queued <= 2);
        assert!(size.basefee_size <= 120);
        assert_eq!(size.pending + size.basefee + size.queued, pool.len());
        for r in results {
            match r {
                Ok(h) => assert!(pool.get(&h).is_some()),
                Err(PoolError::DiscardedOnInsert(h)) => assert!(pool.get(&h).is_none()),
                Err(other) => panic!("unexpected error {:?}", other),
            }
        }
    }
}

#[test]
fn a_transaction_evicted_in_its_own_batch_is_reported_as_discarded() {
    let mut config = PoolConfig::default();
    config.pending_limit.max_txs = 1;
    let mut pool = PoolInner::new(GasCostOrdering, config);
    let results = pool.add_transactions(
        TransactionOrigin::External,
        vec![
            valid(raw(1, 0, 1, 100, 9, 50), 1_000_000, 0),
            valid(raw(2, 0, 2, 100, 3, 50), 1_000_000, 0),
        ],
        0,
    );
    assert_eq!(results, vec![Ok(hash(1)), Err(PoolError::DiscardedOnInsert(hash(2)))]);
    assert_eq!(pool.len(), 1);
}

#[test]
fn undoing_a_state_update_restores_the_partition() {
    let mut pool = PoolInner::new(GasCostOrdering, PoolConfig::default());
    pool.set_block_info(BlockInfo {
        last_seen_block_hash: hash(0),
        last_seen_block_number: 0,
        pending_basefee: 20,
    });
    let batch = vec![
        valid(raw(1, 0, 10, 100, 1, 50), 1_000_000, 0),
        valid(raw(1, 1, 11, 15, 1, 50), 1_000_000, 0),
        valid(raw(1, 2, 12, 100, 1, 50), 1_000_000, 0),
        valid(raw(2, 1, 21, 100, 1, 50), 1_000_000, 0),
    ];
    let r = pool.add_transactions(TransactionOrigin::External, batch, 0);
    assert!(r.iter().all(|x| x.is_ok()));
    let pending_before = hashes(&pool.pending_transactions());
    let parked_before = hashes(&pool.queued_transactions());
    let size_before = pool.size();
    assert_eq!(pending_before, vec![10, 12]);
    assert_eq!(parked_before, vec![11, 21]);

    pool.on_canonical_state_change(CanonicalStateUpdate {
        hash: hash(1),
        number: 1,
        pending_block_base_fee: 10,
        changed_accounts: vec![
            ChangedAccount { address: addr(1), nonce: 1, balance: amount(500) },
            ChangedAccount { address: addr(2), nonce: 1, balance: amount(1_000_000) },
        ],
        mined_transactions: vec![hash(10)],
        timestamp: 0,
    });
    // 11 is now the sender's next and covered; 12 is beyond the balance of 500
    assert_eq!(hashes(&pool.pending_transactions()), vec![11, 21]);
    assert_eq!(hashes(&pool.queued_transactions()), vec![12]);

    pool.on_canonical_state_change(CanonicalStateUpdate {
        hash: hash(0),
        number: 0,
        pending_block_base_fee: 20,
        changed_accounts: vec![
            ChangedAccount { address: addr(1), nonce: 0, balance: amount(1_000_000) },
            ChangedAccount { address: addr(2), nonce: 0, balance: amount(1_000_000) },
        ],
        mined_transactions: Vec::new(),
        timestamp: 0,
    });
    let r = pool.add_transactions(
        TransactionOrigin::External,
        vec![valid(raw(1, 0, 10, 100, 1, 50), 1_000_000, 0)],
        5,
    );
    assert_eq!(r, vec![Ok(hash(10))]);
    assert_eq!(hashes(&pool.pending_transactions()), pending_before);
    assert_eq!(hashes(&pool.queued_transactions()), parked_before);
    assert_eq!(pool.size(), size_before);
}

#[test]
fn adding_a_resident_hash_again_changes_nothing() {
    let mut pool = PoolInner::new(GasCostOrdering, PoolConfig::default());
    let r = pool.add_transactions(
        TransactionOrigin::External,
        vec![valid(raw(1, 0, 10, 100, 1, 50), 1_000_000, 0)],
        0,
    );
    assert_eq!(r, vec![Ok(hash(10))]);
    let mut events = pool.add_all_transactions_event_listener();
    let size = pool.size();
    // the same hash, under another sender and nonce
    let r = pool.add_transactions(
        TransactionOrigin::Local,
        vec![valid(raw(9, 4, 10, 500, 50, 70), 5, 4)],
        1,
    );
    assert_eq!(r, vec![Err(PoolError::AlreadyImported(hash(10)))]);
    assert_eq!(pool.get_sender_id(addr(77)).0, 1);
    assert_eq!(pool.size(), size);
    assert_eq!(pool.len(), 1);
    assert_eq!(pool.get(&hash(10)).unwrap().sender(), addr(1));
    assert!(pool.unique_senders() == vec![addr(1)]);
    assert!(events.events.try_recv().is_err());
}

#[test]
fn nonce_below_the_state_nonce_is_rejected() {
    let mut pool = TxPool::new(GasCostOrdering, PoolConfig::default());
    let r = pool.add_transaction(pooled(1, 4, 1, 100, 1), amount(1_000_000), 5);
    assert_eq!(
        r.err(),
        Some(PoolError::NonceTooLow { hash: hash(1), sender: addr(1), nonce: 4, state_nonce: 5 })
    );
    assert!(pool.is_empty());
    assert!(pool.sender_info(SenderId(1)).is_none());
}

#[test]
fn known_sender_state_is_not_overwritten_by_admission() {
    let mut pool = TxPool::new(GasCostOrdering, PoolConfig::default());
    assert!(pool.add_transaction(pooled(1, 5, 1, 100, 1), amount(1_000_000), 5).is_ok());
    // the validator now reports nonce 7, but the pool goes by what it knows
    let r = pool.add_transaction(pooled(1, 6, 2, 100, 1), amount(3), 7);
    assert!(r.is_ok());
    assert_eq!(
        pool.sender_info(SenderId(1)),
        Some(SenderInfo { state_nonce: 5, balance: amount(1_000_000) })
    );
    assert_eq!(subpool(&pool, 1, 6), Some(SubPool::Pending));
}

#[test]
fn slot_cap_evicts_the_last_non_local_or_rejects() {
    let mut config = PoolConfig::default();
    config.max_account_slots = 2;
    let mut pool = TxPool::new(GasCostOrdering, config);
    assert!(pool.add_transaction(pooled(1, 0, 1, 100, 1), amount(1_000_000), 0).is_ok());
    assert!(pool.add_transaction(pooled(1, 2, 3, 100, 1), amount(1_000_000), 0).is_ok());
    // a higher nonce that is not local would itself be the worst: rejected
    let r = pool.add_transaction(pooled(1, 3, 4, 100, 1), amount(1_000_000), 0);
    assert_eq!(r.err(), Some(PoolError::SpammerExceededCap(addr(1))));
    assert_eq!(pool.len(), 2);
    // a lower nonce pushes the last one out
    let r = pool.add_transaction(pooled(1, 1, 2, 100, 1), amount(1_000_000), 0);
    match r {
        Ok(AddedTransaction::Pending(p)) => {
            assert_eq!(p.discarded, vec![hash(3)]);
            assert!(p.replaced.is_none());
            assert!(p.promoted.is_empty());
        }
        other => panic!("unexpected {:?}", other),
    }
    assert_eq!(hashes(&pool.all_transactions()), vec![1, 2]);
    assert_eq!(pool.count_sender(SenderId(1)), 2);
    // a local one pushes the last non-local one out whatever its nonce
    let r = pool.add_transaction(local(1, 7, 8, 100, 1), amount(1_000_000), 0);
    assert!(r.is_ok());
    assert_eq!(hashes(&pool.all_transactions()), vec![1, 8]);
    let r = pool.add_transaction(local(1, 8, 9, 100, 1), amount(1_000_000), 0);
    assert!(r.is_ok());
    assert_eq!(hashes(&pool.all_transactions()), vec![8, 9]);
    // now all of the sender's are local: nothing gives way
    let r = pool.add_transaction(local(1, 9, 10, 100, 1), amount(1_000_000), 0);
    assert_eq!(r.err(), Some(PoolError::SpammerExceededCap(addr(1))));
    // a replacement needs no slot
    let r = pool.add_transaction(local(1, 8, 11, 200, 2), amount(1_000_000), 0);
    assert!(r.is_ok());
    assert_eq!(hashes(&pool.all_transactions()), vec![8, 11]);
}

#[test]
fn invalid_and_failed_validation_are_reported_and_discarded() {
    let mut pool = PoolInner::new(GasCostOrdering, PoolConfig::default());
    let mut events = pool.add_all_transactions_event_listener();
    let r = pool.add_transactions(
        TransactionOrigin::External,
        vec![
            TransactionValidationOutcome::Invalid(
                raw(1, 0, 1, 1, 1, 1),
                InvalidPoolTransactionError::Other("bad".to_string()),
            ),
            TransactionValidationOutcome::Error(hash(2), "io".to_string()),
        ],
        0,
    );
    assert_eq!(
        r,
        vec![
            Err(PoolError::InvalidTransaction(
                hash(1),
                InvalidPoolTransactionError::Other("bad".to_string()),
            )),
            Err(PoolError::Other(hash(2), "io".to_string())),
        ]
    );
    assert!(pool.is_empty());
    assert_eq!(events.events.try_recv().unwrap().hash, hash(1));
    assert_eq!(events.events.try_recv().unwrap().hash, hash(2));
    assert!(events.events.try_recv().is_err());
}

#[test]
fn removing_a_transaction_queues_what_follows_it() {
    let mut pool = mixed_pool();
    let removed = pool.remove_transactions(&vec![hash(10), hash(999)]);
    assert_eq!(hashes(&removed), vec![10]);
    assert_eq!(subpool(&pool, 1, 0), None);
    assert_eq!(subpool(&pool, 1, 1), Some(SubPool::Queued));
    assert_eq!(subpool(&pool, 1, 2), Some(SubPool::Queued));
    assert_eq!(pool.len(), 6);
}

#[test]
fn account_update_drops_outdated_and_promotes() {
    let mut pool = mixed_pool();
    let outcome = pool.update_accounts(&vec![
        (SenderId(2), SenderInfo { state_nonce: 5, balance: amount(1_000_000) }),
        (SenderId(3), SenderInfo { state_nonce: 0, balance: amount(5_000) }),
    ]);
    assert_eq!(outcome.discarded, vec![hash(23)]);
    assert_eq!(outcome.promoted, vec![hash(25), hash(31)]);
    assert!(outcome.demoted.is_empty());
    assert_eq!(subpool(&pool, 2, 5), Some(SubPool::Pending));
    assert_eq!(subpool(&pool, 3, 1), Some(SubPool::Pending));
}

#[test]
fn balance_drop_demotes() {
    let mut pool = mixed_pool();
    let outcome = pool.update_accounts(&vec![(
        SenderId(1),
        SenderInfo { state_nonce: 0, balance: amount(1_100) },
    )]);
    // costs: 1000, 150, 1000; cumulative 1000, 1150, 2150
    assert_eq!(outcome.demoted, vec![hash(11), hash(12)]);
    assert!(outcome.promoted.is_empty());
    assert!(outcome.discarded.is_empty());
    assert_eq!(subpool(&pool, 1, 0), Some(SubPool::Pending));
    assert_eq!(subpool(&pool, 1, 1), Some(SubPool::Queued));
    assert_eq!(subpool(&pool, 1, 2), Some(SubPool::Queued));
}

#[test]
fn discard_worst_prefers_non_local_and_takes_from_the_most_over_budget() {
    let mut config = PoolConfig::default();
    config.pending_limit.max_txs = 1;
    config.queued_limit.max_txs = 0;
    let mut pool = TxPool::new(GasCostOrdering, config);
    assert!(pool.add_transaction(local(1, 0, 1, 100, 1), amount(1_000_000), 0).is_ok());
    assert!(pool.add_transaction(pooled(2, 0, 2, 100, 50), amount(1_000_000), 0).is_ok());
    assert!(pool.add_transaction(pooled(3, 0, 3, 100, 60), amount(1_000_000), 0).is_ok());
    assert!(pool.add_transaction(pooled(4, 1, 4, 100, 60), amount(1_000_000), 0).is_ok());
    // pending holds 3 of 1 (excess 2), queued 1 of 0 (excess 1)
    let gone = pool.discard_worst();
    // pending first: the lowest tip that is not local, then the next; then the queued one
    assert_eq!(hashes(&gone), vec![2, 3, 4]);
    assert_eq!(hashes(&pool.all_transactions()), vec![1]);
    assert!(pool.discard_worst().is_empty());
}

#[test]
fn discard_worst_by_bytes() {
    let mut config = PoolConfig::default();
    config.pending_limit.max_size = 120;
    let mut pool = TxPool::new(GasCostOrdering, config);
    assert!(pool.add_transaction(pooled(1, 0, 1, 100, 5), amount(1_000_000), 0).is_ok());
    assert!(pool.add_transaction(pooled(2, 0, 2, 100, 7), amount(1_000_000), 0).is_ok());
    assert!(pool.add_transaction(pooled(1, 1, 3, 100, 9), amount(1_000_000), 0).is_ok());
    // 150 bytes of 120: the lowest tip leaves, and what follows it is queued
    let gone = pool.discard_worst();
    assert_eq!(hashes(&gone), vec![1]);
    assert_eq!(subpool(&pool, 1, 1), Some(SubPool::Queued));
    assert_eq!(subpool(&pool, 2, 0), Some(SubPool::Pending));
    assert_eq!(pool.size().pending_size, 50);
}

#[test]
fn every_rejection_by_the_validator_is_an_invalid_transaction_with_its_reason() {
    let mut pool = PoolInner::new(GasCostOrdering, PoolConfig::default());
    let mut events = pool.add_all_transactions_event_listener();
    let reasons = vec![
        InvalidPoolTransactionError::TxFeeExceedsCap,
        InvalidPoolTransactionError::ExceedsSlotLimit,
        InvalidPoolTransactionError::ExceedsMaxInitCodeSize,
        InvalidPoolTransactionError::Underpriced,
        InvalidPoolTransactionError::Other("x".to_string()),
    ];
    let mut batch = Vec::new();
    for (k, reason) in reasons.iter().enumerate() {
        batch.push(TransactionValidationOutcome::Invalid(
            raw(1, 0, k as u128 + 1, 1, 1, 1),
            reason.clone(),
        ));
    }
    let r = pool.add_transactions(TransactionOrigin::External, batch, 0);
    assert_eq!(
        r,
        vec![
            Err(PoolError::InvalidTransaction(hash(1), InvalidPoolTransactionError::TxFeeExceedsCap)),
            Err(PoolError::InvalidTransaction(hash(2), InvalidPoolTransactionError::ExceedsSlotLimit)),
            Err(PoolError::InvalidTransaction(
                hash(3),
                InvalidPoolTransactionError::ExceedsMaxInitCodeSize
            )),
            Err(PoolError::InvalidTransaction(hash(4), InvalidPoolTransactionError::Underpriced)),
            Err(PoolError::InvalidTransaction(
                hash(5),
                InvalidPoolTransactionError::Other("x".to_string())
            )),
        ]
    );
    assert!(pool.is_empty());
    for k in 1..=5u128 {
        let event = events.events.try_recv().unwrap();
        assert_eq!(event.hash, hash(k));
    }
    assert!(events.events.try_recv().is_err());
}

#[test]
fn filling_a_gap_with_a_low_fee_cap_still_reports_the_promotion() {
    let mut pool = PoolInner::new(GasCostOrdering, PoolConfig::default());
    pool.set_block_info(BlockInfo {
        last_seen_block_hash: hash(0),
        last_seen_block_number: 0,
        pending_basefee: 20,
    });
    let mut events = pool.add_all_transactions_event_listener();
    let r = pool.add_transactions(
        TransactionOrigin::External,
        vec![valid(raw(1, 1, 11, 100, 1, 50), 1_000_000, 0)],
        0,
    );
    assert_eq!(r, vec![Ok(hash(11))]);
    // nonce 0 arrives with a fee cap below the base fee: parked, but nonce 1 is freed
    let r = pool.add_transactions(
        TransactionOrigin::External,
        vec![valid(raw(1, 0, 10, 15, 1, 50), 1_000_000, 0)],
        1,
    );
    assert_eq!(r, vec![Ok(hash(10))]);
    let size = pool.size();
    assert_eq!((size.pending, size.basefee, size.queued), (1, 1, 0));
    let mut told = Vec::new();
    while let Ok(e) = events.events.try_recv() {
        told.push((e.hash.lo, e.event));
    }
    assert_eq!(
        told,
        vec![
            (11, TransactionEvent::Queued),
            (10, TransactionEvent::Queued),
            (11, TransactionEvent::Pending),
        ]
    );
}

#[test]
fn a_parked_admission_reports_the_transaction_it_pushed_out() {
    let mut config = PoolConfig::default();
    config.max_account_slots = 1;
    let mut pool = TxPool::new(GasCostOrdering, config);
    assert!(pool.add_transaction(pooled(1, 5, 1, 100, 1), amount(1_000_000), 0).is_ok());
    match pool.add_transaction(pooled(1, 3, 2, 100, 1), amount(1_000_000), 0) {
        Ok(AddedTransaction::Parked { subpool, discarded, promoted, replaced, .. }) => {
            assert_eq!(subpool, SubPool::Queued);
            assert_eq!(discarded, vec![hash(1)]);
            assert!(promoted.is_empty());
            assert!(replaced.is_none());
        }
        other => panic!("unexpected {:?}", other),
    }
}

#[test]
fn size_bounds_hold_after_state_changes_too() {
    let mut config = PoolConfig::default();
    config.pending_limit.max_txs = 1;
    config.queued_limit.max_txs = 1;
    let mut pool = PoolInner::new(GasCostOrdering, config);
    pool.set_block_info(BlockInfo {
        last_seen_block_hash: hash(0),
        last_seen_block_number: 0,
        pending_basefee: 20,
    });
    let r = pool.add_transactions(
        TransactionOrigin::External,
        vec![
            valid(raw(1, 0, 10, 15, 2, 50), 1_000_000, 0),
            valid(raw(2, 0, 20, 15, 9, 50), 1_000_000, 0),
            valid(raw(3, 0, 30, 15, 5, 50), 1_000_000, 0),
        ],
        0,
    );
    assert_eq!(r, vec![Ok(hash(10)), Ok(hash(20)), Ok(hash(30))]);
    assert_eq!(pool.size().basefee, 3);
    let mut events = pool.add_all_transactions_event_listener();

    // the base fee drops: all three would be pending, but only one may stay
    pool.on_canonical_state_change(CanonicalStateUpdate {
        hash: hash(1),
        number: 1,
        pending_block_base_fee: 10,
        changed_accounts: Vec::new(),
        mined_transactions: Vec::new(),
        timestamp: 0,
    });
    assert_eq!(pool.size().pending, 1);
    assert_eq!(pool.len(), 1);
    assert_eq!(hashes(&pool.pending_transactions()), vec![20]);
    let mut told = Vec::new();
    while let Ok(e) = events.events.try_recv() {
        told.push((e.hash.lo, e.event));
    }
    assert_eq!(
        told,
        vec![
            (10, TransactionEvent::Pending),
            (20, TransactionEvent::Pending),
            (30, TransactionEvent::Pending),
            (10, TransactionEvent::Discarded),
            (30, TransactionEvent::Discarded),
        ]
    );

    // two queued behind a pending one of another sender, then the pending is removed
    let r = pool.add_transactions(
        TransactionOrigin::External,
        vec![valid(raw(4, 1, 41, 100, 1, 50), 1_000_000, 0)],
        1,
    );
    assert_eq!(r, vec![Ok(hash(41))]);
    let r = pool.add_transactions(
        TransactionOrigin::External,
        vec![valid(raw(2, 1, 21, 100, 1, 50), 1_000_000, 0)],
        1,
    );
    // sender 2 now has two pending: the one with the lower tip leaves at once
    assert_eq!(r, vec![Err(PoolError::DiscardedOnInsert(hash(21)))]);
    let removed = pool.remove_transactions(&vec![hash(20)]);
    assert_eq!(removed.len(), 1);
    let size = pool.size();
    assert!(size.pending <= 1 && size.queued <= 1);
    assert_eq!(hashes(&pool.all_transactions().queued), vec![41]);

    pool.update_accounts(vec![ChangedAccount { address: addr(4), nonce: 1, balance: amount(1_000_000) }]);
    assert_eq!((pool.size().pending, pool.size().queued), (1, 0));
    pool.set_block_info(BlockInfo {
        last_seen_block_hash: hash(2),
        last_seen_block_number: 2,
        pending_basefee: 500,
    });
    assert_eq!((pool.size().pending, pool.size().basefee), (0, 1));
}

#[test]
fn each_outcome_of_a_batch_meets_what_the_outcomes_before_it_left() {
    let mut pool = PoolInner::new(GasCostOrdering, PoolConfig::default());
    let r = pool.add_transactions(
        TransactionOrigin::External,
        vec![
            valid(raw(1, 0, 1, 30, 2, 10), 1_000_000, 0),
            // the same hash again
            valid(raw(1, 0, 1, 30, 2, 10), 1_000_000, 0),
            // the same id: the fee cap is raised by less than ten percent
            valid(raw(1, 0, 2, 32, 3, 10), 1_000_000, 0),
            // the fee cap is raised, the priority fee is not
            valid(raw(1, 0, 3, 33, 2, 10), 1_000_000, 0),
            // both are raised by ten percent
            valid(raw(1, 0, 4, 33, 3, 10), 1_000_000, 0),
            // the first one is gone by now: it is no duplicate, and pays no bump
            valid(raw(1, 0, 1, 30, 2, 10), 1_000_000, 0),
        ],
        0,
    );
    assert_eq!(
        r,
        vec![
            Ok(hash(1)),
            Err(PoolError::AlreadyImported(hash(1))),
            Err(PoolError::ReplacementUnderpriced(hash(2))),
            Err(PoolError::ReplacementUnderpriced(hash(3))),
            Ok(hash(4)),
            Err(PoolError::ReplacementUnderpriced(hash(1))),
        ]
    );
    assert_eq!(pool.len(), 1);
    assert!(pool.get(&hash(4)).is_some());
    assert!(pool.get(&hash(1)).is_none());
}
