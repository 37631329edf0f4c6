use transaction_pool::config::PoolConfig;
use transaction_pool::error::PoolError;
use transaction_pool::pool::events::{
    PendingTransactionListenerKind, PropagateKind, PropagatedTransactions, TransactionEvent,
};
use transaction_pool::pool::events::FullTransactionEvent;
use transaction_pool::pool::listener::{keeps_listener, stays_after, Contact, SendOutcome};
use transaction_pool::pool::{
    added_events, outcome_events, tells_listener, AddedPendingTransaction, AddedTransaction,
    CanonicalStateUpdate, OnNewCanonicalStateOutcome, PoolInner,
};
use transaction_pool::primitives::{Address, PeerId, TransactionKind, B256, U256};
use transaction_pool::state::{ChangedAccount, SubPool};
use transaction_pool::transaction::{GasCostOrdering, 
    PooledTransaction, TransactionOrigin, TransactionValidationOutcome,
};

fn address(n: u128) -> Address {
    Address { hi: 0, lo: n }
}

fn h(n: u128) -> B256 {
    B256 { hi: 0, lo: n }
}

fn outcome(sender: u128, nonce: u64, hash: u128, propagate: bool) -> TransactionValidationOutcome {
    TransactionValidationOutcome::Valid {
        balance: U256 { hi: 0, lo: 1_000_000_000 },
        state_nonce: 0,
        transaction: PooledTransaction {
            hash: h(hash),
            sender: address(sender),
            nonce,
            gas_limit: 1,
            max_fee_per_gas: 100,
            max_priority_fee_per_gas: Some(1),
            max_fee_per_blob_gas: None,
            blob_versioned_hashes: Vec::new(),
            kind: TransactionKind::Create,
            value: U256 { hi: 0, lo: 0 },
            input: vec![1, 2, 3],
            encoded_length: 10,
        },
        propagate,
    }
}

#[test]
fn pending_listener_hears_of_every_entry_into_pending() {
    let mut pool = PoolInner::new(GasCostOrdering, PoolConfig::default());
    let mut rx = pool.add_pending_listener(PendingTransactionListenerKind::All);
    assert_eq!(pool.pending_listener_count(), 1);
    // a gap: queued, not told
    let r = pool.add_transactions(TransactionOrigin::External, vec![outcome(1, 1, 11, true)], 0);
    assert_eq!(r, vec![Ok(h(11))]);
    assert!(rx.try_recv().is_err());
    // the gap is filled: the new one is told by its hash, then the promoted one
    let r = pool.add_transactions(TransactionOrigin::External, vec![outcome(1, 0, 10, true)], 0);
    assert_eq!(r, vec![Ok(h(10))]);
    assert_eq!(rx.try_recv().unwrap(), h(10));
    assert_eq!(rx.try_recv().unwrap(), h(11));
    assert!(rx.try_recv().is_err());
}

#[test]
fn a_falling_base_fee_sends_the_promoted_hashes_round() {
    let mut pool = PoolInner::new(GasCostOrdering, PoolConfig::default());
    pool.set_block_info(transaction_pool::state::BlockInfo {
        last_seen_block_hash: h(1),
        last_seen_block_number: 1,
        pending_basefee: 200,
    });
    let mut all = pool.add_pending_listener(PendingTransactionListenerKind::All);
    let mut network = pool.add_pending_listener(PendingTransactionListenerKind::PropagateOnly);
    let r = pool.add_transactions(
        TransactionOrigin::External,
        vec![outcome(1, 0, 10, true), outcome(1, 1, 11, true), outcome(2, 0, 20, false)],
        0,
    );
    assert_eq!(r, vec![Ok(h(10)), Ok(h(11)), Ok(h(20))]);
    assert!(all.try_recv().is_err());
    assert!(network.try_recv().is_err());
    // the fee falls below the caps: all three are promoted, in id order
    pool.set_block_info(transaction_pool::state::BlockInfo {
        last_seen_block_hash: h(2),
        last_seen_block_number: 2,
        pending_basefee: 50,
    });
    assert_eq!(all.try_recv().unwrap(), h(10));
    assert_eq!(all.try_recv().unwrap(), h(11));
    assert_eq!(all.try_recv().unwrap(), h(20));
    assert!(all.try_recv().is_err());
    assert_eq!(network.try_recv().unwrap(), h(10));
    assert_eq!(network.try_recv().unwrap(), h(11));
    assert!(network.try_recv().is_err());
    // nothing moves: nothing goes round
    pool.set_block_info(transaction_pool::state::BlockInfo {
        last_seen_block_hash: h(3),
        last_seen_block_number: 3,
        pending_basefee: 60,
    });
    assert!(all.try_recv().is_err());
}

#[test]
fn a_new_block_and_an_account_update_send_the_promoted_hashes_round() {
    let mut pool = PoolInner::new(GasCostOrdering, PoolConfig::default());
    let mut rx = pool.add_pending_listener(PendingTransactionListenerKind::All);
    // nonces 2 and 3 of a sender at nonce 0: queued
    let r = pool.add_transactions(
        TransactionOrigin::External,
        vec![outcome(1, 2, 12, true), outcome(1, 3, 13, true), outcome(2, 1, 21, true)],
        0,
    );
    assert_eq!(r, vec![Ok(h(12)), Ok(h(13)), Ok(h(21))]);
    assert!(rx.try_recv().is_err());
    // a block brings the first sender to nonce 2
    pool.on_canonical_state_change(CanonicalStateUpdate {
        hash: h(100),
        number: 1,
        pending_block_base_fee: 7,
        changed_accounts: vec![ChangedAccount {
            address: address(1),
            nonce: 2,
            balance: U256 { hi: 0, lo: 1_000_000_000 },
        }],
        mined_transactions: Vec::new(),
        timestamp: 0,
    });
    assert_eq!(rx.try_recv().unwrap(), h(12));
    assert_eq!(rx.try_recv().unwrap(), h(13));
    assert!(rx.try_recv().is_err());
    // an account update brings the second sender to nonce 1
    pool.update_accounts(vec![ChangedAccount {
        address: address(2),
        nonce: 1,
        balance: U256 { hi: 0, lo: 1_000_000_000 },
    }]);
    assert_eq!(rx.try_recv().unwrap(), h(21));
    assert!(rx.try_recv().is_err());
}

#[test]
fn propagate_only_listener_misses_what_may_not_be_announced() {
    let mut pool = PoolInner::new(GasCostOrdering, PoolConfig::default());
    let mut all = pool.add_pending_listener(PendingTransactionListenerKind::All);
    let mut network = pool.add_pending_listener(PendingTransactionListenerKind::PropagateOnly);
    let r = pool.add_transactions(
        TransactionOrigin::External,
        vec![outcome(1, 0, 10, false), outcome(2, 0, 20, true)],
        0,
    );
    assert_eq!(r, vec![Ok(h(10)), Ok(h(20))]);
    assert_eq!(all.try_recv().unwrap(), h(10));
    assert_eq!(all.try_recv().unwrap(), h(20));
    assert_eq!(network.try_recv().unwrap(), h(20));
    assert!(network.try_recv().is_err());
    assert_eq!(pool.pending_listener_count(), 2);
    assert_eq!(pool.pooled_transactions_hashes(), vec![h(20)]);
    assert_eq!(pool.pooled_transactions().len(), 1);
}

#[test]
fn closed_listeners_are_dropped_and_the_others_keep_their_order() {
    let mut pool = PoolInner::new(GasCostOrdering, PoolConfig::default());
    let mut first = pool.add_pending_listener(PendingTransactionListenerKind::All);
    let second = pool.add_pending_listener(PendingTransactionListenerKind::All);
    let closed_network = pool.add_pending_listener(PendingTransactionListenerKind::PropagateOnly);
    let mut last = pool.add_pending_listener(PendingTransactionListenerKind::PropagateOnly);
    let news = pool.add_new_transaction_listener();
    let mut news_kept = pool.add_new_transaction_listener();
    drop(second);
    drop(closed_network);
    drop(news);
    let r = pool.add_transactions(TransactionOrigin::External, vec![outcome(1, 0, 10, false)], 0);
    assert_eq!(r, vec![Ok(h(10))]);
    assert_eq!(pool.pending_listener_count(), 2);
    assert_eq!(pool.transaction_listener_count(), 1);
    assert_eq!(first.try_recv().unwrap(), h(10));
    assert!(last.try_recv().is_err());
    let event = news_kept.try_recv().unwrap();
    assert_eq!(event.subpool, SubPool::Pending);
    assert_eq!(event.transaction.hash(), h(10));
    assert_eq!(event.transaction.input(), &vec![1u8, 2, 3]);
    let r = pool.add_transactions(TransactionOrigin::External, vec![outcome(2, 0, 20, true)], 0);
    assert_eq!(r, vec![Ok(h(20))]);
    assert_eq!(first.try_recv().unwrap(), h(20));
    assert_eq!(last.try_recv().unwrap(), h(20));
}

#[test]
fn a_full_channel_loses_the_message_and_keeps_the_listener() {
    let mut pool = PoolInner::new(GasCostOrdering, PoolConfig::default());
    let mut rx = pool.add_pending_listener(PendingTransactionListenerKind::All);
    for n in 0..2100u128 {
        let r = pool.add_transactions(
            TransactionOrigin::External,
            vec![outcome(1000 + n, 0, 1000 + n, true)],
            0,
        );
        assert_eq!(r, vec![Ok(h(1000 + n))]);
    }
    assert_eq!(pool.pending_listener_count(), 1);
    let mut received = 0u128;
    while let Ok(hash) = rx.try_recv() {
        assert_eq!(hash, h(1000 + received));
        received += 1;
    }
    assert_eq!(received, 2048);
    let r = pool.add_transactions(TransactionOrigin::External, vec![outcome(1, 0, 1, true)], 0);
    assert_eq!(r, vec![Ok(h(1))]);
    assert_eq!(rx.try_recv().unwrap(), h(1));
}

#[test]
fn new_transaction_listener_buffers_1024() {
    let mut pool = PoolInner::new(GasCostOrdering, PoolConfig::default());
    let mut rx = pool.add_new_transaction_listener();
    for n in 0..1030u128 {
        let r = pool.add_transactions(
            TransactionOrigin::External,
            vec![outcome(1000 + n, 1, 1000 + n, true)],
            0,
        );
        assert_eq!(r, vec![Ok(h(1000 + n))]);
    }
    let mut received = 0;
    while let Ok(event) = rx.try_recv() {
        assert_eq!(event.subpool, SubPool::Queued);
        received += 1;
    }
    assert_eq!(received, 1024);
    assert_eq!(pool.transaction_listener_count(), 1);
}

#[test]
fn events_of_one_transaction_end_with_a_final_event() {
    let mut pool = PoolInner::new(GasCostOrdering, PoolConfig::default());
    let mut events =
        pool.add_transaction_and_subscribe(TransactionOrigin::External, outcome(1, 1, 11, true), 0)
            .unwrap();
    assert_eq!(events.hash, h(11));
    assert!(pool.has_event_listener(&h(11)));
    assert!(pool.add_transaction_event_listener(h(999)).is_none());
    let mut second = pool.add_transaction_event_listener(h(11)).unwrap();

    let r = pool.add_transactions(TransactionOrigin::External, vec![outcome(1, 0, 10, true)], 0);
    assert_eq!(r, vec![Ok(h(10))]);
    pool.on_propagated(PropagatedTransactions(vec![(
        h(11),
        vec![PropagateKind::Full(PeerId(0, 0, 0, 7)), PropagateKind::Hash(PeerId(0, 0, 0, 8))],
    )]));
    pool.on_canonical_state_change(CanonicalStateUpdate {
        hash: h(5000),
        number: 1,
        pending_block_base_fee: 7,
        changed_accounts: vec![ChangedAccount {
            address: address(1),
            nonce: 2,
            balance: U256 { hi: 0, lo: 5 },
        }],
        mined_transactions: vec![h(10), h(11)],
        timestamp: 0,
    });
    assert!(!pool.has_event_listener(&h(11)));

    assert_eq!(events.events.try_recv().unwrap(), TransactionEvent::Queued);
    assert_eq!(events.events.try_recv().unwrap(), TransactionEvent::Pending);
    match events.events.try_recv().unwrap() {
        TransactionEvent::Propagated(peers) => {
            assert_eq!(
                *peers,
                vec![
                    PropagateKind::Full(PeerId(0, 0, 0, 7)),
                    PropagateKind::Hash(PeerId(0, 0, 0, 8))
                ]
            );
        }
        other => panic!("unexpected {:?}", other),
    }
    assert_eq!(events.events.try_recv().unwrap(), TransactionEvent::Mined(h(5000)));
    assert!(events.events.try_recv().is_err());
    // the second subscriber came after the first event
    assert_eq!(second.events.try_recv().unwrap(), TransactionEvent::Pending);
}

#[test]
fn subscription_survives_a_refusal_by_the_validator_only_until_the_discard() {
    let mut pool = PoolInner::new(GasCostOrdering, PoolConfig::default());
    let r = pool.add_transaction_and_subscribe(
        TransactionOrigin::External,
        TransactionValidationOutcome::Error(h(3), "boom".to_string()),
        0,
    );
    match r {
        Err(e) => assert_eq!(e, PoolError::Other(h(3), "boom".to_string())),
        Ok(_) => panic!("must fail"),
    }
    assert!(!pool.has_event_listener(&h(3)));
    assert!(pool.is_empty());
}

#[test]
fn removed_transactions_are_told_as_discarded() {
    let mut pool = PoolInner::new(GasCostOrdering, PoolConfig::default());
    let mut events =
        pool.add_transaction_and_subscribe(TransactionOrigin::External, outcome(1, 0, 10, true), 0)
            .unwrap();
    let removed = pool.remove_transactions(&vec![h(10)]);
    assert_eq!(removed.len(), 1);
    assert_eq!(events.events.try_recv().unwrap(), TransactionEvent::Pending);
    assert_eq!(events.events.try_recv().unwrap(), TransactionEvent::Discarded);
    assert!(!pool.has_event_listener(&h(10)));
    let mut unknown = vec![h(10), h(11)];
    pool.retain_unknown(&mut unknown);
    assert_eq!(unknown, vec![h(10), h(11)]);
    let r = pool.add_transactions(TransactionOrigin::External, vec![outcome(1, 0, 11, true)], 0);
    assert_eq!(r, vec![Ok(h(11))]);
    pool.retain_unknown(&mut unknown);
    assert_eq!(unknown, vec![h(10)]);
    assert_eq!(pool.get_all(&vec![h(11), h(10), h(11)]).len(), 2);
    assert_eq!(pool.get_transactions_by_sender(address(1)).len(), 1);
    assert_eq!(pool.get_transactions_by_sender(address(77)).len(), 0);
    assert_eq!(pool.get_sender_id(address(77)).0, 1);
    assert_eq!(pool.get_sender_id(address(1)).0, 0);
    assert_eq!(pool.get_sender_id(address(78)).0, 2);
    let all = pool.all_transactions();
    assert_eq!(all.pending.len(), 1);
    assert_eq!(all.queued.len(), 0);
    assert_eq!(pool.config().max_account_slots, 16);
}

#[test]
fn a_refusal_by_the_pool_is_told_as_discarded() {
    let mut pool = PoolInner::new(GasCostOrdering, PoolConfig::default());
    let mut all = pool.add_all_transactions_event_listener();
    let too_low = TransactionValidationOutcome::Valid {
        balance: U256 { hi: 0, lo: 1_000 },
        state_nonce: 5,
        transaction: PooledTransaction {
            hash: h(4),
            sender: address(1),
            nonce: 4,
            gas_limit: 1,
            max_fee_per_gas: 100,
            max_priority_fee_per_gas: Some(1),
            max_fee_per_blob_gas: None,
            blob_versioned_hashes: Vec::new(),
            kind: TransactionKind::Create,
            value: U256 { hi: 0, lo: 0 },
            input: Vec::new(),
            encoded_length: 10,
        },
        propagate: true,
    };
    let r = pool.add_transaction_and_subscribe(TransactionOrigin::External, too_low, 0);
    match r {
        Err(e) => assert_eq!(
            e,
            PoolError::NonceTooLow { hash: h(4), sender: address(1), nonce: 4, state_nonce: 5 }
        ),
        Ok(_) => panic!("must fail"),
    }
    assert!(!pool.has_event_listener(&h(4)));
    let told = all.events.try_recv().unwrap();
    assert_eq!(told.hash, h(4));
    assert_eq!(told.event, TransactionEvent::Discarded);
    assert!(all.events.try_recv().is_err());
    assert!(pool.is_empty());
    assert_eq!(pool.get_sender_id(address(1)).0, 0);
}

#[test]
fn which_listener_is_told() {
    assert!(tells_listener(PendingTransactionListenerKind::All, true));
    assert!(tells_listener(PendingTransactionListenerKind::All, false));
    assert!(tells_listener(PendingTransactionListenerKind::PropagateOnly, true));
    assert!(!tells_listener(PendingTransactionListenerKind::PropagateOnly, false));
    assert!(PendingTransactionListenerKind::PropagateOnly.is_propagate_only());
    assert!(!PendingTransactionListenerKind::All.is_propagate_only());
    assert!(TransactionEvent::Discarded.is_final());
    assert!(TransactionEvent::Mined(h(1)).is_final());
    assert!(TransactionEvent::Replaced(h(1)).is_final());
    assert!(!TransactionEvent::Pending.is_final());
    assert!(!TransactionEvent::Queued.is_final());
}

#[test]
fn origin_decides_first_whether_a_transaction_may_be_announced() {
    let mut pool = PoolInner::new(GasCostOrdering, PoolConfig::default());
    let mut network = pool.add_pending_listener(PendingTransactionListenerKind::PropagateOnly);
    let r = pool.add_transactions(TransactionOrigin::Private, vec![outcome(1, 0, 10, true)], 0);
    assert_eq!(r, vec![Ok(h(10))]);
    let r = pool.add_transactions(TransactionOrigin::Local, vec![outcome(2, 0, 20, false)], 0);
    assert_eq!(r, vec![Ok(h(20))]);
    let r = pool.add_transactions(TransactionOrigin::External, vec![outcome(3, 0, 30, false)], 0);
    assert_eq!(r, vec![Ok(h(30))]);
    assert!(!pool.get(&h(10)).unwrap().propagate);
    assert!(pool.get(&h(20)).unwrap().propagate);
    assert!(!pool.get(&h(30)).unwrap().propagate);
    assert_eq!(network.try_recv().unwrap(), h(20));
    assert!(network.try_recv().is_err());
    assert_eq!(pool.pooled_transactions_hashes(), vec![h(20)]);
    assert!(TransactionOrigin::External.allows_propagation(true));
}

#[test]
fn the_tracked_base_fee_does_not_go_below_the_floor() {
    let mut pool = PoolInner::new(GasCostOrdering, PoolConfig::default());
    assert_eq!(pool.block_info().pending_basefee, 7);
    pool.set_block_info(transaction_pool::state::BlockInfo {
        last_seen_block_hash: h(1),
        last_seen_block_number: 1,
        pending_basefee: 3,
    });
    assert_eq!(pool.block_info().pending_basefee, 7);
    assert_eq!(pool.block_info().last_seen_block_number, 1);
    pool.on_canonical_state_change(CanonicalStateUpdate {
        hash: h(2),
        number: 2,
        pending_block_base_fee: 0,
        changed_accounts: Vec::new(),
        mined_transactions: Vec::new(),
        timestamp: 0,
    });
    assert_eq!(pool.block_info().pending_basefee, 7);
    assert_eq!(pool.block_info().last_seen_block_hash, h(2));
    pool.set_block_info(transaction_pool::state::BlockInfo {
        last_seen_block_hash: h(3),
        last_seen_block_number: 3,
        pending_basefee: 8,
    });
    assert_eq!(pool.block_info().pending_basefee, 8);
}

fn shared(hash: u128) -> std::sync::Arc<transaction_pool::transaction::ValidPoolTransaction> {
    match outcome(1, 0, hash, true) {
        TransactionValidationOutcome::Valid { transaction, .. } => {
            std::sync::Arc::new(transaction_pool::transaction::ValidPoolTransaction::new(
                transaction,
                transaction_pool::identifier::SenderId(0),
                true,
                0,
                TransactionOrigin::External,
            ))
        }
        _ => unreachable!(),
    }
}

fn full(hash: u128, event: TransactionEvent) -> FullTransactionEvent {
    FullTransactionEvent { hash: h(hash), event }
}

#[test]
fn events_of_an_admission_in_order() {
    let pending = AddedTransaction::Pending(AddedPendingTransaction {
        transaction: shared(1),
        replaced: Some(shared(2)),
        promoted: vec![h(3), h(4)],
        discarded: vec![h(5)],
    });
    assert_eq!(
        added_events(&pending),
        vec![
            full(1, TransactionEvent::Pending),
            full(2, TransactionEvent::Replaced(h(1))),
            full(3, TransactionEvent::Pending),
            full(4, TransactionEvent::Pending),
            full(5, TransactionEvent::Discarded),
        ]
    );
    assert!(pending.is_pending());
    assert_eq!(pending.hash(), h(1));
    assert!(pending.is_propagate_allowed());
    assert_eq!(pending.subpool(), SubPool::Pending);
    let parked = AddedTransaction::Parked {
        transaction: shared(1),
        replaced: None,
        subpool: SubPool::BaseFee,
        promoted: vec![h(3)],
        discarded: Vec::new(),
    };
    assert_eq!(
        added_events(&parked),
        vec![full(1, TransactionEvent::Queued), full(3, TransactionEvent::Pending)]
    );
    assert!(!parked.is_pending());
    let event = parked.into_new_transaction_event();
    assert_eq!(event.subpool, SubPool::BaseFee);
    assert_eq!(event.transaction.hash(), h(1));
}

#[test]
fn events_of_a_new_block_in_order() {
    let outcome = OnNewCanonicalStateOutcome {
        block_hash: h(100),
        mined: vec![h(1), h(2)],
        promoted: vec![h(3)],
        demoted: vec![h(4)],
        discarded: vec![h(5)],
    };
    assert_eq!(
        outcome_events(&outcome),
        vec![
            full(1, TransactionEvent::Mined(h(100))),
            full(2, TransactionEvent::Mined(h(100))),
            full(3, TransactionEvent::Pending),
            full(4, TransactionEvent::Queued),
            full(5, TransactionEvent::Discarded),
        ]
    );
}

#[test]
fn account_updates_are_told_to_the_listeners() {
    let mut pool = PoolInner::new(GasCostOrdering, PoolConfig::default());
    let r = pool.add_transactions(
        TransactionOrigin::External,
        vec![outcome(1, 0, 10, true), outcome(1, 1, 11, true), outcome(2, 2, 22, true)],
        0,
    );
    assert_eq!(r, vec![Ok(h(10)), Ok(h(11)), Ok(h(22))]);
    let mut events = pool.add_all_transactions_event_listener();
    pool.update_accounts(vec![
        ChangedAccount { address: address(1), nonce: 1, balance: U256 { hi: 0, lo: 50 } },
        ChangedAccount { address: address(2), nonce: 2, balance: U256 { hi: 0, lo: 1_000 } },
        ChangedAccount { address: address(3), nonce: 9, balance: U256 { hi: 0, lo: 1_000 } },
    ]);
    let mut told = Vec::new();
    while let Ok(e) = events.events.try_recv() {
        told.push(e);
    }
    // 22 has no gap any more; 11 costs 100 but only 50 are left; 10 is used up
    assert_eq!(
        told,
        vec![
            full(22, TransactionEvent::Pending),
            full(11, TransactionEvent::Queued),
            full(10, TransactionEvent::Discarded),
        ]
    );
    assert_eq!(pool.len(), 2);
    assert_eq!(pool.get_sender_id(address(3)).0, 2);
    let changed = pool.changed_senders(vec![
        ChangedAccount { address: address(2), nonce: 3, balance: U256 { hi: 0, lo: 1 } },
        ChangedAccount { address: address(9), nonce: 4, balance: U256 { hi: 0, lo: 2 } },
    ]);
    assert_eq!(changed.len(), 2);
    assert_eq!((changed[0].0 .0, changed[0].1.state_nonce), (1, 3));
    assert_eq!((changed[1].0 .0, changed[1].1.state_nonce), (3, 4));
    assert!(pool.discard_worst().is_empty());
}

#[test]
fn propagation_is_told_in_order_and_keeps_other_subscriptions() {
    let mut pool = PoolInner::new(GasCostOrdering, PoolConfig::default());
    let r = pool.add_transactions(
        TransactionOrigin::External,
        vec![outcome(1, 0, 10, true), outcome(2, 0, 20, true), outcome(3, 0, 30, true)],
        0,
    );
    assert_eq!(r, vec![Ok(h(10)), Ok(h(20)), Ok(h(30))]);
    let mut first = pool.add_transaction_event_listener(h(10)).unwrap();
    let mut third = pool.add_transaction_event_listener(h(30)).unwrap();
    let mut all = pool.add_all_transactions_event_listener();
    pool.on_propagated(PropagatedTransactions(vec![
        (h(20), vec![PropagateKind::Hash(PeerId(0, 0, 0, 1))]),
        (h(10), vec![PropagateKind::Full(PeerId(0, 0, 0, 2))]),
        (h(10), Vec::new()),
    ]));
    assert!(pool.has_event_listener(&h(10)));
    assert!(pool.has_event_listener(&h(30)));
    assert!(!pool.has_event_listener(&h(20)));
    let mut told = Vec::new();
    while let Ok(e) = all.events.try_recv() {
        told.push(e);
    }
    assert_eq!(
        told,
        vec![
            full(20, TransactionEvent::Propagated(std::sync::Arc::new(vec![PropagateKind::Hash(
                PeerId(0, 0, 0, 1)
            )]))),
            full(10, TransactionEvent::Propagated(std::sync::Arc::new(vec![PropagateKind::Full(
                PeerId(0, 0, 0, 2)
            )]))),
            full(10, TransactionEvent::Propagated(std::sync::Arc::new(Vec::new()))),
        ]
    );
    assert!(first.events.try_recv().is_ok());
    assert!(first.events.try_recv().is_ok());
    assert!(first.events.try_recv().is_err());
    assert!(third.events.try_recv().is_err());
}

#[test]
fn a_listener_stays_unless_its_channel_is_closed() {
    assert!(keeps_listener(SendOutcome::Sent));
    assert!(keeps_listener(SendOutcome::Full));
    assert!(!keeps_listener(SendOutcome::Closed));
    assert!(stays_after(Contact::Tried(SendOutcome::Sent)));
    assert!(stays_after(Contact::Tried(SendOutcome::Full)));
    assert!(!stays_after(Contact::Tried(SendOutcome::Closed)));
    assert!(stays_after(Contact::Asked { closed: false }));
    assert!(!stays_after(Contact::Asked { closed: true }));
}

#[test]
fn a_transaction_parked_for_its_fee_goes_round_the_new_transaction_listeners_only() {
    let mut pool = PoolInner::new(GasCostOrdering, PoolConfig::default());
    pool.set_block_info(transaction_pool::state::BlockInfo {
        last_seen_block_hash: h(1),
        last_seen_block_number: 1,
        pending_basefee: 200,
    });
    let mut hashes = pool.add_pending_listener(PendingTransactionListenerKind::All);
    let mut news = pool.add_new_transaction_listener();
    let r = pool.add_transactions(TransactionOrigin::External, vec![outcome(1, 0, 10, true)], 0);
    assert_eq!(r, vec![Ok(h(10))]);
    assert!(hashes.try_recv().is_err());
    let event = news.try_recv().unwrap();
    assert_eq!(event.subpool, SubPool::BaseFee);
    assert_eq!(event.transaction.hash(), h(10));
    assert!(news.try_recv().is_err());
    // a refused transaction goes round neither
    let r = pool.add_transactions(TransactionOrigin::External, vec![outcome(1, 0, 10, true)], 0);
    assert_eq!(r, vec![Err(PoolError::AlreadyImported(h(10)))]);
    assert!(hashes.try_recv().is_err());
    assert!(news.try_recv().is_err());
    assert_eq!(pool.pending_listener_count(), 1);
    assert_eq!(pool.transaction_listener_count(), 1);
}

#[test]
fn a_listener_that_is_told_nothing_is_still_dropped_once_its_channel_is_closed() {
    let mut pool = PoolInner::new(GasCostOrdering, PoolConfig::default());
    let network = pool.add_pending_listener(PendingTransactionListenerKind::PropagateOnly);
    let mut open_network = pool.add_pending_listener(PendingTransactionListenerKind::PropagateOnly);
    drop(network);
    // a parked admission makes no round: nobody is dropped
    let r = pool.add_transactions(TransactionOrigin::External, vec![outcome(1, 1, 11, false)], 0);
    assert_eq!(r, vec![Ok(h(11))]);
    assert_eq!(pool.pending_listener_count(), 2);
    // a pending one that may not be announced makes a round of questions
    let r = pool.add_transactions(TransactionOrigin::External, vec![outcome(2, 0, 20, false)], 0);
    assert_eq!(r, vec![Ok(h(20))]);
    assert_eq!(pool.pending_listener_count(), 1);
    assert!(open_network.try_recv().is_err());
}
