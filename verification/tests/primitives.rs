use transaction_pool::config::{PoolConfig, SubPoolLimit};
use transaction_pool::execute::{BatchBlockOutput, BatchExecutor, EthBlockExecutionInput, Executor};
use transaction_pool::identifier::{SenderId, SenderIdentifiers, TransactionId};
use transaction_pool::pool::txpool::{check_pays_bump, choose_pool};
use transaction_pool::primitives::{
    compute_effective_tip_per_gas, Address, TransactionKind, TxType, B256, U256,
};
use transaction_pool::prune::{PruneCheckpoint, PruneMode};
use transaction_pool::state::SubPool;
use transaction_pool::transaction::{GasCostOrdering, 
    is_evicted_before, PooledTransaction, TransactionOrigin, ValidPoolTransaction,
};

fn wide(hi: u128, lo: u128) -> U256 {
    U256 { hi, lo }
}

#[test]
fn u256_addition_carries_and_overflows() {
    assert_eq!(wide(0, 1).checked_add(wide(0, 2)), Some(wide(0, 3)));
    assert_eq!(wide(0, u128::MAX).checked_add(wide(0, 1)), Some(wide(1, 0)));
    assert_eq!(wide(3, u128::MAX).checked_add(wide(4, u128::MAX)), Some(wide(8, u128::MAX - 1)));
    assert_eq!(wide(u128::MAX, u128::MAX).checked_add(wide(0, 1)), None);
    assert_eq!(wide(u128::MAX, 0).checked_add(wide(1, 0)), None);
    assert_eq!(wide(u128::MAX, 5).checked_add(wide(0, u128::MAX)), None);
    assert_eq!(wide(u128::MAX, 0).checked_add(wide(0, u128::MAX)), Some(U256::max_value()));
    assert_eq!(wide(u128::MAX, 5).saturating_add(wide(0, u128::MAX)), U256::max_value());
    assert_eq!(wide(1, 5).saturating_add(wide(2, 6)), wide(3, 11));
    assert_eq!(U256::zero(), wide(0, 0));
    assert_eq!(U256::from_u64(7), wide(0, 7));
    assert_eq!(U256::from_u128(u128::MAX), wide(0, u128::MAX));
}

#[test]
fn u256_product_is_exact() {
    assert_eq!(U256::mul_u64_u128(0, u128::MAX), wide(0, 0));
    assert_eq!(U256::mul_u64_u128(3, 5), wide(0, 15));
    assert_eq!(U256::mul_u64_u128(2, u128::MAX), wide(1, u128::MAX - 1));
    // (2^64 - 1) * (2^128 - 1) = 2^192 - 2^128 - 2^64 + 1
    assert_eq!(
        U256::mul_u64_u128(u64::MAX, u128::MAX),
        wide((1u128 << 64) - 2, u128::MAX - (u64::MAX as u128) + 1)
    );
    assert_eq!(U256::mul_u64_u128(1 << 63, 1 << 127), wide(1 << 62, 0));
    assert_eq!(U256::mul_u64_u128(21_000, 50_000_000_000), wide(0, 1_050_000_000_000_000));
}

#[test]
fn u256_order() {
    assert!(wide(0, 5).lt(&wide(0, 6)));
    assert!(!wide(0, 6).lt(&wide(0, 6)));
    assert!(wide(0, 6).le(&wide(0, 6)));
    assert!(wide(0, u128::MAX).lt(&wide(1, 0)));
    assert!(!wide(1, 0).le(&wide(0, u128::MAX)));
    assert!(wide(1, 0).le(&wide(1, 1)));
}

#[test]
fn effective_tip_is_what_the_cap_leaves_limited_by_the_priority_fee() {
    assert_eq!(compute_effective_tip_per_gas(50, Some(2), 10), Some(2));
    assert_eq!(compute_effective_tip_per_gas(11, Some(2), 10), Some(1));
    assert_eq!(compute_effective_tip_per_gas(10, Some(2), 10), Some(0));
    assert_eq!(compute_effective_tip_per_gas(9, Some(2), 10), None);
    assert_eq!(compute_effective_tip_per_gas(50, None, 10), Some(40));
    assert_eq!(compute_effective_tip_per_gas(u128::MAX, Some(u128::MAX), u64::MAX), Some(u128::MAX - u64::MAX as u128));
}

#[test]
fn price_bump_is_exact_at_the_boundary() {
    assert!(check_pays_bump(30, 33, 10));
    assert!(!check_pays_bump(30, 32, 10));
    assert!(check_pays_bump(0, 0, 10));
    assert!(check_pays_bump(1, 2, 10));
    assert!(!check_pays_bump(1, 1, 10));
    assert!(check_pays_bump(1, 1, 0));
    assert!(check_pays_bump(100, 200, 100));
    assert!(!check_pays_bump(100, 199, 100));
    assert!(!check_pays_bump(u128::MAX, u128::MAX, 10));
    assert!(!check_pays_bump(u128::MAX / 2, u128::MAX, u32::MAX));
}

#[test]
fn cost_is_gas_times_cap_plus_value() {
    let mut t = PooledTransaction {
        hash: B256 { hi: 0, lo: 1 },
        sender: Address { hi: 0, lo: 1 },
        nonce: 3,
        gas_limit: 21_000,
        max_fee_per_gas: 50,
        max_priority_fee_per_gas: None,
        max_fee_per_blob_gas: Some(4),
        blob_versioned_hashes: vec![B256 { hi: 1, lo: 1 }],
        kind: TransactionKind::Call(Address { hi: 1, lo: 2 }),
        value: wide(0, 100),
        input: vec![7],
        encoded_length: 123,
    };
    t.value = wide(0, 100);
    let v = ValidPoolTransaction::new(t, SenderId(4), false, 77, TransactionOrigin::Private);
    assert_eq!(v.cost(), Some(wide(0, 1_050_100)));
    assert_eq!(v.id(), TransactionId { sender: SenderId(4), nonce: 3 });
    assert_eq!(v.nonce(), 3);
    assert_eq!(v.size(), 123);
    assert_eq!(v.timestamp, 77);
    assert!(!v.propagate);
    assert!(!v.is_local());
    assert_eq!(v.priority_fee_or_price(), 50);
    assert_eq!(v.max_priority_fee_per_gas(), None);
    assert_eq!(v.max_fee_per_blob_gas(), Some(4));
    assert_eq!(v.effective_tip_per_gas(20), Some(30));
    assert_eq!(v.kind(), TransactionKind::Call(Address { hi: 1, lo: 2 }));
    assert_eq!(v.kind().to(), Some(Address { hi: 1, lo: 2 }));
    assert_eq!(TransactionKind::Create.to(), None);
    assert_eq!(v.blob_versioned_hashes(), &vec![B256 { hi: 1, lo: 1 }]);
    assert_eq!(v.value(), wide(0, 100));
    assert_eq!(v.gas_limit(), 21_000);
    assert_eq!(v.max_fee_per_gas(), 50);
    assert_eq!(v.sender(), Address { hi: 0, lo: 1 });
    assert_eq!(v.sender_id(), SenderId(4));
}

#[test]
fn cost_beyond_256_bits_is_none() {
    let t = PooledTransaction {
        hash: B256 { hi: 0, lo: 1 },
        sender: Address { hi: 0, lo: 1 },
        nonce: 0,
        gas_limit: 1,
        max_fee_per_gas: 1,
        max_priority_fee_per_gas: None,
        max_fee_per_blob_gas: None,
        blob_versioned_hashes: Vec::new(),
        kind: TransactionKind::Create,
        value: U256::max_value(),
        input: Vec::new(),
        encoded_length: 1,
    };
    let v = ValidPoolTransaction::new(t, SenderId(0), true, 0, TransactionOrigin::Local);
    assert_eq!(v.cost(), None);
    assert!(v.is_local());
}

#[test]
fn sender_ids_are_dense_and_kept() {
    let mut ids = SenderIdentifiers::new();
    let a = Address { hi: 1, lo: 1 };
    let b = Address { hi: 1, lo: 2 };
    assert_eq!(ids.sender_id(&a), None);
    assert_eq!(ids.sender_id_or_create(a), SenderId(0));
    assert_eq!(ids.sender_id_or_create(b), SenderId(1));
    assert_eq!(ids.sender_id_or_create(a), SenderId(0));
    assert_eq!(ids.len(), 2);
    assert_eq!(ids.sender_id(&b), Some(SenderId(1)));
    assert_eq!(ids.address(SenderId(1)), Some(b));
    assert_eq!(ids.address(SenderId(2)), None);
    assert_eq!(SenderId(5).0, 5);
}

#[test]
fn transaction_ids_order_by_sender_then_nonce() {
    let id = |s: u64, n: u64| TransactionId::new(SenderId(s), n);
    assert!(id(1, 9).is_before(&id(2, 0)));
    assert!(id(1, 1).is_before(&id(1, 2)));
    assert!(!id(1, 2).is_before(&id(1, 2)));
    assert!(!id(2, 0).is_before(&id(1, 9)));
    assert_eq!(id(1, 5).ancestor(5), None);
    assert_eq!(id(1, 6).ancestor(5), Some(id(1, 5)));
    assert_eq!(id(1, 6).descendant(), Some(id(1, 7)));
    assert_eq!(id(1, u64::MAX).descendant(), None);
}

#[test]
fn limits_and_defaults() {
    let limit = SubPoolLimit { max_txs: 2, max_size: 10 };
    assert!(!limit.is_exceeded(2, 10));
    assert!(limit.is_exceeded(3, 0));
    assert!(limit.is_exceeded(0, 11));
    let config = PoolConfig::default();
    assert_eq!(config.max_account_slots, 16);
    assert_eq!(config.price_bump, 10);
    assert_eq!(config.pending_limit, SubPoolLimit::default());
    assert_eq!(config.pending_limit.max_txs, 10_000);
    assert_eq!(config.pending_limit.max_size, 20 * 1024 * 1024);
    assert_eq!(transaction_pool::config::TX_SLOT_SIZE, 32 * 1024);
    assert_eq!(transaction_pool::config::TX_MAX_SIZE, 128 * 1024);
    assert_eq!(transaction_pool::config::MAX_CODE_SIZE, 24576);
    assert_eq!(
        transaction_pool::config::MAX_INIT_CODE_SIZE,
        2 * transaction_pool::config::MAX_CODE_SIZE
    );
}

#[test]
fn the_most_over_budget_pool_goes_first() {
    assert_eq!(choose_pool(false, 0, false, 0, false, 0), None);
    assert_eq!(choose_pool(true, 1, true, 1, true, 1), Some(SubPool::Pending));
    assert_eq!(choose_pool(true, 1, true, 2, true, 2), Some(SubPool::BaseFee));
    assert_eq!(choose_pool(true, 1, true, 2, true, 3), Some(SubPool::Queued));
    assert_eq!(choose_pool(false, 9, true, 0, false, 5), Some(SubPool::BaseFee));
    assert_eq!(choose_pool(true, 0, false, 7, true, 0), Some(SubPool::Pending));
    assert_eq!(choose_pool(false, 0, false, 0, true, 0), Some(SubPool::Queued));
}

#[test]
fn eviction_order_of_each_sub_pool() {
    let make = |sender: u64, nonce: u64, cap: u128, tip: u128, origin: TransactionOrigin| {
        ValidPoolTransaction::new(
            PooledTransaction {
                hash: B256 { hi: sender as u128, lo: nonce as u128 },
                sender: Address { hi: 0, lo: sender as u128 },
                nonce,
                gas_limit: 1,
                max_fee_per_gas: cap,
                max_priority_fee_per_gas: Some(tip),
                max_fee_per_blob_gas: None,
                blob_versioned_hashes: Vec::new(),
                kind: TransactionKind::Create,
                value: U256 { hi: 0, lo: 0 },
                input: Vec::new(),
                encoded_length: 1,
            },
            SenderId(sender),
            true,
            0,
            origin,
        )
    };
    let ext = TransactionOrigin::External;
    let low = make(1, 0, 10, 1, ext);
    let high = make(2, 0, 20, 5, ext);
    let local = make(3, 0, 5, 0, TransactionOrigin::Local);
    assert!(is_evicted_before(&GasCostOrdering, SubPool::Pending, &low, &high, 0));
    assert!(!is_evicted_before(&GasCostOrdering, SubPool::Pending, &high, &low, 0));
    assert!(is_evicted_before(&GasCostOrdering, SubPool::BaseFee, &low, &high, 0));
    assert!(is_evicted_before(&GasCostOrdering, SubPool::Queued, &high, &low, 0));
    for pool in [SubPool::Pending, SubPool::BaseFee, SubPool::Queued] {
        assert!(is_evicted_before(&GasCostOrdering, pool, &low, &local, 0));
        assert!(is_evicted_before(&GasCostOrdering, pool, &high, &local, 0));
        assert!(!is_evicted_before(&GasCostOrdering, pool, &local, &low, 0));
        assert!(!is_evicted_before(&GasCostOrdering, pool, &low, &low, 0));
    }
    let same_cap = make(4, 0, 10, 1, ext);
    assert!(is_evicted_before(&GasCostOrdering, SubPool::BaseFee, &same_cap, &low, 0));
    assert!(!is_evicted_before(&GasCostOrdering, SubPool::BaseFee, &low, &same_cap, 0));
}

#[test]
fn tx_type_numbers_and_sub_pool_tests() {
    assert_eq!(TxType::Legacy.as_u8(), 0);
    assert_eq!(TxType::Eip2930.as_u8(), 1);
    assert_eq!(TxType::Eip1559.as_u8(), 2);
    assert_eq!(TxType::Eip4844.as_u8(), 3);
    assert!(!TxType::Eip2930.is_dynamic_fee());
    assert!(TxType::Eip4844.is_dynamic_fee());
    assert!(SubPool::Pending.is_pending());
    assert!(SubPool::Queued.is_queued());
    assert!(SubPool::BaseFee.is_base_fee());
    assert!(!SubPool::BaseFee.is_pending());
}

struct TestExecutor;

impl Executor<()> for TestExecutor {
    type Input<'a> = &'static str;
    type Output = ();
    type Error = String;

    fn execute(self, _input: Self::Input<'_>) -> Result<Self::Output, Self::Error> {
        Ok(())
    }
}

impl BatchExecutor<()> for TestExecutor {
    type Input<'a> = &'static str;
    type Output = ();
    type Error = String;

    fn execute_one(&mut self, _input: Self::Input<'_>) -> Result<BatchBlockOutput, Self::Error> {
        Ok(BatchBlockOutput { size_hint: None })
    }

    fn finalize(self) -> Self::Output {}
}

#[test]
fn test_provider() {
    let executor = TestExecutor;
    executor.execute("test").unwrap();
    let mut batch = TestExecutor;
    assert!(batch.execute_one("test").unwrap().size_hint.is_none());
    batch.finalize();
}

#[test]
fn execution_input_and_prune_checkpoint_hold_what_they_are_given() {
    let block = 5u32;
    let input = EthBlockExecutionInput::new(&block, U256 { hi: 0, lo: 9 });
    assert_eq!(*input.block, 5);
    assert_eq!(input.total_difficulty, U256 { hi: 0, lo: 9 });
    let checkpoint = PruneCheckpoint { block_number: 3, prune_mode: PruneMode::Distance(10) };
    assert_eq!(checkpoint, PruneCheckpoint { block_number: 3, prune_mode: PruneMode::Distance(10) });
    assert_ne!(checkpoint.prune_mode, PruneMode::Before(10));
}

#[test]
fn pool_transactions_are_equal_by_hash() {
    let make = |hash: u128, nonce: u64| {
        ValidPoolTransaction::new(
            PooledTransaction {
                hash: B256 { hi: 0, lo: hash },
                sender: Address { hi: 0, lo: 1 },
                nonce,
                gas_limit: 1,
                max_fee_per_gas: 1,
                max_priority_fee_per_gas: None,
                max_fee_per_blob_gas: None,
                blob_versioned_hashes: Vec::new(),
                kind: TransactionKind::Create,
                value: U256 { hi: 0, lo: 0 },
                input: Vec::new(),
                encoded_length: 1,
            },
            SenderId(0),
            true,
            0,
            TransactionOrigin::External,
        )
    };
    assert!(make(1, 0) == make(1, 9));
    assert!(make(1, 0) != make(2, 0));
}
