use transaction_pool::maintain::{on_notification, CanonStateNotification, ChainBlock};
use transaction_pool::primitives::{Address, TransactionKind, B256, U256};
use transaction_pool::state::ChangedAccount;
use transaction_pool::transaction::PooledTransaction;

fn tx(hash: u128) -> PooledTransaction {
    PooledTransaction {
        hash: B256 { hi: 0, lo: hash },
        sender: Address { hi: 0, lo: 1 },
        nonce: 0,
        gas_limit: 1,
        max_fee_per_gas: 1,
        max_priority_fee_per_gas: None,
        max_fee_per_blob_gas: None,
        blob_versioned_hashes: Vec::new(),
        kind: TransactionKind::Create,
        value: U256 { hi: 0, lo: 0 },
        input: Vec::new(),
        encoded_length: 1,
    }
}

fn account(n: u128, nonce: u64) -> ChangedAccount {
    ChangedAccount { address: Address { hi: 0, lo: n }, nonce, balance: U256 { hi: 0, lo: 5 } }
}

fn block(number: u64, txs: Vec<u128>, accounts: Vec<ChangedAccount>) -> ChainBlock {
    ChainBlock {
        hash: B256 { hi: 1, lo: number as u128 },
        number,
        timestamp: number * 12,
        next_base_fee: 100 + number,
        transactions: txs.into_iter().map(tx).collect(),
        changed_accounts: accounts,
    }
}

fn h(n: u128) -> B256 {
    B256 { hi: 0, lo: n }
}

#[test]
fn news_without_new_blocks_asks_for_nothing() {
    assert!(on_notification(CanonStateNotification::Commit { new: Vec::new() }).is_none());
    assert!(on_notification(CanonStateNotification::Reorg {
        old: vec![block(1, vec![1], Vec::new())],
        new: Vec::new()
    })
    .is_none());
}

#[test]
fn a_commit_updates_to_the_last_block() {
    let action = on_notification(CanonStateNotification::Commit {
        new: vec![
            block(5, vec![1, 2], vec![account(1, 2)]),
            block(6, Vec::new(), Vec::new()),
            block(7, vec![3], vec![account(2, 1), account(1, 3)]),
        ],
    })
    .unwrap();
    assert_eq!(action.update.hash, B256 { hi: 1, lo: 7 });
    assert_eq!(action.update.number, 7);
    assert_eq!(action.update.timestamp, 84);
    assert_eq!(action.update.pending_block_base_fee, 107);
    assert_eq!(action.update.mined_transactions, vec![h(1), h(2), h(3)]);
    assert_eq!(
        action.update.changed_accounts,
        vec![account(1, 2), account(2, 1), account(1, 3)]
    );
    assert!(action.reinsert.is_empty());
}

#[test]
fn a_reorg_submits_again_what_the_new_chain_has_not_mined() {
    let action = on_notification(CanonStateNotification::Reorg {
        old: vec![block(5, vec![1, 2], Vec::new()), block(6, vec![3, 4], Vec::new())],
        new: vec![block(5, vec![4], vec![account(1, 1)]), block(6, vec![2, 9], Vec::new())],
    })
    .unwrap();
    assert_eq!(action.update.number, 6);
    assert_eq!(action.update.mined_transactions, vec![h(4), h(2), h(9)]);
    assert_eq!(action.update.changed_accounts, vec![account(1, 1)]);
    let again: Vec<B256> = action.reinsert.iter().map(|t| t.hash).collect();
    assert_eq!(again, vec![h(1), h(3)]);
}
