use transaction_pool::primitives::{Address, TransactionKind, TxType, B256, U256};
use transaction_pool::rpc_compat::{
    fill, from_primitive_access_list, from_primitive_log, from_primitive_signature, from_recovered,
    from_recovered_with_block_context, transaction_to_call_request, AccessListItem, Log, Signature,
    TransactionSignedEcRecovered,
};

fn sample(tx_type: TxType) -> TransactionSignedEcRecovered {
    TransactionSignedEcRecovered {
        signer: Address { hi: 1, lo: 2 },
        hash: B256 { hi: 3, lo: 4 },
        tx_type,
        chain_id: Some(1),
        nonce: 9,
        gas_limit: 21_000,
        max_fee_per_gas: 100,
        max_priority_fee_per_gas: match tx_type {
            TxType::Eip1559 | TxType::Eip4844 => Some(7),
            _ => None,
        },
        max_fee_per_blob_gas: match tx_type {
            TxType::Eip4844 => Some(5),
            _ => None,
        },
        kind: TransactionKind::Call(Address { hi: 5, lo: 6 }),
        value: U256 { hi: 0, lo: 1000 },
        input: vec![1, 2, 3],
        access_list: match tx_type {
            TxType::Legacy => Vec::new(),
            _ => vec![
                AccessListItem {
                    address: Address { hi: 7, lo: 8 },
                    storage_keys: vec![B256 { hi: 0, lo: 1 }, B256 { hi: 0, lo: 2 }],
                },
                AccessListItem { address: Address { hi: 9, lo: 9 }, storage_keys: Vec::new() },
            ],
        },
        blob_versioned_hashes: match tx_type {
            TxType::Eip4844 => vec![B256 { hi: 1, lo: 1 }],
            _ => Vec::new(),
        },
        signature: Signature {
            r: U256 { hi: 0, lo: 11 },
            s: U256 { hi: 0, lo: 12 },
            odd_y_parity: true,
        },
    }
}

#[test]
fn fill_of_a_legacy_transaction() {
    let t = fill(sample(TxType::Legacy), None, None, Some(50), None);
    assert_eq!(t.hash, B256 { hi: 3, lo: 4 });
    assert_eq!(t.nonce, 9);
    assert_eq!(t.from, Address { hi: 1, lo: 2 });
    assert_eq!(t.to, Some(Address { hi: 5, lo: 6 }));
    assert_eq!(t.value, U256 { hi: 0, lo: 1000 });
    assert_eq!(t.gas_price, Some(100));
    assert_eq!(t.max_fee_per_gas, None);
    assert_eq!(t.max_priority_fee_per_gas, None);
    assert_eq!(t.gas, 21_000);
    assert_eq!(t.input, vec![1, 2, 3]);
    assert_eq!(t.chain_id, Some(1));
    assert!(t.access_list.is_none());
    assert_eq!(t.transaction_type, Some(0));
    assert_eq!(t.block_hash, None);
    assert_eq!(t.block_number, None);
    assert_eq!(t.transaction_index, None);
    assert_eq!(t.max_fee_per_blob_gas, None);
    assert_eq!(t.blob_versioned_hashes, None);
    let sig = t.signature.unwrap();
    assert_eq!(sig.v, U256 { hi: 0, lo: 38 });
    assert_eq!(sig.y_parity, None);
    assert_eq!(sig.r, U256 { hi: 0, lo: 11 });
    assert_eq!(sig.s, U256 { hi: 0, lo: 12 });
}

#[test]
fn fill_reports_tip_plus_base_fee_for_dynamic_fees() {
    // cap 100, priority fee 7: under base fee 50 the price is 57
    let t = fill(sample(TxType::Eip1559), None, None, Some(50), None);
    assert_eq!(t.gas_price, Some(57));
    assert_eq!(t.max_fee_per_gas, Some(100));
    assert_eq!(t.max_priority_fee_per_gas, Some(7));
    assert_eq!(t.transaction_type, Some(2));
    // under base fee 96 only 4 are left for the tip: the price is the cap
    assert_eq!(fill(sample(TxType::Eip1559), None, None, Some(96), None).gas_price, Some(100));
    // a base fee above the cap, or none: the cap
    assert_eq!(fill(sample(TxType::Eip1559), None, None, Some(101), None).gas_price, Some(100));
    assert_eq!(fill(sample(TxType::Eip1559), None, None, None, None).gas_price, Some(100));
    assert_eq!(fill(sample(TxType::Eip2930), None, None, Some(50), None).gas_price, Some(100));
    assert_eq!(fill(sample(TxType::Eip2930), None, None, Some(50), None).max_fee_per_gas, None);
}

#[test]
fn fill_keeps_access_list_and_blob_hashes_by_type() {
    let t = fill(sample(TxType::Eip2930), None, None, None, None);
    let list = t.access_list.unwrap();
    assert_eq!(list.len(), 2);
    assert_eq!(list[0].address, Address { hi: 7, lo: 8 });
    assert_eq!(list[0].storage_keys, vec![B256 { hi: 0, lo: 1 }, B256 { hi: 0, lo: 2 }]);
    assert_eq!(list[1].address, Address { hi: 9, lo: 9 });
    assert!(list[1].storage_keys.is_empty());
    assert_eq!(t.blob_versioned_hashes, None);
    assert_eq!(t.signature.unwrap().v, U256 { hi: 0, lo: 1 });
    assert_eq!(t.signature.unwrap().y_parity, Some(true));

    let t = fill(sample(TxType::Eip4844), None, None, None, None);
    assert_eq!(t.blob_versioned_hashes, Some(vec![B256 { hi: 1, lo: 1 }]));
    assert_eq!(t.max_fee_per_blob_gas, Some(5));
    assert_eq!(t.access_list.unwrap().len(), 2);
    assert_eq!(t.transaction_type, Some(3));
}

#[test]
fn block_context_is_taken_as_given() {
    let t = from_recovered_with_block_context(
        sample(TxType::Eip1559),
        B256 { hi: 8, lo: 8 },
        77,
        Some(10),
        3,
    );
    assert_eq!(t.block_hash, Some(B256 { hi: 8, lo: 8 }));
    assert_eq!(t.block_number, Some(77));
    assert_eq!(t.transaction_index, Some(3));
    assert_eq!(t.gas_price, Some(17));
    let p = from_recovered(sample(TxType::Eip1559));
    assert_eq!(p.block_hash, None);
    assert_eq!(p.block_number, None);
    assert_eq!(p.transaction_index, None);
    assert_eq!(p.gas_price, Some(100));
}

#[test]
fn creation_has_no_recipient() {
    let mut s = sample(TxType::Legacy);
    s.kind = TransactionKind::Create;
    assert_eq!(fill(s, None, None, None, None).to, None);
    let mut s = sample(TxType::Legacy);
    s.kind = TransactionKind::Create;
    assert_eq!(transaction_to_call_request(s).to, None);
}

#[test]
fn legacy_recovery_value() {
    let sig = |parity| Signature { r: U256 { hi: 0, lo: 1 }, s: U256 { hi: 0, lo: 2 }, odd_y_parity: parity };
    assert_eq!(from_primitive_signature(sig(false), TxType::Legacy, None).v, U256 { hi: 0, lo: 27 });
    assert_eq!(from_primitive_signature(sig(true), TxType::Legacy, None).v, U256 { hi: 0, lo: 28 });
    assert_eq!(from_primitive_signature(sig(false), TxType::Legacy, Some(1)).v, U256 { hi: 0, lo: 37 });
    assert_eq!(
        from_primitive_signature(sig(true), TxType::Legacy, Some(u64::MAX)).v,
        U256 { hi: 0, lo: 36 + 2 * (u64::MAX as u128) }
    );
    let typed = from_primitive_signature(sig(false), TxType::Eip1559, Some(5));
    assert_eq!(typed.v, U256 { hi: 0, lo: 0 });
    assert_eq!(typed.y_parity, Some(false));
}

#[test]
fn call_request_of_each_fee_kind() {
    let r = transaction_to_call_request(sample(TxType::Legacy));
    assert_eq!(r.from, Some(Address { hi: 1, lo: 2 }));
    assert_eq!(r.to, Some(Address { hi: 5, lo: 6 }));
    assert_eq!(r.gas_price, Some(100));
    assert_eq!(r.max_fee_per_gas, None);
    assert_eq!(r.gas, Some(21_000));
    assert_eq!(r.value, Some(U256 { hi: 0, lo: 1000 }));
    assert_eq!(r.input.input, Some(vec![1, 2, 3]));
    assert_eq!(r.input.data, None);
    assert_eq!(r.nonce, Some(9));
    assert_eq!(r.chain_id, Some(1));
    assert!(r.access_list.is_none());
    assert_eq!(r.transaction_type, Some(0));
    assert_eq!(r.blob_versioned_hashes, None);

    let r = transaction_to_call_request(sample(TxType::Eip4844));
    assert_eq!(r.gas_price, None);
    assert_eq!(r.max_fee_per_gas, Some(100));
    assert_eq!(r.max_priority_fee_per_gas, Some(7));
    assert_eq!(r.max_fee_per_blob_gas, Some(5));
    assert_eq!(r.access_list.unwrap().len(), 2);
    assert_eq!(r.blob_versioned_hashes, Some(vec![B256 { hi: 1, lo: 1 }]));
    assert_eq!(r.transaction_type, Some(3));
}

#[test]
fn access_list_and_log_conversions() {
    let list = from_primitive_access_list(vec![
        AccessListItem { address: Address { hi: 1, lo: 1 }, storage_keys: vec![B256 { hi: 2, lo: 2 }] },
        AccessListItem { address: Address { hi: 3, lo: 3 }, storage_keys: Vec::new() },
        AccessListItem { address: Address { hi: 4, lo: 4 }, storage_keys: vec![B256 { hi: 5, lo: 5 }] },
    ]);
    assert_eq!(list.len(), 3);
    assert_eq!(list[0].address, Address { hi: 1, lo: 1 });
    assert_eq!(list[0].storage_keys, vec![B256 { hi: 2, lo: 2 }]);
    assert_eq!(list[1].address, Address { hi: 3, lo: 3 });
    assert_eq!(list[2].storage_keys, vec![B256 { hi: 5, lo: 5 }]);
    assert!(from_primitive_access_list(Vec::new()).is_empty());

    let log = from_primitive_log(Log {
        address: Address { hi: 1, lo: 1 },
        topics: vec![B256 { hi: 9, lo: 9 }],
        data: vec![4, 5],
    });
    assert_eq!(log.inner.address, Address { hi: 1, lo: 1 });
    assert_eq!(log.inner.topics, vec![B256 { hi: 9, lo: 9 }]);
    assert_eq!(log.inner.data, vec![4, 5]);
    assert_eq!(log.block_hash, None);
    assert_eq!(log.block_number, None);
    assert_eq!(log.block_timestamp, None);
    assert_eq!(log.transaction_hash, None);
    assert_eq!(log.transaction_index, None);
    assert_eq!(log.log_index, None);
    assert!(!log.removed);
}
