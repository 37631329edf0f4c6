//! Conversions from recovered, signed transactions and logs to the shapes
//! that the RPC layer hands out.

use crate::primitives::{
    compute_effective_tip_per_gas, effective_tip_per_gas, Address, TransactionKind, TxType, B256,
    U256,
};
use vstd::prelude::*;

verus! {

/// One entry of a transaction's access list.
#[derive(Debug)]
pub struct AccessListItem {
    /// The account that will be touched.
    pub address: Address,
    /// The storage slots of that account that will be touched.
    pub storage_keys: Vec<B256>,
}

/// One entry of an access list as the RPC layer presents it.
#[derive(Debug)]
pub struct RpcAccessListItem {
    /// The account that will be touched.
    pub address: Address,
    /// The storage slots of that account that will be touched.
    pub storage_keys: Vec<B256>,
}

/// The signature over a transaction.
#[derive(Clone, Copy, Debug, PartialEq, Eq, Structural)]
pub struct Signature {
    /// The `r` component.
    pub r: U256,
    /// The `s` component.
    pub s: U256,
    /// Whether the curve point's y coordinate is odd.
    pub odd_y_parity: bool,
}

/// A signature as the RPC layer presents it.
#[derive(Clone, Copy, Debug, PartialEq, Eq, Structural)]
pub struct RpcSignature {
    /// The `r` component.
    pub r: U256,
    /// The `s` component.
    pub s: U256,
    /// The recovery value: chain-protected for untyped transactions, the parity otherwise.
    pub v: U256,
    /// The parity, given for typed transactions only.
    pub y_parity: Option<bool>,
}

/// A signed transaction together with the signer recovered from its signature.
#[derive(Debug)]
pub struct TransactionSignedEcRecovered {
    /// The recovered signer.
    pub signer: Address,
    /// The transaction hash.
    pub hash: B256,
    /// The envelope type.
    pub tx_type: TxType,
    /// The chain the transaction is bound to, if any.
    pub chain_id: Option<u64>,
    /// The sender's nonce.
    pub nonce: u64,
    /// The gas limit.
    pub gas_limit: u64,
    /// The fee cap per gas; the gas price for non-dynamic types.
    pub max_fee_per_gas: u128,
    /// The priority fee per gas, for dynamic-fee types.
    pub max_priority_fee_per_gas: Option<u128>,
    /// The fee cap per blob gas, for blob transactions.
    pub max_fee_per_blob_gas: Option<u128>,
    /// Creation or call target.
    pub kind: TransactionKind,
    /// The transferred value.
    pub value: U256,
    /// The call data.
    pub input: Vec<u8>,
    /// The access list; empty for untyped transactions.
    pub access_list: Vec<AccessListItem>,
    /// The versioned hashes of the blobs; empty for all but blob transactions.
    pub blob_versioned_hashes: Vec<B256>,
    /// The signature.
    pub signature: Signature,
}

/// A transaction as the RPC layer presents it.
#[derive(Debug)]
pub struct RpcTransaction {
    pub hash: B256,
    pub nonce: u64,
    pub from: Address,
    pub to: Option<Address>,
    pub value: U256,
    pub gas_price: Option<u128>,
    pub max_fee_per_gas: Option<u128>,
    pub max_priority_fee_per_gas: Option<u128>,
    pub signature: Option<RpcSignature>,
    pub gas: u128,
    pub input: Vec<u8>,
    pub chain_id: Option<u64>,
    pub access_list: Option<Vec<RpcAccessListItem>>,
    pub transaction_type: Option<u8>,
    pub block_hash: Option<B256>,
    pub block_number: Option<u64>,
    pub transaction_index: Option<u64>,
    pub max_fee_per_blob_gas: Option<u128>,
    pub blob_versioned_hashes: Option<Vec<B256>>,
}

/// The call data of a request, under either of its two field names.
#[derive(Debug)]
pub struct TransactionInput {
    /// The data under the name `input`.
    pub input: Option<Vec<u8>>,
    /// The data under the legacy name `data`.
    pub data: Option<Vec<u8>>,
}

/// A call or transaction request as the RPC layer accepts it.
#[derive(Debug)]
pub struct TransactionRequest {
    pub from: Option<Address>,
    pub to: Option<Address>,
    pub gas_price: Option<u128>,
    pub max_fee_per_gas: Option<u128>,
    pub max_priority_fee_per_gas: Option<u128>,
    pub max_fee_per_blob_gas: Option<u128>,
    pub gas: Option<u128>,
    pub value: Option<U256>,
    pub input: TransactionInput,
    pub nonce: Option<u64>,
    pub chain_id: Option<u64>,
    pub access_list: Option<Vec<RpcAccessListItem>>,
    pub transaction_type: Option<u8>,
    pub blob_versioned_hashes: Option<Vec<B256>>,
}

/// A log as a contract emitted it.
#[derive(Debug)]
pub struct Log {
    /// The emitting contract.
    pub address: Address,
    /// The indexed topics.
    pub topics: Vec<B256>,
    /// The unindexed data.
    pub data: Vec<u8>,
}

/// A log as the RPC layer presents it, with the place where it was emitted.
#[derive(Debug)]
pub struct RpcLog {
    pub inner: Log,
    pub block_hash: Option<B256>,
    pub block_number: Option<u64>,
    pub block_timestamp: Option<u64>,
    pub transaction_hash: Option<B256>,
    pub transaction_index: Option<u64>,
    pub log_index: Option<u64>,
    pub removed: bool,
}

/// The gas price that a transaction of the given type reports: its fee cap
/// for the non-dynamic types; for the dynamic ones the effective tip plus the
/// base fee where a base fee is known and the cap covers it, else the cap.
pub open spec fn reported_gas_price(
    tx_type: TxType,
    max_fee_per_gas: u128,
    max_priority_fee_per_gas: Option<u128>,
    base_fee: Option<u64>,
) -> u128 {
    if !tx_type.spec_is_dynamic_fee() {
        max_fee_per_gas
    } else {
        match base_fee {
            Some(base) => match effective_tip_per_gas(
                max_fee_per_gas,
                max_priority_fee_per_gas,
                base,
            ) {
                Some(tip) => (tip + base) as u128,
                None => max_fee_per_gas,
            },
            None => max_fee_per_gas,
        }
    }
}

/// The recovery value of an untyped transaction's signature: `35 + 2 * chain_id + parity`
/// where the transaction is bound to a chain, `27 + parity` where it is not.
pub open spec fn legacy_v(odd_y_parity: bool, chain_id: Option<u64>) -> nat {
    let parity: nat = if odd_y_parity { 1 } else { 0 };
    match chain_id {
        Some(id) => (35 + 2 * id + parity) as nat,
        None => 27 + parity,
    }
}

/// The signature in RPC form: untyped transactions get the chain-protected
/// recovery value and no parity, typed ones the parity in both places.
pub open spec fn rpc_signature_of(signature: Signature, tx_type: TxType,
    chain_id: Option<u64>) -> RpcSignature {
    match tx_type {
        TxType::Legacy => RpcSignature {
            r: signature.r,
            s: signature.s,
            v: U256 { hi: 0, lo: legacy_v(signature.odd_y_parity, chain_id) as u128 },
            y_parity: None,
        },
        _ => RpcSignature {
            r: signature.r,
            s: signature.s,
            v: U256 { hi: 0, lo: if signature.odd_y_parity { 1 } else { 0 } },
            y_parity: Some(signature.odd_y_parity),
        },
    }
}

/// Computes [`rpc_signature_of`].
pub fn from_primitive_signature(signature: Signature, tx_type: TxType, chain_id: Option<u64>) -> (r:
    RpcSignature)
    ensures
        r == rpc_signature_of(signature, tx_type, chain_id),
        tx_type == TxType::Legacy ==> r.v@ == legacy_v(signature.odd_y_parity, chain_id),
{
    let parity: u128 = if signature.odd_y_parity { 1 } else { 0 };
    match tx_type {
        TxType::Legacy => {
            let v: u128 = match chain_id {
                Some(id) => 35 + 2 * (id as u128) + parity,
                None => 27 + parity,
            };
            RpcSignature { r: signature.r, s: signature.s, v: U256::from_u128(v), y_parity: None }
        },
        _ => RpcSignature {
            r: signature.r,
            s: signature.s,
            v: U256::from_u128(parity),
            y_parity: Some(signature.odd_y_parity),
        },
    }
}

/// Whether `rpc` holds the entries of `primitive`, one for one and in order.
pub open spec fn same_access_list(rpc: Seq<RpcAccessListItem>, primitive: Seq<AccessListItem>) -> bool {
    &&& rpc.len() == primitive.len()
    &&& forall|i: int|
        0 <= i < rpc.len() ==> (#[trigger] rpc[i]).address == primitive[i].address
            && rpc[i].storage_keys == primitive[i].storage_keys
}

/// Turns an access list into its RPC form, entry by entry.
pub fn from_primitive_access_list(access_list: Vec<AccessListItem>) -> (r: Vec<RpcAccessListItem>)
    ensures
        same_access_list(r@, access_list@),
{
    let ghost given = access_list@;
    let mut out: Vec<RpcAccessListItem> = Vec::new();
    for item in iter: access_list
        invariant
            iter.seq() == given,
            out@.len() == iter.index(),
            forall|k: int|
                0 <= k < out@.len() ==> (#[trigger] out@[k]).address == given[k].address
                    && out@[k].storage_keys == given[k].storage_keys,
    {
        out.push(RpcAccessListItem { address: item.address, storage_keys: item.storage_keys });
    }
    out
}

/// Builds the RPC form of a recovered transaction.
///
/// The block fields are taken as given. The gas price is
/// [`reported_gas_price`]; the fee cap is reported for the dynamic-fee types
/// only; an access list for every type but the untyped one; blob hashes for
/// blob transactions only.
pub fn fill(
    tx: TransactionSignedEcRecovered,
    block_hash: Option<B256>,
    block_number: Option<u64>,
    base_fee: Option<u64>,
    transaction_index: Option<usize>,
) -> (r: RpcTransaction)
    ensures
        r.hash == tx.hash,
        r.nonce == tx.nonce,
        r.from == tx.signer,
        r.to == tx.kind.spec_to(),
        r.value == tx.value,
        r.gas_price == Some(
            reported_gas_price(
                tx.tx_type,
                tx.max_fee_per_gas,
                tx.max_priority_fee_per_gas,
                base_fee,
            ),
        ),
        r.max_fee_per_gas == (if tx.tx_type.spec_is_dynamic_fee() {
            Some(tx.max_fee_per_gas)
        } else {
            None
        }),
        r.max_priority_fee_per_gas == tx.max_priority_fee_per_gas,
        r.signature == Some(rpc_signature_of(tx.signature, tx.tx_type, tx.chain_id)),
        r.gas == tx.gas_limit,
        r.input == tx.input,
        r.chain_id == tx.chain_id,
        tx.tx_type == TxType::Legacy ==> r.access_list.is_none(),
        tx.tx_type != TxType::Legacy ==> r.access_list.is_some() && same_access_list(
            r.access_list.unwrap()@,
            tx.access_list@,
        ),
        r.transaction_type == Some(tx.tx_type.spec_as_u8()),
        r.block_hash == block_hash,
        r.block_number == block_number,
        r.transaction_index == (match transaction_index {
            Some(index) => Some(index as u64),
            None => None,
        }),
        r.max_fee_per_blob_gas == tx.max_fee_per_blob_gas,
        r.blob_versioned_hashes == (if tx.tx_type == TxType::Eip4844 {
            Some(tx.blob_versioned_hashes)
        } else {
            None
        }),
{
    let to = tx.kind.to();
    let max_fee: u128 = tx.max_fee_per_gas;
    let (gas_price, max_fee_per_gas): (Option<u128>, Option<u128>) = match tx.tx_type {
        TxType::Legacy => (Some(max_fee), None),
        TxType::Eip2930 => (Some(max_fee), None),
        TxType::Eip1559 | TxType::Eip4844 => {
            let price: u128 = match base_fee {
                Some(base) => match compute_effective_tip_per_gas(
                    max_fee,
                    tx.max_priority_fee_per_gas,
                    base,
                ) {
                    Some(tip) => tip + base as u128,
                    None => max_fee,
                },
                None => max_fee,
            };
            (Some(price), Some(max_fee))
        },
    };
    let signature = from_primitive_signature(tx.signature, tx.tx_type, tx.chain_id);
    let transaction_type: u8 = tx.tx_type.as_u8();
    let is_legacy: bool = match tx.tx_type {
        TxType::Legacy => true,
        _ => false,
    };
    let is_blob: bool = match tx.tx_type {
        TxType::Eip4844 => true,
        _ => false,
    };
    let access_list = if is_legacy {
        None
    } else {
        Some(from_primitive_access_list(tx.access_list))
    };
    let blob_versioned_hashes = if is_blob {
        Some(tx.blob_versioned_hashes)
    } else {
        None
    };
    let index: Option<u64> = match transaction_index {
        Some(index) => Some(index as u64),
        None => None,
    };
    RpcTransaction {
        hash: tx.hash,
        nonce: tx.nonce,
        from: tx.signer,
        to,
        value: tx.value,
        gas_price,
        max_fee_per_gas,
        max_priority_fee_per_gas: tx.max_priority_fee_per_gas,
        signature: Some(signature),
        gas: tx.gas_limit as u128,
        input: tx.input,
        chain_id: tx.chain_id,
        access_list,
        transaction_type: Some(transaction_type),
        block_hash,
        block_number,
        transaction_index: index,
        max_fee_per_blob_gas: tx.max_fee_per_blob_gas,
        blob_versioned_hashes,
    }
}

/// The RPC form of a mined transaction, with the block it was mined in, that
/// block's base fee and the transaction's place in the block.
pub fn from_recovered_with_block_context(
    tx: TransactionSignedEcRecovered,
    block_hash: B256,
    block_number: u64,
    base_fee: Option<u64>,
    tx_index: usize,
) -> (r: RpcTransaction)
    ensures
        r.hash == tx.hash,
        r.nonce == tx.nonce,
        r.from == tx.signer,
        r.to == tx.kind.spec_to(),
        r.value == tx.value,
        r.gas_price == Some(
            reported_gas_price(
                tx.tx_type,
                tx.max_fee_per_gas,
                tx.max_priority_fee_per_gas,
                base_fee,
            ),
        ),
        r.max_fee_per_gas == (if tx.tx_type.spec_is_dynamic_fee() {
            Some(tx.max_fee_per_gas)
        } else {
            None
        }),
        r.max_priority_fee_per_gas == tx.max_priority_fee_per_gas,
        r.signature == Some(rpc_signature_of(tx.signature, tx.tx_type, tx.chain_id)),
        r.gas == tx.gas_limit,
        r.input == tx.input,
        r.chain_id == tx.chain_id,
        tx.tx_type == TxType::Legacy ==> r.access_list.is_none(),
        tx.tx_type != TxType::Legacy ==> r.access_list.is_some() && same_access_list(
            r.access_list.unwrap()@,
            tx.access_list@,
        ),
        r.transaction_type == Some(tx.tx_type.spec_as_u8()),
        r.block_hash == Some(block_hash),
        r.block_number == Some(block_number),
        r.transaction_index == Some(tx_index as u64),
        r.max_fee_per_blob_gas == tx.max_fee_per_blob_gas,
        r.blob_versioned_hashes == (if tx.tx_type == TxType::Eip4844 {
            Some(tx.blob_versioned_hashes)
        } else {
            None
        }),
{
    fill(tx, Some(block_hash), Some(block_number), base_fee, Some(tx_index))
}

/// The RPC form of a transaction that is not in a block yet: every block
/// field is absent and the gas price is the fee cap.
pub fn from_recovered(tx: TransactionSignedEcRecovered) -> (r: RpcTransaction)
    ensures
        r.hash == tx.hash,
        r.nonce == tx.nonce,
        r.from == tx.signer,
        r.to == tx.kind.spec_to(),
        r.value == tx.value,
        r.gas_price == Some(tx.max_fee_per_gas),
        r.max_fee_per_gas == (if tx.tx_type.spec_is_dynamic_fee() {
            Some(tx.max_fee_per_gas)
        } else {
            None
        }),
        r.max_priority_fee_per_gas == tx.max_priority_fee_per_gas,
        r.signature == Some(rpc_signature_of(tx.signature, tx.tx_type, tx.chain_id)),
        r.gas == tx.gas_limit,
        r.input == tx.input,
        r.chain_id == tx.chain_id,
        tx.tx_type == TxType::Legacy ==> r.access_list.is_none(),
        tx.tx_type != TxType::Legacy ==> r.access_list.is_some() && same_access_list(
            r.access_list.unwrap()@,
            tx.access_list@,
        ),
        r.transaction_type == Some(tx.tx_type.spec_as_u8()),
        r.block_hash.is_none(),
        r.block_number.is_none(),
        r.transaction_index.is_none(),
        r.max_fee_per_blob_gas == tx.max_fee_per_blob_gas,
        r.blob_versioned_hashes == (if tx.tx_type == TxType::Eip4844 {
            Some(tx.blob_versioned_hashes)
        } else {
            None
        }),
{
    fill(tx, None, None, None, None)
}

/// Turns a recovered transaction into the request that would replay it as a call.
///
/// Dynamic-fee types carry their fee cap as the cap and no gas price; the
/// others carry it as the gas price. The call data goes under `input`.
pub fn transaction_to_call_request(tx: TransactionSignedEcRecovered) -> (r: TransactionRequest)
    ensures
        r.from == Some(tx.signer),
        r.to == tx.kind.spec_to(),
        r.gas_price == (if tx.tx_type.spec_is_dynamic_fee() {
            None
        } else {
            Some(tx.max_fee_per_gas)
        }),
        r.max_fee_per_gas == (if tx.tx_type.spec_is_dynamic_fee() {
            Some(tx.max_fee_per_gas)
        } else {
            None
        }),
        r.max_priority_fee_per_gas == tx.max_priority_fee_per_gas,
        r.max_fee_per_blob_gas == tx.max_fee_per_blob_gas,
        r.gas == Some(tx.gas_limit as u128),
        r.value == Some(tx.value),
        r.input.input == Some(tx.input),
        r.input.data.is_none(),
        r.nonce == Some(tx.nonce),
        r.chain_id == tx.chain_id,
        tx.tx_type == TxType::Legacy ==> r.access_list.is_none(),
        tx.tx_type != TxType::Legacy ==> r.access_list.is_some() && same_access_list(
            r.access_list.unwrap()@,
            tx.access_list@,
        ),
        r.transaction_type == Some(tx.tx_type.spec_as_u8()),
        r.blob_versioned_hashes == (if tx.tx_type == TxType::Eip4844 {
            Some(tx.blob_versioned_hashes)
        } else {
            None
        }),
{
    let from = tx.signer;
    let to = tx.kind.to();
    let gas: u64 = tx.gas_limit;
    let tx_type = tx.tx_type;
    let is_legacy: bool = match tx_type {
        TxType::Legacy => true,
        _ => false,
    };
    let is_blob: bool = match tx_type {
        TxType::Eip4844 => true,
        _ => false,
    };
    let access_list = if is_legacy {
        None
    } else {
        Some(from_primitive_access_list(tx.access_list))
    };
    let blob_versioned_hashes = if is_blob {
        Some(tx.blob_versioned_hashes)
    } else {
        None
    };
    let (gas_price, max_fee_per_gas): (Option<u128>, Option<u128>) = if tx_type.is_dynamic_fee() {
        (None, Some(tx.max_fee_per_gas))
    } else {
        (Some(tx.max_fee_per_gas), None)
    };
    TransactionRequest {
        from: Some(from),
        to,
        gas_price,
        max_fee_per_gas,
        max_priority_fee_per_gas: tx.max_priority_fee_per_gas,
        max_fee_per_blob_gas: tx.max_fee_per_blob_gas,
        gas: Some(gas as u128),
        value: Some(tx.value),
        input: TransactionInput { input: Some(tx.input), data: None },
        nonce: Some(tx.nonce),
        chain_id: tx.chain_id,
        access_list,
        transaction_type: Some(tx_type.as_u8()),
        blob_versioned_hashes,
    }
}

/// Wraps a log for the RPC layer: the log itself unchanged, no place of
/// emission known, and not removed.
pub fn from_primitive_log(log: Log) -> (r: RpcLog)
    ensures
        r.inner == log,
        r.block_hash.is_none(),
        r.block_number.is_none(),
        r.block_timestamp.is_none(),
        r.transaction_hash.is_none(),
        r.transaction_index.is_none(),
        r.log_index.is_none(),
        !r.removed,
{
    RpcLog {
        inner: log,
        block_hash: None,
        block_number: None,
        block_timestamp: None,
        transaction_hash: None,
        transaction_index: None,
        log_index: None,
        removed: false,
    }
}

} // verus!
