//! Fixed-width values: addresses, 32-byte hashes and 256-bit amounts.

use vstd::prelude::*;

verus! {

/// A 20-byte account identifier, held big-endian as its upper 4 and lower 16 bytes.
#[derive(Clone, Copy, Debug, PartialEq, Eq, Structural, Hash)]
pub struct Address {
    pub hi: u32,
    pub lo: u128,
}

/// A 32-byte hash, held big-endian as two 16-byte halves.
#[derive(Clone, Copy, Debug, PartialEq, Eq, Structural, Hash)]
pub struct B256 {
    pub hi: u128,
    pub lo: u128,
}

/// The hash that names a transaction.
pub type TxHash = B256;

/// A 64-byte peer identifier, held big-endian as four 16-byte limbs.
#[derive(Clone, Copy, Debug, PartialEq, Eq, Structural, Hash)]
pub struct PeerId(pub u128, pub u128, pub u128, pub u128);

/// An unsigned 256-bit amount, held as two 128-bit halves.
///
/// Its view is the natural number `hi * 2^128 + lo`.
#[derive(Clone, Copy, Debug, PartialEq, Eq, Structural, Hash)]
pub struct U256 {
    pub hi: u128,
    pub lo: u128,
}

/// `2^256`, one more than the largest amount.
pub open spec fn u256_limit() -> nat {
    0x1_0000_0000_0000_0000_0000_0000_0000_0000_0000_0000_0000_0000_0000_0000_0000_0000nat
}

impl View for U256 {
    type V = nat;

    open spec fn view(&self) -> nat {
        (self.hi as nat) * 0x1_0000_0000_0000_0000_0000_0000_0000_0000nat + (self.lo as nat)
    }
}

impl U256 {
    /// The amount zero.
    pub fn zero() -> (r: U256)
        ensures
            r@ == 0,
    {
        U256 { hi: 0, lo: 0 }
    }

    /// The largest amount, `2^256 - 1`.
    pub fn max_value() -> (r: U256)
        ensures
            r@ == u256_limit() - 1,
    {
        U256 { hi: u128::MAX, lo: u128::MAX }
    }

    /// Widens a 128-bit value.
    pub fn from_u128(x: u128) -> (r: U256)
        ensures
            r@ == x,
    {
        U256 { hi: 0, lo: x }
    }

    /// Widens a 64-bit value.
    pub fn from_u64(x: u64) -> (r: U256)
        ensures
            r@ == x,
    {
        U256 { hi: 0, lo: x as u128 }
    }

    /// The sum, or `None` exactly when it does not fit in 256 bits.
    pub fn checked_add(self, rhs: U256) -> (r: Option<U256>)
        ensures
            self@ + rhs@ < u256_limit() ==> r.is_some() && r.unwrap()@ == self@ + rhs@,
            self@ + rhs@ >= u256_limit() ==> r.is_none(),
    {
        let wraps: bool = self.lo > u128::MAX - rhs.lo;
        let lo: u128 = if wraps {
            self.lo - (u128::MAX - rhs.lo) - 1
        } else {
            self.lo + rhs.lo
        };
        if self.hi > u128::MAX - rhs.hi {
            return None;
        }
        let hi: u128 = self.hi + rhs.hi;
        if wraps {
            if hi == u128::MAX {
                return None;
            }
            Some(U256 { hi: hi + 1, lo })
        } else {
            Some(U256 { hi, lo })
        }
    }

    /// The sum, held at `2^256 - 1` when it does not fit.
    pub fn saturating_add(self, rhs: U256) -> (r: U256)
        ensures
            self@ + rhs@ < u256_limit() ==> r@ == self@ + rhs@,
            self@ + rhs@ >= u256_limit() ==> r@ == u256_limit() - 1,
    {
        match self.checked_add(rhs) {
            Some(s) => s,
            None => U256::max_value(),
        }
    }

    /// The exact product of a 64-bit and a 128-bit factor, which always fits.
    pub fn mul_u64_u128(a: u64, b: u128) -> (r: U256)
        ensures
            r@ == a * b,
    {
        let half: u128 = 0x1_0000_0000_0000_0000;
        let bh: u128 = b / half;
        let bl: u128 = b % half;
        let a_wide: u128 = a as u128;
        assert(a_wide * bl < 0x1_0000_0000_0000_0000_0000_0000_0000_0000) by (nonlinear_arith)
            requires
                a_wide < 0x1_0000_0000_0000_0000,
                bl < 0x1_0000_0000_0000_0000,
        ;
        assert(a_wide * bh < 0x1_0000_0000_0000_0000_0000_0000_0000_0000) by (nonlinear_arith)
            requires
                a_wide < 0x1_0000_0000_0000_0000,
                bh < 0x1_0000_0000_0000_0000,
        ;
        let low_product: u128 = a_wide * bl;
        let high_product: u128 = a_wide * bh;
        let carried: u128 = high_product / half;
        let middle: u128 = (high_product % half) * half;
        let wraps: bool = middle > u128::MAX - low_product;
        let lo: u128 = if wraps {
            middle - (u128::MAX - low_product) - 1
        } else {
            middle + low_product
        };
        let hi: u128 = if wraps {
            carried + 1
        } else {
            carried
        };
        assert(a * b == (a_wide * bh) * 0x1_0000_0000_0000_0000 + a_wide * bl) by (nonlinear_arith)
            requires
                a_wide == a,
                b == bh * 0x1_0000_0000_0000_0000 + bl,
        ;
        U256 { hi, lo }
    }

    /// Whether `self` is strictly below `other`.
    pub fn lt(&self, other: &U256) -> (r: bool)
        ensures
            r == (self@ < other@),
    {
        self.hi < other.hi || (self.hi == other.hi && self.lo < other.lo)
    }

    /// Whether `self` is at most `other`.
    pub fn le(&self, other: &U256) -> (r: bool)
        ensures
            r == (self@ <= other@),
    {
        self.hi < other.hi || (self.hi == other.hi && self.lo <= other.lo)
    }
}

/// The envelope type of a transaction.
#[derive(Clone, Copy, Debug, PartialEq, Eq, Structural)]
pub enum TxType {
    /// Untyped transaction with a single gas price.
    Legacy,
    /// Access-list transaction with a single gas price.
    Eip2930,
    /// Dynamic-fee transaction.
    Eip1559,
    /// Blob-carrying dynamic-fee transaction.
    Eip4844,
}

impl TxType {
    /// The type's number on the wire.
    pub open spec fn spec_as_u8(self) -> u8 {
        match self {
            TxType::Legacy => 0u8,
            TxType::Eip2930 => 1u8,
            TxType::Eip1559 => 2u8,
            TxType::Eip4844 => 3u8,
        }
    }

    /// The type's number on the wire.
    pub fn as_u8(self) -> (r: u8)
        ensures
            r == self.spec_as_u8(),
    {
        match self {
            TxType::Legacy => 0u8,
            TxType::Eip2930 => 1u8,
            TxType::Eip1559 => 2u8,
            TxType::Eip4844 => 3u8,
        }
    }

    /// Whether the type pays a fee cap and a priority fee.
    pub open spec fn spec_is_dynamic_fee(self) -> bool {
        self == TxType::Eip1559 || self == TxType::Eip4844
    }

    /// Whether the type pays a fee cap and a priority fee.
    pub fn is_dynamic_fee(self) -> (r: bool)
        ensures
            r == self.spec_is_dynamic_fee(),
    {
        match self {
            TxType::Eip1559 => true,
            TxType::Eip4844 => true,
            _ => false,
        }
    }
}

/// What a transaction does: deploy a contract or call an account.
#[derive(Clone, Copy, Debug, PartialEq, Eq, Structural)]
pub enum TransactionKind {
    /// Contract creation.
    Create,
    /// Message call to the given account.
    Call(Address),
}

impl TransactionKind {
    /// The called account, if any.
    pub open spec fn spec_to(self) -> Option<Address> {
        match self {
            TransactionKind::Create => None,
            TransactionKind::Call(to) => Some(to),
        }
    }

    /// The called account, if any.
    pub fn to(self) -> (r: Option<Address>)
        ensures
            r == self.spec_to(),
    {
        match self {
            TransactionKind::Create => None,
            TransactionKind::Call(to) => Some(to),
        }
    }
}

/// The priority fee a transaction pays per gas on top of `base_fee`:
/// none when its fee cap is below the base fee; otherwise what is left of the
/// cap above the base fee, limited by the priority fee where one is given.
pub open spec fn effective_tip_per_gas(
    max_fee_per_gas: u128,
    max_priority_fee_per_gas: Option<u128>,
    base_fee: u64,
) -> Option<u128> {
    if max_fee_per_gas < base_fee {
        None
    } else {
        let fee = (max_fee_per_gas - base_fee) as u128;
        match max_priority_fee_per_gas {
            Some(priority) => Some(if priority < fee { priority } else { fee }),
            None => Some(fee),
        }
    }
}

/// Computes [`effective_tip_per_gas`].
pub fn compute_effective_tip_per_gas(
    max_fee_per_gas: u128,
    max_priority_fee_per_gas: Option<u128>,
    base_fee: u64,
) -> (r: Option<u128>)
    ensures
        r == effective_tip_per_gas(max_fee_per_gas, max_priority_fee_per_gas, base_fee),
        r matches Some(tip) ==> tip + base_fee <= max_fee_per_gas,
{
    let base: u128 = base_fee as u128;
    if max_fee_per_gas < base {
        return None;
    }
    let fee: u128 = max_fee_per_gas - base;
    match max_priority_fee_per_gas {
        Some(priority) => Some(if priority < fee { priority } else { fee }),
        None => Some(fee),
    }
}

} // verus!
