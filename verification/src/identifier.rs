//! Dense integer names for sender addresses, and the key of a transaction.

use crate::primitives::Address;
use vstd::prelude::*;

verus! {

/// The pool's integer name for a sender address.
#[derive(Clone, Copy, Debug, PartialEq, Eq, Structural, Hash)]
pub struct SenderId(pub u64);

/// The key of a transaction in the pool: its sender and its nonce.
///
/// Ids are ordered by sender first, then by nonce.
#[derive(Clone, Copy, Debug, PartialEq, Eq, Structural, Hash)]
pub struct TransactionId {
    /// The sender.
    pub sender: SenderId,
    /// The nonce of the transaction.
    pub nonce: u64,
}

impl TransactionId {
    /// The id of `sender`'s transaction with the given nonce.
    pub fn new(sender: SenderId, nonce: u64) -> (r: TransactionId)
        ensures
            r == (TransactionId { sender, nonce }),
    {
        TransactionId { sender, nonce }
    }

    /// Whether `self` comes strictly before `other`.
    pub open spec fn before(self, other: TransactionId) -> bool {
        self.sender.0 < other.sender.0 || (self.sender.0 == other.sender.0 && self.nonce
            < other.nonce)
    }

    /// Whether `self` comes strictly before `other`.
    pub fn is_before(&self, other: &TransactionId) -> (r: bool)
        ensures
            r == self.before(*other),
    {
        self.sender.0 < other.sender.0 || (self.sender.0 == other.sender.0 && self.nonce
            < other.nonce)
    }

    /// The id that must be resident for this one to be without a gap, given
    /// the sender's nonce on chain: the id one nonce down, or none where this
    /// is the next nonce the chain expects.
    pub fn ancestor(&self, on_chain_nonce: u64) -> (r: Option<TransactionId>)
        ensures
            self.nonce > on_chain_nonce ==> r == Some(
                TransactionId { sender: self.sender, nonce: (self.nonce - 1) as u64 },
            ),
            self.nonce <= on_chain_nonce ==> r.is_none(),
    {
        if self.nonce > on_chain_nonce {
            Some(TransactionId { sender: self.sender, nonce: self.nonce - 1 })
        } else {
            None
        }
    }

    /// The id one nonce up, or none at the last nonce.
    pub fn descendant(&self) -> (r: Option<TransactionId>)
        ensures
            self.nonce < u64::MAX ==> r == Some(
                TransactionId { sender: self.sender, nonce: (self.nonce + 1) as u64 },
            ),
            self.nonce == u64::MAX ==> r.is_none(),
    {
        if self.nonce < u64::MAX {
            Some(TransactionId { sender: self.sender, nonce: self.nonce + 1 })
        } else {
            None
        }
    }
}

/// The id that `address` has in the table `ids`, or gets when it is appended.
pub open spec fn id_for(ids: Seq<Address>, address: Address) -> SenderId {
    if ids.contains(address) {
        SenderId(ids.index_of(address) as u64)
    } else {
        SenderId(ids.len() as u64)
    }
}

/// The table `ids` with `address` in it: appended if it was not there.
pub open spec fn ids_with(ids: Seq<Address>, address: Address) -> Seq<Address> {
    if ids.contains(address) {
        ids
    } else {
        ids.push(address)
    }
}

/// The two-way table between sender addresses and sender ids.
///
/// Ids are handed out in order, starting at zero, and never taken back: the
/// id of an address is its place in the table.
#[derive(Debug, Default)]
pub struct SenderIdentifiers {
    addresses: Vec<Address>,
}

impl SenderIdentifiers {
    /// The known addresses; the address at place `i` has id `i`.
    pub closed spec fn view(&self) -> Seq<Address> {
        self.addresses@
    }

    /// No address is listed twice.
    pub open spec fn wf(&self) -> bool {
        forall|i: int, j: int| 0 <= i < j < self@.len() ==> self@[i] != self@[j]
    }

    /// An empty table.
    pub fn new() -> (r: SenderIdentifiers)
        ensures
            r@.len() == 0,
            r.wf(),
    {
        SenderIdentifiers { addresses: Vec::new() }
    }

    /// The number of known addresses.
    pub fn len(&self) -> (r: usize)
        ensures
            r == self@.len(),
    {
        self.addresses.len()
    }

    /// The address that `id` names, if the id was handed out.
    pub fn address(&self, id: SenderId) -> (r: Option<Address>)
        ensures
            id.0 < self@.len() ==> r == Some(self@[id.0 as int]),
            id.0 >= self@.len() ==> r.is_none(),
    {
        if id.0 < self.addresses.len() as u64 {
            Some(self.addresses[id.0 as usize])
        } else {
            None
        }
    }

    /// The id of `address`, if the address is known.
    pub fn sender_id(&self, address: &Address) -> (r: Option<SenderId>)
        ensures
            match r {
                Some(id) => id.0 < self@.len() && self@[id.0 as int] == *address && forall|k: int|
                    0 <= k < id.0 ==> self@[k] != *address,
                None => !self@.contains(*address),
            },
    {
        let mut i: usize = 0;
        while i < self.addresses.len()
            invariant
                i <= self.addresses@.len(),
                forall|k: int| 0 <= k < i ==> self.addresses@[k] != *address,
            decreases self.addresses@.len() - i,
        {
            if self.addresses[i] == *address {
                return Some(SenderId(i as u64));
            }
            i += 1;
        }
        None
    }

    /// The id of `address`; an unknown address is appended to the table and
    /// gets the next id. Known addresses keep their ids.
    pub fn sender_id_or_create(&mut self, address: Address) -> (r: SenderId)
        requires
            old(self).wf(),
        ensures
            final(self).wf(),
            r.0 < final(self)@.len(),
            final(self)@[r.0 as int] == address,
            final(self)@ == ids_with(old(self)@, address),
            r == id_for(old(self)@, address),
    {
        match self.sender_id(&address) {
            Some(id) => {
                assert(self@[self@.index_of(address)] == address);
                id
            },
            None => {
                let id: u64 = self.addresses.len() as u64;
                self.addresses.push(address);
                SenderId(id)
            },
        }
    }
}

} // verus!
