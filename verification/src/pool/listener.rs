//! The channels to the pool's listeners, and who is subscribed to what.

use crate::pool::events::{FullTransactionEvent, PropagateKind, TransactionEvent};
use crate::primitives::{TxHash, B256};
use std::sync::Arc;
use tokio::sync::mpsc::{Receiver, Sender, UnboundedReceiver, UnboundedSender};
use vstd::prelude::*;

verus! {

/// The sending half of a bounded channel of tokio; opaque to the verifier.
#[verifier::external_type_specification]
#[verifier::external_body]
#[verifier::reject_recursive_types(T)]
pub struct ExSender<T>(Sender<T>);

/// The receiving half of a bounded channel of tokio; opaque to the verifier.
#[verifier::external_type_specification]
#[verifier::external_body]
#[verifier::reject_recursive_types(T)]
pub struct ExReceiver<T>(Receiver<T>);

/// The sending half of an unbounded channel of tokio; opaque to the verifier.
#[verifier::external_type_specification]
#[verifier::external_body]
#[verifier::reject_recursive_types(T)]
pub struct ExUnboundedSender<T>(UnboundedSender<T>);

/// The receiving half of an unbounded channel of tokio; opaque to the verifier.
#[verifier::external_type_specification]
#[verifier::external_body]
#[verifier::reject_recursive_types(T)]
pub struct ExUnboundedReceiver<T>(UnboundedReceiver<T>);

/// How an attempt to send on a bounded channel ended.
#[derive(Clone, Copy, Debug, PartialEq, Eq, Structural)]
pub enum SendOutcome {
    /// The message is in the channel.
    Sent,
    /// The channel is full; the message was dropped.
    Full,
    /// The receiving half is gone.
    Closed,
}

/// Calls `tokio::sync::mpsc::channel`, which makes a bounded channel that
/// buffers up to `buffer` messages. It panics on a capacity of zero or above
/// an eighth of the address space, so these are excluded. Nothing is claimed
/// of the two halves.
#[verifier::external_body]
pub(crate) fn bounded_channel<T>(buffer: usize) -> (r: (Sender<T>, Receiver<T>))
    requires
        0 < buffer <= usize::MAX / 8,
{
    tokio::sync::mpsc::channel(buffer)
}

/// Calls `tokio::sync::mpsc::Sender::try_send`, which never waits, and tells
/// its three results apart. Which of them comes depends on the receiving
/// half, so nothing is claimed of it.
#[verifier::external_body]
pub(crate) fn try_send<T>(sender: &Sender<T>, message: T) -> (r: SendOutcome) {
    match sender.try_send(message) {
        Ok(()) => SendOutcome::Sent,
        Err(tokio::sync::mpsc::error::TrySendError::Full(_)) => SendOutcome::Full,
        Err(tokio::sync::mpsc::error::TrySendError::Closed(_)) => SendOutcome::Closed,
    }
}

/// Calls `tokio::sync::mpsc::Sender::is_closed`, which tells whether the
/// receiving half is gone. Nothing is claimed of the answer.
#[verifier::external_body]
pub(crate) fn is_closed<T>(sender: &Sender<T>) -> (r: bool) {
    sender.is_closed()
}

/// Calls `tokio::sync::mpsc::unbounded_channel`, which makes a channel
/// without a bound. Nothing is claimed of the two halves.
#[verifier::external_body]
pub(crate) fn unbounded_channel<T>() -> (r: (UnboundedSender<T>, UnboundedReceiver<T>)) {
    tokio::sync::mpsc::unbounded_channel()
}

/// Calls `tokio::sync::mpsc::UnboundedSender::send`, which never waits, and
/// tells whether the message went into the channel; it did not if the
/// receiving half is gone. Nothing is claimed of the answer.
#[verifier::external_body]
pub(crate) fn send_unbounded<T>(sender: &UnboundedSender<T>, message: T) -> (r: bool) {
    sender.send(message).is_ok()
}

/// Whether a listener stays registered after an attempt to send to it: it
/// does unless the channel is closed. A full channel only loses the message.
pub fn keeps_listener(outcome: SendOutcome) -> (r: bool)
    ensures
        r == (outcome != SendOutcome::Closed),
{
    match outcome {
        SendOutcome::Closed => false,
        _ => true,
    }
}

/// What the pool learned of a listener's channel while a message went round.
#[derive(Clone, Copy, Debug, PartialEq, Eq, Structural)]
pub enum Contact {
    /// The message was sent to the listener, and the attempt ended so.
    Tried(SendOutcome),
    /// The message was not meant for the listener; the pool only asked
    /// whether the channel is closed.
    Asked {
        /// Whether the channel is closed.
        closed: bool,
    },
}

impl Contact {
    /// Whether the listener stays registered: it does unless its channel
    /// is closed. A full channel only loses the message.
    pub open spec fn stays(self) -> bool {
        match self {
            Contact::Tried(outcome) => outcome != SendOutcome::Closed,
            Contact::Asked { closed } => !closed,
        }
    }
}

/// Whether a listener stays registered after the contact `contact`.
pub fn stays_after(contact: Contact) -> (r: bool)
    ensures
        r == contact.stays(),
{
    match contact {
        Contact::Tried(outcome) => keeps_listener(outcome),
        Contact::Asked { closed } => !closed,
    }
}

/// The listeners of `all` that stay registered, in order, where
/// `contacts` holds for each listener what the pool learned of its channel.
pub open spec fn kept_after<T>(all: Seq<T>, contacts: Seq<Contact>) -> Seq<T>
    decreases all.len(),
{
    if all.len() == 0 || contacts.len() != all.len() {
        Seq::empty()
    } else {
        let rest = kept_after(all.drop_last(), contacts.drop_last());
        if contacts.last().stays() {
            rest.push(all.last())
        } else {
            rest
        }
    }
}

/// Whether `kept` holds the items of `all` at the places `places`, which rise.
pub open spec fn is_selection<T>(kept: Seq<T>, all: Seq<T>, places: Seq<int>) -> bool {
    &&& places.len() == kept.len()
    &&& forall|k: int|
        0 <= k < kept.len() ==> 0 <= #[trigger] places[k] < all.len() && kept[k] == all[places[k]]
    &&& forall|a: int, b: int| 0 <= a < b < places.len() ==> places[a] < places[b]
}

/// Whether `kept` holds some of the items of `all`, in the order of `all`.
pub open spec fn selected_from<T>(kept: Seq<T>, all: Seq<T>) -> bool {
    exists|places: Seq<int>| is_selection(kept, all, places)
}

/// The receiving end of the events of one transaction.
#[derive(Debug)]
pub struct TransactionEvents {
    /// The hash of the transaction.
    pub hash: TxHash,
    /// The channel on which its events arrive.
    pub events: UnboundedReceiver<TransactionEvent>,
}

/// The receiving end of the events of all transactions.
#[derive(Debug)]
pub struct AllTransactionsEvents {
    /// The channel on which the events arrive.
    pub events: UnboundedReceiver<FullTransactionEvent>,
}

/// What the listeners are told when the transaction with hash `hash`
/// enters the pending sub-pool: that it is pending and, where it replaced
/// another, that the other was replaced by it.
pub open spec fn told_as_pending(hash: TxHash, replaced: Option<TxHash>) -> Seq<
    FullTransactionEvent,
> {
    let first = FullTransactionEvent { hash, event: TransactionEvent::Pending };
    match replaced {
        Some(gone) => seq![
            first,
            FullTransactionEvent { hash: gone, event: TransactionEvent::Replaced(hash) },
        ],
        None => seq![first],
    }
}

/// What the listeners are told when the transaction with hash `hash` was
/// sent to `peers`.
pub open spec fn told_as_propagated(hash: TxHash, peers: Vec<PropagateKind>) -> FullTransactionEvent {
    FullTransactionEvent { hash, event: TransactionEvent::Propagated(Arc::new(peers)) }
}

/// The listeners to the events of one transaction.
#[derive(Debug)]
pub struct PoolEventBroadcaster {
    hash: TxHash,
    senders: Vec<UnboundedSender<TransactionEvent>>,
}

/// The listeners to transaction events: those to all events, and for each
/// subscribed hash those to its events; with a record of what they were told.
pub struct PoolEventBroadcast {
    all_events: Vec<UnboundedSender<FullTransactionEvent>>,
    broadcasters: Vec<PoolEventBroadcaster>,
    told: Ghost<Seq<FullTransactionEvent>>,
}

/// Sends `event` to each of `senders` and keeps those whose channel took it.
fn send_to_each(senders: &mut Vec<UnboundedSender<TransactionEvent>>, event: &TransactionEvent)
    ensures
        selected_from(final(senders)@, old(senders)@),
{
    let mut list: Vec<UnboundedSender<TransactionEvent>> = Vec::new();
    std::mem::swap(senders, &mut list);
    let ghost all = list@;
    let ghost mut places: Seq<int> = Seq::empty();
    for sender in iter: list
        invariant
            iter.seq() == all,
            is_selection(senders@, all, places),
            forall|k: int| 0 <= k < places.len() ==> places[k] < iter.index(),
    {
        if send_unbounded(&sender, event.duplicate()) {
            proof {
                places = places.push(iter.index() as int);
            }
            senders.push(sender);
        }
    }
}

/// Sends `event` to each of `senders` and keeps those whose channel took it.
fn send_full_to_each(
    senders: &mut Vec<UnboundedSender<FullTransactionEvent>>,
    event: &FullTransactionEvent,
)
    ensures
        selected_from(final(senders)@, old(senders)@),
{
    let mut list: Vec<UnboundedSender<FullTransactionEvent>> = Vec::new();
    std::mem::swap(senders, &mut list);
    let ghost all = list@;
    let ghost mut places: Seq<int> = Seq::empty();
    for sender in iter: list
        invariant
            iter.seq() == all,
            is_selection(senders@, all, places),
            forall|k: int| 0 <= k < places.len() ==> places[k] < iter.index(),
    {
        if send_unbounded(&sender, event.duplicate()) {
            proof {
                places = places.push(iter.index() as int);
            }
            senders.push(sender);
        }
    }
}

impl PoolEventBroadcast {
    /// The hashes that have listeners of their own.
    pub closed spec fn hashes(&self) -> Seq<TxHash> {
        Seq::new(self.broadcasters@.len(), |i: int| self.broadcasters@[i].hash)
    }

    /// The number of listeners to all events.
    pub closed spec fn all_listeners(&self) -> nat {
        self.all_events@.len()
    }

    /// Every event that was handed to the listeners so far, in order. An
    /// event is handed to each listener to all events and to each listener
    /// of its hash; one whose channel is closed misses it and is dropped.
    pub closed spec fn told(&self) -> Seq<FullTransactionEvent> {
        self.told@
    }

    /// No hash is listed twice.
    pub open spec fn wf(&self) -> bool {
        forall|i: int, j: int|
            0 <= i < j < self.hashes().len() ==> self.hashes()[i] != self.hashes()[j]
    }

    /// A broadcast without listeners.
    pub fn new() -> (r: PoolEventBroadcast)
        ensures
            r.wf(),
            r.hashes().len() == 0,
            r.all_listeners() == 0,
            r.told() == Seq::<FullTransactionEvent>::empty(),
    {
        PoolEventBroadcast {
            all_events: Vec::new(),
            broadcasters: Vec::new(),
            told: Ghost(Seq::empty()),
        }
    }

    /// The place of the listeners of `hash`.
    fn find(&self, hash: &TxHash) -> (r: Option<usize>)
        ensures
            match r {
                Some(i) => i < self.hashes().len() && self.hashes()[i as int] == *hash,
                None => !self.hashes().contains(*hash),
            },
    {
        let mut i: usize = 0;
        while i < self.broadcasters.len()
            invariant
                i <= self.broadcasters@.len(),
                forall|k: int| 0 <= k < i ==> self.hashes()[k] != *hash,
            decreases self.broadcasters@.len() - i,
        {
            if self.broadcasters[i].hash == *hash {
                return Some(i);
            }
            i += 1;
        }
        None
    }

    /// Whether `hash` has listeners of its own.
    pub fn is_subscribed(&self, hash: &TxHash) -> (r: bool)
        ensures
            r == self.hashes().contains(*hash),
    {
        self.find(hash).is_some()
    }

    /// Adds a listener to the events of the transaction with hash `hash`.
    pub fn subscribe(&mut self, hash: TxHash) -> (r: TransactionEvents)
        requires
            old(self).wf(),
        ensures
            final(self).wf(),
            r.hash == hash,
            final(self).hashes().contains(hash),
            old(self).hashes().contains(hash) ==> final(self).hashes() == old(self).hashes(),
            !old(self).hashes().contains(hash) ==> final(self).hashes() == old(self).hashes().push(
                hash,
            ),
            final(self).all_listeners() == old(self).all_listeners(),
            final(self).told() == old(self).told(),
    {
        let (sender, events) = unbounded_channel::<TransactionEvent>();
        let ghost before = self.hashes();
        match self.find(&hash) {
            Some(i) => {
                self.broadcasters[i].senders.push(sender);
                assert(self.hashes() =~= before);
                assert(self.hashes()[i as int] == hash);
            },
            None => {
                let mut senders: Vec<UnboundedSender<TransactionEvent>> = Vec::new();
                senders.push(sender);
                self.broadcasters.push(PoolEventBroadcaster { hash, senders });
                assert(self.hashes() =~= before.push(hash));
                assert(self.hashes()[before.len() as int] == hash);
            },
        }
        TransactionEvents { hash, events }
    }

    /// Adds a listener to the events of all transactions.
    pub fn subscribe_all(&mut self) -> (r: AllTransactionsEvents)
        ensures
            final(self).hashes() == old(self).hashes(),
            final(self).all_listeners() == old(self).all_listeners() + 1,
            final(self).told() == old(self).told(),
    {
        let (sender, events) = unbounded_channel::<FullTransactionEvent>();
        self.all_events.push(sender);
        assert(self.hashes() =~= old(self).hashes());
        AllTransactionsEvents { events }
    }

    /// Sends `event` to the listeners to all events and to those of `hash`,
    /// and records it as told. A listener whose channel is closed is
    /// dropped. After an event that nothing can follow, `hash` has no
    /// listeners of its own any more; the subscriptions to other hashes stay
    /// as they are.
    pub fn broadcast(&mut self, hash: TxHash, event: TransactionEvent)
        requires
            old(self).wf(),
        ensures
            final(self).wf(),
            final(self).told() == old(self).told().push(FullTransactionEvent { hash, event }),
            final(self).all_listeners() <= old(self).all_listeners(),
            event.spec_is_final() ==> !final(self).hashes().contains(hash),
            final(self).hashes().contains(hash) ==> old(self).hashes().contains(hash),
            forall|other: TxHash|
                other != hash
                    ==> final(self).hashes().contains(other) == old(self).hashes().contains(other),
    {
        let ghost before = self.hashes();
        let full = FullTransactionEvent { hash, event: event.duplicate() };
        self.told = Ghost(self.told@.push(full));
        send_full_to_each(&mut self.all_events, &full);
        assert(self.hashes() =~= before);
        proof {
            let places = choose|places: Seq<int>|
                is_selection(self.all_events@, old(self).all_events@, places);
            lemma_selection_is_shorter(self.all_events@, old(self).all_events@, places);
        }
        match self.find(&hash) {
            None => {},
            Some(i) => {
                send_to_each(&mut self.broadcasters[i].senders, &event);
                assert(self.hashes() =~= before);
                if event.is_final() || self.broadcasters[i].senders.len() == 0 {
                    let _gone = self.broadcasters.remove(i);
                    assert(self.hashes() =~= before.remove(i as int));
                    proof {
                        let after = self.hashes();
                        assert forall|k: int| 0 <= k < after.len() implies after[k] != hash by {
                            let ok = if k < i { k } else { k + 1 };
                            assert(after[k] == before[ok]);
                        }
                        assert forall|other: TxHash| other != hash implies after.contains(other)
                            == before.contains(other) by {
                            if before.contains(other) {
                                let j = choose|j: int| 0 <= j < before.len() && before[j] == other;
                                let nj = if j < i { j } else { j - 1 };
                                assert(after[nj] == other);
                            }
                            if after.contains(other) {
                                let j = choose|j: int| 0 <= j < after.len() && after[j] == other;
                                let ok = if j < i { j } else { j + 1 };
                                assert(before[ok] == other);
                            }
                        }
                        assert forall|a: int, b: int| 0 <= a < b < after.len() implies after[a]
                            != after[b] by {
                            let oa = if a < i { a } else { a + 1 };
                            let ob = if b < i { b } else { b + 1 };
                            assert(after[a] == before[oa] && after[b] == before[ob]);
                        }
                    }
                }
            },
        }
    }

    /// Tells that the transaction entered the pending sub-pool; where it
    /// replaced another, tells the listeners of that one that it was replaced.
    pub fn pending(&mut self, hash: TxHash, replaced: Option<TxHash>)
        requires
            old(self).wf(),
        ensures
            final(self).wf(),
            final(self).all_listeners() <= old(self).all_listeners(),
            replaced matches Some(gone) ==> !final(self).hashes().contains(gone),
            forall|other: TxHash|
                final(self).hashes().contains(other) ==> old(self).hashes().contains(other),
            final(self).told() == old(self).told() + told_as_pending(hash, replaced),
    {
        self.broadcast(hash, TransactionEvent::Pending);
        match replaced {
            Some(gone) => {
                self.broadcast(gone, TransactionEvent::Replaced(hash));
            },
            None => {},
        }
        assert(self.told() =~= old(self).told() + told_as_pending(hash, replaced));
    }

    /// Tells that the transaction entered a parked sub-pool: the event
    /// "queued" is handed to its listeners and to those to all events. The
    /// subscriptions to other hashes stay as they are.
    pub fn queued(&mut self, hash: TxHash)
        requires
            old(self).wf(),
        ensures
            final(self).wf(),
            final(self).all_listeners() <= old(self).all_listeners(),
            final(self).told() == old(self).told().push(
                (FullTransactionEvent { hash, event: TransactionEvent::Queued }),
            ),
            final(self).hashes().contains(hash) ==> old(self).hashes().contains(hash),
            forall|other: TxHash|
                other != hash
                    ==> final(self).hashes().contains(other) == old(self).hashes().contains(other),
    {
        self.broadcast(hash, TransactionEvent::Queued);
    }

    /// Tells that the transaction was replaced by the one with hash `by`.
    pub fn replaced(&mut self, hash: TxHash, by: TxHash)
        requires
            old(self).wf(),
        ensures
            final(self).wf(),
            final(self).all_listeners() <= old(self).all_listeners(),
            !final(self).hashes().contains(hash),
            forall|other: TxHash|
                final(self).hashes().contains(other) ==> old(self).hashes().contains(other),
            final(self).told() == old(self).told().push(
                (FullTransactionEvent { hash, event: TransactionEvent::Replaced(by) }),
            ),
    {
        self.broadcast(hash, TransactionEvent::Replaced(by));
    }

    /// Tells that the transaction was mined in the block with hash `block_hash`.
    pub fn mined(&mut self, hash: TxHash, block_hash: B256)
        requires
            old(self).wf(),
        ensures
            final(self).wf(),
            final(self).all_listeners() <= old(self).all_listeners(),
            !final(self).hashes().contains(hash),
            forall|other: TxHash|
                final(self).hashes().contains(other) ==> old(self).hashes().contains(other),
            final(self).told() == old(self).told().push(
                (FullTransactionEvent { hash, event: TransactionEvent::Mined(block_hash) }),
            ),
    {
        self.broadcast(hash, TransactionEvent::Mined(block_hash));
    }

    /// Tells that the transaction was dropped.
    pub fn discarded(&mut self, hash: TxHash)
        requires
            old(self).wf(),
        ensures
            final(self).wf(),
            final(self).all_listeners() <= old(self).all_listeners(),
            !final(self).hashes().contains(hash),
            forall|other: TxHash|
                final(self).hashes().contains(other) ==> old(self).hashes().contains(other),
            final(self).told() == old(self).told().push(
                (FullTransactionEvent { hash, event: TransactionEvent::Discarded }),
            ),
    {
        self.broadcast(hash, TransactionEvent::Discarded);
    }

    /// Tells that the transaction was sent to the given peers: the event
    /// "propagated" with these peers is handed to its listeners and to
    /// those to all events. The subscriptions to other hashes stay as they are.
    pub fn propagated(&mut self, hash: TxHash, peers: Vec<PropagateKind>)
        requires
            old(self).wf(),
        ensures
            final(self).wf(),
            final(self).all_listeners() <= old(self).all_listeners(),
            final(self).told() == old(self).told().push(told_as_propagated(hash, peers)),
            final(self).hashes().contains(hash) ==> old(self).hashes().contains(hash),
            forall|other: TxHash|
                other != hash
                    ==> final(self).hashes().contains(other) == old(self).hashes().contains(other),
    {
        self.broadcast(hash, TransactionEvent::Propagated(Arc::new(peers)));
    }
}

/// A selection has no more items than what it was selected from.
pub proof fn lemma_selection_is_shorter<T>(kept: Seq<T>, all: Seq<T>, places: Seq<int>)
    requires
        is_selection(kept, all, places),
    ensures
        kept.len() <= all.len(),
    decreases kept.len(),
{
    if kept.len() > 0 {
        let n = kept.len() - 1;
        assert(is_selection(kept.drop_last(), all.take(places[n]), places.drop_last())) by {
            assert forall|k: int| 0 <= k < n implies 0 <= #[trigger] places.drop_last()[k]
                < all.take(places[n]).len()
                    && kept.drop_last()[k] == all.take(places[n])[places.drop_last()[k]] by {
                assert(places[k] < places[n]);
            }
        }
        lemma_selection_is_shorter(kept.drop_last(), all.take(places[n]), places.drop_last());
    }
}

} // verus!
