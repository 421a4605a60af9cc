//! BACnet transaction management: invoke ID allocation and request/response
//! matching.
//!
//! # Invoke IDs
//!
//! BACnet Confirmed-Request APDUs carry an 8-bit invoke ID chosen by the
//! originator, who must match every response back to the outstanding request
//! by it. IDs are allocated sequentially and wrap at 255.

use std::collections::HashMap;

use tokio::sync::oneshot;
use vstd::prelude::*;
use vstd::std_specs::hash::*;

use super::error::BacnetError;
use super::frame::Apdu;

verus! {

/// How often a request is sent again before it is given up.
pub const MAX_RETRIES: u32 = 3;

// ── PendingTable ────────────────────────────────────────────

/// The waiters of in-flight requests, keyed by invoke ID, and the ID to try next.
pub struct PendingTable<W> {
    pending: HashMap<u8, W>,
    next_id: u8,
}

/// What a [`PendingTable`] holds.
pub struct PendingView<W> {
    /// The waiter of each ID that is in flight.
    pub waiters: Map<u8, W>,
    /// The first ID that the next allocation tries.
    pub next_id: u8,
}

impl<W> View for PendingTable<W> {
    type V = PendingView<W>;

    closed spec fn view(&self) -> PendingView<W> {
        PendingView { waiters: self.pending@, next_id: self.next_id }
    }
}

/// The ID that lies `k` places after `start`, counting around from 255 to 0.
pub open spec fn id_after(start: u8, k: int) -> u8 {
    ((start + k) % 256) as u8
}

/// Whether `id` is the first one free, counting around from `start`.
pub open spec fn first_free(taken: Set<u8>, start: u8, id: u8) -> bool {
    exists|k: int|
        0 <= k < 256 && id == #[trigger] id_after(start, k) && !taken.contains(id) && forall|j: int|
            0 <= j < k ==> taken.contains(#[trigger] id_after(start, j))
}

impl<W> PendingTable<W> {
    /// Create an empty table.
    pub fn new() -> (res: Self)
        ensures
            res@.waiters == Map::<u8, W>::empty(),
            res@.next_id == 0,
    {
        broadcast use group_hash_axioms;

        PendingTable { pending: HashMap::new(), next_id: 0 }
    }

    /// Find the next free invoke ID, trying up to 256 candidates from the one
    /// after the last allocation, or `None` if every ID is in flight.
    pub fn claim(&mut self) -> (res: Option<u8>)
        ensures
            final(self)@.waiters == old(self)@.waiters,
            match res {
                Some(id) => first_free(old(self)@.waiters.dom(), old(self)@.next_id, id)
                    && final(self)@.next_id == id_after(id, 1),
                None => final(self)@.next_id == old(self)@.next_id && forall|id: u8|
                    old(self)@.waiters.contains_key(id),
            },
    {
        broadcast use group_hash_axioms;

        let ghost start = self.next_id;
        let mut tried: u16 = 0;
        while tried < 256
            invariant
                tried <= 256,
                self.pending@ == old(self).pending@,
                start == old(self).next_id,
                self.next_id == id_after(start, tried as int),
                forall|j: int|
                    0 <= j < tried ==> self.pending@.contains_key(#[trigger] id_after(start, j)),
            decreases 256 - tried,
        {
            let id: u8 = self.next_id;
            self.next_id = self.next_id.wrapping_add(1);
            if !self.pending.contains_key(&id) {
                assert(id == id_after(start, tried as int));
                return Some(id);
            }
            tried = tried + 1;
        }
        assert forall|id: u8| self.pending@.contains_key(id) by {
            let j = (id - start + 256) % 256;
            assert(id_after(start, j) == id);
        }
        None
    }

    /// Register the waiter of an ID.
    pub fn register(&mut self, id: u8, waiter: W)
        ensures
            final(self)@ == (PendingView {
                waiters: old(self)@.waiters.insert(id, waiter),
                next_id: old(self)@.next_id,
            }),
    {
        broadcast use group_hash_axioms;

        self.pending.insert(id, waiter);
    }

    /// Take the waiter of an ID out of the table, together with the reply that
    /// is to be handed to it. Without a waiter the reply is discarded.
    pub fn settle<R>(&mut self, id: u8, reply: R) -> (res: Option<(W, R)>)
        ensures
            final(self)@ == (PendingView {
                waiters: old(self)@.waiters.remove(id),
                next_id: old(self)@.next_id,
            }),
            res == if old(self)@.waiters.contains_key(id) {
                Some((old(self)@.waiters[id], reply))
            } else {
                None
            },
    {
        broadcast use group_hash_axioms;

        match self.pending.remove(&id) {
            Some(waiter) => Some((waiter, reply)),
            None => None,
        }
    }

    /// Number of in-flight requests.
    pub fn pending_count(&self) -> (n: usize)
        ensures
            n == self@.waiters.dom().len(),
    {
        broadcast use group_hash_axioms;

        self.pending.len()
    }
}

/// The first free ID counting around from a start is unique.
pub proof fn first_free_is_unique(taken: Set<u8>, start: u8, a: u8, b: u8)
    requires
        first_free(taken, start, a),
        first_free(taken, start, b),
    ensures
        a == b,
{
    let ka = choose|k: int|
        0 <= k < 256 && a == #[trigger] id_after(start, k) && !taken.contains(a) && forall|j: int|
            0 <= j < k ==> taken.contains(#[trigger] id_after(start, j));
    let kb = choose|k: int|
        0 <= k < 256 && b == #[trigger] id_after(start, k) && !taken.contains(b) && forall|j: int|
            0 <= j < k ==> taken.contains(#[trigger] id_after(start, j));
    if ka < kb {
        assert(taken.contains(id_after(start, ka)));
    } else if kb < ka {
        assert(taken.contains(id_after(start, kb)));
    }
}

/// There is no free ID exactly if 256 of them are taken.
pub proof fn no_free_id_iff_256_taken(taken: Set<u8>)
    requires
        taken.finite(),
    ensures
        taken.len() <= 256,
        (forall|id: u8| taken.contains(id)) <==> taken.len() == 256,
{
    let numbers = vstd::set_lib::set_int_range(0, 256);
    vstd::set_lib::lemma_int_range(0, 256);
    let image = taken.map(|id: u8| id as int);
    vstd::set_lib::lemma_map_size(taken, image, |id: u8| id as int);
    assert(image.subset_of(numbers));
    vstd::set_lib::lemma_len_subset(image, numbers);
    if forall|id: u8| taken.contains(id) {
        assert forall|n: int| numbers.contains(n) implies image.contains(n) by {
            assert(taken.contains(n as u8));
            assert((|id: u8| id as int)(n as u8) == n);
        }
        assert(image =~= numbers);
    }
    if taken.len() == 256 {
        vstd::set_lib::lemma_subset_equality(image, numbers);
        assert forall|id: u8| taken.contains(id) by {
            assert(numbers.contains(id as int));
            let k = choose|k: u8| taken.contains(k) && (|id: u8| id as int)(k) == id as int;
            assert(k == id);
        }
    }
}

// ── TransactionTable ────────────────────────────────────────

/// What a waiter is told: the response, or why there is none.
pub type Reply = Result<Apdu, BacnetError>;

/// `tokio::sync::oneshot::Sender`: the half of a channel that a reply goes into.
#[verifier::external_type_specification]
#[verifier::external_body]
#[verifier::reject_recursive_types(T)]
pub struct ExOneshotSender<T>(oneshot::Sender<T>);

/// `tokio::sync::oneshot::Receiver`: the half of a channel that a reply comes
/// out of.
#[verifier::external_type_specification]
#[verifier::external_body]
#[verifier::reject_recursive_types(T)]
pub struct ExOneshotReceiver<T>(oneshot::Receiver<T>);

/// `tokio::sync::oneshot::error::RecvError`: what waiting on a receiver yields
/// when its sender has gone.
#[verifier::external_type_specification]
#[verifier::external_body]
pub struct ExOneshotRecvError(oneshot::error::RecvError);

/// `tokio::sync::oneshot::channel`: a fresh channel for one reply.
///
/// Nothing is claimed of the two halves. That what is sent into the one comes
/// out of the other is how the channel behaves at run time, and no contract
/// here says it.
#[verifier::external_body]
fn oneshot_channel() -> (halves: (oneshot::Sender<Reply>, oneshot::Receiver<Reply>))
{
    oneshot::channel()
}

/// `tokio::sync::oneshot::Sender::send`: hand a reply to the waiter.
///
/// Claimed of it: if the waiter has gone, the reply comes back as it was.
#[verifier::external_body]
fn oneshot_send(sender: oneshot::Sender<Reply>, reply: Reply) -> (res: Result<(), Reply>)
    ensures
        res matches Err(back) ==> back == reply,
{
    sender.send(reply)
}

/// Manages in-flight BACnet transactions keyed by invoke ID.
///
/// BACnet allows 256 concurrent invoke IDs (0-255). The table tracks which IDs
/// are in flight and routes responses to the correct waiter via a
/// `tokio::sync::oneshot` channel.
///
/// 1. `allocate()`: obtain an invoke ID and a receiver for the reply.
/// 2. Send a Confirmed-Request APDU with that invoke ID.
/// 3. When a response arrives, call `dispatch(invoke_id, apdu)`.
/// 4. The waiter wakes up with the result.
///
/// If no reply arrives in time, `timeout(id)` cancels the waiter with a
/// [`BacnetError::Timeout`].
pub struct TransactionTable {
    table: PendingTable<oneshot::Sender<Reply>>,
}

/// What a [`TransactionTable`] tells: the IDs in flight and the next to try.
pub struct TransactionView {
    /// The IDs in flight.
    pub in_flight: Set<u8>,
    /// The first ID that the next allocation tries.
    pub next_id: u8,
}

impl View for TransactionTable {
    type V = TransactionView;

    closed spec fn view(&self) -> TransactionView {
        TransactionView { in_flight: self.table@.waiters.dom(), next_id: self.table@.next_id }
    }
}

impl Default for TransactionTable {
    fn default() -> (res: Self)
        ensures
            res@ == (TransactionView { in_flight: Set::empty(), next_id: 0 }),
    {
        let res: TransactionTable = TransactionTable { table: PendingTable::new() };
        assert(res@.in_flight =~= Set::empty());
        res
    }
}

impl TransactionTable {
    /// The channel that the waiter of each ID in flight listens to.
    pub closed spec fn waiters(&self) -> Map<u8, oneshot::Sender<Reply>> {
        self.table@.waiters
    }

    /// Every ID in flight has a waiter, and no other ID has one.
    pub proof fn every_id_in_flight_has_a_waiter(&self)
        ensures
            self.waiters().dom() == self@.in_flight,
    {
    }

    /// Create an empty table.
    pub fn new() -> (res: Self)
        ensures
            res@ == (TransactionView { in_flight: Set::empty(), next_id: 0 }),
    {
        TransactionTable::default()
    }

    /// Allocate the next available invoke ID and register a waiter.
    ///
    /// Returns `Some((invoke_id, receiver))`, or `None` if all 256 IDs are in
    /// flight. The receiver resolves when `dispatch` or `timeout` is called for
    /// the same `invoke_id`; no contract states that, since it is the channel
    /// that connects the two.
    pub fn allocate(&mut self) -> (res: Option<(u8, oneshot::Receiver<Reply>)>)
        ensures
            match res {
                Some((id, _)) => first_free(old(self)@.in_flight, old(self)@.next_id, id)
                    && final(self)@ == (TransactionView {
                    in_flight: old(self)@.in_flight.insert(id),
                    next_id: id_after(id, 1),
                }) && final(self).waiters().remove(id) == old(self).waiters(),
                None => final(self)@ == old(self)@ && final(self).waiters() == old(self).waiters()
                    && forall|id: u8| old(self)@.in_flight.contains(id),
            },
    {
        match self.table.claim() {
            Some(id) => {
                let (tx, rx): (oneshot::Sender<Reply>, oneshot::Receiver<Reply>) =
                    oneshot_channel();
                self.table.register(id, tx);
                assert(self@.in_flight =~= old(self)@.in_flight.insert(id));
                assert(!old(self).table@.waiters.dom().contains(id));
                assert(self.waiters().remove(id) =~= old(self).waiters());
                Some((id, rx))
            },
            None => {
                assert(forall|id: u8|
                    old(self)@.in_flight.contains(id) == old(self).table@.waiters.contains_key(id));
                None
            },
        }
    }

    /// Take the request with `invoke_id` out of the table: the channel of its
    /// waiter, and the response that is to go into it. Without a waiter the
    /// response is discarded. No other waiter is touched.
    pub fn settle_response(&mut self, invoke_id: u8, apdu: Apdu) -> (res: Option<
        (oneshot::Sender<Reply>, Reply),
    >)
        ensures
            final(self)@ == (TransactionView {
                in_flight: old(self)@.in_flight.remove(invoke_id),
                next_id: old(self)@.next_id,
            }),
            final(self).waiters() == old(self).waiters().remove(invoke_id),
            res is Some == old(self)@.in_flight.contains(invoke_id),
            res matches Some((waiter, reply)) ==> waiter == old(self).waiters()[invoke_id]
                && reply == Ok::<Apdu, BacnetError>(apdu),
    {
        let res: Option<(oneshot::Sender<Reply>, Reply)> = self.table.settle(invoke_id, Ok(apdu));
        assert(self@.in_flight =~= old(self)@.in_flight.remove(invoke_id));
        res
    }

    /// Take the request with `invoke_id` out of the table: the channel of its
    /// waiter, and the error of a request that was sent again in vain. No other
    /// waiter is touched.
    pub fn settle_timeout(&mut self, invoke_id: u8) -> (res: Option<(oneshot::Sender<Reply>, Reply)>)
        ensures
            final(self)@ == (TransactionView {
                in_flight: old(self)@.in_flight.remove(invoke_id),
                next_id: old(self)@.next_id,
            }),
            final(self).waiters() == old(self).waiters().remove(invoke_id),
            res is Some == old(self)@.in_flight.contains(invoke_id),
            res matches Some((waiter, reply)) ==> waiter == old(self).waiters()[invoke_id]
                && reply == Err::<Apdu, BacnetError>(BacnetError::Timeout(MAX_RETRIES)),
    {
        let res: Option<(oneshot::Sender<Reply>, Reply)> = self.table.settle(
            invoke_id,
            Err(BacnetError::Timeout(MAX_RETRIES)),
        );
        assert(self@.in_flight =~= old(self)@.in_flight.remove(invoke_id));
        res
    }

    /// Route a received APDU to the correct waiter.
    ///
    /// If no waiter is registered for `invoke_id` (e.g. it already timed out)
    /// the APDU is silently discarded. What goes into whose channel is said by
    /// [`TransactionTable::settle_response`]; whether the waiter is still there
    /// to receive it rests on the moment, and no contract says it.
    pub fn dispatch(&mut self, invoke_id: u8, apdu: Apdu)
        ensures
            final(self)@ == (TransactionView {
                in_flight: old(self)@.in_flight.remove(invoke_id),
                next_id: old(self)@.next_id,
            }),
            final(self).waiters() == old(self).waiters().remove(invoke_id),
    {
        if let Some((waiter, reply)) = self.settle_response(invoke_id, apdu) {
            let _ = oneshot_send(waiter, reply);
        }
    }

    /// Cancel a pending request with a [`BacnetError::Timeout`].
    ///
    /// Removes the entry from the table and wakes the waiter with an error
    /// carrying the number of retries. What goes into whose channel is said by
    /// [`TransactionTable::settle_timeout`]; whether the waiter is still there
    /// to receive it rests on the moment, and no contract says it.
    pub fn timeout(&mut self, invoke_id: u8)
        ensures
            final(self)@ == (TransactionView {
                in_flight: old(self)@.in_flight.remove(invoke_id),
                next_id: old(self)@.next_id,
            }),
            final(self).waiters() == old(self).waiters().remove(invoke_id),
    {
        if let Some((waiter, reply)) = self.settle_timeout(invoke_id) {
            let _ = oneshot_send(waiter, reply);
        }
    }

    /// Settle a request whose reply its caller holds already.
    ///
    /// Removes the entry from the table; nothing goes through its channel.
    pub fn release(&mut self, invoke_id: u8)
        ensures
            final(self)@ == (TransactionView {
                in_flight: old(self)@.in_flight.remove(invoke_id),
                next_id: old(self)@.next_id,
            }),
            final(self).waiters() == old(self).waiters().remove(invoke_id),
    {
        let _ = self.table.settle(invoke_id, ());
        assert(self@.in_flight =~= old(self)@.in_flight.remove(invoke_id));
    }

    /// Number of in-flight requests.
    pub fn pending_count(&self) -> (n: usize)
        ensures
            n == self@.in_flight.len(),
    {
        self.table.pending_count()
    }
}

/// An ID that is not in flight is settled without effect: no waiter is lost,
/// and the table stays as it is. So settling an ID a second time does nothing.
pub proof fn unknown_id_is_settled_without_effect(
    waiters: Map<u8, oneshot::Sender<Reply>>,
    in_flight: Set<u8>,
    id: u8,
)
    requires
        waiters.dom() == in_flight,
    ensures
        !in_flight.contains(id) ==> waiters.remove(id) == waiters && in_flight.remove(id)
            == in_flight,
        waiters.remove(id).remove(id) == waiters.remove(id),
        in_flight.remove(id).remove(id) == in_flight.remove(id),
{
    assert(waiters.remove(id).remove(id) =~= waiters.remove(id));
    assert(in_flight.remove(id).remove(id) =~= in_flight.remove(id));
    if !in_flight.contains(id) {
        assert(!waiters.dom().contains(id));
        assert(waiters.remove(id) =~= waiters);
        assert(in_flight.remove(id) =~= in_flight);
    }
}

/// Settling an ID leaves every other waiter where it is, and its ID in flight.
pub proof fn other_waiters_stay(
    waiters: Map<u8, oneshot::Sender<Reply>>,
    settled: u8,
    other: u8,
)
    requires
        waiters.contains_key(other),
        other != settled,
    ensures
        waiters.remove(settled).contains_key(other),
        waiters.remove(settled)[other] == waiters[other],
{
}

/// An ID that was allocated and then settled can be allocated again, and the
/// table holds what it held before.
pub proof fn settled_id_is_free(before: TransactionView, id: u8)
    requires
        first_free(before.in_flight, before.next_id, id),
    ensures
        before.in_flight.insert(id).remove(id) == before.in_flight,
{
    assert(before.in_flight.insert(id).remove(id) =~= before.in_flight);
}

} // verus!
