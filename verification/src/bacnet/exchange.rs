//! One confirmed request and its response: the decisions of the send, receive
//! and retry loop.
//!
//! The caller owns the socket and the clock. It performs each [`Step`] and
//! reports what happened; the exchange says what to do next.

use vstd::prelude::*;
use vstd::string::*;

use super::cov::{cache_noted, CovCache, CovEntryView};
use super::error::{BacnetError, BacnetErrorView};
use super::frame::decode::received;
use super::frame::types::ApduView;
use super::frame::{received_apdu, Apdu};
use super::transaction::{first_free, id_after, TransactionTable, TransactionView};
use crate::driver::{DriverError, FaultKind};
use crate::text::{decimal, joined, text, text_decimal_tail};

verus! {

// ── Invoke IDs ──────────────────────────────────────────────

/// The invoke ID that an APDU carries, if it carries one.
pub open spec fn invoke_id_of(apdu: ApduView) -> Option<u8> {
    match apdu {
        ApduView::WhoIs { .. } => None,
        ApduView::IAm { .. } => None,
        ApduView::UnconfirmedCovNotification { .. } => None,
        ApduView::ReadPropertyRequest { invoke_id, .. } => Some(invoke_id),
        ApduView::ReadPropertyAck { invoke_id, .. } => Some(invoke_id),
        ApduView::WritePropertyRequest { invoke_id, .. } => Some(invoke_id),
        ApduView::SimpleAck { invoke_id, .. } => Some(invoke_id),
        ApduView::Error { invoke_id, .. } => Some(invoke_id),
        ApduView::Other { invoke_id, .. } => Some(invoke_id),
        ApduView::ReadPropertyMultipleRequest { invoke_id, .. } => Some(invoke_id),
        ApduView::ReadPropertyMultipleAck { invoke_id, .. } => Some(invoke_id),
        ApduView::ConfirmedCovNotification { invoke_id, .. } => Some(invoke_id),
    }
}

/// Extract the invoke ID from an APDU if it carries one.
///
/// Who-Is, I-Am and unconfirmed notifications carry none.
pub fn apdu_invoke_id(apdu: &Apdu) -> (res: Option<u8>)
    ensures
        res == invoke_id_of(apdu@),
{
    match apdu {
        Apdu::ReadPropertyRequest { invoke_id, .. } => Some(*invoke_id),
        Apdu::ReadPropertyAck { invoke_id, .. } => Some(*invoke_id),
        Apdu::WritePropertyRequest { invoke_id, .. } => Some(*invoke_id),
        Apdu::SimpleAck { invoke_id, .. } => Some(*invoke_id),
        Apdu::Error { invoke_id, .. } => Some(*invoke_id),
        Apdu::Other { invoke_id, .. } => Some(*invoke_id),
        Apdu::ReadPropertyMultipleRequest { invoke_id, .. } => Some(*invoke_id),
        Apdu::ReadPropertyMultipleAck { invoke_id, .. } => Some(*invoke_id),
        Apdu::ConfirmedCovNotification { invoke_id, .. } => Some(*invoke_id),
        Apdu::WhoIs { .. } => None,
        Apdu::IAm { .. } => None,
        Apdu::UnconfirmedCovNotification { .. } => None,
    }
}

// ── Exchange ────────────────────────────────────────────────

/// How an exchange ended.
#[derive(Debug, PartialEq, Eq)]
pub enum Outcome {
    /// The matching response arrived.
    Reply(Apdu),
    /// The request could not be sent, with the system's description.
    SendFailed(String),
    /// The socket failed while waiting, with the system's description.
    ReceiveFailed(String),
    /// No response arrived, after that many retries.
    TimedOut(u32),
}

/// What the caller is to do next.
#[derive(Debug, PartialEq, Eq)]
pub enum Step {
    /// Send the request and start the clock of a new attempt.
    Send,
    /// Wait for a datagram until the attempt's time is up.
    Receive,
    /// The exchange has ended.
    Finished(Outcome),
}

/// A confirmed request in progress.
#[derive(Debug)]
pub struct Exchange {
    invoke_id: u8,
    attempt: u32,
    max_retries: u32,
    receive_errors_retry: bool,
}

/// What an [`Exchange`] knows.
pub struct ExchangeView {
    /// The invoke ID of the request.
    pub invoke_id: u8,
    /// The number of the current attempt, from 0.
    pub attempt: u32,
    /// How many attempts may follow the first.
    pub max_retries: u32,
    /// Whether a socket error while waiting ends the attempt rather than the
    /// exchange.
    pub receive_errors_retry: bool,
}

impl View for Exchange {
    type V = ExchangeView;

    closed spec fn view(&self) -> ExchangeView {
        ExchangeView {
            invoke_id: self.invoke_id,
            attempt: self.attempt,
            max_retries: self.max_retries,
            receive_errors_retry: self.receive_errors_retry,
        }
    }
}

/// The exchange after the time of an attempt is up: the next attempt, or none
/// if this was the last.
pub open spec fn next_attempt(x: ExchangeView) -> Option<ExchangeView> {
    if x.attempt < x.max_retries {
        Some(ExchangeView { attempt: (x.attempt + 1) as u32, ..x })
    } else {
        None
    }
}

/// A transaction table without `id`.
pub open spec fn settled(table: TransactionView, id: u8) -> TransactionView {
    TransactionView { in_flight: table.in_flight.remove(id), next_id: table.next_id }
}

/// The cache after a datagram has been received at time `now`.
pub open spec fn cache_after(
    cache: Map<(u16, u32), CovEntryView>,
    data: Seq<u8>,
    now: u128,
) -> Map<(u16, u32), CovEntryView> {
    match received(data) {
        Some(ApduView::UnconfirmedCovNotification { notification }) => cache_noted(
            cache,
            notification,
            now,
        ),
        Some(ApduView::ConfirmedCovNotification { notification, .. }) => cache_noted(
            cache,
            notification,
            now,
        ),
        _ => cache,
    }
}

/// The transaction table after a datagram has been received: the request that
/// it answers is settled.
pub open spec fn table_after(table: TransactionView, data: Seq<u8>) -> TransactionView {
    match received(data) {
        Some(apdu) => match invoke_id_of(apdu) {
            Some(id) => settled(table, id),
            None => table,
        },
        None => table,
    }
}

/// Whether a datagram is the response to the request with `id`.
pub open spec fn answers(data: Seq<u8>, id: u8) -> bool {
    match received(data) {
        Some(apdu) => invoke_id_of(apdu) == Some(id),
        None => false,
    }
}

impl Exchange {
    /// Start an exchange: allocate an invoke ID. `None` if all are in flight.
    ///
    /// The first step is to send the request. The exchange hands its response
    /// over itself, so it keeps no receiver.
    pub fn begin(
        transactions: &mut TransactionTable,
        max_retries: u32,
        receive_errors_retry: bool,
    ) -> (res: Option<Exchange>)
        ensures
            match res {
                Some(x) => x@ == (ExchangeView {
                    invoke_id: x@.invoke_id,
                    attempt: 0,
                    max_retries,
                    receive_errors_retry,
                }) && first_free(
                    old(transactions)@.in_flight,
                    old(transactions)@.next_id,
                    x@.invoke_id,
                ) && final(transactions)@ == (TransactionView {
                    in_flight: old(transactions)@.in_flight.insert(x@.invoke_id),
                    next_id: id_after(x@.invoke_id, 1),
                }),
                None => final(transactions)@ == old(transactions)@ && forall|id: u8|
                    old(transactions)@.in_flight.contains(id),
            },
    {
        match transactions.allocate() {
            Some((invoke_id, _)) => Some(
                Exchange { invoke_id, attempt: 0, max_retries, receive_errors_retry },
            ),
            None => None,
        }
    }

    /// The invoke ID to build the request with.
    pub fn invoke_id(&self) -> (res: u8)
        ensures
            res == self@.invoke_id,
    {
        self.invoke_id
    }

    /// The request has been sent: wait for the response.
    pub fn sent(&self) -> (res: Step)
        ensures
            res == Step::Receive,
    {
        Step::Receive
    }

    /// The request could not be sent. The exchange ends; its ID stays in flight.
    pub fn send_failed(&self, description: String) -> (res: Step)
        ensures
            res == Step::Finished(Outcome::SendFailed(description)),
    {
        Step::Finished(Outcome::SendFailed(description))
    }

    /// The time of the attempt is up: send again, or give up after the last
    /// attempt and settle the request.
    pub fn timed_out(&mut self, transactions: &mut TransactionTable) -> (res: Step)
        ensures
            match next_attempt(old(self)@) {
                Some(next) => res == Step::Send && final(self)@ == next && final(transactions)@
                    == old(transactions)@,
                None => res == Step::Finished(Outcome::TimedOut(old(self)@.max_retries))
                    && final(self)@ == old(self)@ && final(transactions)@ == settled(
                    old(transactions)@,
                    old(self)@.invoke_id,
                ),
            },
    {
        if self.attempt < self.max_retries {
            self.attempt = self.attempt + 1;
            Step::Send
        } else {
            transactions.timeout(self.invoke_id);
            Step::Finished(Outcome::TimedOut(self.max_retries))
        }
    }

    /// The socket failed while waiting: the exchange ends and its ID stays in
    /// flight, unless socket errors count as the end of the attempt.
    pub fn receive_failed(
        &mut self,
        transactions: &mut TransactionTable,
        description: String,
    ) -> (res: Step)
        ensures
            if old(self)@.receive_errors_retry {
                match next_attempt(old(self)@) {
                    Some(next) => res == Step::Send && final(self)@ == next && final(transactions)@
                        == old(transactions)@,
                    None => res == Step::Finished(Outcome::TimedOut(old(self)@.max_retries))
                        && final(self)@ == old(self)@ && final(transactions)@ == settled(
                        old(transactions)@,
                        old(self)@.invoke_id,
                    ),
                }
            } else {
                res == Step::Finished(Outcome::ReceiveFailed(description)) && final(self)@
                    == old(self)@ && final(transactions)@ == old(transactions)@
            },
    {
        if self.receive_errors_retry {
            self.timed_out(transactions)
        } else {
            Step::Finished(Outcome::ReceiveFailed(description))
        }
    }

    /// A datagram arrived at time `now`.
    ///
    /// A notification updates the cache. The request that the datagram answers
    /// is settled: if it is this one, the exchange ends with the response;
    /// otherwise the response is dispatched to the table and the wait goes on.
    /// Datagrams that cannot be decoded are ignored.
    pub fn packet(
        &self,
        transactions: &mut TransactionTable,
        cache: &mut CovCache,
        data: &[u8],
        now: u128,
    ) -> (res: Step)
        ensures
            final(cache)@ == cache_after(old(cache)@, data@, now),
            final(transactions)@ == table_after(old(transactions)@, data@),
            if answers(data@, self@.invoke_id) {
                res matches Step::Finished(Outcome::Reply(apdu)) && Some(apdu@) == received(data@)
            } else {
                res == Step::Receive
            },
    {
        match received_apdu(data) {
            None => Step::Receive,
            Some(apdu) => {
                match &apdu {
                    Apdu::UnconfirmedCovNotification { notification } => cache.update(
                        notification,
                        now,
                    ),
                    Apdu::ConfirmedCovNotification { notification, .. } => cache.update(
                        notification,
                        now,
                    ),
                    _ => {},
                }
                match apdu_invoke_id(&apdu) {
                    None => Step::Receive,
                    Some(id) => if id == self.invoke_id {
                        transactions.release(id);
                        Step::Finished(Outcome::Reply(apdu))
                    } else {
                        transactions.dispatch(id, apdu);
                        Step::Receive
                    },
                }
            },
        }
    }
}

/// The exchange after `k` attempts whose time ran out.
pub open spec fn after_timeouts(x: ExchangeView, k: nat) -> Option<ExchangeView>
    decreases k,
{
    if k == 0 {
        Some(x)
    } else {
        match after_timeouts(x, (k - 1) as nat) {
            Some(y) => next_attempt(y),
            None => None,
        }
    }
}

/// Without any response the request is sent once and then once per retry: the
/// exchange goes on as long as fewer attempts than that have timed out, and
/// ends with the last of them.
pub proof fn sends_once_and_per_retry(x: ExchangeView, k: nat)
    requires
        x.attempt == 0,
    ensures
        k <= x.max_retries ==> after_timeouts(x, k) == Some(
            ExchangeView { attempt: k as u32, ..x },
        ),
        k > x.max_retries ==> after_timeouts(x, k) is None,
    decreases k,
{
    if k > 0 {
        sends_once_and_per_retry(x, (k - 1) as nat);
    }
}

/// An exchange that ended with a response or by giving up leaves the
/// transaction table with the IDs in flight that it found.
pub proof fn ended_exchange_leaves_no_id(table: TransactionView, id: u8, data: Seq<u8>)
    requires
        first_free(table.in_flight, table.next_id, id),
        answers(data, id),
    ensures
        ({
            let during = TransactionView {
                in_flight: table.in_flight.insert(id),
                next_id: id_after(id, 1),
            };
            &&& table_after(during, data).in_flight == table.in_flight
            &&& settled(during, id).in_flight == table.in_flight
        }),
{
    assert(table.in_flight.insert(id).remove(id) =~= table.in_flight);
}

// ── Outcomes as results ─────────────────────────────────────

/// What the outcome of an exchange means to a caller that reports driver errors.
pub open spec fn driver_fault_of(outcome: Outcome) -> Option<(FaultKind, Seq<char>)> {
    match outcome {
        Outcome::Reply(_) => None,
        Outcome::SendFailed(e) => Some((FaultKind::CommFault, "bacnet send: "@ + e@)),
        Outcome::ReceiveFailed(e) => Some((FaultKind::CommFault, "bacnet recv: "@ + e@)),
        Outcome::TimedOut(n) => Some(
            (FaultKind::CommFault, "bacnet: timeout after "@ + decimal(n as nat) + " retries"@),
        ),
    }
}

/// The response of an exchange, or the driver error that it ended with.
pub fn reply_or_driver_error(outcome: Outcome) -> (res: Result<Apdu, DriverError>)
    ensures
        match res {
            Ok(apdu) => outcome == Outcome::Reply(apdu),
            Err(e) => Some(e@) == driver_fault_of(outcome),
        },
{
    match outcome {
        Outcome::Reply(apdu) => Ok(apdu),
        Outcome::SendFailed(e) => Err(
            DriverError::CommFault(joined("bacnet send: ", e.as_str())),
        ),
        Outcome::ReceiveFailed(e) => Err(
            DriverError::CommFault(joined("bacnet recv: ", e.as_str())),
        ),
        Outcome::TimedOut(n) => Err(
            DriverError::CommFault(
                text_decimal_tail("bacnet: timeout after ", n as u128, " retries"),
            ),
        ),
    }
}

/// What the outcome of an exchange means to a caller that reports BACnet errors.
pub open spec fn bacnet_fault_of(outcome: Outcome) -> Option<BacnetErrorView> {
    match outcome {
        Outcome::Reply(_) => None,
        Outcome::SendFailed(e) => Some(BacnetErrorView::Io(e@)),
        Outcome::ReceiveFailed(e) => Some(BacnetErrorView::Io(e@)),
        Outcome::TimedOut(n) => Some(BacnetErrorView::Timeout(n)),
    }
}

/// The response of an exchange, or the BACnet error that it ended with.
pub fn reply_or_bacnet_error(outcome: Outcome) -> (res: Result<Apdu, BacnetError>)
    ensures
        match res {
            Ok(apdu) => outcome == Outcome::Reply(apdu),
            Err(e) => Some(e@) == bacnet_fault_of(outcome),
        },
{
    match outcome {
        Outcome::Reply(apdu) => Ok(apdu),
        Outcome::SendFailed(e) => Err(BacnetError::Io(e)),
        Outcome::ReceiveFailed(e) => Err(BacnetError::Io(e)),
        Outcome::TimedOut(n) => Err(BacnetError::Timeout(n)),
    }
}

/// The driver error when no invoke ID is free.
pub fn no_invoke_id() -> (e: DriverError)
    ensures
        e@ == (FaultKind::CommFault, "bacnet: no invoke IDs available"@),
{
    DriverError::CommFault(text("bacnet: no invoke IDs available"))
}

/// The BACnet error when no invoke ID is free.
pub fn no_invoke_id_frame() -> (e: BacnetError)
    ensures
        e@ == BacnetErrorView::MalformedFrame("no invoke IDs available"@),
{
    BacnetError::MalformedFrame(text("no invoke IDs available"))
}

} // verus!
