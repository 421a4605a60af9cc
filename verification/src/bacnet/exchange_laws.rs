//! Which response belongs to which request, and what it says of the points.

use vstd::prelude::*;

use super::cov::{fresh, last_present_value, CovEntryView};
use super::error::BacnetErrorView;
use super::exchange::{answers, cache_after, table_after};
use super::frame::decode::received;
use super::frame::encode::{
    error_apdu, packet_bytes, read_property_ack_apdu, read_property_multiple_ack_apdu, values_bytes,
};
use super::frame::laws::{
    error_round_trip, read_property_ack_round_trip, sent_whole, simple_ack_round_trip,
};
use super::frame::rpm_laws::{fits, outcome_sent_whole, read_property_multiple_ack_round_trip};
use super::frame::types::{ApduView, CovPropertyView, RpmResultView, BVLL_UNICAST};
use super::frame::RpmRequestSpec;
use super::reply::{
    acknowledged, first_match, present_value, property_value, result_matches, spec_outcome,
    ReplyFaultView,
};
use super::transaction::TransactionView;
use super::value::{number_of, ValueView};
use crate::driver::FaultKind;
use crate::text::decimal;

verus! {

// ── Matching by invoke ID ───────────────────────────────────

/// A simple acknowledgement answers the request with its invoke ID, and no
/// other.
pub proof fn simple_ack_answers_its_request(invoke_id: u8, service: u8, id: u8)
    ensures
        answers(packet_bytes(BVLL_UNICAST, seq![0x20u8, invoke_id, service]), id) <==> id
            == invoke_id,
{
    simple_ack_round_trip(invoke_id, service);
}

/// An error answers the request with its invoke ID, and no other.
pub proof fn error_answers_its_request(
    invoke_id: u8,
    service: u8,
    class: u32,
    code: u32,
    id: u8,
)
    requires
        class <= 0xFFFF,
        code <= 0xFFFF,
    ensures
        answers(packet_bytes(BVLL_UNICAST, error_apdu(invoke_id, service, class, code)), id)
            <==> id == invoke_id,
{
    error_round_trip(invoke_id, service, class, code);
}

/// A ReadProperty acknowledgement answers the request with its invoke ID, and
/// no other.
pub proof fn read_ack_answers_its_request(
    invoke_id: u8,
    object_type: u16,
    instance: u32,
    property_id: u32,
    values: Seq<ValueView>,
    id: u8,
)
    requires
        object_type < 1024,
        instance < 4194304,
        forall|i: int| 0 <= i < values.len() ==> sent_whole(#[trigger] values[i]),
        6 + read_property_ack_apdu(
            invoke_id,
            object_type,
            instance,
            property_id,
            values_bytes(values),
        ).len() <= 0xFFFF,
    ensures
        answers(
            packet_bytes(
                BVLL_UNICAST,
                read_property_ack_apdu(
                    invoke_id,
                    object_type,
                    instance,
                    property_id,
                    values_bytes(values),
                ),
            ),
            id,
        ) <==> id == invoke_id,
{
    read_property_ack_round_trip(invoke_id, object_type, instance, property_id, values);
}

/// A ReadPropertyMultiple acknowledgement answers the request with its invoke
/// ID, and no other.
pub proof fn batch_ack_answers_its_request(invoke_id: u8, results: Seq<RpmResultView>, id: u8)
    requires
        forall|i: int|
            0 <= i < results.len() ==> fits(
                ((#[trigger] results[i]).object_type, results[i].instance),
            ) && outcome_sent_whole(results[i].value),
        6 + read_property_multiple_ack_apdu(invoke_id, results).len() <= 0xFFFF,
    ensures
        answers(
            packet_bytes(BVLL_UNICAST, read_property_multiple_ack_apdu(invoke_id, results)),
            id,
        ) <==> id == invoke_id,
{
    read_property_multiple_ack_round_trip(invoke_id, results);
}

/// A datagram answers at most one request. Who-Is, I-Am and unconfirmed
/// notifications answer none.
pub proof fn datagram_answers_at_most_one_request(data: Seq<u8>, a: u8, b: u8)
    ensures
        answers(data, a) && answers(data, b) ==> a == b,
        received(data) is None ==> !answers(data, a),
        received(data) matches Some(ApduView::WhoIs { .. }) ==> !answers(data, a),
        received(data) matches Some(ApduView::IAm { .. }) ==> !answers(data, a),
        received(data) matches Some(ApduView::UnconfirmedCovNotification { .. }) ==> !answers(
            data,
            a,
        ),
{
}

/// A datagram takes the request that it answers out of the table and leaves
/// every other in flight.
pub proof fn datagram_settles_what_it_answers(table: TransactionView, data: Seq<u8>, id: u8)
    ensures
        table_after(table, data).in_flight.contains(id) <==> table.in_flight.contains(id)
            && !answers(data, id),
        table_after(table, data).next_id == table.next_id,
{
}

// ── Notifications ───────────────────────────────────────────

/// Only notifications change the cache: one that reports a present value sets
/// the entry of its object, as of now, and leaves all others.
pub proof fn only_notifications_change_the_cache(
    cache: Map<(u16, u32), CovEntryView>,
    data: Seq<u8>,
    now: u128,
    object: (u16, u32),
)
    ensures
        ({
            let after = cache_after(cache, data, now);
            let told = match received(data) {
                Some(ApduView::UnconfirmedCovNotification { notification }) => Some(notification),
                Some(ApduView::ConfirmedCovNotification { notification, .. }) => Some(notification),
                _ => None,
            };
            match told {
                Some(n) => if object == (n.monitored_object_type, n.monitored_object_instance)
                    && last_present_value(n.values) is Some {
                    &&& after.contains_key(object)
                    &&& Some(after[object].value) == last_present_value(n.values)
                    &&& after[object].updated_at == now
                    &&& after[object].process_id == n.subscriber_process_id
                } else {
                    &&& after.contains_key(object) == cache.contains_key(object)
                    &&& cache.contains_key(object) ==> after[object] == cache[object]
                },
                None => after == cache,
            }
        }),
{
}

/// The present value (property 85) that a notification reports is its last one.
pub proof fn last_present_value_counts(values: Seq<CovPropertyView>, i: int)
    requires
        0 <= i < values.len(),
        values[i].property_id == 85,
        forall|j: int| i < j < values.len() ==> (#[trigger] values[j]).property_id != 85,
    ensures
        last_present_value(values) == Some(values[i].value),
    decreases values.len(),
{
    if i < values.len() - 1 {
        let init = values.drop_last();
        assert(values[values.len() - 1].property_id != 85);
        assert(init[i] == values[i]);
        assert forall|j: int| i < j < init.len() implies (#[trigger] init[j]).property_id
            != 85 by {
            assert(init[j] == values[j]);
        }
        last_present_value_counts(init, i);
    }
}

/// A notification without a present value reports none.
pub proof fn no_present_value_reports_none(values: Seq<CovPropertyView>)
    requires
        forall|j: int| 0 <= j < values.len() ==> (#[trigger] values[j]).property_id != 85,
    ensures
        last_present_value(values) is None,
    decreases values.len(),
{
    if values.len() > 0 {
        let init = values.drop_last();
        assert(values[values.len() - 1].property_id != 85);
        assert forall|j: int| 0 <= j < init.len() implies (#[trigger] init[j]).property_id
            != 85 by {
            assert(init[j] == values[j]);
        }
        no_present_value_reports_none(init);
    }
}

/// An entry is fresh until its maximum age has passed since it was updated, and
/// once it is not it stays so.
pub proof fn entries_grow_stale(updated_at: u128, now: u128, later: u128, max_age: u128)
    requires
        now <= later,
    ensures
        fresh(updated_at, now, max_age) <==> max_age > 0 && now < updated_at + max_age,
        fresh(updated_at, later, max_age) ==> fresh(updated_at, now, max_age),
{
}

// ── Replies ─────────────────────────────────────────────────

/// The response to a read of the present value is the number in it. A value
/// without a number is a communication fault, an error what the device
/// reports, with its class and code, and anything else is not a response.
pub proof fn present_value_is_the_number_read(apdu: ApduView)
    ensures
        match apdu {
            ApduView::ReadPropertyAck { value, .. } => match present_value(apdu) {
                Ok(n) => number_of(value) == Some(n),
                Err(e) => number_of(value) is None && e == ReplyFaultView::Fault(
                    (FaultKind::CommFault, "bacnet: non-numeric present value"@),
                ),
            },
            ApduView::Error { error_class, error_code, .. } => present_value(apdu) == Err::<
                super::value::Number,
                ReplyFaultView,
            >(
                ReplyFaultView::Fault(
                    (
                        FaultKind::RemoteStatus,
                        "BACnet error class="@ + decimal(error_class as nat) + " code="@ + decimal(
                            error_code as nat,
                        ),
                    ),
                ),
            ),
            _ => present_value(apdu) == Err::<super::value::Number, ReplyFaultView>(
                ReplyFaultView::Unexpected(apdu),
            ),
        },
{
}

/// A write or a subscription has succeeded exactly if a simple acknowledgement
/// came; an error is what the device reports, with its class and code.
pub proof fn acknowledged_iff_simple_ack(apdu: ApduView, head: Seq<char>)
    ensures
        acknowledged(apdu, head) is Ok <==> apdu is SimpleAck,
        apdu matches ApduView::Error { error_class, error_code, .. } ==> acknowledged(apdu, head)
            == Err::<(), ReplyFaultView>(
            ReplyFaultView::Fault(
                (
                    FaultKind::RemoteStatus,
                    head + decimal(error_class as nat) + " code="@ + decimal(error_code as nat),
                ),
            ),
        ),
        !(apdu is SimpleAck) && !(apdu is Error) ==> acknowledged(apdu, head) == Err::<
            (),
            ReplyFaultView,
        >(ReplyFaultView::Unexpected(apdu)),
{
}

/// The value of a property is the one that the acknowledgement carries.
pub proof fn property_is_the_value_read(apdu: ApduView)
    ensures
        match (apdu, property_value(apdu)) {
            (ApduView::ReadPropertyAck { value, .. }, Ok(v)) => v == value,
            (ApduView::Error { error_class, error_code, .. }, Err(e)) => e
                == (BacnetErrorView::RemoteError { class: error_class, code: error_code }),
            (ApduView::ReadPropertyAck { .. }, Err(_)) => false,
            (ApduView::Error { .. }, Ok(_)) => false,
            (_, r) => r is Err,
        },
{
}

// ── Results of a batch ──────────────────────────────────────

/// A result answers a specification if it names the same object, property and
/// array index.
pub proof fn result_answers_iff_same_property(r: RpmResultView, spec: RpmRequestSpec)
    ensures
        result_matches(r, spec) <==> {
            &&& r.object_type == spec.object_type
            &&& r.instance == spec.instance
            &&& r.property_id == spec.property_id
            &&& r.array_index == spec.array_index
        },
{
}

/// The outcome of a specification is the value, or the error with its class and
/// code, of the first result that answers it.
pub proof fn outcome_is_that_of_the_first_answer(
    results: Seq<RpmResultView>,
    spec: RpmRequestSpec,
    i: int,
)
    requires
        0 <= i < results.len(),
        result_matches(results[i], spec),
        forall|j: int| 0 <= j < i ==> !result_matches(#[trigger] results[j], spec),
    ensures
        match (results[i].value, spec_outcome(results, spec)) {
            (Ok(v), Ok(w)) => v == w,
            (Err((class, code)), Err(e)) => e == (
                FaultKind::RemoteStatus,
                "BACnet error class="@ + decimal(class as nat) + " code="@ + decimal(code as nat),
            ),
            _ => false,
        },
{
    lemma_first_match_at(results, spec, i);
}

/// Where the first match lies.
proof fn lemma_first_match_at(results: Seq<RpmResultView>, spec: RpmRequestSpec, i: int)
    requires
        0 <= i < results.len(),
        result_matches(results[i], spec),
        forall|j: int| 0 <= j < i ==> !result_matches(#[trigger] results[j], spec),
    ensures
        first_match(results, spec) == Some(results[i]),
    decreases results.len(),
{
    let init = results.drop_last();
    if i < init.len() {
        assert(init[i] == results[i]);
        assert forall|j: int| 0 <= j < i implies !result_matches(#[trigger] init[j], spec) by {
            assert(init[j] == results[j]);
        }
        lemma_first_match_at(init, spec, i);
    } else {
        lemma_no_match(init, spec);
    }
}

/// Where nothing matches there is no match.
proof fn lemma_no_match(results: Seq<RpmResultView>, spec: RpmRequestSpec)
    requires
        forall|j: int| 0 <= j < results.len() ==> !result_matches(#[trigger] results[j], spec),
    ensures
        first_match(results, spec) is None,
    decreases results.len(),
{
    if results.len() > 0 {
        let init = results.drop_last();
        assert(!result_matches(results[results.len() - 1], spec));
        assert forall|j: int| 0 <= j < init.len() implies !result_matches(
            #[trigger] init[j],
            spec,
        ) by {
            assert(init[j] == results[j]);
        }
        lemma_no_match(init, spec);
    }
}

/// A specification that no result answers is a communication fault.
pub proof fn unanswered_specification_fails(results: Seq<RpmResultView>, spec: RpmRequestSpec)
    requires
        forall|j: int| 0 <= j < results.len() ==> !result_matches(#[trigger] results[j], spec),
    ensures
        spec_outcome(results, spec) matches Err(e) && e.0 == FaultKind::CommFault,
{
    lemma_no_match(results, spec);
}

} // verus!
