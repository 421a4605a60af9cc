//! What the responses to requests mean.

use vstd::prelude::*;

use super::error::{class_code, class_code_text, malformed_frame, BacnetError, BacnetErrorView};
use super::frame::types::{results_view, ApduView, RpmResultView};
use super::frame::{Apdu, RpmRequestSpec, RpmResult};
use super::value::{number_of, values_view, BacnetValue, Number, ValueView};
use crate::driver::{DriverError, FaultKind};
use crate::text::text;

verus! {

/// Why a response is not the one that was hoped for.
#[derive(Debug, PartialEq, Eq)]
pub enum ReplyFault {
    /// The device reported an error, or the value is not usable.
    Fault(DriverError),
    /// A response of another kind.
    Unexpected(Apdu),
}

/// What a [`ReplyFault`] says.
pub enum ReplyFaultView {
    Fault((FaultKind, Seq<char>)),
    Unexpected(ApduView),
}

impl View for ReplyFault {
    type V = ReplyFaultView;

    open spec fn view(&self) -> ReplyFaultView {
        match *self {
            ReplyFault::Fault(e) => ReplyFaultView::Fault(e@),
            ReplyFault::Unexpected(apdu) => ReplyFaultView::Unexpected(apdu@),
        }
    }
}

/// What a result with a [`ReplyFault`] says.
pub open spec fn reply_view<T>(r: Result<T, ReplyFault>) -> Result<T, ReplyFaultView> {
    match r {
        Ok(v) => Ok(v),
        Err(e) => Err(e@),
    }
}

/// The error of a point that its device reports.
pub open spec fn remote_fault(head: Seq<char>, class: u32, code: u32) -> (FaultKind, Seq<char>) {
    (FaultKind::RemoteStatus, class_code_text(head, class, code))
}

// ── Present value ───────────────────────────────────────────

/// The number in a value, or the complaint that there is none.
pub open spec fn numeric(v: ValueView, complaint: Seq<char>) -> Result<
    Number,
    (FaultKind, Seq<char>),
> {
    match number_of(v) {
        Some(n) => Ok(n),
        None => Err((FaultKind::CommFault, complaint)),
    }
}

/// Take the number out of a value.
pub fn require_number(v: &BacnetValue, complaint: &str) -> (res: Result<Number, DriverError>)
    ensures
        crate::driver::outcome_view(res) == numeric(v@, complaint@),
{
    match v.to_number() {
        Some(n) => Ok(n),
        None => Err(DriverError::CommFault(text(complaint))),
    }
}

/// The response to a read of the present value.
pub open spec fn present_value(apdu: ApduView) -> Result<Number, ReplyFaultView> {
    match apdu {
        ApduView::ReadPropertyAck { value, .. } => match numeric(
            value,
            "bacnet: non-numeric present value"@,
        ) {
            Ok(n) => Ok(n),
            Err(e) => Err(ReplyFaultView::Fault(e)),
        },
        ApduView::Error { error_class, error_code, .. } => Err(
            ReplyFaultView::Fault(remote_fault("BACnet error class="@, error_class, error_code)),
        ),
        _ => Err(ReplyFaultView::Unexpected(apdu)),
    }
}

/// Read the response to a read of the present value: the raw number.
pub fn present_value_reply(apdu: Apdu) -> (res: Result<Number, ReplyFault>)
    ensures
        reply_view(res) == present_value(apdu@),
{
    match apdu {
        Apdu::ReadPropertyAck { value, .. } => match require_number(
            &value,
            "bacnet: non-numeric present value",
        ) {
            Ok(n) => Ok(n),
            Err(e) => Err(ReplyFault::Fault(e)),
        },
        Apdu::Error { error_class, error_code, .. } => Err(
            ReplyFault::Fault(
                DriverError::RemoteStatus(
                    class_code("BACnet error class=", error_class, error_code),
                ),
            ),
        ),
        other => Err(ReplyFault::Unexpected(other)),
    }
}

// ── Acknowledgements without data ───────────────────────────

/// The response to a request that is answered by a Simple-ACK; `head` begins
/// the text of an error.
pub open spec fn acknowledged(apdu: ApduView, head: Seq<char>) -> Result<(), ReplyFaultView> {
    match apdu {
        ApduView::SimpleAck { .. } => Ok(()),
        ApduView::Error { error_class, error_code, .. } => Err(
            ReplyFaultView::Fault(remote_fault(head, error_class, error_code)),
        ),
        _ => Err(ReplyFaultView::Unexpected(apdu)),
    }
}

/// Read the response to a request that is answered by a Simple-ACK.
fn simple_reply(apdu: Apdu, head: &str) -> (res: Result<(), ReplyFault>)
    ensures
        reply_view(res) == acknowledged(apdu@, head@),
{
    match apdu {
        Apdu::SimpleAck { .. } => Ok(()),
        Apdu::Error { error_class, error_code, .. } => Err(
            ReplyFault::Fault(
                DriverError::RemoteStatus(class_code(head, error_class, error_code)),
            ),
        ),
        other => Err(ReplyFault::Unexpected(other)),
    }
}

/// Read the response to a WriteProperty request.
pub fn write_reply(apdu: Apdu) -> (res: Result<(), ReplyFault>)
    ensures
        reply_view(res) == acknowledged(apdu@, "BACnet error class="@),
{
    simple_reply(apdu, "BACnet error class=")
}

/// Read the response to a SubscribeCOV request, or to its cancel form.
pub fn subscribe_reply(apdu: Apdu) -> (res: Result<(), ReplyFault>)
    ensures
        reply_view(res) == acknowledged(apdu@, "BACnet SubscribeCOV error class="@),
{
    simple_reply(apdu, "BACnet SubscribeCOV error class=")
}

// ── Any property ────────────────────────────────────────────

/// The value in the response to a read of any property.
pub open spec fn property_value(apdu: ApduView) -> Result<ValueView, BacnetErrorView> {
    match apdu {
        ApduView::ReadPropertyAck { value, .. } => Ok(value),
        ApduView::Error { error_class, error_code, .. } => Err(
            BacnetErrorView::RemoteError { class: error_class, code: error_code },
        ),
        _ => Err(BacnetErrorView::MalformedFrame("unexpected APDU type"@)),
    }
}

/// What a decoded value or an error says.
pub open spec fn property_result_view(r: Result<BacnetValue, BacnetError>) -> Result<
    ValueView,
    BacnetErrorView,
> {
    match r {
        Ok(v) => Ok(v@),
        Err(e) => Err(e@),
    }
}

/// Read the response to a read of any property.
pub fn property_reply(apdu: Apdu) -> (res: Result<BacnetValue, BacnetError>)
    ensures
        property_result_view(res) == property_value(apdu@),
{
    match apdu {
        Apdu::ReadPropertyAck { value, .. } => Ok(value),
        Apdu::Error { error_class, error_code, .. } => Err(
            BacnetError::RemoteError { class: error_class, code: error_code },
        ),
        _ => Err(malformed_frame("unexpected APDU type")),
    }
}

// ── Several properties ──────────────────────────────────────

/// Whether a result answers a specification: object, property and array index
/// are the same.
pub open spec fn result_matches(r: RpmResultView, spec: RpmRequestSpec) -> bool {
    r.object_type == spec.object_type && r.instance == spec.instance && r.property_id
        == spec.property_id && r.array_index == spec.array_index
}

/// The first result that answers a specification.
pub open spec fn first_match(results: Seq<RpmResultView>, spec: RpmRequestSpec) -> Option<
    RpmResultView,
>
    decreases results.len(),
{
    if results.len() == 0 {
        None
    } else {
        match first_match(results.drop_last(), spec) {
            Some(r) => Some(r),
            None => if result_matches(results.last(), spec) {
                Some(results.last())
            } else {
                None
            },
        }
    }
}

/// The outcome of one specification.
pub open spec fn spec_outcome(results: Seq<RpmResultView>, spec: RpmRequestSpec) -> Result<
    ValueView,
    (FaultKind, Seq<char>),
> {
    match first_match(results, spec) {
        Some(r) => match r.value {
            Ok(v) => Ok(v),
            Err((class, code)) => Err(remote_fault("BACnet error class="@, class, code)),
        },
        None => Err((FaultKind::CommFault, "BACnet RPM: missing result for spec"@)),
    }
}

/// What the outcome of one specification says.
pub open spec fn spec_outcome_view(r: Result<BacnetValue, DriverError>) -> Result<
    ValueView,
    (FaultKind, Seq<char>),
> {
    match r {
        Ok(v) => Ok(v@),
        Err(e) => Err(e@),
    }
}

/// Find the outcome of one specification.
fn outcome_for(results: &Vec<RpmResult>, spec: &RpmRequestSpec) -> (res: Result<
    BacnetValue,
    DriverError,
>)
    ensures
        spec_outcome_view(res) == spec_outcome(results_view(results@), *spec),
{
    let ghost all = results_view(results@);
    let mut i: usize = 0;
    assert(all.subrange(0, 0) =~= Seq::empty());
    while i < results.len()
        invariant
            i <= results@.len(),
            all == results_view(results@),
            first_match(all.subrange(0, i as int), *spec) is None,
        decreases results@.len() - i,
    {
        let r: &RpmResult = &results[i];
        assert(all.subrange(0, i + 1).drop_last() =~= all.subrange(0, i as int));
        assert(all.subrange(0, i + 1).last() == r@);
        if r.object_type == spec.object_type && r.instance == spec.instance && r.property_id
            == spec.property_id && r.array_index == spec.array_index {
            proof {
                lemma_first_match_prefix(all, *spec, i + 1);
            }
            return match &r.value {
                Ok(v) => Ok(v.clone()),
                Err((class, code)) => Err(
                    DriverError::RemoteStatus(class_code("BACnet error class=", *class, *code)),
                ),
            };
        }
        i += 1;
    }
    assert(all.subrange(0, i as int) =~= all);
    Err(DriverError::CommFault(text("BACnet RPM: missing result for spec")))
}

/// A match in a prefix is the match of the whole.
proof fn lemma_first_match_prefix(results: Seq<RpmResultView>, spec: RpmRequestSpec, n: int)
    requires
        0 <= n <= results.len(),
        first_match(results.subrange(0, n), spec) is Some,
    ensures
        first_match(results, spec) == first_match(results.subrange(0, n), spec),
    decreases results.len(),
{
    if n == results.len() {
        assert(results.subrange(0, n) =~= results);
    } else {
        assert(results.drop_last().subrange(0, n) =~= results.subrange(0, n));
        lemma_first_match_prefix(results.drop_last(), spec, n);
    }
}

/// Match results to specifications: one outcome per specification, in their
/// order.
pub fn match_results(specs: &[RpmRequestSpec], results: &Vec<RpmResult>) -> (out: Vec<
    Result<BacnetValue, DriverError>,
>)
    ensures
        out@.len() == specs@.len(),
        forall|i: int|
            0 <= i < specs@.len() ==> spec_outcome_view(#[trigger] out@[i]) == spec_outcome(
                results_view(results@),
                specs@[i],
            ),
{
    let mut out: Vec<Result<BacnetValue, DriverError>> = Vec::new();
    let mut i: usize = 0;
    while i < specs.len()
        invariant
            i <= specs@.len(),
            out@.len() == i,
            forall|k: int|
                0 <= k < i ==> spec_outcome_view(#[trigger] out@[k]) == spec_outcome(
                    results_view(results@),
                    specs@[k],
                ),
        decreases specs@.len() - i,
    {
        out.push(outcome_for(results, &specs[i]));
        i += 1;
    }
    out
}

/// Why a ReadPropertyMultiple failed as a whole.
#[derive(Debug, PartialEq, Eq)]
pub enum BatchFault {
    /// The device reported an error.
    Fault(BacnetError),
    /// A response of another kind.
    Unexpected(Apdu),
}

/// Read the response to a ReadPropertyMultiple request for `specs`: a list of
/// the same length and order as `specs`, or why the whole batch failed.
pub fn batch_reply(apdu: Apdu, specs: &[RpmRequestSpec]) -> (res: Result<
    Vec<Result<BacnetValue, DriverError>>,
    BatchFault,
>)
    ensures
        match apdu@ {
            ApduView::ReadPropertyMultipleAck { results, .. } => res matches Ok(out) && out@.len()
                == specs@.len() && forall|i: int|
                0 <= i < specs@.len() ==> spec_outcome_view(#[trigger] out@[i]) == spec_outcome(
                    results,
                    specs@[i],
                ),
            ApduView::Error { error_class, error_code, .. } => res == Err::<
                Vec<Result<BacnetValue, DriverError>>,
                BatchFault,
            >(
                BatchFault::Fault(
                    BacnetError::RemoteError { class: error_class, code: error_code },
                ),
            ),
            _ => res == Err::<Vec<Result<BacnetValue, DriverError>>, BatchFault>(
                BatchFault::Unexpected(apdu),
            ),
        },
{
    match apdu {
        Apdu::ReadPropertyMultipleAck { results, .. } => Ok(match_results(specs, &results)),
        Apdu::Error { error_class, error_code, .. } => Err(
            BatchFault::Fault(BacnetError::RemoteError { class: error_class, code: error_code }),
        ),
        other => Err(BatchFault::Unexpected(other)),
    }
}

// ── Object list and name ────────────────────────────────────

/// The objects in a list of values, without the device object itself.
pub open spec fn listed_objects(items: Seq<ValueView>) -> Seq<(u16, u32)>
    decreases items.len(),
{
    if items.len() == 0 {
        Seq::empty()
    } else {
        let earlier = listed_objects(items.drop_last());
        match items.last() {
            ValueView::ObjectId { object_type, instance } => if object_type != 8 {
                earlier.push((object_type, instance))
            } else {
                earlier
            },
            _ => earlier,
        }
    }
}

/// The objects that the object-list property names: a single value counts as a
/// list of one.
pub open spec fn object_list_of(v: ValueView) -> Seq<(u16, u32)> {
    match v {
        ValueView::Array(items) => listed_objects(items),
        _ => listed_objects(seq![v]),
    }
}

/// Read the objects that the object-list property (property 76) names, as
/// `(object_type, instance)` pairs. Device objects (type 8) are filtered out.
pub fn object_list(val: BacnetValue) -> (out: Vec<(u16, u32)>)
    ensures
        out@ == object_list_of(val@),
{
    let items: Vec<BacnetValue> = match val {
        BacnetValue::Array(items) => items,
        single => vec![single],
    };
    let ghost all = values_view(items@);
    assert(listed_objects(all) == object_list_of(val@)) by {
        match val {
            BacnetValue::Array(_) => assert(all =~= val@->Array_0),
            _ => assert(all =~= seq![val@]),
        }
    }
    let mut out: Vec<(u16, u32)> = Vec::new();
    let mut i: usize = 0;
    assert(all.subrange(0, 0) =~= Seq::empty());
    while i < items.len()
        invariant
            i <= items@.len(),
            all == values_view(items@),
            out@ == listed_objects(all.subrange(0, i as int)),
        decreases items@.len() - i,
    {
        assert(all.subrange(0, i + 1).drop_last() =~= all.subrange(0, i as int));
        assert(all.subrange(0, i + 1).last() == items@[i as int]@);
        if let BacnetValue::ObjectId { object_type, instance } = &items[i] {
            if *object_type != 8 {
                out.push((*object_type, *instance));
            }
        }
        i += 1;
    }
    assert(all.subrange(0, i as int) =~= all);
    out
}

/// Read the object-name property (property 77). A value that is not a text
/// comes back as it is.
pub fn object_name(val: BacnetValue) -> (res: Result<String, BacnetValue>)
    ensures
        match res {
            Ok(s) => val == BacnetValue::CharacterString(s),
            Err(v) => v == val && !(val is CharacterString),
        },
{
    match val {
        BacnetValue::CharacterString(s) => Ok(s),
        other => Err(other),
    }
}

} // verus!
