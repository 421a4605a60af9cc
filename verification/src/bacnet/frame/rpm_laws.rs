//! What decoding gives back of ReadPropertyMultiple requests and
//! acknowledgements.

use vstd::prelude::*;

use super::decode::{
    context_tag_at, from_pos, parse_access_result, parse_access_results, parse_access_spec,
    parse_access_specs, parse_apdu, parse_complex_ack, parse_entries, parse_entry, parse_outcome,
    parse_packet, parse_reference, parse_references, parse_rpm_ack, parse_rpm_request, then_items,
    then_list,
};
use super::encode::{
    access_results_bytes, access_specs_bytes, context_object_bytes, context_option_bytes,
    context_unsigned_bytes, entries_bytes, enumerated_bytes, first_occurrences, outcome_bytes,
    packet_bytes, read_property_multiple_ack_apdu, read_property_multiple_apdu, references_bytes,
    result_keys, spec_keys, value_bytes,
};
use super::laws::{
    in_packet, lemma_confirmed_packet, lemma_context_read, lemma_enumerated_read,
    lemma_object_read, lemma_optional_read, lemma_stands_at, lemma_stands_split, lemma_value_read,
    packet_round_trip, sent_whole, stands,
};
use super::types::{
    ApduView, RpmRequestSpec, RpmResultView, BVLL_UNICAST, SVC_CONFIRMED_READ_PROPERTY_MULTIPLE,
};
use crate::bacnet::error::BacnetErrorView;
use crate::bacnet::value::ValueView;

verus! {

// ── Regrouping ──────────────────────────────────────────────

/// The specifications of object `key`, in their order.
pub open spec fn specs_of(specs: Seq<RpmRequestSpec>, key: (u16, u32)) -> Seq<RpmRequestSpec>
    decreases specs.len(),
{
    if specs.len() == 0 {
        Seq::empty()
    } else {
        let s = specs.last();
        let earlier = specs_of(specs.drop_last(), key);
        if (s.object_type, s.instance) == key {
            earlier.push(s)
        } else {
            earlier
        }
    }
}

/// The specifications of the objects in `keys`, object after object.
pub open spec fn specs_grouped(
    specs: Seq<RpmRequestSpec>,
    keys: Seq<(u16, u32)>,
) -> Seq<RpmRequestSpec>
    decreases keys.len(),
{
    if keys.len() == 0 {
        Seq::empty()
    } else {
        specs_grouped(specs, keys.drop_last()) + specs_of(specs, keys.last())
    }
}

/// The results of object `key`, in their order.
pub open spec fn results_of(results: Seq<RpmResultView>, key: (u16, u32)) -> Seq<RpmResultView>
    decreases results.len(),
{
    if results.len() == 0 {
        Seq::empty()
    } else {
        let r = results.last();
        let earlier = results_of(results.drop_last(), key);
        if (r.object_type, r.instance) == key {
            earlier.push(r)
        } else {
            earlier
        }
    }
}

/// The results of the objects in `keys`, object after object.
pub open spec fn results_grouped(
    results: Seq<RpmResultView>,
    keys: Seq<(u16, u32)>,
) -> Seq<RpmResultView>
    decreases keys.len(),
{
    if keys.len() == 0 {
        Seq::empty()
    } else {
        results_grouped(results, keys.drop_last()) + results_of(results, keys.last())
    }
}

/// The distinct elements of a list are elements of it.
proof fn lemma_first_occurrences_subset(keys: Seq<(u16, u32)>)
    ensures
        forall|i: int|
            0 <= i < first_occurrences(keys).len() ==> keys.contains(
                #[trigger] first_occurrences(keys)[i],
            ),
    decreases keys.len(),
{
    if keys.len() > 0 {
        lemma_first_occurrences_subset(keys.drop_last());
        assert forall|i: int| 0 <= i < first_occurrences(keys).len() implies keys.contains(
            #[trigger] first_occurrences(keys)[i],
        ) by {
            let earlier = first_occurrences(keys.drop_last());
            if i < earlier.len() {
                let k = choose|k: int|
                    0 <= k < keys.drop_last().len() && keys.drop_last()[k] == earlier[i];
                assert(keys[k] == earlier[i]);
            } else {
                assert(keys[keys.len() - 1] == keys.last());
            }
        }
    }
}

// ── Requests ────────────────────────────────────────────────

/// Whether an object identifier fits its 10 and 22 bits.
pub open spec fn fits(key: (u16, u32)) -> bool {
    key.0 < 1024 && key.1 < 4194304
}

/// One property reference is read back.
proof fn lemma_reference_read(s: Seq<u8>, pos: int, spec: RpmRequestSpec)
    requires
        ({
            let b = context_unsigned_bytes(0, spec.property_id) + context_option_bytes(
                1,
                spec.array_index,
            );
            &&& stands(s, pos, b)
            &&& !context_tag_at(s, pos + b.len(), 1, true)
        }),
    ensures
        ({
            let b = context_unsigned_bytes(0, spec.property_id) + context_option_bytes(
                1,
                spec.array_index,
            );
            &&& parse_reference(s, pos, (spec.object_type, spec.instance)) == Ok::<
                (RpmRequestSpec, int),
                BacnetErrorView,
            >((spec, pos + b.len()))
            &&& b.len() > 0
            &&& s[pos] != 0x1F
            &&& !context_tag_at(s, pos, 1, true)
        }),
{
    let a = context_unsigned_bytes(0, spec.property_id);
    let b = context_option_bytes(1, spec.array_index);
    lemma_stands_split(s, pos, a, b);
    lemma_context_read(s, pos, 0, spec.property_id);
    assert(spec.array_index is None ==> b.len() == 0);
    lemma_optional_read(s, pos + a.len(), 1, spec.array_index, true);
}

/// The property references of one object are read back, up to where something
/// else than an array index follows.
proof fn lemma_references_read(
    s: Seq<u8>,
    pos: int,
    specs: Seq<RpmRequestSpec>,
    key: (u16, u32),
)
    requires
        stands(s, pos, references_bytes(specs, key)),
        !context_tag_at(s, pos + references_bytes(specs, key).len(), 1, true),
    ensures
        then_list(
            specs_of(specs, key),
            parse_references(s, pos + references_bytes(specs, key).len(), key),
        ) == parse_references(s, pos, key),
    decreases specs.len(),
{
    if specs.len() == 0 {
        if let Ok((items, _)) = parse_references(s, pos, key) {
            assert(Seq::<RpmRequestSpec>::empty() + items =~= items);
        }
    } else {
        let spec = specs.last();
        let first = references_bytes(specs.drop_last(), key);
        if (spec.object_type, spec.instance) == key {
            let piece = context_unsigned_bytes(0, spec.property_id) + context_option_bytes(
                1,
                spec.array_index,
            );
            lemma_stands_split(s, pos, first, piece);
            lemma_reference_read(s, pos + first.len(), spec);
            lemma_references_read(s, pos, specs.drop_last(), key);
            let earlier = specs_of(specs.drop_last(), key);
            let end = pos + references_bytes(specs, key).len();
            assert(end == pos + first.len() + piece.len());
            if let Ok((items, _)) = parse_references(s, end, key) {
                assert(earlier + (seq![spec] + items) =~= earlier.push(spec) + items);
            }
        } else {
            assert(references_bytes(specs, key) =~= first);
            lemma_references_read(s, pos, specs.drop_last(), key);
        }
    }
}

/// The bytes of one read access specification.
spec fn access_spec_bytes(specs: Seq<RpmRequestSpec>, key: (u16, u32)) -> Seq<u8> {
    context_object_bytes(0, key.0, key.1) + (seq![0x1Eu8] + (references_bytes(specs, key) + seq![
        0x1Fu8,
    ]))
}

/// One read access specification is read back.
proof fn lemma_access_spec_read(
    s: Seq<u8>,
    pos: int,
    specs: Seq<RpmRequestSpec>,
    key: (u16, u32),
)
    requires
        fits(key),
        stands(s, pos, access_spec_bytes(specs, key)),
    ensures
        parse_access_spec(s, pos) == Ok::<(Seq<RpmRequestSpec>, int), BacnetErrorView>(
            (specs_of(specs, key), pos + access_spec_bytes(specs, key).len()),
        ),
        access_spec_bytes(specs, key).len() > 0,
{
    let a = context_object_bytes(0, key.0, key.1);
    let r = references_bytes(specs, key);
    lemma_stands_split(s, pos, a, seq![0x1Eu8] + (r + seq![0x1Fu8]));
    lemma_object_read(
        s,
        pos,
        key.0,
        key.1,
        "RPM request: object-identifier truncated"@,
        "RPM request: expected context tag 0 (0x0C), got 0x"@,
    );
    lemma_stands_split(s, pos + 5, seq![0x1Eu8], r + seq![0x1Fu8]);
    lemma_stands_at(s, pos + 5, seq![0x1Eu8], 0);
    lemma_stands_split(s, pos + 6, r, seq![0x1Fu8]);
    let end = pos + 6 + r.len();
    lemma_stands_at(s, end, seq![0x1Fu8], 0);
    lemma_references_read(s, pos + 6, specs, key);
    assert(parse_references(s, end, key) == Ok::<(Seq<RpmRequestSpec>, int), BacnetErrorView>(
        (Seq::empty(), end),
    ));
    assert(specs_of(specs, key) + Seq::<RpmRequestSpec>::empty() =~= specs_of(specs, key));
}

/// The read access specifications are read back.
proof fn lemma_access_specs_read(
    s: Seq<u8>,
    pos: int,
    specs: Seq<RpmRequestSpec>,
    keys: Seq<(u16, u32)>,
)
    requires
        forall|i: int| 0 <= i < keys.len() ==> fits(#[trigger] keys[i]),
        stands(s, pos, access_specs_bytes(specs, keys)),
    ensures
        then_items(
            specs_grouped(specs, keys),
            parse_access_specs(s, pos + access_specs_bytes(specs, keys).len()),
        ) == parse_access_specs(s, pos),
    decreases keys.len(),
{
    if keys.len() == 0 {
        if let Ok(items) = parse_access_specs(s, pos) {
            assert(Seq::<RpmRequestSpec>::empty() + items =~= items);
        }
    } else {
        let key = keys.last();
        let first = access_specs_bytes(specs, keys.drop_last());
        let piece = access_spec_bytes(specs, key);
        assert(access_specs_bytes(specs, keys) =~= first + piece);
        lemma_stands_split(s, pos, first, piece);
        lemma_access_specs_read(s, pos, specs, keys.drop_last());
        assert(fits(keys[keys.len() - 1]));
        lemma_access_spec_read(s, pos + first.len(), specs, key);
        let earlier = specs_grouped(specs, keys.drop_last());
        let more = specs_of(specs, key);
        if let Ok(items) = parse_access_specs(s, pos + first.len() + piece.len()) {
            assert(earlier + (more + items) =~= (earlier + more) + items);
        }
    }
}

/// A ReadPropertyMultiple request decodes to the specifications that it was
/// made of, with those of the same object put together at the place of the
/// first of them.
pub proof fn read_property_multiple_round_trip(invoke_id: u8, specs: Seq<RpmRequestSpec>)
    requires
        forall|i: int|
            0 <= i < specs.len() ==> fits(
                ((#[trigger] specs[i]).object_type, specs[i].instance),
            ),
        6 + read_property_multiple_apdu(invoke_id, specs).len() <= 0xFFFF,
    ensures
        parse_packet(packet_bytes(BVLL_UNICAST, read_property_multiple_apdu(invoke_id, specs)))
            == in_packet(
            Ok(
                ApduView::ReadPropertyMultipleRequest {
                    invoke_id,
                    specs: specs_grouped(specs, first_occurrences(spec_keys(specs))),
                },
            ),
        ),
{
    let keys = first_occurrences(spec_keys(specs));
    let payload = access_specs_bytes(specs, keys);
    assert(parse_rpm_request(invoke_id, payload) == Ok::<ApduView, BacnetErrorView>(
        ApduView::ReadPropertyMultipleRequest { invoke_id, specs: specs_grouped(specs, keys) },
    )) by {
        lemma_first_occurrences_subset(spec_keys(specs));
        assert forall|i: int| 0 <= i < keys.len() implies fits(#[trigger] keys[i]) by {
            let k = choose|k: int|
                0 <= k < spec_keys(specs).len() && spec_keys(specs)[k] == keys[i];
            assert(fits((specs[k].object_type, specs[k].instance)));
        }
        assert(payload.subrange(0, 0int + payload.len()) =~= payload);
        lemma_access_specs_read(payload, 0, specs, keys);
        assert(specs_grouped(specs, keys) + Seq::<RpmRequestSpec>::empty() =~= specs_grouped(
            specs,
            keys,
        ));
    }
    lemma_confirmed_packet(invoke_id, SVC_CONFIRMED_READ_PROPERTY_MULTIPLE, payload);
}

// ── Acknowledgements ────────────────────────────────────────

/// Whether the outcome of a property is sent whole.
pub open spec fn outcome_sent_whole(value: Result<ValueView, (u32, u32)>) -> bool {
    match value {
        Ok(v) => sent_whole(v),
        Err((class, code)) => class <= 0xFFFF && code <= 0xFFFF,
    }
}

/// The outcome of a property is read back.
proof fn lemma_outcome_read(s: Seq<u8>, pos: int, value: Result<ValueView, (u32, u32)>)
    requires
        outcome_sent_whole(value),
        stands(s, pos, outcome_bytes(value)),
    ensures
        parse_outcome(s, pos) == Ok::<(Result<ValueView, (u32, u32)>, int), BacnetErrorView>(
            (value, pos + outcome_bytes(value).len()),
        ),
        s[pos] == 0x4E || s[pos] == 0x5E,
        outcome_bytes(value).len() > 0,
{
    match value {
        Ok(v) => {
            let b = value_bytes(v);
            assert(outcome_bytes(value) =~= seq![0x4Eu8] + (b + seq![0x4Fu8]));
            lemma_stands_split(s, pos, seq![0x4Eu8], b + seq![0x4Fu8]);
            lemma_stands_at(s, pos, seq![0x4Eu8], 0);
            lemma_stands_split(s, pos + 1, b, seq![0x4Fu8]);
            lemma_stands_at(s, pos + 1 + b.len(), seq![0x4Fu8], 0);
            lemma_value_read(s, pos + 1, v);
        },
        Err((class, code)) => {
            let a = enumerated_bytes(class);
            let b = enumerated_bytes(code);
            assert(outcome_bytes(value) =~= seq![0x5Eu8] + (a + (b + seq![0x5Fu8])));
            lemma_stands_split(s, pos, seq![0x5Eu8], a + (b + seq![0x5Fu8]));
            lemma_stands_at(s, pos, seq![0x5Eu8], 0);
            lemma_stands_split(s, pos + 1, a, b + seq![0x5Fu8]);
            lemma_stands_split(s, pos + 1 + a.len(), b, seq![0x5Fu8]);
            lemma_stands_at(s, pos + 1 + a.len() + b.len(), seq![0x5Fu8], 0);
            lemma_enumerated_read(s, pos + 1, class);
            lemma_enumerated_read(s, pos + 1 + a.len(), code);
        },
    }
}

/// The bytes of one property result.
spec fn entry_bytes(r: RpmResultView) -> Seq<u8> {
    context_unsigned_bytes(2, r.property_id) + (context_option_bytes(3, r.array_index)
        + outcome_bytes(r.value))
}

/// One property result is read back.
proof fn lemma_entry_read(s: Seq<u8>, pos: int, r: RpmResultView)
    requires
        outcome_sent_whole(r.value),
        stands(s, pos, entry_bytes(r)),
    ensures
        parse_entry(s, pos, (r.object_type, r.instance)) == Ok::<
            (RpmResultView, int),
            BacnetErrorView,
        >((r, pos + entry_bytes(r).len())),
        entry_bytes(r).len() > 0,
        s[pos] != 0x1F,
{
    let a = context_unsigned_bytes(2, r.property_id);
    let b = context_option_bytes(3, r.array_index);
    let c = outcome_bytes(r.value);
    lemma_stands_split(s, pos, a, b + c);
    lemma_context_read(s, pos, 2, r.property_id);
    lemma_stands_split(s, pos + a.len(), b, c);
    lemma_outcome_read(s, pos + a.len() + b.len(), r.value);
    assert(r.array_index is None ==> b.len() == 0);
    lemma_optional_read(s, pos + a.len(), 3, r.array_index, true);
}

/// The property results of one object are read back.
proof fn lemma_entries_read(
    s: Seq<u8>,
    pos: int,
    results: Seq<RpmResultView>,
    key: (u16, u32),
)
    requires
        forall|i: int|
            0 <= i < results.len() ==> outcome_sent_whole((#[trigger] results[i]).value),
        stands(s, pos, entries_bytes(results, key)),
    ensures
        then_list(
            results_of(results, key),
            parse_entries(s, pos + entries_bytes(results, key).len(), key),
        ) == parse_entries(s, pos, key),
    decreases results.len(),
{
    if results.len() == 0 {
        if let Ok((items, _)) = parse_entries(s, pos, key) {
            assert(Seq::<RpmResultView>::empty() + items =~= items);
        }
    } else {
        let r = results.last();
        let first = entries_bytes(results.drop_last(), key);
        assert(outcome_sent_whole(results[results.len() - 1].value));
        if (r.object_type, r.instance) == key {
            let piece = entry_bytes(r);
            assert(entries_bytes(results, key) =~= first + piece);
            lemma_stands_split(s, pos, first, piece);
            lemma_entry_read(s, pos + first.len(), r);
            lemma_entries_read(s, pos, results.drop_last(), key);
            let earlier = results_of(results.drop_last(), key);
            if let Ok((items, _)) = parse_entries(s, pos + first.len() + piece.len(), key) {
                assert(earlier + (seq![r] + items) =~= earlier.push(r) + items);
            }
        } else {
            assert(entries_bytes(results, key) =~= first);
            lemma_entries_read(s, pos, results.drop_last(), key);
        }
    }
}

/// The bytes of one read access result.
spec fn access_result_bytes(results: Seq<RpmResultView>, key: (u16, u32)) -> Seq<u8> {
    context_object_bytes(0, key.0, key.1) + (seq![0x1Eu8] + (entries_bytes(results, key) + seq![
        0x1Fu8,
    ]))
}

/// One read access result is read back.
proof fn lemma_access_result_read(
    s: Seq<u8>,
    pos: int,
    results: Seq<RpmResultView>,
    key: (u16, u32),
)
    requires
        fits(key),
        forall|i: int|
            0 <= i < results.len() ==> outcome_sent_whole((#[trigger] results[i]).value),
        stands(s, pos, access_result_bytes(results, key)),
    ensures
        parse_access_result(s, pos) == Ok::<(Seq<RpmResultView>, int), BacnetErrorView>(
            (results_of(results, key), pos + access_result_bytes(results, key).len()),
        ),
        access_result_bytes(results, key).len() > 0,
{
    let a = context_object_bytes(0, key.0, key.1);
    let r = entries_bytes(results, key);
    lemma_stands_split(s, pos, a, seq![0x1Eu8] + (r + seq![0x1Fu8]));
    lemma_object_read(
        s,
        pos,
        key.0,
        key.1,
        "RPM-ACK: object-identifier truncated"@,
        "RPM-ACK: expected context tag 0 (0x0C), got 0x"@,
    );
    lemma_stands_split(s, pos + 5, seq![0x1Eu8], r + seq![0x1Fu8]);
    lemma_stands_at(s, pos + 5, seq![0x1Eu8], 0);
    lemma_stands_split(s, pos + 6, r, seq![0x1Fu8]);
    let end = pos + 6 + r.len();
    lemma_stands_at(s, end, seq![0x1Fu8], 0);
    lemma_entries_read(s, pos + 6, results, key);
    assert(parse_entries(s, end, key) == Ok::<(Seq<RpmResultView>, int), BacnetErrorView>(
        (Seq::empty(), end),
    ));
    assert(results_of(results, key) + Seq::<RpmResultView>::empty() =~= results_of(results, key));
}

/// The read access results are read back.
proof fn lemma_access_results_read(
    s: Seq<u8>,
    pos: int,
    results: Seq<RpmResultView>,
    keys: Seq<(u16, u32)>,
)
    requires
        forall|i: int| 0 <= i < keys.len() ==> fits(#[trigger] keys[i]),
        forall|i: int|
            0 <= i < results.len() ==> outcome_sent_whole((#[trigger] results[i]).value),
        stands(s, pos, access_results_bytes(results, keys)),
    ensures
        then_items(
            results_grouped(results, keys),
            parse_access_results(s, pos + access_results_bytes(results, keys).len()),
        ) == parse_access_results(s, pos),
    decreases keys.len(),
{
    if keys.len() == 0 {
        if let Ok(items) = parse_access_results(s, pos) {
            assert(Seq::<RpmResultView>::empty() + items =~= items);
        }
    } else {
        let key = keys.last();
        let first = access_results_bytes(results, keys.drop_last());
        let piece = access_result_bytes(results, key);
        assert(access_results_bytes(results, keys) =~= first + piece);
        lemma_stands_split(s, pos, first, piece);
        lemma_access_results_read(s, pos, results, keys.drop_last());
        assert(fits(keys[keys.len() - 1]));
        lemma_access_result_read(s, pos + first.len(), results, key);
        let earlier = results_grouped(results, keys.drop_last());
        let more = results_of(results, key);
        if let Ok(items) = parse_access_results(s, pos + first.len() + piece.len()) {
            assert(earlier + (more + items) =~= (earlier + more) + items);
        }
    }
}

/// A ReadPropertyMultiple acknowledgement decodes to the results that it was
/// made of, values and errors alike, with those of the same object put
/// together at the place of the first of them.
pub proof fn read_property_multiple_ack_round_trip(invoke_id: u8, results: Seq<RpmResultView>)
    requires
        forall|i: int|
            0 <= i < results.len() ==> fits(
                ((#[trigger] results[i]).object_type, results[i].instance),
            ) && outcome_sent_whole(results[i].value),
        6 + read_property_multiple_ack_apdu(invoke_id, results).len() <= 0xFFFF,
    ensures
        parse_packet(
            packet_bytes(BVLL_UNICAST, read_property_multiple_ack_apdu(invoke_id, results)),
        ) == in_packet(
            Ok(
                ApduView::ReadPropertyMultipleAck {
                    invoke_id,
                    results: results_grouped(results, first_occurrences(result_keys(results))),
                },
            ),
        ),
{
    let keys = first_occurrences(result_keys(results));
    let payload = access_results_bytes(results, keys);
    let apdu = read_property_multiple_ack_apdu(invoke_id, results);
    assert(parse_rpm_ack(invoke_id, payload) == Ok::<ApduView, BacnetErrorView>(
        ApduView::ReadPropertyMultipleAck { invoke_id, results: results_grouped(results, keys) },
    )) by {
        lemma_first_occurrences_subset(result_keys(results));
        assert forall|i: int| 0 <= i < keys.len() implies fits(#[trigger] keys[i]) by {
            let k = choose|k: int|
                0 <= k < result_keys(results).len() && result_keys(results)[k] == keys[i];
            assert(fits((results[k].object_type, results[k].instance)));
        }
        assert(payload.subrange(0, 0int + payload.len()) =~= payload);
        lemma_access_results_read(payload, 0, results, keys);
        assert(results_grouped(results, keys) + Seq::<RpmResultView>::empty()
            =~= results_grouped(results, keys));
    }
    assert(parse_apdu(apdu) == parse_rpm_ack(invoke_id, payload)) by {
        assert(from_pos(apdu, 3) =~= payload);
        assert(parse_apdu(apdu) == parse_complex_ack(apdu));
    }
    packet_round_trip(BVLL_UNICAST, apdu);
}

// ── Nothing is lost ─────────────────────────────────────────

/// The distinct elements of a list are all of its elements, each once.
proof fn lemma_first_occurrences_all(keys: Seq<(u16, u32)>)
    ensures
        first_occurrences(keys).no_duplicates(),
        forall|i: int|
            0 <= i < keys.len() ==> first_occurrences(keys).contains(#[trigger] keys[i]),
    decreases keys.len(),
{
    if keys.len() > 0 {
        lemma_first_occurrences_all(keys.drop_last());
        let earlier = first_occurrences(keys.drop_last());
        let all = first_occurrences(keys);
        assert forall|i: int| 0 <= i < keys.len() implies all.contains(#[trigger] keys[i]) by {
            if i < keys.len() - 1 {
                assert(keys.drop_last()[i] == keys[i]);
                let k = choose|k: int| 0 <= k < earlier.len() && earlier[k] == keys[i];
                assert(all[k] == keys[i]);
            } else if !earlier.contains(keys.last()) {
                assert(all[earlier.len() as int] == keys[i]);
            }
        }
    }
}

/// How often an item occurs among those of one object.
proof fn lemma_specs_of_count(specs: Seq<RpmRequestSpec>, key: (u16, u32), x: RpmRequestSpec)
    ensures
        specs_of(specs, key).to_multiset().count(x) == if (x.object_type, x.instance) == key {
            specs.to_multiset().count(x)
        } else {
            0
        },
    decreases specs.len(),
{
    broadcast use vstd::seq_lib::group_to_multiset_ensures;

    if specs.len() == 0 {
        assert(specs =~= Seq::empty());
    } else {
        lemma_specs_of_count(specs.drop_last(), key, x);
        assert(specs =~= specs.drop_last().push(specs.last()));
    }
}

/// How often an item occurs among those of several objects.
proof fn lemma_specs_grouped_count(
    specs: Seq<RpmRequestSpec>,
    keys: Seq<(u16, u32)>,
    x: RpmRequestSpec,
)
    requires
        keys.no_duplicates(),
    ensures
        specs_grouped(specs, keys).to_multiset().count(x) == if keys.contains(
            (x.object_type, x.instance),
        ) {
            specs.to_multiset().count(x)
        } else {
            0
        },
    decreases keys.len(),
{
    broadcast use vstd::seq_lib::group_to_multiset_ensures;

    let key = (x.object_type, x.instance);
    if keys.len() > 0 {
        let init = keys.drop_last();
        lemma_specs_grouped_count(specs, init, x);
        lemma_specs_of_count(specs, keys.last(), x);
        vstd::seq_lib::lemma_multiset_commutative(
            specs_grouped(specs, init),
            specs_of(specs, keys.last()),
        );
        if init.contains(key) {
            let k = choose|k: int| 0 <= k < init.len() && init[k] == key;
            assert(keys[k] == key);
            assert(keys.last() != key);
        } else if keys.contains(key) {
            let k = choose|k: int| 0 <= k < keys.len() && keys[k] == key;
            assert(k == keys.len() - 1) by {
                if k < keys.len() - 1 {
                    assert(init[k] == key);
                }
            }
        } else {
            assert(keys[keys.len() - 1] == keys.last());
        }
    }
}

/// Putting the specifications of an object together loses none and adds none.
pub proof fn specs_grouped_keeps_all(specs: Seq<RpmRequestSpec>)
    ensures
        specs_grouped(specs, first_occurrences(spec_keys(specs))).to_multiset()
            == specs.to_multiset(),
{
    broadcast use vstd::seq_lib::group_to_multiset_ensures;

    let keys = first_occurrences(spec_keys(specs));
    let grouped = specs_grouped(specs, keys);
    lemma_first_occurrences_all(spec_keys(specs));
    assert forall|x: RpmRequestSpec|
        grouped.to_multiset().count(x) == specs.to_multiset().count(x) by {
        lemma_specs_grouped_count(specs, keys, x);
        if specs.to_multiset().count(x) > 0 {
            assert(specs.contains(x));
            let k = choose|k: int| 0 <= k < specs.len() && specs[k] == x;
            assert(spec_keys(specs)[k] == (x.object_type, x.instance));
        }
    }
    assert(grouped.to_multiset() =~= specs.to_multiset());
}

/// How often an item occurs among those of one object.
proof fn lemma_results_of_count(results: Seq<RpmResultView>, key: (u16, u32), x: RpmResultView)
    ensures
        results_of(results, key).to_multiset().count(x) == if (x.object_type, x.instance) == key {
            results.to_multiset().count(x)
        } else {
            0
        },
    decreases results.len(),
{
    broadcast use vstd::seq_lib::group_to_multiset_ensures;

    if results.len() == 0 {
        assert(results =~= Seq::empty());
    } else {
        lemma_results_of_count(results.drop_last(), key, x);
        assert(results =~= results.drop_last().push(results.last()));
    }
}

/// How often an item occurs among those of several objects.
proof fn lemma_results_grouped_count(
    results: Seq<RpmResultView>,
    keys: Seq<(u16, u32)>,
    x: RpmResultView,
)
    requires
        keys.no_duplicates(),
    ensures
        results_grouped(results, keys).to_multiset().count(x) == if keys.contains(
            (x.object_type, x.instance),
        ) {
            results.to_multiset().count(x)
        } else {
            0
        },
    decreases keys.len(),
{
    broadcast use vstd::seq_lib::group_to_multiset_ensures;

    let key = (x.object_type, x.instance);
    if keys.len() > 0 {
        let init = keys.drop_last();
        lemma_results_grouped_count(results, init, x);
        lemma_results_of_count(results, keys.last(), x);
        vstd::seq_lib::lemma_multiset_commutative(
            results_grouped(results, init),
            results_of(results, keys.last()),
        );
        if init.contains(key) {
            let k = choose|k: int| 0 <= k < init.len() && init[k] == key;
            assert(keys[k] == key);
            assert(keys.last() != key);
        } else if keys.contains(key) {
            let k = choose|k: int| 0 <= k < keys.len() && keys[k] == key;
            assert(k == keys.len() - 1) by {
                if k < keys.len() - 1 {
                    assert(init[k] == key);
                }
            }
        } else {
            assert(keys[keys.len() - 1] == keys.last());
        }
    }
}

/// Putting the results of an object together loses none and adds none.
pub proof fn results_grouped_keeps_all(results: Seq<RpmResultView>)
    ensures
        results_grouped(results, first_occurrences(result_keys(results))).to_multiset()
            == results.to_multiset(),
{
    broadcast use vstd::seq_lib::group_to_multiset_ensures;

    let keys = first_occurrences(result_keys(results));
    let grouped = results_grouped(results, keys);
    lemma_first_occurrences_all(result_keys(results));
    assert forall|x: RpmResultView|
        grouped.to_multiset().count(x) == results.to_multiset().count(x) by {
        lemma_results_grouped_count(results, keys, x);
        if results.to_multiset().count(x) > 0 {
            assert(results.contains(x));
            let k = choose|k: int| 0 <= k < results.len() && results[k] == x;
            assert(result_keys(results)[k] == (x.object_type, x.instance));
        }
    }
    assert(grouped.to_multiset() =~= results.to_multiset());
}

// ── Regrouping again ────────────────────────────────────────

/// The specifications of an object in two lists, one after the other.
proof fn lemma_specs_of_append(
    a: Seq<RpmRequestSpec>,
    b: Seq<RpmRequestSpec>,
    key: (u16, u32),
)
    ensures
        specs_of(a + b, key) == specs_of(a, key) + specs_of(b, key),
    decreases b.len(),
{
    if b.len() == 0 {
        assert(a + b =~= a);
        assert(specs_of(a, key) + specs_of(b, key) =~= specs_of(a, key));
    } else {
        assert((a + b).drop_last() =~= a + b.drop_last());
        assert((a + b).last() == b.last());
        lemma_specs_of_append(a, b.drop_last(), key);
        assert(specs_of(a + b, key) =~= specs_of(a, key) + specs_of(b, key));
    }
}

/// Among the specifications of one object are all of that object and none of
/// another.
proof fn lemma_specs_of_specs_of(
    specs: Seq<RpmRequestSpec>,
    key: (u16, u32),
    other: (u16, u32),
)
    ensures
        specs_of(specs_of(specs, key), other) == if key == other {
            specs_of(specs, key)
        } else {
            Seq::empty()
        },
    decreases specs.len(),
{
    if specs.len() > 0 {
        let s = specs.last();
        let earlier = specs_of(specs.drop_last(), key);
        lemma_specs_of_specs_of(specs.drop_last(), key, other);
        if (s.object_type, s.instance) == key {
            assert(earlier.push(s).drop_last() =~= earlier);
        }
    }
}

/// Regrouping keeps the specifications of each object as they are.
proof fn lemma_specs_of_grouped(
    specs: Seq<RpmRequestSpec>,
    keys: Seq<(u16, u32)>,
    key: (u16, u32),
)
    requires
        keys.no_duplicates(),
    ensures
        specs_of(specs_grouped(specs, keys), key) == if keys.contains(key) {
            specs_of(specs, key)
        } else {
            Seq::empty()
        },
    decreases keys.len(),
{
    if keys.len() > 0 {
        let init = keys.drop_last();
        let last = keys.last();
        lemma_specs_of_grouped(specs, init, key);
        lemma_specs_of_append(specs_grouped(specs, init), specs_of(specs, last), key);
        lemma_specs_of_specs_of(specs, last, key);
        assert(keys[keys.len() - 1] == last);
        if init.contains(key) {
            let k = choose|k: int| 0 <= k < init.len() && init[k] == key;
            assert(keys[k] == key);
            assert(last != key);
            assert(specs_of(specs, key) + Seq::<RpmRequestSpec>::empty() =~= specs_of(specs, key));
        } else {
            if keys.contains(key) {
                let k = choose|k: int| 0 <= k < keys.len() && keys[k] == key;
                if k < init.len() {
                    assert(init[k] == key);
                }
                assert(last == key);
            }
            assert(Seq::<RpmRequestSpec>::empty() + specs_of(specs, key) =~= specs_of(specs, key));
            assert(Seq::<RpmRequestSpec>::empty() + Seq::<RpmRequestSpec>::empty() =~= Seq::<
                RpmRequestSpec,
            >::empty());
        }
    }
}

/// The specifications of an object name that object; there are some if the
/// object occurs.
proof fn lemma_keys_of_specs_of(specs: Seq<RpmRequestSpec>, key: (u16, u32))
    ensures
        forall|i: int|
            0 <= i < specs_of(specs, key).len() ==> #[trigger] spec_keys(specs_of(specs, key))[i]
                == key,
        spec_keys(specs).contains(key) ==> specs_of(specs, key).len() > 0,
    decreases specs.len(),
{
    if specs.len() > 0 {
        let init = specs.drop_last();
        let s = specs.last();
        lemma_keys_of_specs_of(init, key);
        let earlier = specs_of(init, key);
        let all = specs_of(specs, key);
        assert forall|i: int| 0 <= i < all.len() implies #[trigger] spec_keys(all)[i] == key by {
            if i < earlier.len() {
                assert(spec_keys(earlier)[i] == key);
                assert(all[i] == earlier[i]);
            }
        }
        if spec_keys(specs).contains(key) && (s.object_type, s.instance) != key {
            let k = choose|k: int| 0 <= k < spec_keys(specs).len() && spec_keys(specs)[k] == key;
            assert(k < init.len());
            assert(spec_keys(init)[k] == key);
        }
    }
}

/// One more object after others is one more distinct element.
proof fn lemma_first_occurrences_append(
    keys: Seq<(u16, u32)>,
    more: Seq<(u16, u32)>,
    key: (u16, u32),
)
    requires
        !first_occurrences(keys).contains(key),
        more.len() > 0,
        forall|i: int| 0 <= i < more.len() ==> #[trigger] more[i] == key,
    ensures
        first_occurrences(keys + more) == first_occurrences(keys).push(key),
    decreases more.len(),
{
    let init = more.drop_last();
    let found = first_occurrences(keys).push(key);
    assert((keys + more).drop_last() =~= keys + init);
    assert(more[more.len() - 1] == key);
    assert((keys + more).last() == key);
    assert(found[found.len() - 1] == key);
    if init.len() == 0 {
        assert(keys + init =~= keys);
    } else {
        assert forall|i: int| 0 <= i < init.len() implies #[trigger] init[i] == key by {
            assert(init[i] == more[i]);
        }
        lemma_first_occurrences_append(keys, init, key);
        assert(found.contains(key));
    }
}

/// Regrouped specifications name their objects in the order of the groups.
proof fn lemma_grouped_keys(specs: Seq<RpmRequestSpec>, keys: Seq<(u16, u32)>)
    requires
        keys.no_duplicates(),
        forall|i: int| 0 <= i < keys.len() ==> spec_keys(specs).contains(#[trigger] keys[i]),
    ensures
        first_occurrences(spec_keys(specs_grouped(specs, keys))) == keys,
    decreases keys.len(),
{
    if keys.len() == 0 {
        assert(spec_keys(specs_grouped(specs, keys)) =~= Seq::empty());
        assert(keys =~= Seq::empty());
    } else {
        let init = keys.drop_last();
        let key = keys.last();
        assert(keys[keys.len() - 1] == key);
        assert forall|i: int| 0 <= i < init.len() implies spec_keys(specs).contains(
            #[trigger] init[i],
        ) by {
            assert(init[i] == keys[i]);
        }
        lemma_grouped_keys(specs, init);
        lemma_keys_of_specs_of(specs, key);
        let earlier = specs_grouped(specs, init);
        let more = specs_of(specs, key);
        assert(spec_keys(earlier + more) =~= spec_keys(earlier) + spec_keys(more));
        if init.contains(key) {
            let k = choose|k: int| 0 <= k < init.len() && init[k] == key;
            assert(keys[k] == key);
        }
        lemma_first_occurrences_append(spec_keys(earlier), spec_keys(more), key);
        assert(init.push(key) =~= keys);
    }
}

/// The property references of an object are those of its specifications.
proof fn lemma_references_of(specs: Seq<RpmRequestSpec>, key: (u16, u32))
    ensures
        references_bytes(specs, key) == references_bytes(specs_of(specs, key), key),
    decreases specs.len(),
{
    if specs.len() > 0 {
        let s = specs.last();
        let earlier = specs_of(specs.drop_last(), key);
        lemma_references_of(specs.drop_last(), key);
        if (s.object_type, s.instance) == key {
            assert(earlier.push(s).drop_last() =~= earlier);
        } else {
            assert(references_bytes(specs, key) =~= references_bytes(specs.drop_last(), key));
        }
    }
}

/// Lists with the same specifications of each object are regrouped alike and
/// sent as the same bytes.
proof fn lemma_same_groups(
    a: Seq<RpmRequestSpec>,
    b: Seq<RpmRequestSpec>,
    keys: Seq<(u16, u32)>,
)
    requires
        forall|i: int|
            0 <= i < keys.len() ==> specs_of(a, #[trigger] keys[i]) == specs_of(b, keys[i]),
    ensures
        specs_grouped(a, keys) == specs_grouped(b, keys),
        access_specs_bytes(a, keys) == access_specs_bytes(b, keys),
    decreases keys.len(),
{
    if keys.len() > 0 {
        let init = keys.drop_last();
        let key = keys.last();
        assert(keys[keys.len() - 1] == key);
        assert forall|i: int| 0 <= i < init.len() implies specs_of(a, #[trigger] init[i])
            == specs_of(b, init[i]) by {
            assert(init[i] == keys[i]);
        }
        lemma_same_groups(a, b, init);
        lemma_references_of(a, key);
        lemma_references_of(b, key);
    }
}

/// Specifications that are regrouped already stay in their order, and are sent
/// as the same bytes as before they were regrouped.
pub proof fn specs_grouped_again_stay(invoke_id: u8, specs: Seq<RpmRequestSpec>)
    ensures
        ({
            let grouped = specs_grouped(specs, first_occurrences(spec_keys(specs)));
            &&& specs_grouped(grouped, first_occurrences(spec_keys(grouped))) == grouped
            &&& read_property_multiple_apdu(invoke_id, grouped) == read_property_multiple_apdu(
                invoke_id,
                specs,
            )
        }),
{
    let keys = first_occurrences(spec_keys(specs));
    let grouped = specs_grouped(specs, keys);
    lemma_first_occurrences_all(spec_keys(specs));
    lemma_first_occurrences_subset(spec_keys(specs));
    lemma_grouped_keys(specs, keys);
    assert forall|i: int| 0 <= i < keys.len() implies specs_of(grouped, #[trigger] keys[i])
        == specs_of(specs, keys[i]) by {
        lemma_specs_of_grouped(specs, keys, keys[i]);
        assert(keys.contains(keys[i]));
    }
    lemma_same_groups(grouped, specs, keys);
}

/// A ReadPropertyMultiple request for specifications that are regrouped already
/// decodes to them in their own order.
pub proof fn grouped_request_round_trip(invoke_id: u8, specs: Seq<RpmRequestSpec>)
    requires
        specs_grouped(specs, first_occurrences(spec_keys(specs))) == specs,
        forall|i: int|
            0 <= i < specs.len() ==> fits(
                ((#[trigger] specs[i]).object_type, specs[i].instance),
            ),
        6 + read_property_multiple_apdu(invoke_id, specs).len() <= 0xFFFF,
    ensures
        parse_packet(packet_bytes(BVLL_UNICAST, read_property_multiple_apdu(invoke_id, specs)))
            == in_packet(Ok(ApduView::ReadPropertyMultipleRequest { invoke_id, specs })),
{
    read_property_multiple_round_trip(invoke_id, specs);
}

} // verus!
