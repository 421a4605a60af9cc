//! Encoders: each builds the bytes of one kind of packet.

use vstd::prelude::*;
use vstd::utf8::encode_utf8;

use super::types::{
    results_view, RpmRequestSpec, RpmResult, RpmResultView, BVLL_BACNET_IP, BVLL_BROADCAST,
    BVLL_DISTRIBUTE_BROADCAST, BVLL_REGISTER_FOREIGN_DEVICE, BVLL_UNICAST, NPDU_CONTROL_NORMAL,
    NPDU_VERSION, SVC_CONFIRMED_READ_PROPERTY, SVC_CONFIRMED_READ_PROPERTY_MULTIPLE,
    SVC_CONFIRMED_SUBSCRIBE_COV, SVC_CONFIRMED_WRITE_PROPERTY, SVC_UNCONFIRMED_WHOIS,
};
use crate::bacnet::value::{values_view, BacnetValue, ValueView};
use crate::bacnet::wire::{
    be_bytes, context_tag, lemma_be_bytes_low, lemma_be_bytes_unfold, object_id_raw,
    pack_object_id, push_all, push_be16, push_be32, push_be64,
};

verus! {

// ── Packets ─────────────────────────────────────────────────

/// A packet that carries `apdu`: BVLL header with the total length (its low
/// 16 bits), NPDU header, then the APDU.
pub open spec fn packet_bytes(bvll_type: u8, apdu: Seq<u8>) -> Seq<u8> {
    seq![BVLL_BACNET_IP, bvll_type] + be_bytes(6 + apdu.len(), 2) + seq![
        NPDU_VERSION,
        NPDU_CONTROL_NORMAL,
    ] + apdu
}

/// Prepend BVLL header and NPDU to `apdu` bytes, returning the full packet.
pub fn build_packet(bvll_type: u8, apdu: Vec<u8>) -> (pkt: Vec<u8>)
    ensures
        pkt@ == packet_bytes(bvll_type, apdu@),
{
    let total_len: u16 = ((apdu.len() % 65536 + 6) % 65536) as u16;
    let mut pkt: Vec<u8> = Vec::new();
    pkt.push(BVLL_BACNET_IP);
    pkt.push(bvll_type);
    proof {
        lemma_be_bytes_low(6 + apdu@.len(), total_len as nat);
    }
    push_be16(&mut pkt, total_len);
    pkt.push(NPDU_VERSION);
    pkt.push(NPDU_CONTROL_NORMAL);
    push_all(&mut pkt, apdu.as_slice());
    assert(pkt@ =~= packet_bytes(bvll_type, apdu@));
    pkt
}

// ── Context-tagged numbers ──────────────────────────────────

/// The width in which a context-tagged number is sent: 1, 2 or 4 bytes.
pub open spec fn context_width(n: u32) -> nat {
    if n <= 0xFF {
        1
    } else if n <= 0xFFFF {
        2
    } else {
        4
    }
}

/// A context-tagged number: the tag byte, then the number.
pub open spec fn context_unsigned_bytes(tag: u8, n: u32) -> Seq<u8> {
    seq![context_tag(tag, context_width(n))] + be_bytes(n as nat, context_width(n))
}

/// A context-tagged number where there is one, nothing otherwise.
pub open spec fn context_option_bytes(tag: u8, n: Option<u32>) -> Seq<u8> {
    match n {
        Some(n) => context_unsigned_bytes(tag, n),
        None => Seq::empty(),
    }
}

/// An object identifier under context tag `tag`.
pub open spec fn context_object_bytes(tag: u8, object_type: u16, instance: u32) -> Seq<u8> {
    seq![context_tag(tag, 4)] + be_bytes(object_id_raw(object_type, instance), 4)
}

/// Encode `val` as a context-tagged unsigned integer with the given `tag_num`.
///
/// Chooses the smallest byte width that fits the value (1, 2, or 4 bytes).
pub fn encode_context_unsigned(buf: &mut Vec<u8>, tag_num: u8, val: u32)
    ensures
        final(buf)@ == old(buf)@ + context_unsigned_bytes(tag_num, val),
{
    let base: u8 = tag_num % 16 * 16 + 8;
    if val <= 0xFF {
        buf.push(base + 1);
        buf.push(val as u8);
        proof {
            lemma_be_bytes_unfold(val as nat);
        }
    } else if val <= 0xFFFF {
        buf.push(base + 2);
        push_be16(buf, val as u16);
    } else {
        buf.push(base + 4);
        push_be32(buf, val);
    }
    assert(buf@ =~= old(buf)@ + context_unsigned_bytes(tag_num, val));
}

/// Encode a context-tagged number if there is one.
fn encode_context_option(buf: &mut Vec<u8>, tag_num: u8, val: Option<u32>)
    ensures
        final(buf)@ == old(buf)@ + context_option_bytes(tag_num, val),
{
    match val {
        Some(n) => encode_context_unsigned(buf, tag_num, n),
        None => {
            assert(buf@ =~= old(buf)@ + context_option_bytes(tag_num, val));
        },
    }
}

/// Encode an object identifier under a context tag below 16.
fn encode_context_object(buf: &mut Vec<u8>, tag_num: u8, object_type: u16, instance: u32)
    requires
        tag_num < 16,
    ensures
        final(buf)@ == old(buf)@ + context_object_bytes(tag_num, object_type, instance),
{
    buf.push(tag_num * 16 + 12);
    push_be32(buf, pack_object_id(object_type, instance));
    assert(buf@ =~= old(buf)@ + context_object_bytes(tag_num, object_type, instance));
}

// ── Application-tagged values ───────────────────────────────

/// An enumeration: one byte up to 255, else the low two bytes.
pub open spec fn enumerated_bytes(n: u32) -> Seq<u8> {
    if n <= 0xFF {
        seq![0x91u8, n as u8]
    } else {
        seq![0x92u8] + be_bytes(n as nat, 2)
    }
}

/// An unsigned number in 1, 2 or 4 bytes.
pub open spec fn unsigned_bytes(n: u32) -> Seq<u8> {
    seq![(0x20 + context_width(n)) as u8] + be_bytes(n as nat, context_width(n))
}

/// A boolean: the value sits in the tag byte.
pub open spec fn boolean_bytes(b: bool) -> Seq<u8> {
    seq![if b {
        0x11u8
    } else {
        0x10u8
    }]
}

/// The header of a character string of `len` bytes, the character-set byte
/// included: up to 4 in the tag byte, up to 253 in one byte, else in two.
pub open spec fn string_header_bytes(len: nat) -> Seq<u8> {
    if len <= 4 {
        seq![(0x70 + len) as u8]
    } else if len <= 253 {
        seq![0x75u8, len as u8]
    } else {
        seq![0x76u8] + be_bytes(len, 2)
    }
}

/// A character string: header, character set 0 (UTF-8), the text.
pub open spec fn string_bytes(chars: Seq<char>) -> Seq<u8> {
    string_header_bytes(encode_utf8(chars).len() + 1) + seq![0u8] + encode_utf8(chars)
}

/// The bytes of one value. An array is the bytes of its elements; values of a
/// type that is never sent take no bytes.
pub open spec fn value_bytes(v: ValueView) -> Seq<u8>
    decreases v,
{
    match v {
        ValueView::Real(bits) => seq![0x44u8] + be_bytes(bits as nat, 4),
        ValueView::Double(bits) => seq![0x55u8, 8u8] + be_bytes(bits as nat, 8),
        ValueView::Unsigned(n) => unsigned_bytes(n),
        ValueView::Boolean(b) => boolean_bytes(b),
        ValueView::ObjectId { object_type, instance } => seq![0xC4u8] + be_bytes(
            object_id_raw(object_type, instance),
            4,
        ),
        ValueView::Enumerated(n) => enumerated_bytes(n),
        ValueView::CharacterString(chars) => string_bytes(chars),
        ValueView::Null => seq![0u8],
        ValueView::Array(items) => values_bytes(items),
        _ => Seq::empty(),
    }
}

/// The bytes of several values, one after the other.
pub open spec fn values_bytes(items: Seq<ValueView>) -> Seq<u8>
    decreases items,
{
    if items.len() == 0 {
        Seq::empty()
    } else {
        values_bytes(items.drop_last()) + value_bytes(items.last())
    }
}

/// Encode an unsigned number in 1, 2 or 4 bytes.
fn encode_unsigned_value(buf: &mut Vec<u8>, n: u32)
    ensures
        final(buf)@ == old(buf)@ + unsigned_bytes(n),
{
    if n <= 0xFF {
        buf.push(0x21);
        buf.push(n as u8);
        proof {
            lemma_be_bytes_unfold(n as nat);
        }
    } else if n <= 0xFFFF {
        buf.push(0x22);
        push_be16(buf, n as u16);
    } else {
        buf.push(0x24);
        push_be32(buf, n);
    }
    assert(buf@ =~= old(buf)@ + unsigned_bytes(n));
}

/// Encode an enumeration.
fn encode_enumerated(buf: &mut Vec<u8>, n: u32)
    ensures
        final(buf)@ == old(buf)@ + enumerated_bytes(n),
{
    if n <= 0xFF {
        buf.push(0x91);
        buf.push(n as u8);
    } else {
        buf.push(0x92);
        proof {
            lemma_be_bytes_low(n as nat, (n % 65536) as nat);
        }
        push_be16(buf, (n % 65536) as u16);
    }
    assert(buf@ =~= old(buf)@ + enumerated_bytes(n));
}

/// Encode the header of a character string of `text_len` bytes.
fn encode_string_header(buf: &mut Vec<u8>, text_len: usize)
    ensures
        final(buf)@ == old(buf)@ + string_header_bytes(text_len as nat + 1),
{
    if text_len <= 3 {
        buf.push(0x71 + text_len as u8);
    } else if text_len <= 252 {
        buf.push(0x75);
        buf.push(text_len as u8 + 1);
    } else {
        let low: u16 = ((text_len % 65536 + 1) % 65536) as u16;
        buf.push(0x76);
        proof {
            lemma_be_bytes_low(text_len as nat + 1, low as nat);
        }
        push_be16(buf, low);
    }
    assert(buf@ =~= old(buf)@ + string_header_bytes(text_len as nat + 1));
}

/// Encode a character string.
fn encode_character_string(buf: &mut Vec<u8>, s: &String)
    ensures
        final(buf)@ == old(buf)@ + string_bytes(s@),
{
    let bytes: &[u8] = s.as_str().as_bytes();
    let ghost encoded = encode_utf8(s@);
    assert(bytes@ == encoded);
    encode_string_header(buf, bytes.len());
    buf.push(0x00);
    push_all(buf, bytes);
    assert(buf@ =~= old(buf)@ + (string_header_bytes(encoded.len() + 1) + seq![0u8] + encoded));
}

/// Encode a single `BacnetValue` as application-tagged bytes.
pub fn encode_bacnet_value(buf: &mut Vec<u8>, val: &BacnetValue)
    ensures
        final(buf)@ == old(buf)@ + value_bytes(val@),
    decreases val,
{
    match val {
        BacnetValue::Real(bits) => {
            buf.push(0x44);
            push_be32(buf, *bits);
        },
        BacnetValue::Double(bits) => {
            buf.push(0x55);
            buf.push(8);
            push_be64(buf, *bits);
        },
        BacnetValue::Unsigned(n) => encode_unsigned_value(buf, *n),
        BacnetValue::Boolean(b) => buf.push(if *b { 0x11 } else { 0x10 }),
        BacnetValue::ObjectId { object_type, instance } => {
            buf.push(0xC4);
            push_be32(buf, pack_object_id(*object_type, *instance));
        },
        BacnetValue::Enumerated(n) => encode_enumerated(buf, *n),
        BacnetValue::CharacterString(s) => encode_character_string(buf, s),
        BacnetValue::Null => buf.push(0x00),
        BacnetValue::Array(items) => {
            let ghost all = val@->Array_0;
            let mut i: usize = 0;
            assert(all.subrange(0, 0) =~= Seq::empty());
            while i < items.len()
                invariant
                    i <= items@.len(),
                    *val == BacnetValue::Array(*items),
                    val@ == ValueView::Array(all),
                    all.len() == items@.len(),
                    buf@ == old(buf)@ + values_bytes(all.subrange(0, i as int)),
                decreases items@.len() - i,
            {
                assert(decreases_to!(*val => val->Array_0));
                assert(decreases_to!(val->Array_0 => val->Array_0@[i as int]));
                assert(all[i as int] == items@[i as int]@);
                encode_bacnet_value(buf, &items[i]);
                i += 1;
                assert(all.subrange(0, i as int).drop_last() =~= all.subrange(0, i - 1));
                assert(buf@ =~= old(buf)@ + values_bytes(all.subrange(0, i as int)));
            }
            assert(all.subrange(0, i as int) =~= all);
        },
        _ => {},
    }
    assert(buf@ =~= old(buf)@ + value_bytes(val@));
}

// ── Who-Is ──────────────────────────────────────────────────

/// The APDU of a Who-Is request; a range is sent only if both limits are given.
pub open spec fn who_is_apdu(low: Option<u32>, high: Option<u32>) -> Seq<u8> {
    seq![0x10u8, SVC_UNCONFIRMED_WHOIS] + match (low, high) {
        (Some(lo), Some(hi)) => context_unsigned_bytes(0, lo) + context_unsigned_bytes(1, hi),
        _ => Seq::empty(),
    }
}

/// Encode a Who-Is broadcast frame.
///
/// Without a range the frame addresses all devices. A range needs both limits.
pub fn encode_who_is(low: Option<u32>, high: Option<u32>) -> (pkt: Vec<u8>)
    ensures
        pkt@ == packet_bytes(BVLL_BROADCAST, who_is_apdu(low, high)),
{
    let mut apdu: Vec<u8> = vec![0x10, SVC_UNCONFIRMED_WHOIS];
    if let (Some(lo), Some(hi)) = (low, high) {
        encode_context_unsigned(&mut apdu, 0, lo);
        encode_context_unsigned(&mut apdu, 1, hi);
    }
    assert(apdu@ =~= who_is_apdu(low, high));
    build_packet(BVLL_BROADCAST, apdu)
}

// ── ReadProperty ────────────────────────────────────────────

/// The first four bytes of a confirmed request: no segmentation, up to 1476
/// bytes accepted, the invoke ID and the service.
pub open spec fn confirmed_header(invoke_id: u8, service: u8) -> Seq<u8> {
    seq![0x00u8, 0x05u8, invoke_id, service]
}

/// The APDU of a ReadProperty request.
pub open spec fn read_property_apdu(
    invoke_id: u8,
    object_type: u16,
    instance: u32,
    property_id: u32,
    array_index: Option<u32>,
) -> Seq<u8> {
    confirmed_header(invoke_id, SVC_CONFIRMED_READ_PROPERTY) + context_object_bytes(
        0,
        object_type,
        instance,
    ) + context_unsigned_bytes(1, property_id) + context_option_bytes(2, array_index)
}

/// Encode a ReadProperty-Request (Confirmed-Request) frame.
///
/// # Arguments
/// * `invoke_id`   - 0-255 transaction ID
/// * `object_type` - BACnet object type (0=AI, 1=AO, 2=AV, 8=Device, ...)
/// * `instance`    - Object instance number (22 bits max)
/// * `property_id` - Property identifier (e.g. 85 = Present_Value)
/// * `array_index` - Optional array index for array properties
pub fn encode_read_property(
    invoke_id: u8,
    object_type: u16,
    instance: u32,
    property_id: u32,
    array_index: Option<u32>,
) -> (pkt: Vec<u8>)
    ensures
        pkt@ == packet_bytes(
            BVLL_UNICAST,
            read_property_apdu(invoke_id, object_type, instance, property_id, array_index),
        ),
{
    let mut apdu: Vec<u8> = vec![0x00, 0x05, invoke_id, SVC_CONFIRMED_READ_PROPERTY];
    encode_context_object(&mut apdu, 0, object_type, instance);
    encode_context_unsigned(&mut apdu, 1, property_id);
    encode_context_option(&mut apdu, 2, array_index);
    assert(apdu@ =~= read_property_apdu(
        invoke_id,
        object_type,
        instance,
        property_id,
        array_index,
    ));
    build_packet(BVLL_UNICAST, apdu)
}

/// The APDU of a ReadProperty acknowledgement around the bytes of the value.
pub open spec fn read_property_ack_apdu(
    invoke_id: u8,
    object_type: u16,
    instance: u32,
    property_id: u32,
    value: Seq<u8>,
) -> Seq<u8> {
    seq![0x30u8, invoke_id, SVC_CONFIRMED_READ_PROPERTY] + context_object_bytes(
        0,
        object_type,
        instance,
    ) + context_unsigned_bytes(1, property_id) + seq![0x3Eu8] + value + seq![0x3Fu8]
}

/// The bytes of a scalar in a single-value acknowledgement: a Real, Unsigned
/// or Boolean as it is, anything else as the Real zero.
pub open spec fn scalar_bytes(v: ValueView) -> Seq<u8> {
    match v {
        ValueView::Real(_) => value_bytes(v),
        ValueView::Unsigned(_) => value_bytes(v),
        ValueView::Boolean(_) => value_bytes(v),
        _ => value_bytes(ValueView::Real(0)),
    }
}

/// Encode a Complex-ACK ReadProperty response with a single scalar value.
///
/// # Arguments
/// * `invoke_id`   - must match the outstanding request
/// * `object_type` - BACnet object type (0=AI, etc.)
/// * `instance`    - object instance number
/// * `property_id` - property identifier (e.g. 85 = Present_Value)
/// * `value`       - the value; one that is not Real, Unsigned or Boolean is
///   sent as the Real zero
pub fn encode_read_property_ack(
    invoke_id: u8,
    object_type: u16,
    instance: u32,
    property_id: u32,
    value: &BacnetValue,
) -> (pkt: Vec<u8>)
    ensures
        pkt@ == packet_bytes(
            BVLL_UNICAST,
            read_property_ack_apdu(
                invoke_id,
                object_type,
                instance,
                property_id,
                scalar_bytes(value@),
            ),
        ),
{
    let mut apdu: Vec<u8> = vec![0x30, invoke_id, SVC_CONFIRMED_READ_PROPERTY];
    encode_context_object(&mut apdu, 0, object_type, instance);
    encode_context_unsigned(&mut apdu, 1, property_id);
    apdu.push(0x3E);
    match value {
        BacnetValue::Real(bits) => {
            apdu.push(0x44);
            push_be32(&mut apdu, *bits);
        },
        BacnetValue::Unsigned(n) => encode_unsigned_value(&mut apdu, *n),
        BacnetValue::Boolean(b) => apdu.push(if *b { 0x11 } else { 0x10 }),
        _ => {
            apdu.push(0x44);
            push_be32(&mut apdu, 0);
        },
    }
    apdu.push(0x3F);
    assert(apdu@ =~= read_property_ack_apdu(
        invoke_id,
        object_type,
        instance,
        property_id,
        scalar_bytes(value@),
    ));
    build_packet(BVLL_UNICAST, apdu)
}

/// Encode several values, one after the other.
fn encode_values(buf: &mut Vec<u8>, values: &[BacnetValue])
    ensures
        final(buf)@ == old(buf)@ + values_bytes(values_view(values@)),
{
    let ghost all = values_view(values@);
    let mut i: usize = 0;
    assert(all.subrange(0, 0) =~= Seq::empty());
    while i < values.len()
        invariant
            i <= values@.len(),
            all == values_view(values@),
            buf@ == old(buf)@ + values_bytes(all.subrange(0, i as int)),
        decreases values@.len() - i,
    {
        encode_bacnet_value(buf, &values[i]);
        i += 1;
        assert(all.subrange(0, i as int).drop_last() =~= all.subrange(0, i - 1));
        assert(buf@ =~= old(buf)@ + values_bytes(all.subrange(0, i as int)));
    }
    assert(all.subrange(0, i as int) =~= all);
}

/// Encode a Complex-ACK ReadProperty response with several values.
///
/// Used for array properties like ObjectList where the response contains
/// several application-tagged values inside the `3E...3F` wrapper.
pub fn encode_read_property_ack_multi(
    invoke_id: u8,
    object_type: u16,
    instance: u32,
    property_id: u32,
    values: &[BacnetValue],
) -> (pkt: Vec<u8>)
    ensures
        pkt@ == packet_bytes(
            BVLL_UNICAST,
            read_property_ack_apdu(
                invoke_id,
                object_type,
                instance,
                property_id,
                values_bytes(values_view(values@)),
            ),
        ),
{
    let mut apdu: Vec<u8> = vec![0x30, invoke_id, SVC_CONFIRMED_READ_PROPERTY];
    encode_context_object(&mut apdu, 0, object_type, instance);
    encode_context_unsigned(&mut apdu, 1, property_id);
    apdu.push(0x3E);
    encode_values(&mut apdu, values);
    apdu.push(0x3F);
    assert(apdu@ =~= read_property_ack_apdu(
        invoke_id,
        object_type,
        instance,
        property_id,
        values_bytes(values_view(values@)),
    ));
    build_packet(BVLL_UNICAST, apdu)
}

// ── ReadPropertyMultiple ────────────────────────────────────

/// The distinct elements of `keys`, in the order of their first occurrence.
pub open spec fn first_occurrences(keys: Seq<(u16, u32)>) -> Seq<(u16, u32)>
    decreases keys.len(),
{
    if keys.len() == 0 {
        Seq::empty()
    } else {
        let earlier = first_occurrences(keys.drop_last());
        if earlier.contains(keys.last()) {
            earlier
        } else {
            earlier.push(keys.last())
        }
    }
}

/// The objects that a list of specifications names.
pub open spec fn spec_keys(specs: Seq<RpmRequestSpec>) -> Seq<(u16, u32)> {
    Seq::new(specs.len(), |i: int| (specs[i].object_type, specs[i].instance))
}

/// The objects that a list of results names.
pub open spec fn result_keys(results: Seq<RpmResultView>) -> Seq<(u16, u32)> {
    Seq::new(results.len(), |i: int| (results[i].object_type, results[i].instance))
}

/// The property references of those specifications that name object `key`.
pub open spec fn references_bytes(specs: Seq<RpmRequestSpec>, key: (u16, u32)) -> Seq<u8>
    decreases specs.len(),
{
    if specs.len() == 0 {
        Seq::empty()
    } else {
        let s = specs.last();
        references_bytes(specs.drop_last(), key) + if (s.object_type, s.instance) == key {
            context_unsigned_bytes(0, s.property_id) + context_option_bytes(1, s.array_index)
        } else {
            Seq::empty()
        }
    }
}

/// One read access specification per object in `keys`: the object identifier,
/// then its property references between the tags 1E and 1F.
pub open spec fn access_specs_bytes(specs: Seq<RpmRequestSpec>, keys: Seq<(u16, u32)>) -> Seq<u8>
    decreases keys.len(),
{
    if keys.len() == 0 {
        Seq::empty()
    } else {
        access_specs_bytes(specs, keys.drop_last()) + context_object_bytes(
            0,
            keys.last().0,
            keys.last().1,
        ) + seq![0x1Eu8] + references_bytes(specs, keys.last()) + seq![0x1Fu8]
    }
}

/// The APDU of a ReadPropertyMultiple request.
pub open spec fn read_property_multiple_apdu(invoke_id: u8, specs: Seq<RpmRequestSpec>) -> Seq<u8> {
    confirmed_header(invoke_id, SVC_CONFIRMED_READ_PROPERTY_MULTIPLE) + access_specs_bytes(
        specs,
        first_occurrences(spec_keys(specs)),
    )
}

/// Add `key` to `keys` unless it is there.
fn note_key(keys: &mut Vec<(u16, u32)>, key: (u16, u32))
    ensures
        final(keys)@ == if old(keys)@.contains(key) {
            old(keys)@
        } else {
            old(keys)@.push(key)
        },
{
    let mut i: usize = 0;
    while i < keys.len()
        invariant
            i <= keys@.len(),
            keys@ == old(keys)@,
            forall|k: int| 0 <= k < i ==> keys@[k] != key,
        decreases keys@.len() - i,
    {
        if keys[i].0 == key.0 && keys[i].1 == key.1 {
            assert(keys@[i as int] == key);
            return;
        }
        i += 1;
    }
    keys.push(key);
}

/// The distinct objects that `specs` names, in order of first occurrence.
fn spec_objects(specs: &[RpmRequestSpec]) -> (keys: Vec<(u16, u32)>)
    ensures
        keys@ == first_occurrences(spec_keys(specs@)),
{
    let ghost all = spec_keys(specs@);
    let mut keys: Vec<(u16, u32)> = Vec::new();
    let mut i: usize = 0;
    assert(all.subrange(0, 0) =~= Seq::empty());
    while i < specs.len()
        invariant
            i <= specs@.len(),
            all == spec_keys(specs@),
            keys@ == first_occurrences(all.subrange(0, i as int)),
        decreases specs@.len() - i,
    {
        note_key(&mut keys, (specs[i].object_type, specs[i].instance));
        i += 1;
        assert(all.subrange(0, i as int).drop_last() =~= all.subrange(0, i - 1));
    }
    assert(all.subrange(0, i as int) =~= all);
    keys
}

/// Encode the property references of those specifications that name `key`.
fn encode_references(buf: &mut Vec<u8>, specs: &[RpmRequestSpec], key: (u16, u32))
    ensures
        final(buf)@ == old(buf)@ + references_bytes(specs@, key),
{
    let mut i: usize = 0;
    assert(specs@.subrange(0, 0) =~= Seq::empty());
    while i < specs.len()
        invariant
            i <= specs@.len(),
            buf@ == old(buf)@ + references_bytes(specs@.subrange(0, i as int), key),
        decreases specs@.len() - i,
    {
        if specs[i].object_type == key.0 && specs[i].instance == key.1 {
            encode_context_unsigned(buf, 0, specs[i].property_id);
            encode_context_option(buf, 1, specs[i].array_index);
        }
        i += 1;
        assert(specs@.subrange(0, i as int).drop_last() =~= specs@.subrange(0, i - 1));
        assert(buf@ =~= old(buf)@ + references_bytes(specs@.subrange(0, i as int), key));
    }
    assert(specs@.subrange(0, i as int) =~= specs@);
}

/// Encode a ReadPropertyMultiple-Request (Confirmed-Request) frame.
///
/// Specifications of the same object are sent together, under one object
/// identifier, at the place of the first of them.
pub fn encode_read_property_multiple(invoke_id: u8, specs: &[RpmRequestSpec]) -> (pkt: Vec<u8>)
    ensures
        pkt@ == packet_bytes(BVLL_UNICAST, read_property_multiple_apdu(invoke_id, specs@)),
{
    let mut apdu: Vec<u8> = vec![0x00, 0x05, invoke_id, SVC_CONFIRMED_READ_PROPERTY_MULTIPLE];
    let ghost header = apdu@;
    let keys: Vec<(u16, u32)> = spec_objects(specs);
    let mut i: usize = 0;
    assert(keys@.subrange(0, 0) =~= Seq::empty());
    assert(apdu@ =~= header + access_specs_bytes(specs@, keys@.subrange(0, 0)));
    while i < keys.len()
        invariant
            i <= keys@.len(),
            apdu@ == header + access_specs_bytes(specs@, keys@.subrange(0, i as int)),
        decreases keys@.len() - i,
    {
        encode_context_object(&mut apdu, 0, keys[i].0, keys[i].1);
        apdu.push(0x1E);
        encode_references(&mut apdu, specs, keys[i]);
        apdu.push(0x1F);
        i += 1;
        assert(keys@.subrange(0, i as int).drop_last() =~= keys@.subrange(0, i - 1));
        assert(apdu@ =~= header + access_specs_bytes(specs@, keys@.subrange(0, i as int)));
    }
    assert(keys@.subrange(0, i as int) =~= keys@);
    assert(apdu@ =~= read_property_multiple_apdu(invoke_id, specs@));
    build_packet(BVLL_UNICAST, apdu)
}

/// The outcome of one property: its value between 4E and 4F, or the error
/// class and code between 5E and 5F.
pub open spec fn outcome_bytes(value: Result<ValueView, (u32, u32)>) -> Seq<u8> {
    match value {
        Ok(v) => seq![0x4Eu8] + value_bytes(v) + seq![0x4Fu8],
        Err((class, code)) => seq![0x5Eu8] + enumerated_bytes(class) + enumerated_bytes(code)
            + seq![0x5Fu8],
    }
}

/// The results of those entries that name object `key`.
pub open spec fn entries_bytes(results: Seq<RpmResultView>, key: (u16, u32)) -> Seq<u8>
    decreases results.len(),
{
    if results.len() == 0 {
        Seq::empty()
    } else {
        let r = results.last();
        entries_bytes(results.drop_last(), key) + if (r.object_type, r.instance) == key {
            context_unsigned_bytes(2, r.property_id) + context_option_bytes(3, r.array_index)
                + outcome_bytes(r.value)
        } else {
            Seq::empty()
        }
    }
}

/// One read access result per object in `keys`.
pub open spec fn access_results_bytes(
    results: Seq<RpmResultView>,
    keys: Seq<(u16, u32)>,
) -> Seq<u8>
    decreases keys.len(),
{
    if keys.len() == 0 {
        Seq::empty()
    } else {
        access_results_bytes(results, keys.drop_last()) + context_object_bytes(
            0,
            keys.last().0,
            keys.last().1,
        ) + seq![0x1Eu8] + entries_bytes(results, keys.last()) + seq![0x1Fu8]
    }
}

/// The APDU of a ReadPropertyMultiple acknowledgement.
pub open spec fn read_property_multiple_ack_apdu(
    invoke_id: u8,
    results: Seq<RpmResultView>,
) -> Seq<u8> {
    seq![0x30u8, invoke_id, SVC_CONFIRMED_READ_PROPERTY_MULTIPLE] + access_results_bytes(
        results,
        first_occurrences(result_keys(results)),
    )
}

/// The distinct objects that `results` names, in order of first occurrence.
fn result_objects(results: &[RpmResult]) -> (keys: Vec<(u16, u32)>)
    ensures
        keys@ == first_occurrences(result_keys(results_view(results@))),
{
    let ghost all = result_keys(results_view(results@));
    let mut keys: Vec<(u16, u32)> = Vec::new();
    let mut i: usize = 0;
    assert(all.subrange(0, 0) =~= Seq::empty());
    while i < results.len()
        invariant
            i <= results@.len(),
            all == result_keys(results_view(results@)),
            keys@ == first_occurrences(all.subrange(0, i as int)),
        decreases results@.len() - i,
    {
        note_key(&mut keys, (results[i].object_type, results[i].instance));
        i += 1;
        assert(all.subrange(0, i as int).drop_last() =~= all.subrange(0, i - 1));
    }
    assert(all.subrange(0, i as int) =~= all);
    keys
}

/// Encode the outcome of one property.
fn encode_outcome(buf: &mut Vec<u8>, r: &RpmResult)
    ensures
        final(buf)@ == old(buf)@ + outcome_bytes(r@.value),
{
    match &r.value {
        Ok(v) => {
            buf.push(0x4E);
            encode_bacnet_value(buf, v);
            buf.push(0x4F);
        },
        Err((class, code)) => {
            buf.push(0x5E);
            encode_enumerated(buf, *class);
            encode_enumerated(buf, *code);
            buf.push(0x5F);
        },
    }
    assert(buf@ =~= old(buf)@ + outcome_bytes(r@.value));
}

/// Encode the results of those entries that name `key`.
fn encode_entries(buf: &mut Vec<u8>, results: &[RpmResult], key: (u16, u32))
    ensures
        final(buf)@ == old(buf)@ + entries_bytes(results_view(results@), key),
{
    let ghost all = results_view(results@);
    let mut i: usize = 0;
    assert(all.subrange(0, 0) =~= Seq::empty());
    while i < results.len()
        invariant
            i <= results@.len(),
            all == results_view(results@),
            buf@ == old(buf)@ + entries_bytes(all.subrange(0, i as int), key),
        decreases results@.len() - i,
    {
        if results[i].object_type == key.0 && results[i].instance == key.1 {
            encode_context_unsigned(buf, 2, results[i].property_id);
            encode_context_option(buf, 3, results[i].array_index);
            encode_outcome(buf, &results[i]);
        }
        i += 1;
        assert(all.subrange(0, i as int).drop_last() =~= all.subrange(0, i - 1));
        assert(buf@ =~= old(buf)@ + entries_bytes(all.subrange(0, i as int), key));
    }
    assert(all.subrange(0, i as int) =~= all);
}

/// Encode a ReadPropertyMultiple-ACK (Complex-ACK) frame.
///
/// Results of the same object are sent together, under one object identifier,
/// at the place of the first of them.
pub fn encode_read_property_multiple_ack(invoke_id: u8, results: &[RpmResult]) -> (pkt: Vec<u8>)
    ensures
        pkt@ == packet_bytes(
            BVLL_UNICAST,
            read_property_multiple_ack_apdu(invoke_id, results_view(results@)),
        ),
{
    let ghost all = results_view(results@);
    let mut apdu: Vec<u8> = vec![0x30, invoke_id, SVC_CONFIRMED_READ_PROPERTY_MULTIPLE];
    let ghost header = apdu@;
    let keys: Vec<(u16, u32)> = result_objects(results);
    let mut i: usize = 0;
    assert(keys@.subrange(0, 0) =~= Seq::empty());
    assert(apdu@ =~= header + access_results_bytes(all, keys@.subrange(0, 0)));
    while i < keys.len()
        invariant
            i <= keys@.len(),
            all == results_view(results@),
            apdu@ == header + access_results_bytes(all, keys@.subrange(0, i as int)),
        decreases keys@.len() - i,
    {
        encode_context_object(&mut apdu, 0, keys[i].0, keys[i].1);
        apdu.push(0x1E);
        encode_entries(&mut apdu, results, keys[i]);
        apdu.push(0x1F);
        i += 1;
        assert(keys@.subrange(0, i as int).drop_last() =~= keys@.subrange(0, i - 1));
        assert(apdu@ =~= header + access_results_bytes(all, keys@.subrange(0, i as int)));
    }
    assert(keys@.subrange(0, i as int) =~= keys@);
    assert(apdu@ =~= read_property_multiple_ack_apdu(invoke_id, all));
    build_packet(BVLL_UNICAST, apdu)
}

// ── Error and Simple-ACK ────────────────────────────────────

/// The APDU of an Error PDU.
pub open spec fn error_apdu(
    invoke_id: u8,
    service_choice: u8,
    error_class: u32,
    error_code: u32,
) -> Seq<u8> {
    seq![0x50u8, invoke_id, service_choice] + enumerated_bytes(error_class) + enumerated_bytes(
        error_code,
    )
}

/// Encode a BACnet Error PDU (PDU type 0x50).
pub fn encode_error_pdu(
    invoke_id: u8,
    service_choice: u8,
    error_class: u32,
    error_code: u32,
) -> (pkt: Vec<u8>)
    ensures
        pkt@ == packet_bytes(
            BVLL_UNICAST,
            error_apdu(invoke_id, service_choice, error_class, error_code),
        ),
{
    let mut apdu: Vec<u8> = vec![0x50, invoke_id, service_choice];
    encode_enumerated(&mut apdu, error_class);
    encode_enumerated(&mut apdu, error_code);
    assert(apdu@ =~= error_apdu(invoke_id, service_choice, error_class, error_code));
    build_packet(BVLL_UNICAST, apdu)
}

/// Encode a Simple-ACK PDU (PDU type 0x20), which acknowledges a confirmed
/// service that returns no data.
pub fn encode_simple_ack(invoke_id: u8, service_choice: u8) -> (pkt: Vec<u8>)
    ensures
        pkt@ == packet_bytes(BVLL_UNICAST, seq![0x20u8, invoke_id, service_choice]),
{
    let apdu: Vec<u8> = vec![0x20, invoke_id, service_choice];
    assert(apdu@ =~= seq![0x20u8, invoke_id, service_choice]);
    build_packet(BVLL_UNICAST, apdu)
}

// ── WriteProperty ───────────────────────────────────────────

/// The APDU of a WriteProperty request.
pub open spec fn write_property_apdu(
    invoke_id: u8,
    object_type: u16,
    instance: u32,
    property_id: u32,
    value: ValueView,
    array_index: Option<u32>,
    priority: Option<u8>,
) -> Seq<u8> {
    confirmed_header(invoke_id, SVC_CONFIRMED_WRITE_PROPERTY) + context_object_bytes(
        0,
        object_type,
        instance,
    ) + context_unsigned_bytes(1, property_id) + context_option_bytes(2, array_index)
        + seq![0x3Eu8] + value_bytes(value) + seq![0x3Fu8] + match priority {
        Some(p) => context_unsigned_bytes(4, p as u32),
        None => Seq::empty(),
    }
}

/// Encode a WriteProperty-Request (Confirmed-Request) frame.
///
/// # Arguments
/// * `invoke_id`    - 0-255 transaction ID
/// * `object_type`  - BACnet object type (0=AI, 1=AO, 2=AV, ...)
/// * `instance`     - Object instance number (22 bits max)
/// * `property_id`  - Property identifier (e.g. 85 = Present_Value)
/// * `value`        - the application-tagged value to write
/// * `array_index`  - optional array index for array properties
/// * `priority`     - optional write priority (1-16, 1=highest)
pub fn encode_write_property(
    invoke_id: u8,
    object_type: u16,
    instance: u32,
    property_id: u32,
    value: &BacnetValue,
    array_index: Option<u32>,
    priority: Option<u8>,
) -> (pkt: Vec<u8>)
    ensures
        pkt@ == packet_bytes(
            BVLL_UNICAST,
            write_property_apdu(
                invoke_id,
                object_type,
                instance,
                property_id,
                value@,
                array_index,
                priority,
            ),
        ),
{
    let mut apdu: Vec<u8> = vec![0x00, 0x05, invoke_id, SVC_CONFIRMED_WRITE_PROPERTY];
    encode_context_object(&mut apdu, 0, object_type, instance);
    encode_context_unsigned(&mut apdu, 1, property_id);
    encode_context_option(&mut apdu, 2, array_index);
    apdu.push(0x3E);
    encode_bacnet_value(&mut apdu, value);
    apdu.push(0x3F);
    if let Some(p) = priority {
        encode_context_unsigned(&mut apdu, 4, p as u32);
    }
    assert(apdu@ =~= write_property_apdu(
        invoke_id,
        object_type,
        instance,
        property_id,
        value@,
        array_index,
        priority,
    ));
    build_packet(BVLL_UNICAST, apdu)
}

// ── SubscribeCOV ────────────────────────────────────────────

/// The APDU of a SubscribeCOV request. The cancel form (`issue_confirmed` is
/// `None`) ends after the object identifier.
pub open spec fn subscribe_cov_apdu(
    invoke_id: u8,
    process_id: u32,
    object_type: u16,
    instance: u32,
    issue_confirmed: Option<bool>,
    lifetime: Option<u32>,
) -> Seq<u8> {
    confirmed_header(invoke_id, SVC_CONFIRMED_SUBSCRIBE_COV) + context_unsigned_bytes(
        0,
        process_id,
    ) + context_object_bytes(1, object_type, instance) + match issue_confirmed {
        Some(confirmed) => seq![
            0x29u8,
            if confirmed {
                1u8
            } else {
                0u8
            },
        ] + context_option_bytes(3, lifetime),
        None => Seq::empty(),
    }
}

/// Encode a SubscribeCOV-Request (Confirmed-Request) frame.
///
/// # Arguments
/// * `invoke_id` - transaction ID
/// * `subscriber_process_id` - subscriber-process-identifier (0 is reserved)
/// * `monitored_object_type` - BACnet object type
/// * `monitored_object_instance` - object instance
/// * `issue_confirmed` - `Some(true/false)` subscribes; `None` cancels
/// * `lifetime` - subscription lifetime in seconds; `None` = indefinite
pub fn encode_subscribe_cov(
    invoke_id: u8,
    subscriber_process_id: u32,
    monitored_object_type: u16,
    monitored_object_instance: u32,
    issue_confirmed: Option<bool>,
    lifetime: Option<u32>,
) -> (pkt: Vec<u8>)
    ensures
        pkt@ == packet_bytes(
            BVLL_UNICAST,
            subscribe_cov_apdu(
                invoke_id,
                subscriber_process_id,
                monitored_object_type,
                monitored_object_instance,
                issue_confirmed,
                lifetime,
            ),
        ),
{
    let mut apdu: Vec<u8> = vec![0x00, 0x05, invoke_id, SVC_CONFIRMED_SUBSCRIBE_COV];
    encode_context_unsigned(&mut apdu, 0, subscriber_process_id);
    encode_context_object(&mut apdu, 1, monitored_object_type, monitored_object_instance);
    if let Some(confirmed) = issue_confirmed {
        apdu.push(0x29);
        apdu.push(if confirmed { 0x01 } else { 0x00 });
        encode_context_option(&mut apdu, 3, lifetime);
    }
    assert(apdu@ =~= subscribe_cov_apdu(
        invoke_id,
        subscriber_process_id,
        monitored_object_type,
        monitored_object_instance,
        issue_confirmed,
        lifetime,
    ));
    build_packet(BVLL_UNICAST, apdu)
}

// ── Broadcast management ────────────────────────────────────

/// Encode a Register-Foreign-Device frame with the given time to live.
pub fn encode_register_foreign_device(ttl_seconds: u16) -> (pkt: Vec<u8>)
    ensures
        pkt@ == seq![BVLL_BACNET_IP, BVLL_REGISTER_FOREIGN_DEVICE, 0x00, 0x06] + be_bytes(
            ttl_seconds as nat,
            2,
        ),
{
    let mut pkt: Vec<u8> = vec![BVLL_BACNET_IP, BVLL_REGISTER_FOREIGN_DEVICE, 0x00, 0x06];
    push_be16(&mut pkt, ttl_seconds);
    pkt
}

/// Encode a Distribute-Broadcast-To-Network frame around NPDU and APDU bytes:
/// the four header bytes with the total length (its low 16 bits), then `npdu`.
pub fn encode_distribute_broadcast_to_network(npdu: &[u8]) -> (pkt: Vec<u8>)
    ensures
        pkt@ == seq![BVLL_BACNET_IP, BVLL_DISTRIBUTE_BROADCAST] + be_bytes(4 + npdu@.len(), 2)
            + npdu@,
{
    let total_len: u16 = ((npdu.len() % 65536 + 4) % 65536) as u16;
    let mut pkt: Vec<u8> = vec![BVLL_BACNET_IP, BVLL_DISTRIBUTE_BROADCAST];
    proof {
        lemma_be_bytes_low(4 + npdu@.len(), total_len as nat);
    }
    push_be16(&mut pkt, total_len);
    push_all(&mut pkt, npdu);
    pkt
}

} // verus!
