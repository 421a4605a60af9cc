//! What decoding gives back of what encoding wrote.

use vstd::prelude::*;
use vstd::utf8::encode_utf8;

use super::decode::{
    context_tag_at, from_pos, parse_apdu, parse_bracketed_value, parse_bvll, parse_complex_ack,
    parse_confirmed, parse_context, parse_enumerated, parse_npdu, parse_object, parse_optional,
    parse_packet, parse_read_property_ack, parse_rpm_request, parse_values, parse_write_property,
    scalar_or_array,
};
use super::encode::{
    confirmed_header, context_object_bytes, context_option_bytes, context_unsigned_bytes,
    context_width, enumerated_bytes, error_apdu, packet_bytes, read_property_ack_apdu,
    read_property_apdu, scalar_bytes, string_bytes, string_header_bytes, subscribe_cov_apdu,
    value_bytes, values_bytes, who_is_apdu, write_property_apdu,
};
use super::types::{
    ApduView, NpduHeader, BVLL_BROADCAST, BVLL_UNICAST, NPDU_CONTROL_NORMAL, NPDU_VERSION,
    SVC_CONFIRMED_READ_PROPERTY, SVC_CONFIRMED_READ_PROPERTY_MULTIPLE, SVC_CONFIRMED_SUBSCRIBE_COV,
    SVC_CONFIRMED_WRITE_PROPERTY,
};
use crate::bacnet::error::BacnetErrorView;
use crate::bacnet::value::{min_width, parse_value, parse_value_extent, ValueView};
use crate::bacnet::wire::{
    be_bytes, be_round_trip, be_value, context_tag, is_context, lemma_be_bytes_len,
    lemma_be_bytes_unfold, lvt, object_id_raw, object_id_round_trip,
};

verus! {

// ── Packets ─────────────────────────────────────────────────

/// The NPDU header of every packet that is built here.
pub open spec fn local_npdu() -> NpduHeader {
    NpduHeader { version: NPDU_VERSION, control: NPDU_CONTROL_NORMAL }
}

/// The outcome of decoding a packet, from that of decoding its APDU.
pub open spec fn in_packet(apdu: Result<ApduView, BacnetErrorView>) -> Result<
    (NpduHeader, ApduView),
    BacnetErrorView,
> {
    match apdu {
        Ok(a) => Ok((local_npdu(), a)),
        Err(e) => Err(e),
    }
}

/// Widths of one, two and four bytes hold what they are used for.
proof fn lemma_width(n: nat, width: nat)
    requires
        width == 1 && n <= 0xFF || width == 2 && n <= 0xFFFF || width == 3 && n <= 0xFF_FFFF
            || width == 4 && n <= 0xFFFF_FFFF,
    ensures
        be_value(be_bytes(n, width)) == n,
        be_bytes(n, width).len() == width,
{
    reveal_with_fuel(vstd::arithmetic::power::pow, 5);
    be_round_trip(n, width);
}

/// A packet of at most 65535 bytes decodes to what its APDU decodes to, and its
/// length field holds its length.
pub proof fn packet_round_trip(bvll_type: u8, apdu: Seq<u8>)
    requires
        6 + apdu.len() <= 0xFFFF,
    ensures
        parse_packet(packet_bytes(bvll_type, apdu)) == in_packet(parse_apdu(apdu)),
        parse_bvll(packet_bytes(bvll_type, apdu)) matches Ok(h) && h.bvll_type == bvll_type
            && h.length == packet_bytes(bvll_type, apdu).len(),
{
    let s = packet_bytes(bvll_type, apdu);
    lemma_width(6 + apdu.len(), 2);
    assert(s.subrange(2, 4) =~= be_bytes(6 + apdu.len(), 2));
    assert(s.len() == 6 + apdu.len());
    let body = s.subrange(4, s.len() as int);
    assert(body[0] == NPDU_VERSION && body[1] == NPDU_CONTROL_NORMAL);
    assert(parse_npdu(body) == Ok::<(NpduHeader, int), BacnetErrorView>((local_npdu(), 2)));
    assert(from_pos(body, 2) =~= apdu);
}

// ── Pieces ──────────────────────────────────────────────────

/// Whether the bytes `b` stand in `s` at `pos`.
pub open spec fn stands(s: Seq<u8>, pos: int, b: Seq<u8>) -> bool {
    &&& 0 <= pos
    &&& pos + b.len() <= s.len()
    &&& s.subrange(pos, pos + b.len()) == b
}

/// Bytes that stand somewhere stand there piece by piece.
pub(crate) proof fn lemma_stands_split(s: Seq<u8>, pos: int, a: Seq<u8>, b: Seq<u8>)
    requires
        stands(s, pos, a + b),
    ensures
        stands(s, pos, a),
        stands(s, pos + a.len(), b),
{
    let ab = a + b;
    assert(s.subrange(pos, pos + ab.len()) == ab);
    assert forall|i: int| 0 <= i < a.len() implies s[pos + i] == a[i] by {
        assert(s.subrange(pos, pos + ab.len())[i] == ab[i]);
    }
    assert forall|i: int| 0 <= i < b.len() implies s[pos + a.len() + i] == b[i] by {
        assert(s.subrange(pos, pos + ab.len())[a.len() + i] == ab[a.len() + i]);
    }
    assert(s.subrange(pos, pos + a.len()) =~= a);
    assert(s.subrange(pos + a.len(), pos + a.len() + b.len()) =~= b);
}

/// The byte at an offset of bytes that stand somewhere.
pub(crate) proof fn lemma_stands_at(s: Seq<u8>, pos: int, b: Seq<u8>, i: int)
    requires
        stands(s, pos, b),
        0 <= i < b.len(),
    ensures
        s[pos + i] == b[i],
{
    assert(s.subrange(pos, pos + b.len())[i] == b[i]);
}

/// A context-tagged number is read back.
pub(crate) proof fn lemma_context_read(s: Seq<u8>, pos: int, tag: u8, n: u32)
    requires
        tag < 16,
        stands(s, pos, context_unsigned_bytes(tag, n)),
    ensures
        parse_context(from_pos(s, pos), tag) == Ok::<(u32, int), BacnetErrorView>(
            (n, 1int + context_width(n)),
        ),
        context_unsigned_bytes(tag, n).len() == 1 + context_width(n),
        context_tag_at(s, pos, tag, true),
{
    let w = context_width(n);
    let b = context_unsigned_bytes(tag, n);
    lemma_width(n as nat, w);
    lemma_stands_split(s, pos, seq![context_tag(tag, w)], be_bytes(n as nat, w));
    lemma_stands_at(s, pos, seq![context_tag(tag, w)], 0);
    let rest = from_pos(s, pos);
    assert(rest[0] == context_tag(tag, w));
    assert(rest[0] == tag * 16 + 8 + w);
    assert(rest.subrange(1, 1int + w) =~= s.subrange(pos + 1, pos + 1 + w));
}

/// An optional context-tagged number is read back where what follows is not
/// the same tag.
pub(crate) proof fn lemma_optional_read(
    s: Seq<u8>,
    pos: int,
    tag: u8,
    n: Option<u32>,
    plain_only: bool,
)
    requires
        tag < 16,
        stands(s, pos, context_option_bytes(tag, n)),
        n is None ==> !context_tag_at(s, pos, tag, plain_only),
    ensures
        parse_optional(s, pos, tag, plain_only) == Ok::<(Option<u32>, int), BacnetErrorView>(
            (n, pos + context_option_bytes(tag, n).len()),
        ),
{
    if let Some(v) = n {
        lemma_context_read(s, pos, tag, v);
    }
}

/// An object identifier under context tag 0 is read back.
pub(crate) proof fn lemma_object_read(
    s: Seq<u8>,
    pos: int,
    object_type: u16,
    instance: u32,
    truncated: Seq<char>,
    wrong_tag: Seq<char>,
)
    requires
        object_type < 1024,
        instance < 4194304,
        stands(s, pos, context_object_bytes(0, object_type, instance)),
    ensures
        parse_object(s, pos, truncated, wrong_tag) == Ok::<(u16, u32), BacnetErrorView>(
            (object_type, instance),
        ),
        context_object_bytes(0, object_type, instance).len() == 5,
{
    let raw = object_id_raw(object_type, instance);
    lemma_width(raw, 4);
    lemma_stands_split(s, pos, seq![context_tag(0, 4)], be_bytes(raw, 4));
    lemma_stands_at(s, pos, seq![context_tag(0, 4)], 0);
    object_id_round_trip(object_type, instance);
}

// ── Values ──────────────────────────────────────────────────

/// Whether a value is sent whole: numbers that fit their encoding and texts
/// of fewer than 65535 bytes.
///
/// A double-precision number is not: it is sent with a length byte that the
/// decoder takes for its first byte. Neither are the types that take no bytes
/// and lists, which lose their brackets.
pub open spec fn sent_whole(v: ValueView) -> bool {
    match v {
        ValueView::Null => true,
        ValueView::Boolean(_) => true,
        ValueView::Unsigned(_) => true,
        ValueView::Real(_) => true,
        ValueView::Enumerated(n) => n <= 0xFFFF,
        ValueView::CharacterString(chars) => encode_utf8(chars).len() < 0xFFFF,
        ValueView::ObjectId { object_type, instance } => object_type < 1024 && instance < 4194304,
        _ => false,
    }
}

/// A number after its tag byte is read back.
proof fn lemma_number_read(s: Seq<u8>, pos: int, tag_byte: u8, n: nat, width: nat)
    requires
        width == 1 && n <= 0xFF || width == 2 && n <= 0xFFFF || width == 3 && n <= 0xFF_FFFF
            || width == 4 && n <= 0xFFFF_FFFF,
        stands(s, pos, seq![tag_byte] + be_bytes(n, width)),
    ensures
        from_pos(s, pos).len() >= 1 + width,
        from_pos(s, pos)[0] == tag_byte,
        be_value(from_pos(s, pos).subrange(1, 1int + width)) == n,
        be_value(
            from_pos(s, pos).subrange(1, from_pos(s, pos).len() as int).subrange(0, width as int),
        ) == n,
        (seq![tag_byte] + be_bytes(n, width)).len() == 1 + width,
{
    lemma_width(n, width);
    lemma_stands_split(s, pos, seq![tag_byte], be_bytes(n, width));
    lemma_stands_at(s, pos, seq![tag_byte], 0);
    let rest = from_pos(s, pos);
    assert(rest.subrange(1, 1int + width) =~= s.subrange(pos + 1, pos + 1 + width));
    assert(rest.subrange(1, rest.len() as int).subrange(0, width as int) =~= s.subrange(
        pos + 1,
        pos + 1 + width,
    ));
}

/// A text is read back.
proof fn lemma_string_read(s: Seq<u8>, pos: int, chars: Seq<char>)
    requires
        encode_utf8(chars).len() < 0xFFFF,
        stands(s, pos, string_bytes(chars)),
    ensures
        parse_value(from_pos(s, pos)) == Ok::<(ValueView, int), BacnetErrorView>(
            (ValueView::CharacterString(chars), string_bytes(chars).len() as int),
        ),
        s[pos] == 0x70 + lvt(s[pos]),
        string_bytes(chars).len() > 0,
{
    let text = encode_utf8(chars);
    let len = text.len() + 1;
    let header = string_header_bytes(len);
    assert(string_bytes(chars) =~= header + (seq![0u8] + text));
    lemma_stands_split(s, pos, header, seq![0u8] + text);
    lemma_stands_split(s, pos + header.len(), seq![0u8], text);
    let rest = from_pos(s, pos);
    if len > 253 {
        lemma_width(len, 2);
        lemma_stands_split(s, pos, seq![0x76u8], be_bytes(len, 2));
        assert(rest.subrange(1, 3) =~= s.subrange(pos + 1, pos + 3));
    }
    lemma_stands_at(s, pos, header, 0);
    if 4 < len <= 253 {
        lemma_stands_at(s, pos, header, 1);
    }
    let h = header.len() as int;
    assert(rest.subrange(h + 1, h + len) =~= text) by {
        assert(s.subrange(pos + h + 1, pos + h + 1 + text.len()) == text);
        assert(rest.subrange(h + 1, h + len) =~= s.subrange(pos + h + 1, pos + h + len));
    }
    vstd::utf8::encode_utf8_valid_utf8(chars);
    vstd::utf8::encode_utf8_decode_utf8(chars);
}

/// A value that is sent whole is read back from wherever its bytes stand.
pub(crate) proof fn lemma_value_read(s: Seq<u8>, pos: int, v: ValueView)
    requires
        sent_whole(v),
        stands(s, pos, value_bytes(v)),
    ensures
        parse_value(from_pos(s, pos)) == Ok::<(ValueView, int), BacnetErrorView>(
            (v, value_bytes(v).len() as int),
        ),
        value_bytes(v).len() > 0,
        !is_context(s[pos]),
{
    match v {
        ValueView::Null => {
            lemma_stands_at(s, pos, value_bytes(v), 0);
        },
        ValueView::Boolean(b) => {
            lemma_stands_at(s, pos, value_bytes(v), 0);
        },
        ValueView::Unsigned(n) => {
            let w = context_width(n);
            lemma_number_read(s, pos, (0x20 + w) as u8, n as nat, w);
        },
        ValueView::Real(bits) => {
            lemma_number_read(s, pos, 0x44, bits as nat, 4);
        },
        ValueView::Enumerated(n) => {
            if n <= 0xFF {
                lemma_be_bytes_unfold(n as nat);
                assert(enumerated_bytes(n) =~= seq![0x91u8] + be_bytes(n as nat, 1));
                lemma_number_read(s, pos, 0x91, n as nat, 1);
            } else {
                lemma_number_read(s, pos, 0x92, n as nat, 2);
            }
        },
        ValueView::ObjectId { object_type, instance } => {
            lemma_number_read(s, pos, 0xC4, object_id_raw(object_type, instance), 4);
            object_id_round_trip(object_type, instance);
        },
        ValueView::CharacterString(chars) => {
            lemma_string_read(s, pos, chars);
        },
        _ => {},
    }
}

/// A value that is sent whole decodes to itself, whatever follows it, and the
/// decoder consumes exactly its bytes.
pub proof fn value_round_trip(v: ValueView, rest: Seq<u8>)
    requires
        sent_whole(v),
    ensures
        parse_value(value_bytes(v) + rest) == Ok::<(ValueView, int), BacnetErrorView>(
            (v, value_bytes(v).len() as int),
        ),
{
    let s = value_bytes(v) + rest;
    assert(s.subrange(0, 0int + value_bytes(v).len()) =~= value_bytes(v));
    lemma_value_read(s, 0, v);
    assert(from_pos(s, 0) =~= s);
}

/// A decoded value depends on no other bytes than those it takes: whatever
/// begins with them decodes to the same value.
pub proof fn value_depends_on_its_bytes(s: Seq<u8>, other: Seq<u8>)
    requires
        parse_value(s) matches Ok((_, n)) && n <= other.len() && other.subrange(0, n)
            == s.subrange(0, n),
    ensures
        parse_value(other) == parse_value(s),
{
    let n = parse_value(s)->Ok_0.1;
    parse_value_extent(s);
    assert forall|a: int, b: int| 0 <= a <= b <= n implies #[trigger] other.subrange(a, b)
        == s.subrange(a, b) by {
        assert(other.subrange(a, b) =~= other.subrange(0, n).subrange(a, b));
        assert(s.subrange(a, b) =~= s.subrange(0, n).subrange(a, b));
    }
    assert(other[0] == other.subrange(0, n)[0]);
    assert(s[0] == s.subrange(0, n)[0]);
    let l = lvt(s[0]) as int;
    if 1 + l <= n {
        assert(other.subrange(1, other.len() as int).subrange(0, l) =~= other.subrange(1, 1 + l));
        assert(s.subrange(1, s.len() as int).subrange(0, l) =~= s.subrange(1, 1 + l));
    }
    if n >= 2 {
        assert(other[1] == other.subrange(0, n)[1]);
        assert(s[1] == s.subrange(0, n)[1]);
    }
}

/// An unsigned number in its shortest form decodes to itself.
pub proof fn unsigned_round_trip(n: u32)
    ensures
        parse_value(seq![(0x20 + min_width(n)) as u8] + be_bytes(n as nat, min_width(n))) == Ok::<
            (ValueView, int),
            BacnetErrorView,
        >((ValueView::Unsigned(n), 1int + min_width(n))),
{
    let w = min_width(n);
    let s = seq![(0x20 + w) as u8] + be_bytes(n as nat, w);
    assert(s.subrange(0, 0int + s.len()) =~= s);
    lemma_number_read(s, 0, (0x20 + w) as u8, n as nat, w);
    assert(from_pos(s, 0) =~= s);
}

// ── Who-Is, ReadProperty, WriteProperty ─────────────────────

/// A Who-Is decodes to the range that was asked for; a range with one limit
/// only is no range.
pub proof fn who_is_round_trip(low: Option<u32>, high: Option<u32>)
    ensures
        parse_packet(packet_bytes(BVLL_BROADCAST, who_is_apdu(low, high))) == in_packet(
            Ok(
                ApduView::WhoIs {
                    low_limit: if high is Some {
                        low
                    } else {
                        None
                    },
                    high_limit: if low is Some {
                        high
                    } else {
                        None
                    },
                },
            ),
        ),
{
    let apdu = who_is_apdu(low, high);
    let rest = from_pos(apdu, 2);
    if let (Some(lo), Some(hi)) = (low, high) {
        let a = context_unsigned_bytes(0, lo);
        let b = context_unsigned_bytes(1, hi);
        lemma_be_bytes_len(lo as nat, context_width(lo));
        lemma_be_bytes_len(hi as nat, context_width(hi));
        assert(rest =~= a + b);
        assert(rest.subrange(0, 0int + (a + b).len()) =~= a + b);
        lemma_stands_split(rest, 0, a, b);
        lemma_context_read(rest, 0, 0, lo);
        lemma_context_read(rest, a.len() as int, 1, hi);
        assert(from_pos(rest, 0) =~= rest);
    } else {
        assert(rest.len() == 0);
    }
    packet_round_trip(BVLL_BROADCAST, apdu);
}

/// A ReadProperty request decodes to the object, property and index that it
/// was made of.
pub proof fn read_property_round_trip(
    invoke_id: u8,
    object_type: u16,
    instance: u32,
    property_id: u32,
    array_index: Option<u32>,
)
    requires
        object_type < 1024,
        instance < 4194304,
    ensures
        parse_packet(
            packet_bytes(
                BVLL_UNICAST,
                read_property_apdu(invoke_id, object_type, instance, property_id, array_index),
            ),
        ) == in_packet(
            Ok(
                ApduView::ReadPropertyRequest {
                    invoke_id,
                    object_type,
                    instance,
                    property_id,
                    array_index,
                },
            ),
        ),
{
    let apdu = read_property_apdu(invoke_id, object_type, instance, property_id, array_index);
    let s = from_pos(apdu, 4);
    let a = context_object_bytes(0, object_type, instance);
    let b = context_unsigned_bytes(1, property_id);
    let c = context_option_bytes(2, array_index);
    assert(s =~= a + (b + c));
    assert(s.subrange(0, 0int + (a + (b + c)).len()) =~= a + (b + c));
    lemma_stands_split(s, 0, a, b + c);
    lemma_stands_split(s, a.len() as int, b, c);
    lemma_object_read(
        s,
        0,
        object_type,
        instance,
        "ReadProperty request: ObjectId truncated"@,
        "ReadProperty request: expected context tag 0 (0x0C), got 0x"@,
    );
    lemma_context_read(s, 5, 1, property_id);
    lemma_optional_read(s, 5int + b.len(), 2, array_index, false);
    lemma_option_len(2, array_index);
    packet_round_trip(BVLL_UNICAST, apdu);
}

/// An optional number takes at most five bytes.
proof fn lemma_option_len(tag: u8, n: Option<u32>)
    ensures
        context_option_bytes(tag, n).len() <= 5,
{
    if let Some(v) = n {
        lemma_be_bytes_len(v as nat, context_width(v));
    }
}

/// The payload of a WriteProperty request.
spec fn write_payload(
    object_type: u16,
    instance: u32,
    property_id: u32,
    value: ValueView,
    array_index: Option<u32>,
    priority: Option<u32>,
) -> Seq<u8> {
    context_object_bytes(0, object_type, instance) + (context_unsigned_bytes(1, property_id) + (
    context_option_bytes(2, array_index) + (seq![0x3Eu8] + (value_bytes(value) + (seq![0x3Fu8]
        + context_option_bytes(4, priority))))))
}

/// A value between its brackets is read back.
proof fn lemma_bracketed_read(s: Seq<u8>, pos: int, value: ValueView)
    requires
        sent_whole(value),
        stands(s, pos, seq![0x3Eu8] + (value_bytes(value) + seq![0x3Fu8])),
    ensures
        parse_bracketed_value(s, pos) == Ok::<(ValueView, int), BacnetErrorView>(
            (value, pos + value_bytes(value).len() + 2),
        ),
        s[pos] == 0x3E,
{
    let v = value_bytes(value);
    lemma_stands_split(s, pos, seq![0x3Eu8], v + seq![0x3Fu8]);
    lemma_stands_at(s, pos, seq![0x3Eu8], 0);
    lemma_stands_split(s, pos + 1, v, seq![0x3Fu8]);
    lemma_stands_at(s, pos + 1 + v.len(), seq![0x3Fu8], 0);
    lemma_value_read(s, pos + 1, value);
}

/// The payload of a WriteProperty request is read back from its pieces.
proof fn lemma_write_payload_read(
    s: Seq<u8>,
    invoke_id: u8,
    object_type: u16,
    instance: u32,
    property_id: u32,
    value: ValueView,
    array_index: Option<u32>,
    priority: Option<u32>,
)
    requires
        object_type < 1024,
        instance < 4194304,
        sent_whole(value),
        priority matches Some(p) ==> p <= 0xFF,
        write_pieces(s, object_type, instance, property_id, value, array_index, priority),
    ensures
        parse_write_property(invoke_id, s) == Ok::<ApduView, BacnetErrorView>(
            ApduView::WritePropertyRequest {
                invoke_id,
                object_type,
                instance,
                property_id,
                array_index,
                value,
                priority: match priority {
                    Some(p) => Some(p as u8),
                    None => None,
                },
            },
        ),
{
    let b = context_unsigned_bytes(1, property_id).len() as int;
    let c = context_option_bytes(2, array_index).len() as int;
    let d = value_bytes(value).len() + 2;
    assert(parse_object(
        s,
        0,
        "WriteProperty request: ObjectId truncated"@,
        "WriteProperty request: expected context tag 0 (0x0C), got 0x"@,
    ) == Ok::<(u16, u32), BacnetErrorView>((object_type, instance))) by {
        lemma_object_read(
            s,
            0,
            object_type,
            instance,
            "WriteProperty request: ObjectId truncated"@,
            "WriteProperty request: expected context tag 0 (0x0C), got 0x"@,
        );
    }
    assert(parse_context(from_pos(s, 5), 1) == Ok::<(u32, int), BacnetErrorView>(
        (property_id, b),
    )) by {
        lemma_context_read(s, 5, 1, property_id);
    }
    assert(parse_bracketed_value(s, 5 + b + c) == Ok::<(ValueView, int), BacnetErrorView>(
        (value, 5 + b + c + d),
    ) && s[5 + b + c] == 0x3E) by {
        lemma_bracketed_read(s, 5 + b + c, value);
    }
    assert(parse_optional(s, 5 + b, 2, false) == Ok::<(Option<u32>, int), BacnetErrorView>(
        (array_index, 5 + b + c),
    )) by {
        lemma_optional_read(s, 5 + b, 2, array_index, false);
    }
    assert(parse_optional(s, 5 + b + c + d, 4, false) matches Ok((p, _)) && p == priority) by {
        lemma_optional_read(s, 5 + b + c + d, 4, priority, false);
    }
}

/// The pieces of the payload of a WriteProperty request, where they stand.
spec fn write_pieces(
    s: Seq<u8>,
    object_type: u16,
    instance: u32,
    property_id: u32,
    value: ValueView,
    array_index: Option<u32>,
    priority: Option<u32>,
) -> bool {
    let b = context_unsigned_bytes(1, property_id);
    let c = context_option_bytes(2, array_index);
    let d = seq![0x3Eu8] + (value_bytes(value) + seq![0x3Fu8]);
    let e = context_option_bytes(4, priority);
    &&& s.len() == 5 + b.len() + c.len() + d.len() + e.len()
    &&& stands(s, 0, context_object_bytes(0, object_type, instance))
    &&& stands(s, 5, b)
    &&& stands(s, 5 + b.len() as int, c)
    &&& stands(s, 5 + b.len() as int + c.len(), d)
    &&& stands(s, 5 + b.len() as int + c.len() + d.len(), e)
}

/// Where the pieces of a sequence of five stand.
proof fn lemma_five_pieces(
    s: Seq<u8>,
    a: Seq<u8>,
    b: Seq<u8>,
    c: Seq<u8>,
    d: Seq<u8>,
    e: Seq<u8>,
)
    requires
        s == a + (b + (c + (d + e))),
    ensures
        s.len() == a.len() + b.len() + c.len() + d.len() + e.len(),
        stands(s, 0, a),
        stands(s, a.len() as int, b),
        stands(s, (a.len() + b.len()) as int, c),
        stands(s, (a.len() + b.len() + c.len()) as int, d),
        stands(s, (a.len() + b.len() + c.len() + d.len()) as int, e),
{
    assert(s.subrange(0, 0int + s.len()) =~= s);
    lemma_stands_split(s, 0, a, b + (c + (d + e)));
    lemma_stands_split(s, a.len() as int, b, c + (d + e));
    lemma_stands_split(s, (a.len() + b.len()) as int, c, d + e);
    lemma_stands_split(s, (a.len() + b.len() + c.len()) as int, d, e);
}

/// Where the pieces of the payload of a WriteProperty request stand.
proof fn lemma_write_payload_pieces(
    object_type: u16,
    instance: u32,
    property_id: u32,
    value: ValueView,
    array_index: Option<u32>,
    priority: Option<u32>,
)
    ensures
        write_pieces(
            write_payload(object_type, instance, property_id, value, array_index, priority),
            object_type,
            instance,
            property_id,
            value,
            array_index,
            priority,
        ),
{
    let s = write_payload(object_type, instance, property_id, value, array_index, priority);
    let a = context_object_bytes(0, object_type, instance);
    let b = context_unsigned_bytes(1, property_id);
    let c = context_option_bytes(2, array_index);
    let v = value_bytes(value);
    let d = seq![0x3Eu8] + (v + seq![0x3Fu8]);
    let e = context_option_bytes(4, priority);
    lemma_be_bytes_len(object_id_raw(object_type, instance), 4);
    assert(s == a + (b + (c + (d + e)))) by {
        assert(seq![0x3Eu8] + (v + (seq![0x3Fu8] + e)) =~= d + e);
    }
    lemma_five_pieces(s, a, b, c, d, e);
}

/// A confirmed request of one of the decoded services decodes to what its
/// payload decodes to.
pub(crate) proof fn lemma_confirmed_packet(invoke_id: u8, service: u8, payload: Seq<u8>)
    requires
        10 + payload.len() <= 0xFFFF,
    ensures
        ({
            let got = parse_packet(
                packet_bytes(BVLL_UNICAST, confirmed_header(invoke_id, service) + payload),
            );
            &&& service == SVC_CONFIRMED_WRITE_PROPERTY ==> got == in_packet(
                parse_write_property(invoke_id, payload),
            )
            &&& service == SVC_CONFIRMED_READ_PROPERTY_MULTIPLE ==> got == in_packet(
                parse_rpm_request(invoke_id, payload),
            )
            &&& service == SVC_CONFIRMED_SUBSCRIBE_COV ==> got == in_packet(
                Ok(
                    ApduView::Other {
                        pdu_type: 0,
                        invoke_id,
                        data: confirmed_header(invoke_id, service) + payload,
                    },
                ),
            )
        }),
{
    let apdu = confirmed_header(invoke_id, service) + payload;
    assert(from_pos(apdu, 4) =~= payload);
    assert(parse_apdu(apdu) == parse_confirmed(apdu));
    packet_round_trip(BVLL_UNICAST, apdu);
}

/// A WriteProperty request decodes to what it was made of.
pub proof fn write_property_round_trip(
    invoke_id: u8,
    object_type: u16,
    instance: u32,
    property_id: u32,
    value: ValueView,
    array_index: Option<u32>,
    priority: Option<u8>,
)
    requires
        object_type < 1024,
        instance < 4194304,
        sent_whole(value),
        6 + write_property_apdu(
            invoke_id,
            object_type,
            instance,
            property_id,
            value,
            array_index,
            priority,
        ).len() <= 0xFFFF,
    ensures
        parse_packet(
            packet_bytes(
                BVLL_UNICAST,
                write_property_apdu(
                    invoke_id,
                    object_type,
                    instance,
                    property_id,
                    value,
                    array_index,
                    priority,
                ),
            ),
        ) == in_packet(
            Ok(
                ApduView::WritePropertyRequest {
                    invoke_id,
                    object_type,
                    instance,
                    property_id,
                    array_index,
                    value,
                    priority,
                },
            ),
        ),
{
    let apdu = write_property_apdu(
        invoke_id,
        object_type,
        instance,
        property_id,
        value,
        array_index,
        priority,
    );
    let wide: Option<u32> = match priority {
        Some(p) => Some(p as u32),
        None => None,
    };
    let payload = write_payload(object_type, instance, property_id, value, array_index, wide);
    let header = confirmed_header(invoke_id, SVC_CONFIRMED_WRITE_PROPERTY);
    assert(apdu =~= header + payload);
    assert(apdu.len() == 4 + payload.len());
    lemma_confirmed_packet(invoke_id, SVC_CONFIRMED_WRITE_PROPERTY, payload);
    lemma_write_payload_pieces(object_type, instance, property_id, value, array_index, wide);
    lemma_write_payload_read(
        payload,
        invoke_id,
        object_type,
        instance,
        property_id,
        value,
        array_index,
        wide,
    );
}

/// The bytes of a list start with those of its first element.
proof fn lemma_values_bytes_first(items: Seq<ValueView>)
    requires
        items.len() > 0,
    ensures
        values_bytes(items) == value_bytes(items[0]) + values_bytes(items.drop_first()),
    decreases items.len(),
{
    if items.len() == 1 {
        assert(items.drop_last() =~= Seq::empty());
        assert(items.drop_first() =~= Seq::empty());
        assert(values_bytes(items) =~= value_bytes(items[0]) + values_bytes(items.drop_first()));
    } else {
        lemma_values_bytes_first(items.drop_last());
        assert(items.drop_last().drop_first() =~= items.drop_first().drop_last());
        assert(values_bytes(items) =~= value_bytes(items[0]) + values_bytes(items.drop_first()));
    }
}

/// A list of values up to the closing tag is read back.
proof fn lemma_values_read(s: Seq<u8>, pos: int, items: Seq<ValueView>)
    requires
        forall|i: int| 0 <= i < items.len() ==> sent_whole(#[trigger] items[i]),
        stands(s, pos, values_bytes(items)),
        pos + values_bytes(items).len() < s.len(),
        s[pos + values_bytes(items).len()] == 0x3F,
    ensures
        parse_values(s, pos) == Ok::<Seq<ValueView>, BacnetErrorView>(items),
    decreases items.len(),
{
    if items.len() == 0 {
        assert(items =~= Seq::empty());
    } else {
        lemma_values_bytes_first(items);
        let first = value_bytes(items[0]);
        let rest = values_bytes(items.drop_first());
        lemma_stands_split(s, pos, first, rest);
        lemma_value_read(s, pos, items[0]);
        lemma_values_read(s, pos + first.len(), items.drop_first());
        assert(seq![items[0]] + items.drop_first() =~= items);
    }
}

/// The payload of a ReadProperty acknowledgement is read back.
proof fn lemma_ack_payload_read(
    s: Seq<u8>,
    invoke_id: u8,
    object_type: u16,
    instance: u32,
    property_id: u32,
    values: Seq<ValueView>,
)
    requires
        object_type < 1024,
        instance < 4194304,
        forall|i: int| 0 <= i < values.len() ==> sent_whole(#[trigger] values[i]),
        s == context_object_bytes(0, object_type, instance) + (context_unsigned_bytes(
            1,
            property_id,
        ) + (seq![0x3Eu8] + (values_bytes(values) + seq![0x3Fu8]))),
    ensures
        parse_read_property_ack(invoke_id, s) == Ok::<ApduView, BacnetErrorView>(
            ApduView::ReadPropertyAck {
                invoke_id,
                object_type,
                instance,
                property_id,
                value: scalar_or_array(values),
            },
        ),
{
    let v = values_bytes(values);
    let a = context_object_bytes(0, object_type, instance);
    let b = context_unsigned_bytes(1, property_id);
    let tail3 = v + seq![0x3Fu8];
    let tail2 = seq![0x3Eu8] + tail3;
    let tail1 = b + tail2;
    assert(s.subrange(0, 0int + (a + tail1).len()) =~= a + tail1);
    lemma_stands_split(s, 0, a, tail1);
    lemma_object_read(
        s,
        0,
        object_type,
        instance,
        "ReadProperty-ACK: ObjectId truncated"@,
        "ReadProperty-ACK: expected 0x0C, got 0x"@,
    );
    lemma_stands_split(s, 5, b, tail2);
    lemma_context_read(s, 5, 1, property_id);
    let at_open = 5 + b.len() as int;
    lemma_stands_split(s, at_open, seq![0x3Eu8], tail3);
    lemma_stands_at(s, at_open, seq![0x3Eu8], 0);
    lemma_stands_split(s, at_open + 1, v, seq![0x3Fu8]);
    lemma_stands_at(s, at_open + 1 + v.len(), seq![0x3Fu8], 0);
    lemma_values_read(s, at_open + 1, values);
}

/// Six pieces one after the other are the first and the rest.
proof fn lemma_pieces(
    h: Seq<u8>,
    a: Seq<u8>,
    b: Seq<u8>,
    c: Seq<u8>,
    d: Seq<u8>,
    e: Seq<u8>,
)
    ensures
        h + a + b + c + d + e == h + (a + (b + (c + (d + e)))),
{
    assert(h + a + b + c + d + e =~= h + (a + (b + (c + (d + e)))));
}

/// A ReadProperty acknowledgement is told by its header, and its payload is
/// what the packet decodes to.
proof fn lemma_ack_packet(invoke_id: u8, payload: Seq<u8>, apdu: Seq<u8>, read: ApduView)
    requires
        apdu == seq![0x30u8, invoke_id, SVC_CONFIRMED_READ_PROPERTY] + payload,
        parse_read_property_ack(invoke_id, payload) == Ok::<ApduView, BacnetErrorView>(read),
        6 + apdu.len() <= 0xFFFF,
    ensures
        parse_packet(packet_bytes(BVLL_UNICAST, apdu)) == in_packet(Ok(read)),
{
    assert(from_pos(apdu, 3) =~= payload);
    assert(apdu[0] == 0x30 && apdu[1] == invoke_id && apdu[2] == SVC_CONFIRMED_READ_PROPERTY);
    assert(parse_apdu(apdu) == parse_complex_ack(apdu));
    packet_round_trip(BVLL_UNICAST, apdu);
}

/// A ReadProperty acknowledgement decodes to the values that it was made of:
/// a single value as itself, any other number of values as an array.
pub proof fn read_property_ack_round_trip(
    invoke_id: u8,
    object_type: u16,
    instance: u32,
    property_id: u32,
    values: Seq<ValueView>,
)
    requires
        object_type < 1024,
        instance < 4194304,
        forall|i: int| 0 <= i < values.len() ==> sent_whole(#[trigger] values[i]),
        6 + read_property_ack_apdu(
            invoke_id,
            object_type,
            instance,
            property_id,
            values_bytes(values),
        ).len() <= 0xFFFF,
    ensures
        parse_packet(
            packet_bytes(
                BVLL_UNICAST,
                read_property_ack_apdu(
                    invoke_id,
                    object_type,
                    instance,
                    property_id,
                    values_bytes(values),
                ),
            ),
        ) == in_packet(
            Ok(
                ApduView::ReadPropertyAck {
                    invoke_id,
                    object_type,
                    instance,
                    property_id,
                    value: scalar_or_array(values),
                },
            ),
        ),
{
    let v = values_bytes(values);
    let a = context_object_bytes(0, object_type, instance);
    let b = context_unsigned_bytes(1, property_id);
    let payload = a + (b + (seq![0x3Eu8] + (v + seq![0x3Fu8])));
    let apdu = read_property_ack_apdu(invoke_id, object_type, instance, property_id, v);
    let header = seq![0x30u8, invoke_id, SVC_CONFIRMED_READ_PROPERTY];
    let read = ApduView::ReadPropertyAck {
        invoke_id,
        object_type,
        instance,
        property_id,
        value: scalar_or_array(values),
    };
    lemma_pieces(header, a, b, seq![0x3Eu8], v, seq![0x3Fu8]);
    lemma_ack_payload_read(payload, invoke_id, object_type, instance, property_id, values);
    lemma_ack_packet(invoke_id, payload, apdu, read);
}

/// What the single-value form of the acknowledgement carries.
pub open spec fn scalar_carried(v: ValueView) -> ValueView {
    match v {
        ValueView::Real(_) => v,
        ValueView::Unsigned(_) => v,
        ValueView::Boolean(_) => v,
        _ => ValueView::Real(0),
    }
}

/// The single-value form of the acknowledgement decodes to its Real, Unsigned
/// or Boolean; any other value arrives as the Real zero.
pub proof fn read_property_scalar_ack_round_trip(
    invoke_id: u8,
    object_type: u16,
    instance: u32,
    property_id: u32,
    value: ValueView,
)
    requires
        object_type < 1024,
        instance < 4194304,
    ensures
        parse_packet(
            packet_bytes(
                BVLL_UNICAST,
                read_property_ack_apdu(
                    invoke_id,
                    object_type,
                    instance,
                    property_id,
                    scalar_bytes(value),
                ),
            ),
        ) == in_packet(
            Ok(
                ApduView::ReadPropertyAck {
                    invoke_id,
                    object_type,
                    instance,
                    property_id,
                    value: scalar_carried(value),
                },
            ),
        ),
{
    let v = scalar_carried(value);
    lemma_scalar_ack_len(invoke_id, object_type, instance, property_id, v);
    lemma_scalar_bytes(value);
    let values = seq![v];
    assert(forall|i: int| 0 <= i < values.len() ==> #[trigger] values[i] == v);
    read_property_ack_round_trip(invoke_id, object_type, instance, property_id, values);
}

/// The bytes of the single-value form.
proof fn lemma_scalar_bytes(value: ValueView)
    ensures
        scalar_bytes(value) == value_bytes(scalar_carried(value)),
        values_bytes(seq![scalar_carried(value)]) == scalar_bytes(value),
        sent_whole(scalar_carried(value)),
{
    let v = scalar_carried(value);
    assert(seq![v].drop_last() =~= Seq::empty());
    assert(values_bytes(Seq::<ValueView>::empty()) == Seq::<u8>::empty());
    assert(values_bytes(seq![v]) =~= value_bytes(v));
}

/// The single-value form of the acknowledgement is short.
proof fn lemma_scalar_ack_len(
    invoke_id: u8,
    object_type: u16,
    instance: u32,
    property_id: u32,
    v: ValueView,
)
    requires
        v is Real || v is Unsigned || v is Boolean,
    ensures
        read_property_ack_apdu(
            invoke_id,
            object_type,
            instance,
            property_id,
            value_bytes(v),
        ).len() <= 100,
{
    lemma_be_bytes_len(property_id as nat, context_width(property_id));
    lemma_be_bytes_len(object_id_raw(object_type, instance), 4);
    match v {
        ValueView::Real(bits) => lemma_be_bytes_len(bits as nat, 4),
        ValueView::Unsigned(n) => lemma_be_bytes_len(n as nat, context_width(n)),
        _ => {},
    }
}

// ── Error, Simple-ACK, SubscribeCOV ─────────────────────────

/// An enumeration of up to 16 bits is read back.
pub(crate) proof fn lemma_enumerated_read(s: Seq<u8>, pos: int, n: u32)
    requires
        n <= 0xFFFF,
        stands(s, pos, enumerated_bytes(n)),
    ensures
        parse_enumerated(s, pos) == Ok::<(u32, int), BacnetErrorView>(
            (n, pos + enumerated_bytes(n).len()),
        ),
        2 <= enumerated_bytes(n).len() <= 3,
{
    lemma_value_read(s, pos, ValueView::Enumerated(n));
    lemma_be_bytes_len(n as nat, 2);
}

/// An Error PDU decodes to the class and code that it was made of, as long as
/// both fit 16 bits.
pub proof fn error_round_trip(
    invoke_id: u8,
    service_choice: u8,
    error_class: u32,
    error_code: u32,
)
    requires
        error_class <= 0xFFFF,
        error_code <= 0xFFFF,
    ensures
        parse_packet(
            packet_bytes(
                BVLL_UNICAST,
                error_apdu(invoke_id, service_choice, error_class, error_code),
            ),
        ) == in_packet(
            Ok(ApduView::Error { invoke_id, service_choice, error_class, error_code }),
        ),
{
    let s = error_apdu(invoke_id, service_choice, error_class, error_code);
    let head = seq![0x50u8, invoke_id, service_choice];
    let a = enumerated_bytes(error_class);
    let b = enumerated_bytes(error_code);
    assert(s =~= head + (a + b));
    assert(s.subrange(0, 0int + s.len()) =~= s);
    lemma_stands_split(s, 0, head, a + b);
    lemma_stands_split(s, 3, a, b);
    lemma_enumerated_read(s, 3, error_class);
    lemma_enumerated_read(s, 3int + a.len(), error_code);
    packet_round_trip(BVLL_UNICAST, s);
}

/// A Simple-ACK decodes to the invoke ID and service that it was made of.
pub proof fn simple_ack_round_trip(invoke_id: u8, service_choice: u8)
    ensures
        parse_packet(packet_bytes(BVLL_UNICAST, seq![0x20u8, invoke_id, service_choice]))
            == in_packet(Ok(ApduView::SimpleAck { invoke_id, service_choice })),
{
    packet_round_trip(BVLL_UNICAST, seq![0x20u8, invoke_id, service_choice]);
}

/// A SubscribeCOV request comes back as an undecoded APDU with its invoke ID
/// and all of its bytes.
pub proof fn subscribe_cov_passes_through(
    invoke_id: u8,
    process_id: u32,
    object_type: u16,
    instance: u32,
    issue_confirmed: Option<bool>,
    lifetime: Option<u32>,
)
    ensures
        ({
            let apdu = subscribe_cov_apdu(
                invoke_id,
                process_id,
                object_type,
                instance,
                issue_confirmed,
                lifetime,
            );
            parse_packet(packet_bytes(BVLL_UNICAST, apdu)) == in_packet(
                Ok(ApduView::Other { pdu_type: 0, invoke_id, data: apdu }),
            )
        }),
{
    let apdu = subscribe_cov_apdu(
        invoke_id,
        process_id,
        object_type,
        instance,
        issue_confirmed,
        lifetime,
    );
    let payload = context_unsigned_bytes(0, process_id) + context_object_bytes(
        1,
        object_type,
        instance,
    ) + match issue_confirmed {
        Some(confirmed) => seq![
            0x29u8,
            if confirmed {
                1u8
            } else {
                0u8
            },
        ] + context_option_bytes(3, lifetime),
        None => Seq::empty(),
    };
    assert(payload.len() <= 100) by {
        lemma_be_bytes_len(process_id as nat, context_width(process_id));
        lemma_be_bytes_len(object_id_raw(object_type, instance), 4);
        lemma_option_len(3, lifetime);
    }
    assert(apdu =~= confirmed_header(invoke_id, SVC_CONFIRMED_SUBSCRIBE_COV) + payload);
    lemma_confirmed_packet(invoke_id, SVC_CONFIRMED_SUBSCRIBE_COV, payload);
}

} // verus!
