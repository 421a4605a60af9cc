//! Where each field stands on the wire, byte by byte.

use vstd::prelude::*;

use super::decode::{
    from_pos, parse_apdu, parse_bvll_result, parse_i_am, parse_npdu, parse_packet,
};
use super::encode::{
    confirmed_header, context_object_bytes, context_unsigned_bytes, error_apdu, packet_bytes, read_property_ack_apdu, read_property_apdu, subscribe_cov_apdu,
    value_bytes, who_is_apdu, write_property_apdu,
};
use super::laws::{packet_round_trip, sent_whole, value_round_trip};
use super::types::ApduView;
use crate::bacnet::error::BacnetErrorView;
use crate::bacnet::value::{lossy_text, parse_value, string_extent, ValueView};
use crate::bacnet::wire::{
    be_bytes, be_value, context_tag, is_context, lemma_be_bytes_unfold, lvt, object_id_raw,
    tag_number,
};

verus! {

// ── Numbers and tags ────────────────────────────────────────

/// The number in the two bytes at a position, high byte first.
pub open spec fn word(s: Seq<u8>, at: int) -> int {
    s[at] * 256 + s[at + 1]
}

/// The number in the four bytes at a position, high byte first.
pub open spec fn long(s: Seq<u8>, at: int) -> int {
    word(s, at) * 65536 + word(s, at + 2)
}

/// The numbers in one to eight bytes.
proof fn lemma_numbers_at(s: Seq<u8>, at: int)
    requires
        0 <= at,
    ensures
        at + 1 <= s.len() ==> be_value(s.subrange(at, at + 1)) == s[at],
        at + 2 <= s.len() ==> be_value(s.subrange(at, at + 2)) == word(s, at),
        at + 3 <= s.len() ==> be_value(s.subrange(at, at + 3)) == word(s, at) * 256 + s[at + 2],
        at + 4 <= s.len() ==> be_value(s.subrange(at, at + 4)) == long(s, at),
{
    if at + 1 <= s.len() {
        let one = s.subrange(at, at + 1);
        assert(one.drop_last() =~= Seq::empty());
        assert(be_value(one.drop_last()) == 0);
        assert(be_value(one) == s[at]);
    }
    if at + 2 <= s.len() {
        let two = s.subrange(at, at + 2);
        assert(two.drop_last() =~= s.subrange(at, at + 1));
        assert(be_value(two) == word(s, at));
    }
    if at + 3 <= s.len() {
        let three = s.subrange(at, at + 3);
        assert(three.drop_last() =~= s.subrange(at, at + 2));
        assert(be_value(three) == word(s, at) * 256 + s[at + 2]);
    }
    if at + 4 <= s.len() {
        let four = s.subrange(at, at + 4);
        assert(four.drop_last() =~= s.subrange(at, at + 3));
        assert(be_value(four) == (word(s, at) * 256 + s[at + 2]) * 256 + s[at + 3]);
    }
}

/// The number in eight bytes.
proof fn lemma_eight_at(s: Seq<u8>, at: int)
    requires
        0 <= at,
        at + 8 <= s.len(),
    ensures
        be_value(s.subrange(at, at + 8)) == long(s, at) * 0x1_0000_0000 + long(s, at + 4),
{
    lemma_numbers_at(s, at);
    let a = be_value(s.subrange(at, at + 4));
    assert(s.subrange(at, at + 5).drop_last() =~= s.subrange(at, at + 4));
    let b = be_value(s.subrange(at, at + 5));
    assert(b == a * 256 + s[at + 4]);
    assert(s.subrange(at, at + 6).drop_last() =~= s.subrange(at, at + 5));
    let c = be_value(s.subrange(at, at + 6));
    assert(c == b * 256 + s[at + 5]);
    assert(s.subrange(at, at + 7).drop_last() =~= s.subrange(at, at + 6));
    let d = be_value(s.subrange(at, at + 7));
    assert(d == c * 256 + s[at + 6]);
    assert(s.subrange(at, at + 8).drop_last() =~= s.subrange(at, at + 7));
    assert(be_value(s.subrange(at, at + 8)) == d * 256 + s[at + 7]);
}

/// A tag byte is its number in the high four bits, its class in the fourth and
/// its length or type in the low three.
pub proof fn tag_byte_holds_three_fields(b: u8)
    ensures
        b == tag_number(b) * 16 + (if is_context(b) {
            8int
        } else {
            0
        }) + lvt(b),
        0 <= tag_number(b) < 16,
        0 <= lvt(b) < 8,
{
}

/// A context tag that is built has the number and the length it was built from.
pub proof fn context_tag_tells_number_and_length(tag: u8, len: nat)
    requires
        tag < 16,
        len < 8,
    ensures
        tag_number(context_tag(tag, len)) == tag,
        is_context(context_tag(tag, len)),
        lvt(context_tag(tag, len)) == len,
{
}

/// An object ID is its type in the high ten bits and its instance in the low
/// twenty-two.
pub proof fn object_id_is_type_and_instance(object_type: u16, instance: u32)
    requires
        object_type < 1024,
        instance < 4194304,
    ensures
        object_id_raw(object_type, instance) == object_type * 4194304 + instance,
{
}

// ── Values that are received ────────────────────────────────

/// Unsigned and enumerated values are the number in the one to four bytes after
/// their tag.
#[verifier::rlimit(40)]
pub proof fn whole_number_is_read_high_byte_first(s: Seq<u8>)
    requires
        s.len() >= 5,
    ensures
        s[0] == 0x21 ==> (parse_value(s) matches Ok((ValueView::Unsigned(n), len)) && n == s[1]
            && len == 2),
        s[0] == 0x22 ==> (parse_value(s) matches Ok((ValueView::Unsigned(n), len)) && n == word(
            s,
            1,
        ) && len == 3),
        s[0] == 0x23 ==> (parse_value(s) matches Ok((ValueView::Unsigned(n), len)) && n == word(
            s,
            1,
        ) * 256 + s[3] && len == 4),
        s[0] == 0x24 ==> (parse_value(s) matches Ok((ValueView::Unsigned(n), len)) && n == long(
            s,
            1,
        ) && len == 5),
        s[0] == 0x91 ==> (parse_value(s) matches Ok((ValueView::Enumerated(n), len)) && n == s[1]
            && len == 2),
        s[0] == 0x92 ==> (parse_value(s) matches Ok((ValueView::Enumerated(n), len)) && n == word(
            s,
            1,
        ) && len == 3),
        s[0] == 0x93 ==> (parse_value(s) matches Ok((ValueView::Enumerated(n), len)) && n == word(
            s,
            1,
        ) * 256 + s[3] && len == 4),
        s[0] == 0x94 ==> (parse_value(s) matches Ok((ValueView::Enumerated(n), len)) && n == long(
            s,
            1,
        ) && len == 5),
{
    lemma_payload_numbers(s);
}

/// The numbers in the bytes after a tag.
proof fn lemma_payload_numbers(s: Seq<u8>)
    requires
        s.len() >= 5,
    ensures
        ({
            let rest = s.subrange(1, s.len() as int);
            &&& be_value(rest.subrange(0, 1)) == s[1]
            &&& be_value(rest.subrange(0, 2)) == word(s, 1)
            &&& be_value(rest.subrange(0, 3)) == word(s, 1) * 256 + s[3]
            &&& be_value(rest.subrange(0, 4)) == long(s, 1)
        }),
{
    let rest = s.subrange(1, s.len() as int);
    lemma_numbers_at(s, 1);
    assert(rest.subrange(0, 1) =~= s.subrange(1, 2));
    assert(rest.subrange(0, 2) =~= s.subrange(1, 3));
    assert(rest.subrange(0, 3) =~= s.subrange(1, 4));
    assert(rest.subrange(0, 4) =~= s.subrange(1, 5));
}

/// Signed values of one, two and four bytes are read in two's complement.
#[verifier::rlimit(40)]
pub proof fn signed_number_is_read_in_twos_complement(s: Seq<u8>)
    requires
        s.len() >= 5,
    ensures
        s[0] == 0x31 ==> (parse_value(s) matches Ok((ValueView::Signed(n), len)) && -128 <= n < 128
            && (n as int - s[1]) % 256 == 0 && len == 2),
        s[0] == 0x32 ==> (parse_value(s) matches Ok((ValueView::Signed(n), len)) && -32768 <= n
            < 32768 && (n as int - word(s, 1)) % 65536 == 0 && len == 3),
        s[0] == 0x34 ==> (parse_value(s) matches Ok((ValueView::Signed(n), len)) && (n as int
            - long(s, 1)) % 0x1_0000_0000 == 0 && len == 5),
        s[0] == 0x33 ==> (parse_value(s) matches Ok((ValueView::Signed(n), len)) && n == word(s, 1)
            * 256 + s[3] && len == 4),
{
    lemma_payload_numbers(s);
}

/// Nulls and booleans are in their tag, and reals, doubles, dates, times and
/// object IDs in the bytes after it.
#[verifier::rlimit(40)]
pub proof fn fixed_values_follow_their_tag(s: Seq<u8>)
    requires
        s.len() >= 9,
    ensures
        s[0] == 0x00 ==> (parse_value(s) matches Ok((ValueView::Null, len)) && len == 1),
        s[0] == 0x10 ==> (parse_value(s) matches Ok((ValueView::Boolean(b), len)) && !b && len
            == 1),
        s[0] == 0x11 ==> (parse_value(s) matches Ok((ValueView::Boolean(b), len)) && b && len
            == 1),
        s[0] == 0x44 ==> (parse_value(s) matches Ok((ValueView::Real(bits), len)) && bits == long(
            s,
            1,
        ) && len == 5),
        s[0] == 0x55 ==> (parse_value(s) matches Ok((ValueView::Double(bits), len)) && bits
            == long(s, 1) * 0x1_0000_0000 + long(s, 5) && len == 9),
        s[0] == 0xA4 ==> (parse_value(s) matches Ok((ValueView::Date(d), len)) && d == seq![
            s[1],
            s[2],
            s[3],
            s[4],
        ] && len == 5),
        s[0] == 0xB4 ==> (parse_value(s) matches Ok((ValueView::Time(d), len)) && d == seq![
            s[1],
            s[2],
            s[3],
            s[4],
        ] && len == 5),
        s[0] == 0xC4 ==> (parse_value(s) matches Ok(
            (ValueView::ObjectId { object_type, instance }, len),
        ) && long(s, 1) == object_type * 4194304 + instance && instance < 4194304 && len == 5),
{
    lemma_numbers_at(s, 1);
    lemma_eight_at(s, 1);
    assert(s.subrange(1, 5) =~= seq![s[1], s[2], s[3], s[4]]);
}

/// A short string is the bytes after its tag; a character string begins with its
/// character set.
pub proof fn short_string_follows_its_tag(s: Seq<u8>, len: int)
    requires
        1 <= len <= 4,
        s.len() >= 1 + len,
        s[0] == 0x60 + len || s[0] == 0x70 + len || s[0] == 0x80 + len,
    ensures
        s[0] as int / 16 == 6 ==> (parse_value(s) matches Ok((ValueView::OctetString(b), n)) && b
            == s.subrange(1, 1 + len) && n == 1 + len),
        s[0] as int / 16 == 8 ==> (parse_value(s) matches Ok((ValueView::BitString(b), n)) && b
            == s.subrange(1, 1 + len) && n == 1 + len),
        s[0] as int / 16 == 7 ==> (parse_value(s) matches Ok((ValueView::CharacterString(t), n))
            && t == lossy_text(s.subrange(2, 1 + len)) && n == 1 + len),
{
    assert(lvt(s[0]) == len);
    assert(!is_context(s[0]));
    assert(string_extent(s) == Some((1int, len)));
}

/// A longer string is the bytes after its tag and a byte with its length.
pub proof fn string_follows_its_length_byte(s: Seq<u8>, len: int)
    requires
        1 <= len,
        s.len() >= 2 + len,
        s[0] == 0x60 + 5 || s[0] == 0x70 + 5 || s[0] == 0x80 + 5,
        s[1] == len,
    ensures
        s[0] as int / 16 == 6 ==> (parse_value(s) matches Ok((ValueView::OctetString(b), n)) && b
            == s.subrange(2, 2 + len) && n == 2 + len),
        s[0] as int / 16 == 8 ==> (parse_value(s) matches Ok((ValueView::BitString(b), n)) && b
            == s.subrange(2, 2 + len) && n == 2 + len),
        s[0] as int / 16 == 7 ==> (parse_value(s) matches Ok((ValueView::CharacterString(t), n))
            && t == lossy_text(s.subrange(3, 2 + len)) && n == 2 + len),
{
    assert(lvt(s[0]) == 5);
    assert(!is_context(s[0]));
    assert(string_extent(s) == Some((2int, len)));
}

/// A long string is the bytes after its tag and two bytes with its length.
pub proof fn long_string_follows_its_length(s: Seq<u8>, len: int)
    requires
        1 <= len,
        s.len() >= 3 + len,
        s[0] == 0x60 + 6 || s[0] == 0x70 + 6 || s[0] == 0x80 + 6,
        word(s, 1) == len,
    ensures
        s[0] as int / 16 == 6 ==> (parse_value(s) matches Ok((ValueView::OctetString(b), n)) && b
            == s.subrange(3, 3 + len) && n == 3 + len),
        s[0] as int / 16 == 8 ==> (parse_value(s) matches Ok((ValueView::BitString(b), n)) && b
            == s.subrange(3, 3 + len) && n == 3 + len),
        s[0] as int / 16 == 7 ==> (parse_value(s) matches Ok((ValueView::CharacterString(t), n))
            && t == lossy_text(s.subrange(4, 3 + len)) && n == 3 + len),
{
    assert(lvt(s[0]) == 6);
    assert(!is_context(s[0]));
    lemma_numbers_at(s, 1);
    assert(string_extent(s) == Some((3int, len)));
}

/// A number, real, date, time or object ID whose bytes are not all there is a
/// malformed frame.
pub proof fn truncated_value_is_malformed(s: Seq<u8>)
    requires
        s.len() > 0,
        !is_context(s[0]),
        tag_number(s[0]) == 2 || tag_number(s[0]) == 3 || tag_number(s[0]) == 4 || tag_number(s[0])
            == 9 || tag_number(s[0]) == 10 || tag_number(s[0]) == 11 || tag_number(s[0]) == 12,
        s.len() < 1 + lvt(s[0]),
    ensures
        parse_value(s) matches Err(e) && e is MalformedFrame,
{
}

/// A value under a context tag is passed over, with the bytes that its tag
/// announces.
pub proof fn context_value_is_passed_over(s: Seq<u8>)
    requires
        s.len() > 0,
        is_context(s[0]),
        s.len() >= 1 + lvt(s[0]),
    ensures
        parse_value(s) matches Ok((ValueView::Unknown, n)) && n == 1 + lvt(s[0]),
{
}

// ── Values that are sent ────────────────────────────────────

/// Numbers are sent under their tag, high byte first.
#[verifier::rlimit(40)]
pub proof fn number_is_sent_high_byte_first(n: u32)
    ensures
        ({
            let b = value_bytes(ValueView::Unsigned(n));
            &&& n <= 0xFF ==> b.len() == 2 && b[0] == 0x21 && b[1] == n
            &&& 0xFF < n <= 0xFFFF ==> b.len() == 3 && b[0] == 0x22 && word(b, 1) == n
            &&& 0xFFFF < n ==> b.len() == 5 && b[0] == 0x24 && long(b, 1) == n
        }),
        ({
            let b = value_bytes(ValueView::Real(n));
            b.len() == 5 && b[0] == 0x44 && long(b, 1) == n
        }),
        ({
            let b = value_bytes(ValueView::Enumerated(n));
            &&& n <= 0xFF ==> b.len() == 2 && b[0] == 0x91 && b[1] == n
            &&& 0xFF < n <= 0xFFFF ==> b.len() == 3 && b[0] == 0x92 && word(b, 1) == n
        }),
{
    lemma_be_bytes_unfold(n as nat);
    lemma_bytes_of_long(n as nat);
}

/// Booleans and nulls are sent as their tag.
pub proof fn truth_is_sent_in_its_tag()
    ensures
        value_bytes(ValueView::Boolean(true)) == seq![0x11u8],
        value_bytes(ValueView::Boolean(false)) == seq![0x10u8],
        value_bytes(ValueView::Null) == seq![0u8],
{
}

/// An object ID is sent under its tag, as type and instance.
pub proof fn object_id_is_sent_under_its_tag(object_type: u16, instance: u32)
    requires
        object_type < 1024,
        instance < 4194304,
    ensures
        ({
            let b = value_bytes(ValueView::ObjectId { object_type, instance });
            b.len() == 5 && b[0] == 0xC4 && long(b, 1) == object_type * 4194304 + instance
        }),
{
    let raw = object_id_raw(object_type, instance);
    let b = value_bytes(ValueView::ObjectId { object_type, instance });
    let four = be_bytes(raw, 4);
    lemma_bytes_of_long(raw);
    assert(b == seq![0xC4u8] + four);
    assert(b[1] == four[0] && b[2] == four[1] && b[3] == four[2] && b[4] == four[3]);
}

/// Four bytes hold a number below 2^32.
proof fn lemma_bytes_of_long(n: nat)
    requires
        n <= 0xFFFF_FFFF,
    ensures
        ({
            let b = be_bytes(n, 4);
            b.len() == 4 && ((b[0] * 256 + b[1]) * 256 + b[2]) * 256 + b[3] == n
        }),
        n <= 0xFFFF ==> be_bytes(n, 2).len() == 2 && be_bytes(n, 2)[0] * 256 + be_bytes(n, 2)[1]
            == n,
{
    lemma_be_bytes_unfold(n);
    assert(n / 256 / 256 == n / 65536);
    assert(n / 65536 / 256 == n / 16777216);
}

// ── Requests that are sent ──────────────────────────────────

/// A packet is the BACnet/IP header with its own length, the network header of
/// local data, and the APDU.
pub proof fn packet_is_headers_and_apdu(bvll_type: u8, apdu: Seq<u8>)
    requires
        6 + apdu.len() <= 0xFFFF,
    ensures
        ({
            let p = packet_bytes(bvll_type, apdu);
            &&& p.len() == 6 + apdu.len()
            &&& p[0] == 0x81
            &&& p[1] == bvll_type
            &&& word(p, 2) == p.len()
            &&& p[4] == 1
            &&& p[5] == 0
            &&& p.subrange(6, p.len() as int) == apdu
        }),
{
    let p = packet_bytes(bvll_type, apdu);
    lemma_be_bytes_unfold(6 + apdu.len());
    lemma_bytes_of_long(6 + apdu.len());
    assert(p.subrange(6, p.len() as int) =~= apdu);
}

/// Who-Is asks without limits in two bytes, and else names the low and the high
/// limit, in this order.
pub proof fn who_is_names_its_limits(low: u32, high: u32)
    requires
        low <= 0xFF,
        high <= 0xFF,
    ensures
        who_is_apdu(None, None) == seq![0x10u8, 0x08u8],
        who_is_apdu(Some(low), None) == seq![0x10u8, 0x08u8],
        who_is_apdu(None, Some(high)) == seq![0x10u8, 0x08u8],
        who_is_apdu(Some(low), Some(high)) == seq![
            0x10u8,
            0x08u8,
            0x09u8,
            low as u8,
            0x19u8,
            high as u8,
        ],
{
    lemma_be_bytes_unfold(low as nat);
    lemma_be_bytes_unfold(high as nat);
}

/// The bytes of an object ID under a context tag.
proof fn lemma_object_under_tag(tag: u8, object_type: u16, instance: u32)
    requires
        tag < 2,
        object_type < 1024,
        instance < 4194304,
    ensures
        ({
            let b = context_object_bytes(tag, object_type, instance);
            &&& b.len() == 5
            &&& b[0] == tag * 16 + 12
            &&& long(b, 1) == object_type * 4194304 + instance
        }),
{
    let raw = object_id_raw(object_type, instance);
    lemma_bytes_of_long(raw);
    let b = context_object_bytes(tag, object_type, instance);
    let four = be_bytes(raw, 4);
    assert(b[1] == four[0] && b[2] == four[1] && b[3] == four[2] && b[4] == four[3]);
}

/// The bytes of a number under a context tag.
proof fn lemma_number_under_tag(tag: u8, n: u32)
    requires
        tag < 5,
        n <= 0xFFFF,
    ensures
        n <= 0xFF ==> context_unsigned_bytes(tag, n) == seq![(tag * 16 + 9) as u8, n as u8],
        n > 0xFF ==> context_unsigned_bytes(tag, n).len() == 3 && context_unsigned_bytes(tag, n)[0]
            == tag * 16 + 10 && word(context_unsigned_bytes(tag, n), 1) == n,
{
    lemma_be_bytes_unfold(n as nat);
    lemma_bytes_of_long(n as nat);
}

/// A ReadProperty request is its header, the object and the property.
#[verifier::rlimit(40)]
pub proof fn read_request_names_object_and_property(
    invoke_id: u8,
    object_type: u16,
    instance: u32,
    property_id: u32,
)
    requires
        object_type < 1024,
        instance < 4194304,
        property_id <= 0xFF,
    ensures
        ({
            let a = read_property_apdu(invoke_id, object_type, instance, property_id, None);
            &&& a.len() == 11
            &&& a[0] == 0
            &&& a[1] == 5
            &&& a[2] == invoke_id
            &&& a[3] == 12
            &&& a[4] == 0x0C
            &&& long(a, 5) == object_type * 4194304 + instance
            &&& a[9] == 0x19
            &&& a[10] == property_id
        }),
{
    let a = read_property_apdu(invoke_id, object_type, instance, property_id, None);
    let header = confirmed_header(invoke_id, 12);
    let object = context_object_bytes(0, object_type, instance);
    let property = context_unsigned_bytes(1, property_id);
    lemma_object_under_tag(0, object_type, instance);
    lemma_number_under_tag(1, property_id);
    assert(a =~= header + object + property);
    assert(a[4] == object[0]);
    assert(a[5] == object[1] && a[6] == object[2] && a[7] == object[3] && a[8] == object[4]);
    assert(a[9] == property[0] && a[10] == property[1]);
}

/// A WriteProperty request is its header, the object, the property, the value
/// between brackets and the priority.
#[verifier::rlimit(40)]
pub proof fn write_request_brackets_its_value(
    invoke_id: u8,
    object_type: u16,
    instance: u32,
    property_id: u32,
    value: ValueView,
    priority: u8,
)
    requires
        object_type < 1024,
        instance < 4194304,
        property_id <= 0xFF,
    ensures
        ({
            let a = write_property_apdu(
                invoke_id,
                object_type,
                instance,
                property_id,
                value,
                None,
                Some(priority),
            );
            let n = value_bytes(value).len() as int;
            &&& a.len() == 15 + n
            &&& a[0] == 0
            &&& a[1] == 5
            &&& a[2] == invoke_id
            &&& a[3] == 15
            &&& a[4] == 0x0C
            &&& long(a, 5) == object_type * 4194304 + instance
            &&& a[9] == 0x19
            &&& a[10] == property_id
            &&& a[11] == 0x3E
            &&& a.subrange(12, 12 + n) == value_bytes(value)
            &&& a[12 + n] == 0x3F
            &&& a[13 + n] == 0x49
            &&& a[14 + n] == priority
        }),
{
    let a = write_property_apdu(
        invoke_id,
        object_type,
        instance,
        property_id,
        value,
        None,
        Some(priority),
    );
    let header = confirmed_header(invoke_id, 15);
    let object = context_object_bytes(0, object_type, instance);
    let property = context_unsigned_bytes(1, property_id);
    let payload = value_bytes(value);
    let last = context_unsigned_bytes(4, priority as u32);
    let n = payload.len() as int;
    lemma_object_under_tag(0, object_type, instance);
    lemma_number_under_tag(1, property_id);
    lemma_number_under_tag(4, priority as u32);
    assert(a =~= header + object + property + seq![0x3Eu8] + payload + seq![0x3Fu8] + last);
    assert(a[4] == object[0]);
    assert(a[5] == object[1] && a[6] == object[2] && a[7] == object[3] && a[8] == object[4]);
    assert(a[9] == property[0] && a[10] == property[1]);
    assert(a[13 + n] == last[0] && a[14 + n] == last[1]);
    assert(a.subrange(12, 12 + n) =~= payload);
}

/// A SubscribeCOV request is its header, the process, the object, whether
/// notifications are confirmed, and the lifetime; one without the latter two
/// cancels the subscription.
#[verifier::rlimit(40)]
pub proof fn subscription_names_process_object_and_lifetime(
    invoke_id: u8,
    process_id: u32,
    object_type: u16,
    instance: u32,
    confirmed: bool,
    lifetime: u32,
)
    requires
        object_type < 1024,
        instance < 4194304,
        process_id <= 0xFF,
        0xFF < lifetime <= 0xFFFF,
    ensures
        ({
            let a = subscribe_cov_apdu(
                invoke_id,
                process_id,
                object_type,
                instance,
                Some(confirmed),
                Some(lifetime),
            );
            let c = subscribe_cov_apdu(invoke_id, process_id, object_type, instance, None, None);
            &&& a.len() == 16
            &&& a[0] == 0
            &&& a[1] == 5
            &&& a[2] == invoke_id
            &&& a[3] == 5
            &&& a[4] == 0x09
            &&& a[5] == process_id
            &&& a[6] == 0x1C
            &&& long(a, 7) == object_type * 4194304 + instance
            &&& a[11] == 0x29
            &&& a[12] == 1 <==> confirmed
            &&& a[12] == 0 <==> !confirmed
            &&& a[13] == 0x3A
            &&& word(a, 14) == lifetime
            &&& c == a.subrange(0, 11)
        }),
{
    let a = subscribe_cov_apdu(
        invoke_id,
        process_id,
        object_type,
        instance,
        Some(confirmed),
        Some(lifetime),
    );
    let c = subscribe_cov_apdu(invoke_id, process_id, object_type, instance, None, None);
    let header = confirmed_header(invoke_id, 5);
    let process = context_unsigned_bytes(0, process_id);
    let object = context_object_bytes(1, object_type, instance);
    let flag: u8 = if confirmed {
        1
    } else {
        0
    };
    let life = context_unsigned_bytes(3, lifetime);
    lemma_number_under_tag(0, process_id);
    lemma_object_under_tag(1, object_type, instance);
    lemma_number_under_tag(3, lifetime);
    assert(a =~= header + process + object + seq![0x29u8, flag] + life);
    assert(c =~= header + process + object);
    assert(a[4] == process[0] && a[5] == process[1]);
    assert(a[6] == object[0]);
    assert(a[7] == object[1] && a[8] == object[2] && a[9] == object[3] && a[10] == object[4]);
    assert(a[11] == 0x29 && a[12] == flag);
    assert(a[13] == life[0] && a[14] == life[1] && a[15] == life[2]);
    assert(c =~= a.subrange(0, 11));
}

/// An acknowledgement of ReadProperty is its header, the object, the property
/// and the value between brackets; an error is its header, the class and the
/// code.
#[verifier::rlimit(40)]
pub proof fn answers_name_their_request(
    invoke_id: u8,
    object_type: u16,
    instance: u32,
    property_id: u32,
    value: Seq<u8>,
    service: u8,
    class: u32,
    code: u32,
)
    requires
        object_type < 1024,
        instance < 4194304,
        property_id <= 0xFF,
        class <= 0xFF,
        code <= 0xFF,
    ensures
        ({
            let a = read_property_ack_apdu(invoke_id, object_type, instance, property_id, value);
            &&& a.len() == 12 + value.len()
            &&& a[0] == 0x30
            &&& a[1] == invoke_id
            &&& a[2] == 12
            &&& a[3] == 0x0C
            &&& long(a, 4) == object_type * 4194304 + instance
            &&& a[8] == 0x19
            &&& a[9] == property_id
            &&& a[10] == 0x3E
            &&& a.subrange(11, 11int + value.len()) == value
            &&& a[11int + value.len()] == 0x3F
        }),
        error_apdu(invoke_id, service, class, code) == seq![
            0x50u8,
            invoke_id,
            service,
            0x91u8,
            class as u8,
            0x91u8,
            code as u8,
        ],
{
    let a = read_property_ack_apdu(invoke_id, object_type, instance, property_id, value);
    let object = context_object_bytes(0, object_type, instance);
    let property = context_unsigned_bytes(1, property_id);
    lemma_object_under_tag(0, object_type, instance);
    lemma_number_under_tag(1, property_id);
    assert(a[3] == object[0]);
    assert(a[4] == object[1] && a[5] == object[2] && a[6] == object[3] && a[7] == object[4]);
    assert(a[8] == property[0] && a[9] == property[1]);
    assert(a.subrange(11, 11int + value.len()) =~= value);
}

// ── Packets that are received ───────────────────────────────

/// The network header ends after its two bytes and after the destination and
/// the source that its control byte announces, each with the address length
/// that it states.
#[verifier::rlimit(40)]
pub proof fn network_header_ends_after_its_addresses(s: Seq<u8>)
    requires
        s.len() >= 2,
        s[0] == 1,
    ensures
        ({
            let routed = s[1] as int / 32 % 2 == 1;
            let sourced = s[1] as int / 8 % 2 == 1;
            let d = 6 + s[4];
            &&& parse_npdu(s) matches Ok((h, _)) ==> h.version == 1 && h.control == s[1]
            &&& !routed && !sourced ==> (parse_npdu(s) matches Ok((_, n)) && n == 2)
            &&& routed && !sourced && s.len() >= d && s.len() >= 5 ==> (parse_npdu(s) matches Ok(
                (_, n),
            ) && n == d)
            &&& !routed && sourced && s.len() >= 5 && s.len() >= 5 + s[4] ==> (parse_npdu(
                s,
            ) matches Ok((_, n)) && n == 5 + s[4])
            &&& routed && sourced && s.len() >= 5 && s.len() >= d + 3 && s.len() >= d + 3 + s[d + 2]
                ==> (parse_npdu(s) matches Ok((_, n)) && n == d + 3 + s[d + 2])
            &&& routed && (s.len() < 5 || s.len() < d) ==> parse_npdu(s) is Err
            &&& !routed && sourced && (s.len() < 5 || s.len() < 5 + s[4]) ==> parse_npdu(s) is Err
        }),
{
}

/// A network header of another version is refused.
pub proof fn other_network_versions_are_refused(s: Seq<u8>)
    requires
        s.len() >= 2,
        s[0] != 1,
    ensures
        parse_npdu(s) is Err,
{
}

/// A packet is decoded only if it begins with the byte of BACnet/IP and states a
/// length that it has.
pub proof fn packet_must_hold_its_stated_length(s: Seq<u8>)
    ensures
        parse_packet(s) is Ok ==> s.len() >= 4 && s[0] == 0x81 && 4 <= word(s, 2) <= s.len(),
{
    if s.len() >= 4 {
        lemma_numbers_at(s, 2);
    }
}

/// What follows the stated length of a packet does not count.
pub proof fn bytes_after_the_packet_do_not_count(bvll_type: u8, apdu: Seq<u8>, more: Seq<u8>)
    requires
        6 + apdu.len() <= 0xFFFF,
    ensures
        parse_packet(packet_bytes(bvll_type, apdu) + more) == parse_packet(
            packet_bytes(bvll_type, apdu),
        ),
{
    let p = packet_bytes(bvll_type, apdu);
    let s = p + more;
    packet_round_trip(bvll_type, apdu);
    packet_is_headers_and_apdu(bvll_type, apdu);
    lemma_numbers_at(p, 2);
    lemma_numbers_at(s, 2);
    assert(s[2] == p[2] && s[3] == p[3]);
    assert(s.subrange(4, p.len() as int) =~= p.subrange(4, p.len() as int));
}

/// What four values in a row make of an I-Am.
proof fn lemma_i_am_of_values(
    s: Seq<u8>,
    object: ValueView,
    max_apdu: u32,
    segmentation: u32,
    vendor_id: u32,
    at: (int, int, int, int),
)
    requires
        object is ObjectId,
        parse_value(s) == Ok::<(ValueView, int), BacnetErrorView>((object, at.0)),
        parse_value(from_pos(s, at.0)) == Ok::<(ValueView, int), BacnetErrorView>(
            (ValueView::Unsigned(max_apdu), at.1),
        ),
        parse_value(from_pos(s, at.0 + at.1)) == Ok::<(ValueView, int), BacnetErrorView>(
            (ValueView::Enumerated(segmentation), at.2),
        ),
        parse_value(from_pos(s, at.0 + at.1 + at.2)) == Ok::<(ValueView, int), BacnetErrorView>(
            (ValueView::Unsigned(vendor_id), at.3),
        ),
        max_apdu <= 0xFFFF,
        segmentation <= 0xFF,
        vendor_id <= 0xFFFF,
    ensures
        parse_i_am(s) matches Ok(
            ApduView::IAm { device_instance, max_apdu: m, segmentation: seg, vendor_id: v },
        ) && device_instance == object->instance && m == max_apdu && seg == segmentation && v
            == vendor_id,
{
}

/// Bytes that stand one after the other are found one after the other.
proof fn lemma_rests(a: Seq<u8>, b: Seq<u8>, c: Seq<u8>, d: Seq<u8>)
    ensures
        ({
            let s = a + (b + (c + d));
            &&& from_pos(s, a.len() as int) == b + (c + d)
            &&& from_pos(s, a.len() as int + b.len() as int) == c + d
            &&& from_pos(s, a.len() as int + b.len() as int + c.len() as int) == d
        }),
{
    let s = a + (b + (c + d));
    assert(from_pos(s, a.len() as int) =~= b + (c + d));
    assert(from_pos(s, a.len() as int + b.len() as int) =~= c + d);
    assert(from_pos(s, a.len() as int + b.len() as int + c.len() as int) =~= d);
}

/// An I-Am announces the instance, the largest APDU, the segmentation and the
/// vendor that it was built from.
pub proof fn i_am_tells_its_device(
    object_type: u16,
    instance: u32,
    max_apdu: u32,
    segmentation: u32,
    vendor_id: u32,
    rest: Seq<u8>,
)
    requires
        object_type < 1024,
        instance < 4194304,
        max_apdu <= 0xFFFF,
        segmentation <= 0xFF,
        vendor_id <= 0xFFFF,
    ensures
        parse_i_am(
            value_bytes(ValueView::ObjectId { object_type, instance }) + (value_bytes(
                ValueView::Unsigned(max_apdu),
            ) + (value_bytes(ValueView::Enumerated(segmentation)) + (value_bytes(
                ValueView::Unsigned(vendor_id),
            ) + rest))),
        ) matches Ok(
            ApduView::IAm { device_instance, max_apdu: m, segmentation: seg, vendor_id: v },
        ) && device_instance == instance && m == max_apdu && seg == segmentation && v
            == vendor_id,
{
    let a = ValueView::ObjectId { object_type, instance };
    let b = ValueView::Unsigned(max_apdu);
    let c = ValueView::Enumerated(segmentation);
    let d = ValueView::Unsigned(vendor_id);
    assert(sent_whole(a) && sent_whole(b) && sent_whole(c) && sent_whole(d));
    let (ba, bb, bc) = (value_bytes(a), value_bytes(b), value_bytes(c));
    let last = value_bytes(d) + rest;
    value_round_trip(a, bb + (bc + last));
    value_round_trip(b, bc + last);
    value_round_trip(c, last);
    value_round_trip(d, rest);
    lemma_rests(ba, bb, bc, last);
    lemma_i_am_of_values(
        ba + (bb + (bc + last)),
        a,
        max_apdu,
        segmentation,
        vendor_id,
        (
            ba.len() as int,
            bb.len() as int,
            bc.len() as int,
            value_bytes(d).len() as int,
        ),
    );
}

/// A simple acknowledgement carries its invoke ID and its service, in this
/// order; what is not decoded is kept whole with the invoke ID of its kind.
#[verifier::rlimit(40)]
pub proof fn apdu_kind_is_in_its_first_byte(s: Seq<u8>)
    requires
        s.len() >= 4,
    ensures
        s[0] as int / 16 == 2 ==> (parse_apdu(s) matches Ok(
            ApduView::SimpleAck { invoke_id, service_choice },
        ) && invoke_id == s[1] && service_choice == s[2]),
        s[0] as int / 16 == 0 && s[3] != 12 && s[3] != 14 && s[3] != 15 ==> (parse_apdu(
            s,
        ) matches Ok(ApduView::Other { pdu_type, invoke_id, data }) && pdu_type == s[0]
            && invoke_id == s[2] && data == s),
        s[0] as int / 16 == 1 && s[1] != 0 && s[1] != 8 ==> (parse_apdu(s) matches Ok(
            ApduView::Other { pdu_type, invoke_id, data },
        ) && pdu_type == s[0] && invoke_id == 0 && data == s),
        s[0] as int / 16 == 3 && s[2] != 12 && s[2] != 14 ==> (parse_apdu(s) matches Ok(
            ApduView::Other { pdu_type, invoke_id, data },
        ) && pdu_type == s[0] && invoke_id == s[1] && data == s),
        s[0] as int / 16 == 4 || s[0] as int / 16 > 5 ==> (parse_apdu(s) matches Ok(
            ApduView::Other { pdu_type, invoke_id, data },
        ) && pdu_type == s[0] && invoke_id == s[1] && data == s),
{
}

/// The result of a BVLC request is the number in its last two bytes.
pub proof fn bvlc_result_is_its_code(s: Seq<u8>)
    ensures
        s.len() >= 6 && s[0] == 0x81 && s[1] == 0 ==> (parse_bvll_result(s) matches Ok(code) && code
            == word(s, 4)),
        s.len() < 6 || s[0] != 0x81 || s[1] != 0 ==> parse_bvll_result(s) is Err,
{
    if s.len() >= 6 {
        lemma_numbers_at(s, 4);
    }
}

} // verus!
