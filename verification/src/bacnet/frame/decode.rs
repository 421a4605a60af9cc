//! Decoders, each with the grammar that it accepts.

use vstd::prelude::*;
use vstd::string::*;

use super::types::{
    results_view, Apdu, ApduView, BvllHeader, NpduHeader, RpmRequestSpec, RpmResult,
    RpmResultView, BVLL_BACNET_IP, BVLL_RESULT, NPDU_VERSION, SVC_CONFIRMED_READ_PROPERTY,
    SVC_CONFIRMED_READ_PROPERTY_MULTIPLE, SVC_CONFIRMED_WRITE_PROPERTY, SVC_UNCONFIRMED_IAM,
    SVC_UNCONFIRMED_WHOIS,
};
use crate::bacnet::error::{
    malformed, malformed_frame, result_view, BacnetError, BacnetErrorView,
};
use crate::bacnet::value::{
    decode_application_tag, parse_value, values_view, BacnetValue, ValueView,
};
use crate::bacnet::wire::{
    be_value, copy_range, is_context, lemma_be_value_unfold, lvt, raw_instance, raw_object_type,
    read_be16, read_be24, read_be32, tag_number, tail, unpack_object_id,
};
use crate::text::{decimal, hex2, push_decimal, push_hex2, text_decimal_tail, text_hex2};

verus! {

/// The bytes of `s` from `pos` on.
pub open spec fn from_pos(s: Seq<u8>, pos: int) -> Seq<u8> {
    s.subrange(pos, s.len() as int)
}

// ── BVLL and NPDU headers ───────────────────────────────────

/// The BVLL header at the start of `s`.
pub open spec fn parse_bvll(s: Seq<u8>) -> Result<BvllHeader, BacnetErrorView> {
    if s.len() < 4 {
        Err(malformed("BVLL header too short: "@ + decimal(s.len()) + " bytes"@))
    } else if s[0] != BVLL_BACNET_IP {
        Err(malformed("not BACnet/IP: expected 0x81, got 0x"@ + hex2(s[0])))
    } else {
        let length = be_value(s.subrange(2, 4));
        if length > s.len() {
            Err(
                malformed(
                    "BVLL length "@ + decimal(length) + " > buffer "@ + decimal(s.len()),
                ),
            )
        } else {
            Ok(BvllHeader { bvll_type: s[1], length: length as u16 })
        }
    }
}

/// Parse the 4-byte BVLL header.
///
/// Fails if there are fewer than four bytes, if the first is not 0x81, or if
/// the stated length exceeds the bytes at hand.
pub fn decode_bvll_header(data: &[u8]) -> (res: Result<BvllHeader, BacnetError>)
    ensures
        result_view(res) == parse_bvll(data@),
{
    if data.len() < 4 {
        return Err(
            BacnetError::MalformedFrame(
                text_decimal_tail("BVLL header too short: ", data.len() as u128, " bytes"),
            ),
        );
    }
    if data[0] != BVLL_BACNET_IP {
        return Err(
            BacnetError::MalformedFrame(
                text_hex2("not BACnet/IP: expected 0x81, got 0x", data[0]),
            ),
        );
    }
    let length: u16 = read_be16(data, 2);
    if length as usize > data.len() {
        let mut msg: String = text_decimal_tail("BVLL length ", length as u128, " > buffer ");
        push_decimal(&mut msg, data.len() as u128);
        return Err(BacnetError::MalformedFrame(msg));
    }
    Ok(BvllHeader { bvll_type: data[1], length })
}

/// The bytes that the destination fields of an NPDU take, at `pos`.
pub open spec fn parse_destination(s: Seq<u8>, pos: int) -> Result<int, BacnetErrorView> {
    if s.len() < pos + 3 {
        Err(malformed("NPDU router fields truncated"@))
    } else if s.len() < pos + 4 + s[pos + 2] {
        Err(malformed("NPDU router DADR truncated"@))
    } else {
        Ok(4 + s[pos + 2])
    }
}

/// The bytes that the source fields of an NPDU take, at `pos`.
pub open spec fn parse_source(s: Seq<u8>, pos: int) -> Result<int, BacnetErrorView> {
    if s.len() < pos + 3 {
        Err(malformed("NPDU source fields truncated"@))
    } else if s.len() < pos + 3 + s[pos + 2] {
        Err(malformed("NPDU source SADR truncated"@))
    } else {
        Ok(3 + s[pos + 2])
    }
}

/// The NPDU header at the start of `s`, with the bytes it takes. Control bit 5
/// announces destination fields, bit 3 source fields.
pub open spec fn parse_npdu(s: Seq<u8>) -> Result<(NpduHeader, int), BacnetErrorView> {
    if s.len() < 2 {
        Err(malformed("NPDU too short: "@ + decimal(s.len()) + " bytes"@))
    } else if s[0] != NPDU_VERSION {
        Err(malformed("NPDU version "@ + decimal(s[0] as nat) + " != 1"@))
    } else {
        let header = NpduHeader { version: s[0], control: s[1] };
        let dest: Result<int, BacnetErrorView> = if s[1] as int / 32 % 2 == 1 {
            parse_destination(s, 2)
        } else {
            Ok(0)
        };
        match dest {
            Err(e) => Err(e),
            Ok(d) => {
                let source: Result<int, BacnetErrorView> = if s[1] as int / 8 % 2 == 1 {
                    parse_source(s, 2 + d)
                } else {
                    Ok(0)
                };
                match source {
                    Err(e) => Err(e),
                    Ok(n) => Ok((header, 2 + d + n)),
                }
            },
        }
    }
}

/// What a result of [`decode_npdu`] says.
pub open spec fn npdu_result_view(r: Result<(NpduHeader, usize), BacnetError>) -> Result<
    (NpduHeader, int),
    BacnetErrorView,
> {
    match r {
        Ok((h, n)) => Ok((h, n as int)),
        Err(e) => Err(e@),
    }
}

/// Parse the NPDU header from `data`, returning `(header, bytes_consumed)`.
///
/// Skips optional routing fields (DNET / DLEN / DADR / hop-count) when
/// control-byte bit 5 is set, and source fields (SNET / SLEN / SADR)
/// when bit 3 is set.
pub fn decode_npdu(data: &[u8]) -> (res: Result<(NpduHeader, usize), BacnetError>)
    ensures
        npdu_result_view(res) == parse_npdu(data@),
        res matches Ok((_, n)) ==> 2 <= n <= data@.len(),
{
    if data.len() < 2 {
        return Err(
            BacnetError::MalformedFrame(
                text_decimal_tail("NPDU too short: ", data.len() as u128, " bytes"),
            ),
        );
    }
    let version: u8 = data[0];
    if version != NPDU_VERSION {
        return Err(
            BacnetError::MalformedFrame(
                text_decimal_tail("NPDU version ", version as u128, " != 1"),
            ),
        );
    }
    let control: u8 = data[1];
    let mut consumed: usize = 2;
    if control / 32 % 2 == 1 {
        if data.len() < consumed + 3 {
            return Err(malformed_frame("NPDU router fields truncated"));
        }
        let router_bytes: usize = 4 + data[consumed + 2] as usize;
        if data.len() < consumed + router_bytes {
            return Err(malformed_frame("NPDU router DADR truncated"));
        }
        consumed = consumed + router_bytes;
    }
    if control / 8 % 2 == 1 {
        if data.len() - consumed < 3 {
            return Err(malformed_frame("NPDU source fields truncated"));
        }
        let src_bytes: usize = 3 + data[consumed + 2] as usize;
        if data.len() - consumed < src_bytes {
            return Err(malformed_frame("NPDU source SADR truncated"));
        }
        consumed = consumed + src_bytes;
    }
    Ok((NpduHeader { version, control }, consumed))
}

/// The result code in a BVLC-Result frame.
pub open spec fn parse_bvll_result(s: Seq<u8>) -> Result<u16, BacnetErrorView> {
    if s.len() < 6 {
        Err(malformed("BVLC-Result too short: "@ + decimal(s.len()) + " bytes"@))
    } else if s[0] != BVLL_BACNET_IP || s[1] != BVLL_RESULT {
        Err(malformed("not a BVLC-Result"@))
    } else {
        Ok(be_value(s.subrange(4, 6)) as u16)
    }
}

/// Read the result code of a BVLC-Result frame: 0 is success, anything else a
/// refusal. Any other frame is an error.
pub fn decode_bvll_result(data: &[u8]) -> (res: Result<u16, BacnetError>)
    ensures
        result_view(res) == parse_bvll_result(data@),
{
    if data.len() < 6 {
        return Err(
            BacnetError::MalformedFrame(
                text_decimal_tail("BVLC-Result too short: ", data.len() as u128, " bytes"),
            ),
        );
    }
    if data[0] != BVLL_BACNET_IP || data[1] != BVLL_RESULT {
        return Err(malformed_frame("not a BVLC-Result"));
    }
    Ok(read_be16(data, 4))
}

// ── Context-tagged numbers ──────────────────────────────────

/// A number under context tag `tag` at the start of `s`, with the bytes it takes.
pub open spec fn parse_context(s: Seq<u8>, tag: u8) -> Result<(u32, int), BacnetErrorView> {
    let wanted = "expected context tag "@ + decimal(tag as nat);
    if s.len() == 0 {
        Err(malformed(wanted + ", got empty slice"@))
    } else if !is_context(s[0]) {
        Err(malformed(wanted + ", got application byte 0x"@ + hex2(s[0])))
    } else if tag_number(s[0]) != tag {
        Err(malformed(wanted + ", got tag "@ + decimal(tag_number(s[0]) as nat)))
    } else if s.len() < 1 + lvt(s[0]) {
        Err(malformed("context tag "@ + decimal(tag as nat) + " value truncated"@))
    } else if lvt(s[0]) > 4 {
        Err(
            malformed(
                "context tag "@ + decimal(tag as nat) + " LVT "@ + decimal(lvt(s[0]) as nat)
                    + " too large"@,
            ),
        )
    } else {
        Ok((be_value(s.subrange(1, 1 + lvt(s[0]))) as u32, 1 + lvt(s[0])))
    }
}

/// What a result of [`read_context_unsigned`] says.
pub open spec fn context_result_view(r: Result<(u32, usize), BacnetError>) -> Result<
    (u32, int),
    BacnetErrorView,
> {
    match r {
        Ok((v, n)) => Ok((v, n as int)),
        Err(e) => Err(e@),
    }
}

/// Read a context-tagged unsigned integer with `expected_tag` from `data`.
///
/// Returns `(value, bytes_consumed)`.
pub fn read_context_unsigned(data: &[u8], expected_tag: u8) -> (res: Result<
    (u32, usize),
    BacnetError,
>)
    ensures
        context_result_view(res) == parse_context(data@, expected_tag),
        res matches Ok((_, n)) ==> 1 <= n <= 5 && n <= data@.len(),
{
    if data.is_empty() {
        return Err(
            BacnetError::MalformedFrame(
                text_decimal_tail(
                    "expected context tag ",
                    expected_tag as u128,
                    ", got empty slice",
                ),
            ),
        );
    }
    let tag_byte: u8 = data[0];
    let tag_num: u8 = tag_byte / 16;
    let l: usize = (tag_byte % 8) as usize;
    if tag_byte / 8 % 2 != 1 {
        let mut msg: String = text_decimal_tail(
            "expected context tag ",
            expected_tag as u128,
            ", got application byte 0x",
        );
        push_hex2(&mut msg, tag_byte);
        return Err(BacnetError::MalformedFrame(msg));
    }
    if tag_num != expected_tag {
        let mut msg: String = text_decimal_tail(
            "expected context tag ",
            expected_tag as u128,
            ", got tag ",
        );
        push_decimal(&mut msg, tag_num as u128);
        return Err(BacnetError::MalformedFrame(msg));
    }
    if data.len() < 1 + l {
        return Err(
            BacnetError::MalformedFrame(
                text_decimal_tail("context tag ", expected_tag as u128, " value truncated"),
            ),
        );
    }
    if l > 4 {
        let mut msg: String = text_decimal_tail("context tag ", expected_tag as u128, " LVT ");
        push_decimal(&mut msg, l as u128);
        msg.append(" too large");
        return Err(BacnetError::MalformedFrame(msg));
    }
    proof {
        lemma_be_value_unfold(data@.subrange(1, 1 + l));
    }
    let val: u32 = match l {
        0 => 0,
        1 => data[1] as u32,
        2 => read_be16(data, 1) as u32,
        3 => read_be24(data, 1),
        _ => read_be32(data, 1),
    };
    Ok((val, 1 + l))
}

/// Whether context tag `tag` stands at `pos`. With `plain_only`, the opening
/// and closing forms of the tag do not count.
pub open spec fn context_tag_at(s: Seq<u8>, pos: int, tag: u8, plain_only: bool) -> bool {
    pos < s.len() && is_context(s[pos]) && tag_number(s[pos]) == tag && (plain_only ==> lvt(s[pos])
        < 6)
}

/// An optional number under context tag `tag` at `pos`, with the position
/// after it.
pub open spec fn parse_optional(s: Seq<u8>, pos: int, tag: u8, plain_only: bool) -> Result<
    (Option<u32>, int),
    BacnetErrorView,
> {
    if context_tag_at(s, pos, tag, plain_only) {
        match parse_context(from_pos(s, pos), tag) {
            Ok((v, n)) => Ok((Some(v), pos + n)),
            Err(e) => Err(e),
        }
    } else {
        Ok((None, pos))
    }
}

/// What a result of [`read_optional`] says.
pub open spec fn optional_result_view(r: Result<(Option<u32>, usize), BacnetError>) -> Result<
    (Option<u32>, int),
    BacnetErrorView,
> {
    match r {
        Ok((v, n)) => Ok((v, n as int)),
        Err(e) => Err(e@),
    }
}

/// Read an optional context-tagged number at `pos`.
fn read_optional(data: &[u8], pos: usize, tag: u8, plain_only: bool) -> (res: Result<
    (Option<u32>, usize),
    BacnetError,
>)
    requires
        pos <= data@.len(),
    ensures
        optional_result_view(res) == parse_optional(data@, pos as int, tag, plain_only),
        res matches Ok((_, n)) ==> pos <= n <= data@.len(),
{
    if pos < data.len() {
        let b: u8 = data[pos];
        if b / 8 % 2 == 1 && b / 16 == tag && (!plain_only || b % 8 < 6) {
            return match read_context_unsigned(tail(data, pos), tag) {
                Ok((v, n)) => Ok((Some(v), pos + n)),
                Err(e) => Err(e),
            };
        }
    }
    Ok((None, pos))
}

// ── Object identifiers ──────────────────────────────────────

/// An object identifier under context tag 0 (byte 0C) at `pos`.
pub open spec fn parse_object(
    s: Seq<u8>,
    pos: int,
    truncated: Seq<char>,
    wrong_tag: Seq<char>,
) -> Result<(u16, u32), BacnetErrorView> {
    if s.len() < pos + 5 {
        Err(malformed(truncated))
    } else if s[pos] != 0x0C {
        Err(malformed(wrong_tag + hex2(s[pos])))
    } else {
        let raw = be_value(s.subrange(pos + 1, pos + 5));
        Ok((raw_object_type(raw), raw_instance(raw)))
    }
}

/// Read an object identifier under context tag 0 at `pos`.
fn read_object(data: &[u8], pos: usize, truncated: &str, wrong_tag: &str) -> (res: Result<
    (u16, u32),
    BacnetError,
>)
    requires
        pos <= data@.len(),
    ensures
        result_view(res) == parse_object(data@, pos as int, truncated@, wrong_tag@),
{
    if data.len() - pos < 5 {
        return Err(malformed_frame(truncated));
    }
    if data[pos] != 0x0C {
        return Err(BacnetError::MalformedFrame(text_hex2(wrong_tag, data[pos])));
    }
    Ok(unpack_object_id(read_be32(data, pos + 1)))
}

/// The complaint about a missing bracket: where it was expected, what is there.
pub open spec fn bracket_error(head: Seq<char>, s: Seq<u8>, pos: int) -> BacnetErrorView {
    malformed(
        head + decimal(pos as nat) + ", got 0x"@ + hex2(
            if pos < s.len() {
                s[pos]
            } else {
                0
            },
        ),
    )
}

/// Build the complaint about a missing bracket.
fn missing_bracket(head: &str, data: &[u8], pos: usize) -> (e: BacnetError)
    ensures
        e@ == bracket_error(head@, data@, pos as int),
{
    let mut msg: String = text_decimal_tail(head, pos as u128, ", got 0x");
    push_hex2(&mut msg, if pos < data.len() { data[pos] } else { 0 });
    BacnetError::MalformedFrame(msg)
}

// ── Who-Is and I-Am ─────────────────────────────────────────

/// What a result of a decoder says.
pub open spec fn apdu_result_view(r: Result<Apdu, BacnetError>) -> Result<
    ApduView,
    BacnetErrorView,
> {
    match r {
        Ok(a) => Ok(a@),
        Err(e) => Err(e@),
    }
}

/// The payload of a Who-Is: nothing, or a low and a high limit.
pub open spec fn parse_who_is(s: Seq<u8>) -> Result<ApduView, BacnetErrorView> {
    if s.len() == 0 {
        Ok(ApduView::WhoIs { low_limit: None, high_limit: None })
    } else {
        match parse_context(s, 0) {
            Err(e) => Err(e),
            Ok((low, n)) => match parse_context(from_pos(s, n), 1) {
                Err(e) => Err(e),
                Ok((high, _)) => Ok(
                    ApduView::WhoIs { low_limit: Some(low), high_limit: Some(high) },
                ),
            },
        }
    }
}

/// Decode the payload of a Who-Is.
fn decode_who_is(payload: &[u8]) -> (res: Result<Apdu, BacnetError>)
    ensures
        apdu_result_view(res) == parse_who_is(payload@),
{
    if payload.is_empty() {
        return Ok(Apdu::WhoIs { low_limit: None, high_limit: None });
    }
    match read_context_unsigned(payload, 0) {
        Err(e) => Err(e),
        Ok((low, n)) => match read_context_unsigned(tail(payload, n), 1) {
            Err(e) => Err(e),
            Ok((high, _)) => Ok(Apdu::WhoIs { low_limit: Some(low), high_limit: Some(high) }),
        },
    }
}

/// The payload of an I-Am: device identifier, largest APDU, segmentation,
/// vendor. Numbers keep their low 16, 8 and 16 bits.
pub open spec fn parse_i_am(s: Seq<u8>) -> Result<ApduView, BacnetErrorView> {
    match parse_value(s) {
        Err(e) => Err(e),
        Ok((ValueView::ObjectId { instance, .. }, n1)) => match parse_value(from_pos(s, n1)) {
            Err(e) => Err(e),
            Ok((ValueView::Unsigned(max_apdu), n2)) => match parse_value(from_pos(s, n1 + n2)) {
                Err(e) => Err(e),
                Ok((ValueView::Enumerated(seg), n3)) => match parse_value(
                    from_pos(s, n1 + n2 + n3),
                ) {
                    Err(e) => Err(e),
                    Ok((ValueView::Unsigned(vendor), _)) => Ok(
                        ApduView::IAm {
                            device_instance: instance,
                            max_apdu: (max_apdu % 0x1_0000) as u16,
                            segmentation: (seg % 0x100) as u8,
                            vendor_id: (vendor % 0x1_0000) as u16,
                        },
                    ),
                    Ok(_) => Err(malformed("I-Am: expected Unsigned for vendor-id"@)),
                },
                Ok(_) => Err(malformed("I-Am: expected Enumerated for segmentation"@)),
            },
            Ok(_) => Err(malformed("I-Am: expected Unsigned for max-apdu"@)),
        },
        Ok(_) => Err(malformed("I-Am: expected ObjectId"@)),
    }
}

/// Decode the payload of an I-Am.
fn decode_i_am(payload: &[u8]) -> (res: Result<Apdu, BacnetError>)
    ensures
        apdu_result_view(res) == parse_i_am(payload@),
{
    let (device_instance, n1): (u32, usize) = match decode_application_tag(payload) {
        Err(e) => return Err(e),
        Ok((BacnetValue::ObjectId { instance, .. }, n)) => (instance, n),
        Ok(_) => return Err(malformed_frame("I-Am: expected ObjectId")),
    };
    let (max_apdu, n2): (u32, usize) = match decode_application_tag(tail(payload, n1)) {
        Err(e) => return Err(e),
        Ok((BacnetValue::Unsigned(v), n)) => (v, n),
        Ok(_) => return Err(malformed_frame("I-Am: expected Unsigned for max-apdu")),
    };
    let (seg, n3): (u32, usize) = match decode_application_tag(tail(payload, n1 + n2)) {
        Err(e) => return Err(e),
        Ok((BacnetValue::Enumerated(v), n)) => (v, n),
        Ok(_) => return Err(malformed_frame("I-Am: expected Enumerated for segmentation")),
    };
    let vendor: u32 = match decode_application_tag(tail(payload, n1 + n2 + n3)) {
        Err(e) => return Err(e),
        Ok((BacnetValue::Unsigned(v), _)) => v,
        Ok(_) => return Err(malformed_frame("I-Am: expected Unsigned for vendor-id")),
    };
    Ok(
        Apdu::IAm {
            device_instance,
            max_apdu: (max_apdu % 0x1_0000) as u16,
            segmentation: (seg % 0x100) as u8,
            vendor_id: (vendor % 0x1_0000) as u16,
        },
    )
}

// ── ReadProperty request ────────────────────────────────────

/// The payload of a ReadProperty request: object, property, optional index.
pub open spec fn parse_read_property(invoke_id: u8, s: Seq<u8>) -> Result<
    ApduView,
    BacnetErrorView,
> {
    match parse_object(
        s,
        0,
        "ReadProperty request: ObjectId truncated"@,
        "ReadProperty request: expected context tag 0 (0x0C), got 0x"@,
    ) {
        Err(e) => Err(e),
        Ok((object_type, instance)) => match parse_context(from_pos(s, 5), 1) {
            Err(e) => Err(e),
            Ok((property_id, n)) => match parse_optional(s, 5 + n, 2, false) {
                Err(e) => Err(e),
                Ok((array_index, _)) => Ok(
                    ApduView::ReadPropertyRequest {
                        invoke_id,
                        object_type,
                        instance,
                        property_id,
                        array_index,
                    },
                ),
            },
        },
    }
}

/// Decode the payload of a ReadProperty request.
fn decode_read_property_request(invoke_id: u8, payload: &[u8]) -> (res: Result<Apdu, BacnetError>)
    ensures
        apdu_result_view(res) == parse_read_property(invoke_id, payload@),
{
    let (object_type, instance): (u16, u32) = match read_object(
        payload,
        0,
        "ReadProperty request: ObjectId truncated",
        "ReadProperty request: expected context tag 0 (0x0C), got 0x",
    ) {
        Err(e) => return Err(e),
        Ok(id) => id,
    };
    let (property_id, n): (u32, usize) = match read_context_unsigned(tail(payload, 5), 1) {
        Err(e) => return Err(e),
        Ok(p) => p,
    };
    match read_optional(payload, 5 + n, 2, false) {
        Err(e) => Err(e),
        Ok((array_index, _)) => Ok(
            Apdu::ReadPropertyRequest {
                invoke_id,
                object_type,
                instance,
                property_id,
                array_index,
            },
        ),
    }
}

// ── WriteProperty request ───────────────────────────────────

/// A single value between the tags 3E and 3F, at `pos`, with the position
/// after the closing tag.
pub open spec fn parse_bracketed_value(s: Seq<u8>, pos: int) -> Result<
    (ValueView, int),
    BacnetErrorView,
> {
    if pos >= s.len() || s[pos] != 0x3E {
        Err(
            bracket_error(
                "WriteProperty request: expected opening tag 3 (0x3E) at pos "@,
                s,
                pos,
            ),
        )
    } else if pos + 1 >= s.len() {
        Err(malformed("WriteProperty request: value truncated"@))
    } else {
        match parse_value(from_pos(s, pos + 1)) {
            Err(e) => Err(e),
            Ok((value, n)) => {
                let close = pos + 1 + n;
                if close >= s.len() || s[close] != 0x3F {
                    Err(
                        bracket_error(
                            "WriteProperty request: expected closing tag 3 (0x3F) at pos "@,
                            s,
                            close,
                        ),
                    )
                } else {
                    Ok((value, close + 1))
                }
            },
        }
    }
}

/// The payload of a WriteProperty request: object, property, optional index,
/// value, optional priority (its low 8 bits).
pub open spec fn parse_write_property(invoke_id: u8, s: Seq<u8>) -> Result<
    ApduView,
    BacnetErrorView,
> {
    match parse_object(
        s,
        0,
        "WriteProperty request: ObjectId truncated"@,
        "WriteProperty request: expected context tag 0 (0x0C), got 0x"@,
    ) {
        Err(e) => Err(e),
        Ok((object_type, instance)) => match parse_context(from_pos(s, 5), 1) {
            Err(e) => Err(e),
            Ok((property_id, n)) => match parse_optional(s, 5 + n, 2, false) {
                Err(e) => Err(e),
                Ok((array_index, pos)) => match parse_bracketed_value(s, pos) {
                    Err(e) => Err(e),
                    Ok((value, end)) => match parse_optional(s, end, 4, false) {
                        Err(e) => Err(e),
                        Ok((priority, _)) => Ok(
                            ApduView::WritePropertyRequest {
                                invoke_id,
                                object_type,
                                instance,
                                property_id,
                                array_index,
                                value,
                                priority: match priority {
                                    Some(p) => Some((p % 0x100) as u8),
                                    None => None,
                                },
                            },
                        ),
                    },
                },
            },
        },
    }
}

/// Read a single value between the tags 3E and 3F.
fn read_bracketed_value(data: &[u8], pos: usize) -> (res: Result<
    (BacnetValue, usize),
    BacnetError,
>)
    requires
        pos <= data@.len(),
    ensures
        crate::bacnet::value::value_result_view(res) == parse_bracketed_value(data@, pos as int),
        res matches Ok((_, n)) ==> pos < n <= data@.len(),
{
    if pos >= data.len() || data[pos] != 0x3E {
        return Err(
            missing_bracket(
                "WriteProperty request: expected opening tag 3 (0x3E) at pos ",
                data,
                pos,
            ),
        );
    }
    if pos + 1 >= data.len() {
        return Err(malformed_frame("WriteProperty request: value truncated"));
    }
    match decode_application_tag(tail(data, pos + 1)) {
        Err(e) => Err(e),
        Ok((value, n)) => {
            let close: usize = pos + 1 + n;
            if close >= data.len() || data[close] != 0x3F {
                return Err(
                    missing_bracket(
                        "WriteProperty request: expected closing tag 3 (0x3F) at pos ",
                        data,
                        close,
                    ),
                );
            }
            Ok((value, close + 1))
        },
    }
}

/// Decode the payload of a WriteProperty request.
fn decode_write_property_request(invoke_id: u8, payload: &[u8]) -> (res: Result<Apdu, BacnetError>)
    ensures
        apdu_result_view(res) == parse_write_property(invoke_id, payload@),
{
    let (object_type, instance): (u16, u32) = match read_object(
        payload,
        0,
        "WriteProperty request: ObjectId truncated",
        "WriteProperty request: expected context tag 0 (0x0C), got 0x",
    ) {
        Err(e) => return Err(e),
        Ok(id) => id,
    };
    let (property_id, n): (u32, usize) = match read_context_unsigned(tail(payload, 5), 1) {
        Err(e) => return Err(e),
        Ok(p) => p,
    };
    let (array_index, pos): (Option<u32>, usize) = match read_optional(payload, 5 + n, 2, false) {
        Err(e) => return Err(e),
        Ok(p) => p,
    };
    let (value, end): (BacnetValue, usize) = match read_bracketed_value(payload, pos) {
        Err(e) => return Err(e),
        Ok(p) => p,
    };
    match read_optional(payload, end, 4, false) {
        Err(e) => Err(e),
        Ok((priority, _)) => Ok(
            Apdu::WritePropertyRequest {
                invoke_id,
                object_type,
                instance,
                property_id,
                array_index,
                value,
                priority: match priority {
                    Some(p) => Some((p % 0x100) as u8),
                    None => None,
                },
            },
        ),
    }
}

// ── ReadProperty acknowledgement ────────────────────────────

/// The values from `pos` up to the closing tag 3F or the end. Context-tagged
/// items are skipped.
pub open spec fn parse_values(s: Seq<u8>, pos: int) -> Result<Seq<ValueView>, BacnetErrorView>
    decreases s.len() - pos,
{
    if pos < 0 || pos >= s.len() || s[pos] == 0x3F {
        Ok(Seq::empty())
    } else {
        match parse_value(from_pos(s, pos)) {
            Err(e) => Err(e),
            Ok((v, n)) => match parse_values(s, pos + n) {
                Err(e) => Err(e),
                Ok(rest) => Ok(
                    if v is Unknown {
                        rest
                    } else {
                        seq![v] + rest
                    },
                ),
            },
        }
    }
}

/// A single value stands for itself, any other number of values is an array.
pub open spec fn scalar_or_array(values: Seq<ValueView>) -> ValueView {
    if values.len() == 1 {
        values[0]
    } else {
        ValueView::Array(values)
    }
}

/// The payload of a ReadProperty acknowledgement: object, property, an
/// optional index that is skipped, then the values after the tag 3E.
pub open spec fn parse_read_property_ack(invoke_id: u8, s: Seq<u8>) -> Result<
    ApduView,
    BacnetErrorView,
> {
    match parse_object(
        s,
        0,
        "ReadProperty-ACK: ObjectId truncated"@,
        "ReadProperty-ACK: expected 0x0C, got 0x"@,
    ) {
        Err(e) => Err(e),
        Ok((object_type, instance)) => match parse_context(from_pos(s, 5), 1) {
            Err(e) => Err(e),
            Ok((property_id, n)) => {
                let pos = if context_tag_at(s, 5 + n, 2, false) {
                    5 + n + 1 + lvt(s[5 + n])
                } else {
                    5 + n
                };
                if pos >= s.len() || s[pos] != 0x3E {
                    Err(
                        bracket_error(
                            "ReadProperty-ACK: expected opening tag 3 (0x3E) at pos "@,
                            s,
                            pos,
                        ),
                    )
                } else {
                    match parse_values(s, pos + 1) {
                        Err(e) => Err(e),
                        Ok(values) => Ok(
                            ApduView::ReadPropertyAck {
                                invoke_id,
                                object_type,
                                instance,
                                property_id,
                                value: scalar_or_array(values),
                            },
                        ),
                    }
                }
            },
        },
    }
}

/// What a list of decoded values says.
pub open spec fn values_result_view(r: Result<Vec<BacnetValue>, BacnetError>) -> Result<
    Seq<ValueView>,
    BacnetErrorView,
> {
    match r {
        Ok(values) => Ok(values_view(values@)),
        Err(e) => Err(e@),
    }
}

/// Items decoded so far, followed by those that a parse still yields.
pub open spec fn then_items<T>(
    done: Seq<T>,
    rest: Result<Seq<T>, BacnetErrorView>,
) -> Result<Seq<T>, BacnetErrorView> {
    match rest {
        Ok(items) => Ok(done + items),
        Err(e) => Err(e),
    }
}

/// Read the values from `pos` up to the closing tag 3F or the end.
fn read_values(data: &[u8], start: usize) -> (res: Result<Vec<BacnetValue>, BacnetError>)
    requires
        start <= data@.len(),
    ensures
        values_result_view(res) == parse_values(data@, start as int),
{
    let mut values: Vec<BacnetValue> = Vec::new();
    let mut pos: usize = start;
    assert(then_items(values_view(values@), parse_values(data@, pos as int)) =~= parse_values(
        data@,
        pos as int,
    )) by {
        if let Ok(items) = parse_values(data@, pos as int) {
            assert(values_view(values@) + items =~= items);
        }
    }
    while pos < data.len() && data[pos] != 0x3F
        invariant
            pos <= data@.len(),
            then_items(values_view(values@), parse_values(data@, pos as int)) == parse_values(
                data@,
                start as int,
            ),
        decreases data@.len() - pos,
    {
        match decode_application_tag(tail(data, pos)) {
            Err(e) => return Err(e),
            Ok((val, n)) => {
                let ghost before = values_view(values@);
                let ghost rest = parse_values(data@, pos + n);
                pos = pos + n;
                if let BacnetValue::Unknown = val {
                } else {
                    let ghost v = val@;
                    values.push(val);
                    proof {
                        assert(values_view(values@) =~= before.push(v));
                        if let Ok(items) = rest {
                            assert(before + (seq![v] + items) =~= values_view(values@) + items);
                        }
                    }
                }
            },
        }
    }
    proof {
        assert(values_view(values@) + Seq::<ValueView>::empty() =~= values_view(values@));
    }
    Ok(values)
}

/// A single value as itself, any other number of values as an array.
fn collapse(mut values: Vec<BacnetValue>) -> (res: BacnetValue)
    ensures
        res@ == scalar_or_array(values_view(values@)),
{
    if values.len() == 1 {
        let ghost all = values_view(values@);
        let v: BacnetValue = values.remove(0);
        assert(v@ == all[0]);
        v
    } else {
        let ghost all = values_view(values@);
        let res: BacnetValue = BacnetValue::Array(values);
        assert(res@->Array_0 =~= all);
        res
    }
}

/// Decode the payload of a ReadProperty acknowledgement.
fn decode_read_property_ack(invoke_id: u8, payload: &[u8]) -> (res: Result<Apdu, BacnetError>)
    ensures
        apdu_result_view(res) == parse_read_property_ack(invoke_id, payload@),
{
    let (object_type, instance): (u16, u32) = match read_object(
        payload,
        0,
        "ReadProperty-ACK: ObjectId truncated",
        "ReadProperty-ACK: expected 0x0C, got 0x",
    ) {
        Err(e) => return Err(e),
        Ok(id) => id,
    };
    let (property_id, n): (u32, usize) = match read_context_unsigned(tail(payload, 5), 1) {
        Err(e) => return Err(e),
        Ok(p) => p,
    };
    let mut pos: usize = 5 + n;
    if pos < payload.len() {
        let b: u8 = payload[pos];
        if b / 8 % 2 == 1 && b / 16 == 2 {
            let skip: usize = 1 + (b % 8) as usize;
            if payload.len() - pos < skip {
                return Err(
                    missing_bracket_beyond(
                        "ReadProperty-ACK: expected opening tag 3 (0x3E) at pos ",
                        payload,
                        pos,
                        skip,
                    ),
                );
            }
            pos = pos + skip;
        }
    }
    if pos >= payload.len() || payload[pos] != 0x3E {
        return Err(
            missing_bracket(
                "ReadProperty-ACK: expected opening tag 3 (0x3E) at pos ",
                payload,
                pos,
            ),
        );
    }
    match read_values(payload, pos + 1) {
        Err(e) => Err(e),
        Ok(values) => Ok(
            Apdu::ReadPropertyAck {
                invoke_id,
                object_type,
                instance,
                property_id,
                value: collapse(values),
            },
        ),
    }
}

/// Build the complaint about a bracket expected `skip` bytes after `pos`,
/// beyond the end of the data.
fn missing_bracket_beyond(head: &str, data: &[u8], pos: usize, skip: usize) -> (e: BacnetError)
    requires
        pos + skip > data@.len(),
        skip <= 8,
    ensures
        e@ == bracket_error(head@, data@, pos + skip),
{
    let mut msg: String = text_decimal_tail(head, pos as u128 + skip as u128, ", got 0x");
    push_hex2(&mut msg, 0);
    BacnetError::MalformedFrame(msg)
}

// ── ReadPropertyMultiple request ────────────────────────────

/// Items decoded so far, followed by those that a parse still yields.
pub open spec fn then_list<T>(
    done: Seq<T>,
    rest: Result<(Seq<T>, int), BacnetErrorView>,
) -> Result<(Seq<T>, int), BacnetErrorView> {
    match rest {
        Ok((items, end)) => Ok((done + items, end)),
        Err(e) => Err(e),
    }
}

/// One property reference at `pos`: the property and an optional index.
pub open spec fn parse_reference(s: Seq<u8>, pos: int, object: (u16, u32)) -> Result<
    (RpmRequestSpec, int),
    BacnetErrorView,
> {
    match parse_context(from_pos(s, pos), 0) {
        Err(e) => Err(e),
        Ok((property_id, n)) => match parse_optional(s, pos + n, 1, true) {
            Err(e) => Err(e),
            Ok((array_index, end)) => Ok(
                (
                    RpmRequestSpec {
                        object_type: object.0,
                        instance: object.1,
                        property_id,
                        array_index,
                    },
                    end,
                ),
            ),
        },
    }
}

/// The property references from `pos` up to the closing tag 1F or the end.
pub open spec fn parse_references(s: Seq<u8>, pos: int, object: (u16, u32)) -> Result<
    (Seq<RpmRequestSpec>, int),
    BacnetErrorView,
>
    decreases s.len() - pos,
{
    if pos < 0 || pos >= s.len() || s[pos] == 0x1F {
        Ok((Seq::empty(), pos))
    } else {
        match parse_reference(s, pos, object) {
            Err(e) => Err(e),
            Ok((spec, next)) => then_list(seq![spec], parse_references(s, next, object)),
        }
    }
}

/// A list of property references ends at or after its start, within the data.
pub proof fn lemma_references_extent(s: Seq<u8>, pos: int, object: (u16, u32))
    requires
        0 <= pos <= s.len(),
    ensures
        parse_references(s, pos, object) matches Ok((_, end)) ==> pos <= end <= s.len(),
    decreases s.len() - pos,
{
    if pos < s.len() && s[pos] != 0x1F {
        if let Ok((_, next)) = parse_reference(s, pos, object) {
            lemma_references_extent(s, next, object);
        }
    }
}

/// One read access specification at `pos`: an object identifier and its
/// property references between the tags 1E and 1F.
pub open spec fn parse_access_spec(s: Seq<u8>, pos: int) -> Result<
    (Seq<RpmRequestSpec>, int),
    BacnetErrorView,
> {
    match parse_object(
        s,
        pos,
        "RPM request: object-identifier truncated"@,
        "RPM request: expected context tag 0 (0x0C), got 0x"@,
    ) {
        Err(e) => Err(e),
        Ok(object) => if pos + 5 >= s.len() || s[pos + 5] != 0x1E {
            Err(malformed("RPM request: expected list-of-property-references opening 0x1E"@))
        } else {
            match parse_references(s, pos + 6, object) {
                Err(e) => Err(e),
                Ok((specs, end)) => if end >= s.len() || s[end] != 0x1F {
                    Err(
                        malformed(
                            "RPM request: expected list-of-property-references closing 0x1F"@,
                        ),
                    )
                } else {
                    Ok((specs, end + 1))
                },
            }
        },
    }
}

/// A read access specification is not empty and lies within the data.
pub proof fn lemma_access_spec_extent(s: Seq<u8>, pos: int)
    requires
        0 <= pos <= s.len(),
    ensures
        parse_access_spec(s, pos) matches Ok((_, end)) ==> pos < end <= s.len(),
{
    if pos + 6 <= s.len() {
        let raw = be_value(s.subrange(pos + 1, pos + 5));
        lemma_references_extent(s, pos + 6, (raw_object_type(raw), raw_instance(raw)));
    }
}

/// The read access specifications from `pos` to the end.
pub open spec fn parse_access_specs(s: Seq<u8>, pos: int) -> Result<
    Seq<RpmRequestSpec>,
    BacnetErrorView,
>
    decreases s.len() - pos,
{
    if pos < 0 || pos >= s.len() {
        Ok(Seq::empty())
    } else {
        match parse_access_spec(s, pos) {
            Err(e) => Err(e),
            Ok((specs, next)) => {
                proof {
                    lemma_access_spec_extent(s, pos);
                }
                then_items(specs, parse_access_specs(s, next))
            },
        }
    }
}

/// Read the property references of one object.
fn read_references(data: &[u8], start: usize, object: (u16, u32)) -> (res: Result<
    (Vec<RpmRequestSpec>, usize),
    BacnetError,
>)
    requires
        start <= data@.len(),
    ensures
        match res {
            Ok((specs, end)) => parse_references(data@, start as int, object) == Ok::<
                (Seq<RpmRequestSpec>, int),
                BacnetErrorView,
            >((specs@, end as int)) && start <= end <= data@.len(),
            Err(e) => parse_references(data@, start as int, object) == Err::<
                (Seq<RpmRequestSpec>, int),
                BacnetErrorView,
            >(e@),
        },
{
    let mut specs: Vec<RpmRequestSpec> = Vec::new();
    let mut pos: usize = start;
    proof {
        if let Ok((items, _)) = parse_references(data@, pos as int, object) {
            assert(specs@ + items =~= items);
        }
    }
    while pos < data.len() && data[pos] != 0x1F
        invariant
            start <= pos <= data@.len(),
            then_list(specs@, parse_references(data@, pos as int, object)) == parse_references(
                data@,
                start as int,
                object,
            ),
        decreases data@.len() - pos,
    {
        let (property_id, n): (u32, usize) = match read_context_unsigned(tail(data, pos), 0) {
            Err(e) => return Err(e),
            Ok(p) => p,
        };
        let (array_index, next): (Option<u32>, usize) = match read_optional(
            data,
            pos + n,
            1,
            true,
        ) {
            Err(e) => return Err(e),
            Ok(p) => p,
        };
        let spec: RpmRequestSpec = RpmRequestSpec {
            object_type: object.0,
            instance: object.1,
            property_id,
            array_index,
        };
        let ghost before = specs@;
        specs.push(spec);
        proof {
            if let Ok((items, _)) = parse_references(data@, next as int, object) {
                assert(before + (seq![spec] + items) =~= specs@ + items);
            }
        }
        pos = next;
    }
    assert(specs@ + Seq::<RpmRequestSpec>::empty() =~= specs@);
    Ok((specs, pos))
}

/// Read one read access specification and append its specifications.
fn read_access_spec(data: &[u8], pos: usize, specs: &mut Vec<RpmRequestSpec>) -> (res: Result<
    usize,
    BacnetError,
>)
    requires
        pos <= data@.len(),
    ensures
        match res {
            Ok(end) => exists|more: Seq<RpmRequestSpec>|
                parse_access_spec(data@, pos as int) == Ok::<
                    (Seq<RpmRequestSpec>, int),
                    BacnetErrorView,
                >((more, end as int)) && final(specs)@ == #[trigger] (old(specs)@ + more) && pos
                    < end <= data@.len(),
            Err(e) => parse_access_spec(data@, pos as int) == Err::<
                (Seq<RpmRequestSpec>, int),
                BacnetErrorView,
            >(e@),
        },
{
    let object: (u16, u32) = match read_object(
        data,
        pos,
        "RPM request: object-identifier truncated",
        "RPM request: expected context tag 0 (0x0C), got 0x",
    ) {
        Err(e) => return Err(e),
        Ok(id) => id,
    };
    if data.len() - pos <= 5 || data[pos + 5] != 0x1E {
        return Err(
            malformed_frame("RPM request: expected list-of-property-references opening 0x1E"),
        );
    }
    let (mut more, end): (Vec<RpmRequestSpec>, usize) = match read_references(
        data,
        pos + 6,
        object,
    ) {
        Err(e) => return Err(e),
        Ok(p) => p,
    };
    if end >= data.len() || data[end] != 0x1F {
        return Err(
            malformed_frame("RPM request: expected list-of-property-references closing 0x1F"),
        );
    }
    let ghost added = more@;
    specs.append(&mut more);
    assert(specs@ == old(specs)@ + added);
    Ok(end + 1)
}

/// The payload of a ReadPropertyMultiple request.
pub open spec fn parse_rpm_request(invoke_id: u8, s: Seq<u8>) -> Result<
    ApduView,
    BacnetErrorView,
> {
    match parse_access_specs(s, 0) {
        Err(e) => Err(e),
        Ok(specs) => Ok(ApduView::ReadPropertyMultipleRequest { invoke_id, specs }),
    }
}

/// Decode the payload of a ReadPropertyMultiple request.
fn decode_read_property_multiple_request(invoke_id: u8, payload: &[u8]) -> (res: Result<
    Apdu,
    BacnetError,
>)
    ensures
        apdu_result_view(res) == parse_rpm_request(invoke_id, payload@),
{
    let mut specs: Vec<RpmRequestSpec> = Vec::new();
    let mut pos: usize = 0;
    proof {
        if let Ok(items) = parse_access_specs(payload@, 0) {
            assert(specs@ + items =~= items);
        }
    }
    while pos < payload.len()
        invariant
            pos <= payload@.len(),
            then_items(specs@, parse_access_specs(payload@, pos as int)) == parse_access_specs(
                payload@,
                0,
            ),
        decreases payload@.len() - pos,
    {
        let ghost before = specs@;
        match read_access_spec(payload, pos, &mut specs) {
            Err(e) => return Err(e),
            Ok(next) => {
                proof {
                    let more = (parse_access_spec(payload@, pos as int)->Ok_0).0;
                    assert(specs@ == before + more);
                    if let Ok(items) = parse_access_specs(payload@, next as int) {
                        assert(before + (more + items) =~= specs@ + items);
                    }
                }
                pos = next;
            },
        }
    }
    assert(specs@ + Seq::<RpmRequestSpec>::empty() =~= specs@);
    Ok(Apdu::ReadPropertyMultipleRequest { invoke_id, specs })
}

// ── ReadPropertyMultiple acknowledgement ────────────────────

/// An enumeration (or unsigned number) at `pos`, with the position after it.
pub open spec fn parse_enumerated(s: Seq<u8>, pos: int) -> Result<(u32, int), BacnetErrorView> {
    match parse_value(from_pos(s, pos)) {
        Err(e) => Err(e),
        Ok((ValueView::Enumerated(v), n)) => Ok((v, pos + n)),
        Ok((ValueView::Unsigned(v), n)) => Ok((v, pos + n)),
        Ok(_) => Err(malformed("expected Enumerated value"@)),
    }
}

/// Decode an Enumerated application-tagged value at `data[*pos]`, advancing
/// `*pos` past the value that stands there.
pub fn decode_enumerated_at(data: &[u8], pos: &mut usize) -> (res: Result<u32, BacnetError>)
    requires
        *old(pos) <= data@.len(),
    ensures
        match res {
            Ok(v) => parse_enumerated(data@, *old(pos) as int) == Ok::<(u32, int), BacnetErrorView>(
                (v, *final(pos) as int),
            ),
            Err(e) => parse_enumerated(data@, *old(pos) as int) == Err::<
                (u32, int),
                BacnetErrorView,
            >(e@),
        },
        match parse_value(from_pos(data@, *old(pos) as int)) {
            Ok((_, n)) => *final(pos) == *old(pos) + n,
            Err(_) => *final(pos) == *old(pos),
        },
        *old(pos) <= *final(pos) <= data@.len(),
{
    match decode_application_tag(tail(data, *pos)) {
        Err(e) => Err(e),
        Ok((val, n)) => {
            assert(*pos + n <= data.len());
            *pos = *pos + n;
            match val {
                BacnetValue::Enumerated(v) => Ok(v),
                BacnetValue::Unsigned(v) => Ok(v),
                _ => Err(malformed_frame("expected Enumerated value")),
            }
        },
    }
}

/// The outcome of one property at `pos`: a value between 4E and 4F, or an
/// error class and code between 5E and 5F.
pub open spec fn parse_outcome(s: Seq<u8>, pos: int) -> Result<
    (Result<ValueView, (u32, u32)>, int),
    BacnetErrorView,
> {
    if pos >= s.len() {
        Err(malformed("RPM-ACK: truncated after property-id"@))
    } else if s[pos] == 0x4E {
        match parse_value(from_pos(s, pos + 1)) {
            Err(e) => Err(e),
            Ok((v, n)) => if pos + 1 + n >= s.len() || s[pos + 1 + n] != 0x4F {
                Err(malformed("RPM-ACK: expected property-value closing 0x4F"@))
            } else {
                Ok((Ok(v), pos + 2 + n))
            },
        }
    } else if s[pos] == 0x5E {
        match parse_enumerated(s, pos + 1) {
            Err(e) => Err(e),
            Ok((class, p1)) => match parse_enumerated(s, p1) {
                Err(e) => Err(e),
                Ok((code, p2)) => if p2 >= s.len() || s[p2] != 0x5F {
                    Err(malformed("RPM-ACK: expected property-access-error closing 0x5F"@))
                } else {
                    Ok((Err((class, code)), p2 + 1))
                },
            },
        }
    } else {
        Err(malformed("RPM-ACK: unexpected tag 0x"@ + hex2(s[pos]) + " in result"@))
    }
}

/// One property result at `pos`: property, optional index, outcome.
pub open spec fn parse_entry(s: Seq<u8>, pos: int, object: (u16, u32)) -> Result<
    (RpmResultView, int),
    BacnetErrorView,
> {
    match parse_context(from_pos(s, pos), 2) {
        Err(e) => Err(e),
        Ok((property_id, n)) => match parse_optional(s, pos + n, 3, true) {
            Err(e) => Err(e),
            Ok((array_index, p1)) => match parse_outcome(s, p1) {
                Err(e) => Err(e),
                Ok((value, end)) => Ok(
                    (
                        RpmResultView {
                            object_type: object.0,
                            instance: object.1,
                            property_id,
                            array_index,
                            value,
                        },
                        end,
                    ),
                ),
            },
        },
    }
}

/// The property results from `pos` up to the closing tag 1F or the end.
pub open spec fn parse_entries(s: Seq<u8>, pos: int, object: (u16, u32)) -> Result<
    (Seq<RpmResultView>, int),
    BacnetErrorView,
>
    decreases s.len() - pos,
{
    if pos < 0 || pos >= s.len() || s[pos] == 0x1F {
        Ok((Seq::empty(), pos))
    } else {
        match parse_entry(s, pos, object) {
            Err(e) => Err(e),
            Ok((entry, next)) => then_list(seq![entry], parse_entries(s, next, object)),
        }
    }
}

/// A list of property results ends at or after its start, within the data.
pub proof fn lemma_entries_extent(s: Seq<u8>, pos: int, object: (u16, u32))
    requires
        0 <= pos <= s.len(),
    ensures
        parse_entries(s, pos, object) matches Ok((_, end)) ==> pos <= end <= s.len(),
    decreases s.len() - pos,
{
    if pos < s.len() && s[pos] != 0x1F {
        if let Ok((_, next)) = parse_entry(s, pos, object) {
            lemma_entries_extent(s, next, object);
        }
    }
}

/// One read access result at `pos`: an object identifier and its property
/// results between the tags 1E and 1F.
pub open spec fn parse_access_result(s: Seq<u8>, pos: int) -> Result<
    (Seq<RpmResultView>, int),
    BacnetErrorView,
> {
    match parse_object(
        s,
        pos,
        "RPM-ACK: object-identifier truncated"@,
        "RPM-ACK: expected context tag 0 (0x0C), got 0x"@,
    ) {
        Err(e) => Err(e),
        Ok(object) => if pos + 5 >= s.len() || s[pos + 5] != 0x1E {
            Err(malformed("RPM-ACK: expected list-of-results opening tag 0x1E"@))
        } else {
            match parse_entries(s, pos + 6, object) {
                Err(e) => Err(e),
                Ok((results, end)) => if end >= s.len() || s[end] != 0x1F {
                    Err(malformed("RPM-ACK: expected list-of-results closing 0x1F"@))
                } else {
                    Ok((results, end + 1))
                },
            }
        },
    }
}

/// A read access result is not empty and lies within the data.
pub proof fn lemma_access_result_extent(s: Seq<u8>, pos: int)
    requires
        0 <= pos <= s.len(),
    ensures
        parse_access_result(s, pos) matches Ok((_, end)) ==> pos < end <= s.len(),
{
    if pos + 6 <= s.len() {
        let raw = be_value(s.subrange(pos + 1, pos + 5));
        lemma_entries_extent(s, pos + 6, (raw_object_type(raw), raw_instance(raw)));
    }
}

/// The read access results from `pos` to the end.
pub open spec fn parse_access_results(s: Seq<u8>, pos: int) -> Result<
    Seq<RpmResultView>,
    BacnetErrorView,
>
    decreases s.len() - pos,
{
    if pos < 0 || pos >= s.len() {
        Ok(Seq::empty())
    } else {
        match parse_access_result(s, pos) {
            Err(e) => Err(e),
            Ok((results, next)) => {
                proof {
                    lemma_access_result_extent(s, pos);
                }
                then_items(results, parse_access_results(s, next))
            },
        }
    }
}

/// Read the outcome of one property.
fn read_outcome(data: &[u8], pos: usize) -> (res: Result<
    (Result<BacnetValue, (u32, u32)>, usize),
    BacnetError,
>)
    requires
        pos <= data@.len(),
    ensures
        match res {
            Ok((Ok(v), end)) => parse_outcome(data@, pos as int) == Ok::<
                (Result<ValueView, (u32, u32)>, int),
                BacnetErrorView,
            >((Ok(v@), end as int)) && pos < end <= data@.len(),
            Ok((Err(p), end)) => parse_outcome(data@, pos as int) == Ok::<
                (Result<ValueView, (u32, u32)>, int),
                BacnetErrorView,
            >((Err(p), end as int)) && pos < end <= data@.len(),
            Err(e) => parse_outcome(data@, pos as int) == Err::<
                (Result<ValueView, (u32, u32)>, int),
                BacnetErrorView,
            >(e@),
        },
{
    if pos >= data.len() {
        return Err(malformed_frame("RPM-ACK: truncated after property-id"));
    }
    let b: u8 = data[pos];
    if b == 0x4E {
        match decode_application_tag(tail(data, pos + 1)) {
            Err(e) => Err(e),
            Ok((v, n)) => {
                let close: usize = pos + 1 + n;
                if close >= data.len() || data[close] != 0x4F {
                    return Err(malformed_frame("RPM-ACK: expected property-value closing 0x4F"));
                }
                Ok((Ok(v), close + 1))
            },
        }
    } else if b == 0x5E {
        let mut at: usize = pos + 1;
        let class: u32 = match decode_enumerated_at(data, &mut at) {
            Err(e) => return Err(e),
            Ok(v) => v,
        };
        let code: u32 = match decode_enumerated_at(data, &mut at) {
            Err(e) => return Err(e),
            Ok(v) => v,
        };
        if at >= data.len() || data[at] != 0x5F {
            return Err(malformed_frame("RPM-ACK: expected property-access-error closing 0x5F"));
        }
        Ok((Err((class, code)), at + 1))
    } else {
        let mut msg: String = text_hex2("RPM-ACK: unexpected tag 0x", b);
        msg.append(" in result");
        Err(BacnetError::MalformedFrame(msg))
    }
}

/// Read the property results of one object.
fn read_entries(data: &[u8], start: usize, object: (u16, u32)) -> (res: Result<
    (Vec<RpmResult>, usize),
    BacnetError,
>)
    requires
        start <= data@.len(),
    ensures
        match res {
            Ok((results, end)) => parse_entries(data@, start as int, object) == Ok::<
                (Seq<RpmResultView>, int),
                BacnetErrorView,
            >((results_view(results@), end as int)) && start <= end <= data@.len(),
            Err(e) => parse_entries(data@, start as int, object) == Err::<
                (Seq<RpmResultView>, int),
                BacnetErrorView,
            >(e@),
        },
{
    let mut results: Vec<RpmResult> = Vec::new();
    let mut pos: usize = start;
    proof {
        if let Ok((items, _)) = parse_entries(data@, pos as int, object) {
            assert(results_view(results@) + items =~= items);
        }
    }
    while pos < data.len() && data[pos] != 0x1F
        invariant
            start <= pos <= data@.len(),
            then_list(results_view(results@), parse_entries(data@, pos as int, object))
                == parse_entries(data@, start as int, object),
        decreases data@.len() - pos,
    {
        let (property_id, n): (u32, usize) = match read_context_unsigned(tail(data, pos), 2) {
            Err(e) => return Err(e),
            Ok(p) => p,
        };
        let (array_index, at): (Option<u32>, usize) = match read_optional(data, pos + n, 3, true) {
            Err(e) => return Err(e),
            Ok(p) => p,
        };
        let (value, next): (Result<BacnetValue, (u32, u32)>, usize) = match read_outcome(
            data,
            at,
        ) {
            Err(e) => return Err(e),
            Ok(p) => p,
        };
        let entry: RpmResult = RpmResult {
            object_type: object.0,
            instance: object.1,
            property_id,
            array_index,
            value,
        };
        let ghost before = results_view(results@);
        let ghost v = entry@;
        results.push(entry);
        proof {
            assert(results_view(results@) =~= before.push(v));
            if let Ok((items, _)) = parse_entries(data@, next as int, object) {
                assert(before + (seq![v] + items) =~= results_view(results@) + items);
            }
        }
        pos = next;
    }
    assert(results_view(results@) + Seq::<RpmResultView>::empty() =~= results_view(results@));
    Ok((results, pos))
}

/// Read one read access result and append its results.
fn read_access_result(data: &[u8], pos: usize, results: &mut Vec<RpmResult>) -> (res: Result<
    usize,
    BacnetError,
>)
    requires
        pos <= data@.len(),
    ensures
        match res {
            Ok(end) => exists|more: Seq<RpmResultView>|
                parse_access_result(data@, pos as int) == Ok::<
                    (Seq<RpmResultView>, int),
                    BacnetErrorView,
                >((more, end as int)) && results_view(final(results)@) == #[trigger] (results_view(
                    old(results)@,
                ) + more) && pos < end <= data@.len(),
            Err(e) => parse_access_result(data@, pos as int) == Err::<
                (Seq<RpmResultView>, int),
                BacnetErrorView,
            >(e@),
        },
{
    let object: (u16, u32) = match read_object(
        data,
        pos,
        "RPM-ACK: object-identifier truncated",
        "RPM-ACK: expected context tag 0 (0x0C), got 0x",
    ) {
        Err(e) => return Err(e),
        Ok(id) => id,
    };
    if data.len() - pos <= 5 || data[pos + 5] != 0x1E {
        return Err(malformed_frame("RPM-ACK: expected list-of-results opening tag 0x1E"));
    }
    let (mut more, end): (Vec<RpmResult>, usize) = match read_entries(data, pos + 6, object) {
        Err(e) => return Err(e),
        Ok(p) => p,
    };
    if end >= data.len() || data[end] != 0x1F {
        return Err(malformed_frame("RPM-ACK: expected list-of-results closing 0x1F"));
    }
    let ghost added = results_view(more@);
    results.append(&mut more);
    assert(results_view(results@) =~= results_view(old(results)@) + added);
    Ok(end + 1)
}

/// The payload of a ReadPropertyMultiple acknowledgement.
pub open spec fn parse_rpm_ack(invoke_id: u8, s: Seq<u8>) -> Result<ApduView, BacnetErrorView> {
    match parse_access_results(s, 0) {
        Err(e) => Err(e),
        Ok(results) => Ok(ApduView::ReadPropertyMultipleAck { invoke_id, results }),
    }
}

/// Decode the payload of a ReadPropertyMultiple acknowledgement.
fn decode_read_property_multiple_ack(invoke_id: u8, payload: &[u8]) -> (res: Result<
    Apdu,
    BacnetError,
>)
    ensures
        apdu_result_view(res) == parse_rpm_ack(invoke_id, payload@),
{
    let mut results: Vec<RpmResult> = Vec::new();
    let mut pos: usize = 0;
    proof {
        if let Ok(items) = parse_access_results(payload@, 0) {
            assert(results_view(results@) + items =~= items);
        }
    }
    while pos < payload.len()
        invariant
            pos <= payload@.len(),
            then_items(results_view(results@), parse_access_results(payload@, pos as int))
                == parse_access_results(payload@, 0),
        decreases payload@.len() - pos,
    {
        let ghost before = results_view(results@);
        match read_access_result(payload, pos, &mut results) {
            Err(e) => return Err(e),
            Ok(next) => {
                proof {
                    let more = (parse_access_result(payload@, pos as int)->Ok_0).0;
                    assert(results_view(results@) == before + more);
                    if let Ok(items) = parse_access_results(payload@, next as int) {
                        assert(before + (more + items) =~= results_view(results@) + items);
                    }
                }
                pos = next;
            },
        }
    }
    assert(results_view(results@) + Seq::<RpmResultView>::empty() =~= results_view(results@));
    Ok(Apdu::ReadPropertyMultipleAck { invoke_id, results })
}

// ── APDU dispatch ───────────────────────────────────────────

/// An Error PDU: invoke ID, service, class, code.
pub open spec fn parse_error_pdu(s: Seq<u8>) -> Result<ApduView, BacnetErrorView> {
    if s.len() < 3 {
        Err(malformed("Error PDU too short"@))
    } else {
        match parse_enumerated(s, 3) {
            Err(e) => Err(e),
            Ok((error_class, pos)) => match parse_enumerated(s, pos) {
                Err(e) => Err(e),
                Ok((error_code, _)) => Ok(
                    ApduView::Error {
                        invoke_id: s[1],
                        service_choice: s[2],
                        error_class,
                        error_code,
                    },
                ),
            },
        }
    }
}

/// Decode an Error PDU.
fn decode_error_pdu(data: &[u8]) -> (res: Result<Apdu, BacnetError>)
    ensures
        apdu_result_view(res) == parse_error_pdu(data@),
{
    if data.len() < 3 {
        return Err(malformed_frame("Error PDU too short"));
    }
    let mut pos: usize = 3;
    let error_class: u32 = match decode_enumerated_at(data, &mut pos) {
        Err(e) => return Err(e),
        Ok(v) => v,
    };
    let error_code: u32 = match decode_enumerated_at(data, &mut pos) {
        Err(e) => return Err(e),
        Ok(v) => v,
    };
    Ok(Apdu::Error { invoke_id: data[1], service_choice: data[2], error_class, error_code })
}

/// A confirmed request: the services that are decoded, everything else as it is.
pub open spec fn parse_confirmed(s: Seq<u8>) -> Result<ApduView, BacnetErrorView> {
    if s.len() < 4 {
        Err(malformed("Confirmed-Request too short"@))
    } else if s[3] == SVC_CONFIRMED_READ_PROPERTY {
        parse_read_property(s[2], from_pos(s, 4))
    } else if s[3] == SVC_CONFIRMED_WRITE_PROPERTY {
        parse_write_property(s[2], from_pos(s, 4))
    } else if s[3] == SVC_CONFIRMED_READ_PROPERTY_MULTIPLE {
        parse_rpm_request(s[2], from_pos(s, 4))
    } else {
        Ok(ApduView::Other { pdu_type: s[0], invoke_id: s[2], data: s })
    }
}

/// An unconfirmed request: Who-Is, I-Am, everything else as it is.
pub open spec fn parse_unconfirmed(s: Seq<u8>) -> Result<ApduView, BacnetErrorView> {
    if s.len() < 2 {
        Err(malformed("Unconfirmed-Request too short"@))
    } else if s[1] == SVC_UNCONFIRMED_WHOIS {
        parse_who_is(from_pos(s, 2))
    } else if s[1] == SVC_UNCONFIRMED_IAM {
        parse_i_am(from_pos(s, 2))
    } else {
        Ok(ApduView::Other { pdu_type: s[0], invoke_id: 0, data: s })
    }
}

/// A complex acknowledgement: ReadProperty, ReadPropertyMultiple, everything
/// else as it is.
pub open spec fn parse_complex_ack(s: Seq<u8>) -> Result<ApduView, BacnetErrorView> {
    if s.len() < 3 {
        Err(malformed("Complex-ACK too short"@))
    } else if s[2] == SVC_CONFIRMED_READ_PROPERTY {
        parse_read_property_ack(s[1], from_pos(s, 3))
    } else if s[2] == SVC_CONFIRMED_READ_PROPERTY_MULTIPLE {
        parse_rpm_ack(s[1], from_pos(s, 3))
    } else {
        Ok(ApduView::Other { pdu_type: s[0], invoke_id: s[1], data: s })
    }
}

/// A simple acknowledgement: invoke ID and service.
pub open spec fn parse_simple_ack(s: Seq<u8>) -> Result<ApduView, BacnetErrorView> {
    if s.len() < 3 {
        Err(malformed("Simple-ACK too short"@))
    } else {
        Ok(ApduView::SimpleAck { invoke_id: s[1], service_choice: s[2] })
    }
}

/// The APDU that `s` holds, by the PDU type in the high nibble of its first byte.
pub open spec fn parse_apdu(s: Seq<u8>) -> Result<ApduView, BacnetErrorView> {
    if s.len() == 0 {
        Err(malformed("empty APDU"@))
    } else {
        let pdu = s[0] as int / 16;
        if pdu == 0 {
            parse_confirmed(s)
        } else if pdu == 1 {
            parse_unconfirmed(s)
        } else if pdu == 2 {
            parse_simple_ack(s)
        } else if pdu == 3 {
            parse_complex_ack(s)
        } else if pdu == 5 {
            parse_error_pdu(s)
        } else {
            Ok(
                ApduView::Other {
                    pdu_type: s[0],
                    invoke_id: if s.len() > 1 {
                        s[1]
                    } else {
                        0
                    },
                    data: s,
                },
            )
        }
    }
}

/// An APDU kept as it is.
fn other(data: &[u8], invoke_id: u8) -> (res: Apdu)
    requires
        data@.len() > 0,
    ensures
        res@ == (ApduView::Other { pdu_type: data@[0], invoke_id, data: data@ }),
{
    let copy: Vec<u8> = copy_range(data, 0, data.len());
    assert(copy@ =~= data@);
    Apdu::Other { pdu_type: data[0], invoke_id, data: copy }
}

/// Decode a confirmed request.
fn decode_confirmed_request(data: &[u8]) -> (res: Result<Apdu, BacnetError>)
    ensures
        apdu_result_view(res) == parse_confirmed(data@),
{
    if data.len() < 4 {
        return Err(malformed_frame("Confirmed-Request too short"));
    }
    let invoke_id: u8 = data[2];
    let service: u8 = data[3];
    if service == SVC_CONFIRMED_READ_PROPERTY {
        decode_read_property_request(invoke_id, tail(data, 4))
    } else if service == SVC_CONFIRMED_WRITE_PROPERTY {
        decode_write_property_request(invoke_id, tail(data, 4))
    } else if service == SVC_CONFIRMED_READ_PROPERTY_MULTIPLE {
        decode_read_property_multiple_request(invoke_id, tail(data, 4))
    } else {
        Ok(other(data, invoke_id))
    }
}

/// Decode an unconfirmed request.
fn decode_unconfirmed_request(data: &[u8]) -> (res: Result<Apdu, BacnetError>)
    ensures
        apdu_result_view(res) == parse_unconfirmed(data@),
{
    if data.len() < 2 {
        return Err(malformed_frame("Unconfirmed-Request too short"));
    }
    let service: u8 = data[1];
    if service == SVC_UNCONFIRMED_WHOIS {
        decode_who_is(tail(data, 2))
    } else if service == SVC_UNCONFIRMED_IAM {
        decode_i_am(tail(data, 2))
    } else {
        Ok(other(data, 0))
    }
}

/// Decode a complex acknowledgement.
fn decode_complex_ack(data: &[u8]) -> (res: Result<Apdu, BacnetError>)
    ensures
        apdu_result_view(res) == parse_complex_ack(data@),
{
    if data.len() < 3 {
        return Err(malformed_frame("Complex-ACK too short"));
    }
    let invoke_id: u8 = data[1];
    let service: u8 = data[2];
    if service == SVC_CONFIRMED_READ_PROPERTY {
        decode_read_property_ack(invoke_id, tail(data, 3))
    } else if service == SVC_CONFIRMED_READ_PROPERTY_MULTIPLE {
        decode_read_property_multiple_ack(invoke_id, tail(data, 3))
    } else {
        Ok(other(data, invoke_id))
    }
}

/// Decode a simple acknowledgement: `[0x20, invoke_id, service_choice]`.
fn decode_simple_ack(data: &[u8]) -> (res: Result<Apdu, BacnetError>)
    ensures
        apdu_result_view(res) == parse_simple_ack(data@),
{
    if data.len() < 3 {
        return Err(malformed_frame("Simple-ACK too short"));
    }
    Ok(Apdu::SimpleAck { invoke_id: data[1], service_choice: data[2] })
}

/// Parse an APDU byte slice (already stripped of BVLL and NPDU headers).
///
/// Returns [`Apdu::Other`] for PDU types / services that are not handled.
pub fn decode_apdu(data: &[u8]) -> (res: Result<Apdu, BacnetError>)
    ensures
        apdu_result_view(res) == parse_apdu(data@),
{
    if data.is_empty() {
        return Err(malformed_frame("empty APDU"));
    }
    match data[0] / 16 {
        0 => decode_confirmed_request(data),
        1 => decode_unconfirmed_request(data),
        2 => decode_simple_ack(data),
        3 => decode_complex_ack(data),
        5 => decode_error_pdu(data),
        _ => Ok(other(data, if data.len() > 1 { data[1] } else { 0 })),
    }
}

// ── Whole packets ───────────────────────────────────────────

/// The headers and the APDU of a packet. A stated length that does not cover
/// the header is an error; bytes beyond the stated length are not looked at.
pub open spec fn parse_packet(s: Seq<u8>) -> Result<(NpduHeader, ApduView), BacnetErrorView> {
    match parse_bvll(s) {
        Err(e) => Err(e),
        Ok(bvll) => if bvll.length < 4 {
            Err(malformed("BVLL stated length does not cover the header"@))
        } else {
            let body = s.subrange(4, bvll.length as int);
            match parse_npdu(body) {
                Err(e) => Err(e),
                Ok((npdu, n)) => match parse_apdu(from_pos(body, n)) {
                    Err(e) => Err(e),
                    Ok(apdu) => Ok((npdu, apdu)),
                },
            }
        },
    }
}

/// What a result of [`decode_packet`] says.
pub open spec fn packet_result_view(r: Result<(NpduHeader, Apdu), BacnetError>) -> Result<
    (NpduHeader, ApduView),
    BacnetErrorView,
> {
    match r {
        Ok((npdu, apdu)) => Ok((npdu, apdu@)),
        Err(e) => Err(e@),
    }
}

/// Full packet decode: BVLL, NPDU, APDU.
///
/// Returns `(npdu_header, apdu)`.
pub fn decode_packet(data: &[u8]) -> (res: Result<(NpduHeader, Apdu), BacnetError>)
    ensures
        packet_result_view(res) == parse_packet(data@),
{
    let bvll: BvllHeader = match decode_bvll_header(data) {
        Err(e) => return Err(e),
        Ok(h) => h,
    };
    if bvll.length < 4 {
        return Err(malformed_frame("BVLL stated length does not cover the header"));
    }
    let body: &[u8] = vstd::slice::slice_subrange(data, 4, bvll.length as usize);
    let (npdu, n): (NpduHeader, usize) = match decode_npdu(body) {
        Err(e) => return Err(e),
        Ok(p) => p,
    };
    match decode_apdu(tail(body, n)) {
        Err(e) => Err(e),
        Ok(apdu) => Ok((npdu, apdu)),
    }
}

/// The APDU of a received datagram; `None` for one that cannot be decoded.
pub open spec fn received(s: Seq<u8>) -> Option<ApduView> {
    match parse_packet(s) {
        Ok((_, apdu)) => Some(apdu),
        Err(_) => None,
    }
}

/// What a received APDU says.
pub open spec fn apdu_option_view(r: Option<Apdu>) -> Option<ApduView> {
    match r {
        Some(a) => Some(a@),
        None => None,
    }
}

/// Decode a received datagram. Datagrams that cannot be decoded (wrong
/// protocol, malformed APDU, a length that does not cover the header) are
/// ignored.
pub fn received_apdu(data: &[u8]) -> (res: Option<Apdu>)
    ensures
        apdu_option_view(res) == received(data@),
{
    match decode_packet(data) {
        Ok((_, apdu)) => Some(apdu),
        Err(_) => None,
    }
}

} // verus!
