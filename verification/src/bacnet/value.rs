//! BACnet application-tag value encoding and decoding.
//!
//! # Tag format (1 byte)
//!
//! ```text
//!   bits 7-4: tag number (0=Null, 1=Bool, 2=Uint, 3=Int, 4=Real, 5=Double,
//!             6=OctetStr, 7=CharStr, 8=BitStr, 9=Enum, 10=Date, 11=Time,
//!             12=ObjectId)
//!   bit 3:    0=application, 1=context
//!   bits 2-0: length/value/type (LVT)
//!     - LVT 0-4: value is the LVT bytes (for Null, Bool, short values)
//!     - LVT 5:   next byte is extended length
//!     - LVT 6:   next 2 bytes are extended length
//!     - LVT 7:   next 4 bytes are extended length
//! ```
//!
//! Octet, character and bit strings take extended lengths. A number takes at
//! most four bytes, so a larger LVT is refused there.
//!
//! Only application-class tags are decoded here. Context tags come back as
//! [`BacnetValue::Unknown`] so that the caller can skip them.

use vstd::prelude::*;
use vstd::slice::slice_subrange;
use vstd::utf8::{decode_utf8, valid_utf8};

use super::error::{malformed, malformed_frame, BacnetError, BacnetErrorView};
use super::wire::{
    be_bytes, be_value, context_tag, copy_range, is_context, lemma_be_bytes_unfold,
    lemma_be_value_unfold, lvt, object_id_raw, pack_object_id, push_be16, push_be24, push_be32,
    raw_instance, raw_object_type, read_be16, read_be24, read_be32, read_be64, tag_number, tail,
    unpack_object_id,
};

verus! {

// ── BacnetValue ─────────────────────────────────────────────

/// A decoded BACnet application-tagged value.
///
/// `Real` and `Double` hold the IEEE 754 bit pattern of their number.
#[derive(Debug, PartialEq, Eq)]
pub enum BacnetValue {
    /// Application tag 0: NULL.
    Null,
    /// Application tag 1: BOOLEAN.
    Boolean(bool),
    /// Application tag 2: Unsigned Integer (up to 32-bit).
    Unsigned(u32),
    /// Application tag 3: Signed Integer (up to 32-bit).
    Signed(i32),
    /// Application tag 4: Real (bits of a single-precision number).
    Real(u32),
    /// Application tag 5: Double (bits of a double-precision number).
    Double(u64),
    /// Application tag 6: Octet String.
    OctetString(Vec<u8>),
    /// Application tag 7: Character String (UTF-8).
    CharacterString(String),
    /// Application tag 8: Bit String.
    BitString(Vec<u8>),
    /// Application tag 9: Enumerated.
    Enumerated(u32),
    /// Application tag 10: Date (year-1900, month, day, day-of-week).
    Date([u8; 4]),
    /// Application tag 11: Time (hour, minute, second, centiseconds).
    Time([u8; 4]),
    /// Application tag 12: BACnetObjectIdentifier.
    ObjectId {
        /// BACnet object type number (top 10 bits of the 4-byte encoding).
        object_type: u16,
        /// Object instance number (bottom 22 bits of the 4-byte encoding).
        instance: u32,
    },
    /// Any other tag, skipped by the decoder.
    Unknown,
    /// A sequence of values (used for array properties like ObjectList).
    Array(Vec<BacnetValue>),
}

/// What a [`BacnetValue`] says, with texts and lists as sequences.
pub enum ValueView {
    Null,
    Boolean(bool),
    Unsigned(u32),
    Signed(i32),
    Real(u32),
    Double(u64),
    OctetString(Seq<u8>),
    CharacterString(Seq<char>),
    BitString(Seq<u8>),
    Enumerated(u32),
    Date(Seq<u8>),
    Time(Seq<u8>),
    ObjectId { object_type: u16, instance: u32 },
    Unknown,
    Array(Seq<ValueView>),
}

/// The view of a value.
pub open spec fn value_view(v: BacnetValue) -> ValueView
    decreases v,
{
    match v {
        BacnetValue::Null => ValueView::Null,
        BacnetValue::Boolean(b) => ValueView::Boolean(b),
        BacnetValue::Unsigned(n) => ValueView::Unsigned(n),
        BacnetValue::Signed(n) => ValueView::Signed(n),
        BacnetValue::Real(n) => ValueView::Real(n),
        BacnetValue::Double(n) => ValueView::Double(n),
        BacnetValue::OctetString(b) => ValueView::OctetString(b@),
        BacnetValue::CharacterString(s) => ValueView::CharacterString(s@),
        BacnetValue::BitString(b) => ValueView::BitString(b@),
        BacnetValue::Enumerated(n) => ValueView::Enumerated(n),
        BacnetValue::Date(b) => ValueView::Date(b@),
        BacnetValue::Time(b) => ValueView::Time(b@),
        BacnetValue::ObjectId { object_type, instance } => ValueView::ObjectId {
            object_type,
            instance,
        },
        BacnetValue::Unknown => ValueView::Unknown,
        BacnetValue::Array(items) => ValueView::Array(
            Seq::new(
                items@.len(),
                |i: int|
                    if 0 <= i < items@.len() {
                        value_view(items@[i])
                    } else {
                        ValueView::Null
                    },
            ),
        ),
    }
}

impl View for BacnetValue {
    type V = ValueView;

    open spec fn view(&self) -> ValueView {
        value_view(*self)
    }
}

/// The views of a list of values.
pub open spec fn values_view(values: Seq<BacnetValue>) -> Seq<ValueView> {
    Seq::new(values.len(), |i: int| values[i]@)
}

impl Clone for BacnetValue {
    fn clone(&self) -> (res: Self)
        ensures
            res@ == self@,
        decreases self,
    {
        match self {
            BacnetValue::Null => BacnetValue::Null,
            BacnetValue::Boolean(b) => BacnetValue::Boolean(*b),
            BacnetValue::Unsigned(n) => BacnetValue::Unsigned(*n),
            BacnetValue::Signed(n) => BacnetValue::Signed(*n),
            BacnetValue::Real(n) => BacnetValue::Real(*n),
            BacnetValue::Double(n) => BacnetValue::Double(*n),
            BacnetValue::OctetString(b) => BacnetValue::OctetString(b.clone()),
            BacnetValue::CharacterString(s) => BacnetValue::CharacterString(s.clone()),
            BacnetValue::BitString(b) => BacnetValue::BitString(b.clone()),
            BacnetValue::Enumerated(n) => BacnetValue::Enumerated(*n),
            BacnetValue::Date(b) => BacnetValue::Date(*b),
            BacnetValue::Time(b) => BacnetValue::Time(*b),
            BacnetValue::ObjectId { object_type, instance } => BacnetValue::ObjectId {
                object_type: *object_type,
                instance: *instance,
            },
            BacnetValue::Unknown => BacnetValue::Unknown,
            BacnetValue::Array(items) => {
                let mut out: Vec<BacnetValue> = Vec::new();
                let mut i: usize = 0;
                while i < items.len()
                    invariant
                        i <= items@.len(),
                        out@.len() == i,
                        forall|k: int|
                            0 <= k < i ==> value_view(#[trigger] out@[k]) == value_view(items@[k]),
                        *self == BacnetValue::Array(*items),
                    decreases items@.len() - i,
                {
                    assert(decreases_to!(*self => self->Array_0));
                    assert(decreases_to!(self->Array_0 => self->Array_0@[i as int]));
                    let c: BacnetValue = items[i].clone();
                    out.push(c);
                    i += 1;
                }
                assert(value_view(BacnetValue::Array(out))->Array_0 =~= value_view(*self)->Array_0);
                BacnetValue::Array(out)
            },
        }
    }
}

// ── Numeric reading ─────────────────────────────────────────

/// The numeric content of a value, before it becomes a floating-point number.
#[derive(Debug, Clone, Copy, PartialEq, Eq, Structural)]
pub enum Number {
    /// Bits of a single-precision number.
    Single(u32),
    /// Bits of a double-precision number.
    Double(u64),
    /// An unsigned integer (also an enumeration, or 0/1 of a boolean).
    Unsigned(u32),
    /// A signed integer.
    Signed(i32),
}

/// The number that a value stands for: the value's own if it is numeric, that
/// of the first element of an array, and none otherwise.
pub open spec fn number_of(v: ValueView) -> Option<Number>
    decreases v,
{
    match v {
        ValueView::Real(bits) => Some(Number::Single(bits)),
        ValueView::Double(bits) => Some(Number::Double(bits)),
        ValueView::Unsigned(n) => Some(Number::Unsigned(n)),
        ValueView::Signed(n) => Some(Number::Signed(n)),
        ValueView::Boolean(b) => Some(Number::Unsigned(if b { 1 } else { 0 })),
        ValueView::Enumerated(n) => Some(Number::Unsigned(n)),
        ValueView::Array(items) => if items.len() > 0 {
            number_of(items[0])
        } else {
            None
        },
        _ => None,
    }
}

impl BacnetValue {
    /// The number that this value stands for in a read of the present value.
    ///
    /// `None` for a value that is not numeric.
    pub fn to_number(&self) -> (res: Option<Number>)
        ensures
            res == number_of(self@),
        decreases self,
    {
        match self {
            BacnetValue::Real(bits) => Some(Number::Single(*bits)),
            BacnetValue::Double(bits) => Some(Number::Double(*bits)),
            BacnetValue::Unsigned(n) => Some(Number::Unsigned(*n)),
            BacnetValue::Signed(n) => Some(Number::Signed(*n)),
            BacnetValue::Boolean(b) => Some(Number::Unsigned(if *b { 1 } else { 0 })),
            BacnetValue::Enumerated(n) => Some(Number::Unsigned(*n)),
            BacnetValue::Array(items) => {
                if items.len() > 0 {
                    assert(decreases_to!(*self => self->Array_0));
                    assert(decreases_to!(self->Array_0 => self->Array_0@[0]));
                    items[0].to_number()
                } else {
                    None
                }
            },
            _ => None,
        }
    }
}

// ── Text ────────────────────────────────────────────────────

/// What [`String::from_utf8_lossy`] makes of bytes that are not valid UTF-8:
/// each invalid sequence is replaced by U+FFFD.
pub uninterp spec fn utf8_replaced(bytes: Seq<u8>) -> Seq<char>;

/// The text that received bytes stand for.
pub open spec fn lossy_text(bytes: Seq<u8>) -> Seq<char> {
    if valid_utf8(bytes) {
        decode_utf8(bytes)
    } else {
        utf8_replaced(bytes)
    }
}

/// `String::from_utf8_lossy` of the standard library, as an owned string.
///
/// Claimed of it: valid UTF-8 is decoded as it stands; for other bytes the
/// result is a function of the bytes alone, named [`utf8_replaced`].
#[verifier::external_body]
fn string_from_utf8_lossy(bytes: &[u8]) -> (out: String)
    ensures
        valid_utf8(bytes@) ==> out@ == decode_utf8(bytes@),
        !valid_utf8(bytes@) ==> out@ == utf8_replaced(bytes@),
{
    String::from_utf8_lossy(bytes).into_owned()
}

// ── Decoding ────────────────────────────────────────────────

/// What a decoding result says.
pub open spec fn value_result_view(r: Result<(BacnetValue, usize), BacnetError>) -> Result<
    (ValueView, int),
    BacnetErrorView,
> {
    match r {
        Ok((v, n)) => Ok((v@, n as int)),
        Err(e) => Err(e@),
    }
}

/// The number in the first `len` bytes of `s`, for widths up to four bytes.
pub open spec fn parse_unsigned(s: Seq<u8>, len: int) -> Result<u32, BacnetErrorView> {
    if s.len() < len {
        Err(malformed("unsigned value truncated"@))
    } else if len > 4 {
        Err(malformed("unsigned value too wide"@))
    } else {
        Ok(be_value(s.subrange(0, len)) as u32)
    }
}

/// The two's complement reading of the number `raw` received in `len` bytes.
///
/// One, two and four bytes are sign-extended; three bytes are taken as they are.
pub open spec fn signed_reading(raw: u32, len: int) -> i32 {
    if len == 1 && raw >= 0x80 {
        (raw - 0x100) as i32
    } else if len == 2 && raw >= 0x8000 {
        (raw - 0x1_0000) as i32
    } else if raw >= 0x8000_0000 {
        (raw - 0x1_0000_0000) as i32
    } else {
        raw as i32
    }
}

/// Where the value bytes of a string lie: the bytes of its header and the
/// number of bytes after it. `None` if the header is cut off.
pub open spec fn string_extent(s: Seq<u8>) -> Option<(int, int)> {
    let l = lvt(s[0]);
    if l <= 4 {
        Some((1, l))
    } else if l == 5 {
        if s.len() < 2 {
            None
        } else {
            Some((2, s[1] as int))
        }
    } else if l == 6 {
        if s.len() < 3 {
            None
        } else {
            Some((3, be_value(s.subrange(1, 3)) as int))
        }
    } else {
        if s.len() < 5 {
            None
        } else {
            Some((5, be_value(s.subrange(1, 5)) as int))
        }
    }
}

/// The value bytes of a string at the start of `s`, with the bytes that the
/// string takes, or `None` if it is cut off.
pub open spec fn string_content(s: Seq<u8>) -> Option<(Seq<u8>, int)> {
    match string_extent(s) {
        Some((header, len)) => if s.len() < header + len {
            None
        } else {
            Some((s.subrange(header, header + len), header + len))
        },
        None => None,
    }
}

/// A character string at the start of `s`: its header, a character-set byte
/// and the text.
pub open spec fn parse_string(s: Seq<u8>) -> Result<(ValueView, int), BacnetErrorView> {
    match string_extent(s) {
        None => Err(malformed("CharacterString extended length truncated"@)),
        Some((header, len)) => if len == 0 {
            Ok((ValueView::CharacterString(Seq::empty()), header))
        } else if s.len() < header + len {
            Err(malformed("CharacterString truncated"@))
        } else {
            Ok(
                (
                    ValueView::CharacterString(lossy_text(s.subrange(header + 1, header + len))),
                    header + len,
                ),
            )
        },
    }
}

/// Skip over a tag with `lvt` value bytes.
pub open spec fn parse_skipped(s: Seq<u8>, truncated: Seq<char>) -> Result<
    (ValueView, int),
    BacnetErrorView,
> {
    if s.len() < 1 + lvt(s[0]) {
        Err(malformed(truncated))
    } else {
        Ok((ValueView::Unknown, 1 + lvt(s[0])))
    }
}

/// One application-tagged value at the start of `s`, with the bytes it takes.
pub open spec fn parse_value(s: Seq<u8>) -> Result<(ValueView, int), BacnetErrorView> {
    if s.len() == 0 {
        Err(malformed("empty application tag"@))
    } else if is_context(s[0]) {
        parse_skipped(s, "context tag truncated"@)
    } else {
        let tag = tag_number(s[0]);
        let l = lvt(s[0]);
        let rest = s.subrange(1, s.len() as int);
        if tag == 0 {
            Ok((ValueView::Null, 1))
        } else if tag == 1 {
            Ok((ValueView::Boolean(l != 0), 1))
        } else if tag == 2 {
            match parse_unsigned(rest, l) {
                Ok(n) => Ok((ValueView::Unsigned(n), 1 + l)),
                Err(e) => Err(e),
            }
        } else if tag == 3 {
            match parse_unsigned(rest, l) {
                Ok(n) => Ok((ValueView::Signed(signed_reading(n, l)), 1 + l)),
                Err(e) => Err(e),
            }
        } else if tag == 4 {
            if l != 4 {
                Err(malformed("Real tag must have LVT=4"@))
            } else if s.len() < 5 {
                Err(malformed("Real value truncated"@))
            } else {
                Ok((ValueView::Real(be_value(s.subrange(1, 5)) as u32), 5))
            }
        } else if tag == 5 {
            if s.len() < 9 {
                Err(malformed("Double value truncated"@))
            } else {
                Ok((ValueView::Double(be_value(s.subrange(1, 9)) as u64), 9))
            }
        } else if tag == 6 {
            match string_content(s) {
                Some((bytes, n)) => Ok((ValueView::OctetString(bytes), n)),
                None => Err(malformed("OctetString truncated"@)),
            }
        } else if tag == 7 {
            parse_string(s)
        } else if tag == 8 {
            match string_content(s) {
                Some((bytes, n)) => Ok((ValueView::BitString(bytes), n)),
                None => Err(malformed("BitString truncated"@)),
            }
        } else if tag == 9 {
            match parse_unsigned(rest, l) {
                Ok(n) => Ok((ValueView::Enumerated(n), 1 + l)),
                Err(e) => Err(e),
            }
        } else if tag == 10 {
            if l != 4 || s.len() < 5 {
                Err(malformed("Date tag invalid"@))
            } else {
                Ok((ValueView::Date(s.subrange(1, 5)), 5))
            }
        } else if tag == 11 {
            if l != 4 || s.len() < 5 {
                Err(malformed("Time tag invalid"@))
            } else {
                Ok((ValueView::Time(s.subrange(1, 5)), 5))
            }
        } else if tag == 12 {
            if l != 4 {
                Err(malformed("ObjectId tag must have LVT=4"@))
            } else if s.len() < 5 {
                Err(malformed("ObjectId value truncated"@))
            } else {
                let raw = be_value(s.subrange(1, 5));
                Ok(
                    (
                        ValueView::ObjectId {
                            object_type: raw_object_type(raw),
                            instance: raw_instance(raw),
                        },
                        5,
                    ),
                )
            }
        } else {
            parse_skipped(s, "unknown application tag truncated"@)
        }
    }
}

/// A decoded value takes at least its tag byte and never more than there is.
pub proof fn parse_value_extent(s: Seq<u8>)
    ensures
        parse_value(s) matches Ok((_, n)) ==> 1 <= n <= s.len(),
        s.len() == 0 ==> parse_value(s) is Err,
{
    assert(parse_value(s) is Ok || parse_value(s) is Err);
}

/// Read `len` bytes from `data` as a big-endian unsigned integer (0-4 bytes).
pub fn read_unsigned(data: &[u8], len: usize) -> (res: Result<u32, BacnetError>)
    ensures
        super::error::result_view(res) == parse_unsigned(data@, len as int),
{
    if data.len() < len {
        return Err(malformed_frame("unsigned value truncated"));
    }
    proof {
        lemma_be_value_unfold(data@.subrange(0, len as int));
    }
    match len {
        0 => Ok(0),
        1 => Ok(data[0] as u32),
        2 => Ok(read_be16(data, 0) as u32),
        3 => Ok(read_be24(data, 0)),
        4 => Ok(read_be32(data, 0)),
        _ => Err(malformed_frame("unsigned value too wide")),
    }
}

/// Sign-extend a number received in `len` bytes.
fn sign_extend(raw: u32, len: usize) -> (res: i32)
    requires
        len == 1 ==> raw < 0x100,
        len == 2 ==> raw < 0x1_0000,
    ensures
        res == signed_reading(raw, len as int),
{
    if len == 1 && raw >= 0x80 {
        raw as i32 - 0x100
    } else if len == 2 && raw >= 0x8000 {
        raw as i32 - 0x1_0000
    } else if raw >= 0x8000_0000 {
        (raw - 0x8000_0000) as i32 - 0x7FFF_FFFF - 1
    } else {
        raw as i32
    }
}

/// Find where the value bytes of a string lie.
fn read_string_extent(data: &[u8]) -> (res: Option<(usize, u32)>)
    requires
        data@.len() > 0,
    ensures
        match res {
            Some((header, len)) => string_extent(data@) == Some((header as int, len as int))
                && header <= data@.len(),
            None => string_extent(data@) is None,
        },
{
    let l: u8 = data[0] % 8;
    if l <= 4 {
        Some((1, l as u32))
    } else if l == 5 {
        if data.len() < 2 {
            None
        } else {
            Some((2, data[1] as u32))
        }
    } else if l == 6 {
        if data.len() < 3 {
            None
        } else {
            Some((3, read_be16(data, 1) as u32))
        }
    } else {
        if data.len() < 5 {
            None
        } else {
            Some((5, read_be32(data, 1)))
        }
    }
}

/// Copy the value bytes of an octet string or bit string.
fn read_string_content(data: &[u8]) -> (res: Option<(Vec<u8>, usize)>)
    requires
        data@.len() > 0,
    ensures
        match res {
            Some((bytes, n)) => string_content(data@) == Some((bytes@, n as int)),
            None => string_content(data@) is None,
        },
{
    match read_string_extent(data) {
        Some((header, len)) => {
            let len: usize = len as usize;
            if data.len() - header < len {
                None
            } else {
                Some((copy_range(data, header, header + len), header + len))
            }
        },
        None => None,
    }
}

/// Decode a character string at the start of `data`.
fn decode_character_string(data: &[u8]) -> (res: Result<(BacnetValue, usize), BacnetError>)
    requires
        data@.len() > 0,
    ensures
        value_result_view(res) == parse_string(data@),
{
    let (header_len, str_len): (usize, usize) = match read_string_extent(data) {
        Some((header, len)) => (header, len as usize),
        None => return Err(malformed_frame("CharacterString extended length truncated")),
    };
    if str_len == 0 {
        return Ok((BacnetValue::CharacterString(String::new()), header_len));
    }
    if data.len() - header_len < str_len {
        return Err(malformed_frame("CharacterString truncated"));
    }
    let text: String = string_from_utf8_lossy(
        slice_subrange(data, header_len + 1, header_len + str_len),
    );
    Ok((BacnetValue::CharacterString(text), header_len + str_len))
}

/// Decode one application-tagged value from `data`, returning
/// `(value, bytes_consumed)`.
///
/// Context-tagged bytes (class bit = 1) are returned as
/// [`BacnetValue::Unknown`] with `bytes_consumed = 1 + LVT` so the caller
/// can skip them cleanly.
pub fn decode_application_tag(data: &[u8]) -> (res: Result<(BacnetValue, usize), BacnetError>)
    ensures
        value_result_view(res) == parse_value(data@),
        res matches Ok((_, n)) ==> 1 <= n <= data@.len(),
{
    if data.is_empty() {
        return Err(malformed_frame("empty application tag"));
    }
    let tag_byte: u8 = data[0];
    let tag_num: u8 = tag_byte / 16;
    let l: usize = (tag_byte % 8) as usize;
    if tag_byte / 8 % 2 == 1 {
        if data.len() < 1 + l {
            return Err(malformed_frame("context tag truncated"));
        }
        return Ok((BacnetValue::Unknown, 1 + l));
    }
    match tag_num {
        0 => Ok((BacnetValue::Null, 1)),
        1 => Ok((BacnetValue::Boolean(l != 0), 1)),
        2 => match read_unsigned(tail(data, 1), l) {
            Ok(n) => Ok((BacnetValue::Unsigned(n), 1 + l)),
            Err(e) => Err(e),
        },
        3 => match read_unsigned(tail(data, 1), l) {
            Ok(n) => {
                proof {
                    lemma_be_value_unfold(
                        data@.subrange(1, data@.len() as int).subrange(0, l as int),
                    );
                }
                Ok((BacnetValue::Signed(sign_extend(n, l)), 1 + l))
            },
            Err(e) => Err(e),
        },
        4 => {
            if l != 4 {
                return Err(malformed_frame("Real tag must have LVT=4"));
            }
            if data.len() < 5 {
                return Err(malformed_frame("Real value truncated"));
            }
            Ok((BacnetValue::Real(read_be32(data, 1)), 5))
        },
        5 => {
            if data.len() < 9 {
                return Err(malformed_frame("Double value truncated"));
            }
            Ok((BacnetValue::Double(read_be64(data, 1)), 9))
        },
        6 => match read_string_content(data) {
            Some((bytes, n)) => Ok((BacnetValue::OctetString(bytes), n)),
            None => Err(malformed_frame("OctetString truncated")),
        },
        7 => decode_character_string(data),
        8 => match read_string_content(data) {
            Some((bytes, n)) => Ok((BacnetValue::BitString(bytes), n)),
            None => Err(malformed_frame("BitString truncated")),
        },
        9 => match read_unsigned(tail(data, 1), l) {
            Ok(n) => Ok((BacnetValue::Enumerated(n), 1 + l)),
            Err(e) => Err(e),
        },
        10 => {
            if l != 4 || data.len() < 5 {
                return Err(malformed_frame("Date tag invalid"));
            }
            let bytes: [u8; 4] = [data[1], data[2], data[3], data[4]];
            assert(bytes@ =~= data@.subrange(1, 5));
            Ok((BacnetValue::Date(bytes), 5))
        },
        11 => {
            if l != 4 || data.len() < 5 {
                return Err(malformed_frame("Time tag invalid"));
            }
            let bytes: [u8; 4] = [data[1], data[2], data[3], data[4]];
            assert(bytes@ =~= data@.subrange(1, 5));
            Ok((BacnetValue::Time(bytes), 5))
        },
        12 => {
            if l != 4 {
                return Err(malformed_frame("ObjectId tag must have LVT=4"));
            }
            if data.len() < 5 {
                return Err(malformed_frame("ObjectId value truncated"));
            }
            let (object_type, instance): (u16, u32) = unpack_object_id(read_be32(data, 1));
            Ok((BacnetValue::ObjectId { object_type, instance }, 5))
        },
        _ => {
            if data.len() < 1 + l {
                return Err(malformed_frame("unknown application tag truncated"));
            }
            Ok((BacnetValue::Unknown, 1 + l))
        },
    }
}

// ── Encoding helpers ────────────────────────────────────────

/// The least number of bytes (1-4) that holds `n`.
pub open spec fn min_width(n: u32) -> nat {
    if n <= 0xFF {
        1
    } else if n <= 0xFFFF {
        2
    } else if n <= 0xFF_FFFF {
        3
    } else {
        4
    }
}

/// Encode a BACnet Unsigned integer with application tag 2.
///
/// Chooses the minimum byte width needed to represent `n`, one to four bytes;
/// the tag byte is `0x20 | width`.
pub fn encode_unsigned(n: u32) -> (out: Vec<u8>)
    ensures
        out@ == seq![(0x20 + min_width(n)) as u8] + be_bytes(n as nat, min_width(n)),
{
    let mut out: Vec<u8> = Vec::new();
    if n <= 0xFF {
        out.push(0x21);
        out.push(n as u8);
        proof {
            lemma_be_bytes_unfold(n as nat);
        }
    } else if n <= 0xFFFF {
        out.push(0x22);
        push_be16(&mut out, n as u16);
    } else if n <= 0x00FF_FFFF {
        out.push(0x23);
        push_be24(&mut out, n);
    } else {
        out.push(0x24);
        push_be32(&mut out, n);
    }
    assert(out@ =~= seq![(0x20 + min_width(n)) as u8] + be_bytes(n as nat, min_width(n)));
    out
}

/// Encode a BACnet context-tagged object identifier: the tag byte with four
/// value bytes, then ten bits of type and 22 bits of instance.
pub fn encode_object_id_context(tag: u8, obj_type: u16, instance: u32) -> (out: Vec<u8>)
    ensures
        out@ == seq![context_tag(tag, 4)] + be_bytes(object_id_raw(obj_type, instance), 4),
{
    let mut out: Vec<u8> = Vec::new();
    out.push(tag % 16 * 16 + 12);
    push_be32(&mut out, pack_object_id(obj_type, instance));
    assert(out@ =~= seq![context_tag(tag, 4)] + be_bytes(object_id_raw(obj_type, instance), 4));
    out
}

/// Encode a BACnet context-tagged property identifier.
///
/// Uses the minimum number of bytes (one to four) that holds `property_id`.
pub fn encode_property_id_context(tag: u8, property_id: u32) -> (out: Vec<u8>)
    ensures
        out@ == seq![context_tag(tag, min_width(property_id))] + be_bytes(
            property_id as nat,
            min_width(property_id),
        ),
{
    let base: u8 = tag % 16 * 16 + 8;
    let mut out: Vec<u8> = Vec::new();
    if property_id <= 0xFF {
        out.push(base + 1);
        out.push(property_id as u8);
        proof {
            lemma_be_bytes_unfold(property_id as nat);
        }
    } else if property_id <= 0xFFFF {
        out.push(base + 2);
        push_be16(&mut out, property_id as u16);
    } else if property_id <= 0x00FF_FFFF {
        out.push(base + 3);
        push_be24(&mut out, property_id);
    } else {
        out.push(base + 4);
        push_be32(&mut out, property_id);
    }
    assert(out@ =~= seq![context_tag(tag, min_width(property_id))] + be_bytes(
        property_id as nat,
        min_width(property_id),
    ));
    out
}

} // verus!
