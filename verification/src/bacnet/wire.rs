//! Byte-level building blocks of the BACnet encoding: big-endian numbers and
//! tag bytes.

use vstd::prelude::*;
use vstd::slice::slice_subrange;

verus! {

// ── Big-endian numbers ──────────────────────────────────────

/// The number that the bytes of `s` spell, most significant byte first.
pub open spec fn be_value(s: Seq<u8>) -> nat
    decreases s.len(),
{
    if s.len() == 0 {
        0
    } else {
        be_value(s.drop_last()) * 256 + s.last() as nat
    }
}

/// The lowest `width` bytes of `n`, most significant byte first.
pub open spec fn be_bytes(n: nat, width: nat) -> Seq<u8>
    decreases width,
{
    if width == 0 {
        Seq::empty()
    } else {
        be_bytes(n / 256, (width - 1) as nat).push((n % 256) as u8)
    }
}

/// Unfold [`be_value`] for sequences of up to four bytes.
pub(crate) proof fn lemma_be_value_unfold(s: Seq<u8>)
    ensures
        s.len() == 0 ==> be_value(s) == 0,
        s.len() == 1 ==> be_value(s) == s[0],
        s.len() == 2 ==> be_value(s) == s[0] * 256 + s[1],
        s.len() == 3 ==> be_value(s) == (s[0] * 256 + s[1]) * 256 + s[2],
        s.len() == 4 ==> be_value(s) == ((s[0] * 256 + s[1]) * 256 + s[2]) * 256 + s[3],
{
    reveal_with_fuel(be_value, 5);
}

/// Unfold [`be_bytes`] for widths of up to four bytes.
pub(crate) proof fn lemma_be_bytes_unfold(n: nat)
    ensures
        be_bytes(n, 1) =~= seq![(n % 256) as u8],
        be_bytes(n, 2) =~= seq![(n / 256 % 256) as u8, (n % 256) as u8],
        be_bytes(n, 3) =~= seq![(n / 65536 % 256) as u8, (n / 256 % 256) as u8, (n % 256) as u8],
        be_bytes(n, 4) =~= seq![
            (n / 16777216 % 256) as u8,
            (n / 65536 % 256) as u8,
            (n / 256 % 256) as u8,
            (n % 256) as u8,
        ],
{
    reveal_with_fuel(be_bytes, 5);
    assert(n / 256 / 256 == n / 65536);
    assert(n / 65536 / 256 == n / 16777216);
}

/// A number written in enough bytes is read back unchanged.
pub proof fn be_round_trip(n: nat, width: nat)
    requires
        n < vstd::arithmetic::power::pow(256, width),
    ensures
        be_value(be_bytes(n, width)) == n,
        be_bytes(n, width).len() == width,
    decreases width,
{
    if width == 0 {
        vstd::arithmetic::power::lemma_pow0(256);
    } else {
        let w: nat = (width - 1) as nat;
        assert(n / 256 < vstd::arithmetic::power::pow(256, w)) by {
            reveal(vstd::arithmetic::power::pow);
        }
        be_round_trip(n / 256, w);
        assert(be_bytes(n, width).drop_last() =~= be_bytes(n / 256, w));
    }
}

/// The width of [`be_bytes`] is the width asked for.
pub(crate) proof fn lemma_be_bytes_len(n: nat, width: nat)
    ensures
        be_bytes(n, width).len() == width,
    decreases width,
{
    if width > 0 {
        lemma_be_bytes_len(n / 256, (width - 1) as nat);
    }
}

/// Append `n` in two bytes.
pub fn push_be16(buf: &mut Vec<u8>, n: u16)
    ensures
        final(buf)@ == old(buf)@ + be_bytes(n as nat, 2),
{
    proof {
        lemma_be_bytes_unfold(n as nat);
    }
    buf.push((n / 256) as u8);
    buf.push((n % 256) as u8);
    assert(buf@ =~= old(buf)@ + be_bytes(n as nat, 2));
}

/// Append the lowest three bytes of `n`.
pub fn push_be24(buf: &mut Vec<u8>, n: u32)
    ensures
        final(buf)@ == old(buf)@ + be_bytes(n as nat, 3),
{
    proof {
        lemma_be_bytes_unfold(n as nat);
    }
    buf.push((n / 65536 % 256) as u8);
    buf.push((n / 256 % 256) as u8);
    buf.push((n % 256) as u8);
    assert(buf@ =~= old(buf)@ + be_bytes(n as nat, 3));
}

/// Append `n` in four bytes.
pub fn push_be32(buf: &mut Vec<u8>, n: u32)
    ensures
        final(buf)@ == old(buf)@ + be_bytes(n as nat, 4),
{
    proof {
        lemma_be_bytes_unfold(n as nat);
    }
    buf.push((n / 16777216) as u8);
    buf.push((n / 65536 % 256) as u8);
    buf.push((n / 256 % 256) as u8);
    buf.push((n % 256) as u8);
    assert(buf@ =~= old(buf)@ + be_bytes(n as nat, 4));
}

/// Append `n` in eight bytes.
pub fn push_be64(buf: &mut Vec<u8>, n: u64)
    ensures
        final(buf)@ == old(buf)@ + be_bytes(n as nat, 8),
{
    let hi: u32 = (n / 0x1_0000_0000) as u32;
    let lo: u32 = (n % 0x1_0000_0000) as u32;
    push_be32(buf, hi);
    push_be32(buf, lo);
    proof {
        lemma_be_bytes_split(n as nat);
        assert(buf@ =~= old(buf)@ + be_bytes(n as nat, 8));
    }
}

/// Eight bytes are the four high bytes followed by the four low bytes.
proof fn lemma_be_bytes_split(n: nat)
    ensures
        be_bytes(n, 8) == be_bytes(n / 0x1_0000_0000, 4) + be_bytes(n % 0x1_0000_0000, 4),
{
    reveal_with_fuel(be_bytes, 9);
    let hi: nat = n / 0x1_0000_0000;
    let lo: nat = n % 0x1_0000_0000;
    assert(n == hi * 0x1_0000_0000 + lo);
    assert(n / 256 / 256 / 256 / 256 == hi);
    assert(n % 256 == lo % 256);
    assert(n / 256 % 256 == lo / 256 % 256);
    assert(n / 256 / 256 % 256 == lo / 256 / 256 % 256);
    assert(n / 256 / 256 / 256 % 256 == lo / 256 / 256 / 256 % 256);
    assert(be_bytes(n, 8) =~= be_bytes(hi, 4) + be_bytes(lo, 4));
}

/// Read two bytes at `at`.
pub fn read_be16(data: &[u8], at: usize) -> (n: u16)
    requires
        at + 2 <= data@.len(),
    ensures
        n == be_value(data@.subrange(at as int, at + 2)),
{
    proof {
        lemma_be_value_unfold(data@.subrange(at as int, at + 2));
    }
    data[at] as u16 * 256 + data[at + 1] as u16
}

/// Read three bytes at `at`.
pub fn read_be24(data: &[u8], at: usize) -> (n: u32)
    requires
        at + 3 <= data@.len(),
    ensures
        n == be_value(data@.subrange(at as int, at + 3)),
{
    proof {
        lemma_be_value_unfold(data@.subrange(at as int, at + 3));
    }
    (data[at] as u32 * 256 + data[at + 1] as u32) * 256 + data[at + 2] as u32
}

/// Read four bytes at `at`.
pub fn read_be32(data: &[u8], at: usize) -> (n: u32)
    requires
        at + 4 <= data@.len(),
    ensures
        n == be_value(data@.subrange(at as int, at + 4)),
{
    proof {
        lemma_be_value_unfold(data@.subrange(at as int, at + 4));
    }
    ((data[at] as u32 * 256 + data[at + 1] as u32) * 256 + data[at + 2] as u32) * 256 + data[at
        + 3] as u32
}

/// Read eight bytes at `at`.
pub fn read_be64(data: &[u8], at: usize) -> (n: u64)
    requires
        at + 8 <= data@.len(),
    ensures
        n == be_value(data@.subrange(at as int, at + 8)),
{
    assert(at + 8 <= data.len());
    let hi: u32 = read_be32(data, at);
    let lo: u32 = read_be32(data, at + 4);
    proof {
        let s: Seq<u8> = data@.subrange(at as int, at + 8);
        assert(s.subrange(0, 4) =~= data@.subrange(at as int, at + 4));
        assert(s.subrange(4, 8) =~= data@.subrange(at + 4, at + 8));
        lemma_be_value_split(s);
    }
    hi as u64 * 0x1_0000_0000 + lo as u64
}

/// Eight bytes spell the high four bytes shifted by 32 bits plus the low four.
proof fn lemma_be_value_split(s: Seq<u8>)
    requires
        s.len() == 8,
    ensures
        be_value(s) == be_value(s.subrange(0, 4)) * 0x1_0000_0000 + be_value(s.subrange(4, 8)),
{
    lemma_be_value_unfold(s.subrange(0, 4));
    lemma_be_value_unfold(s.subrange(4, 8));
    reveal_with_fuel(be_value, 5);
    let s4: Seq<u8> = s.drop_last().drop_last().drop_last().drop_last();
    assert(s4 =~= s.subrange(0, 4));
    let v: nat = be_value(s4);
    assert(be_value(s) == (((v * 256 + s[4]) * 256 + s[5]) * 256 + s[6]) * 256 + s[7]);
}

/// The part of `data` from `from` on.
pub fn tail(data: &[u8], from: usize) -> (out: &[u8])
    requires
        from <= data@.len(),
    ensures
        out@ == data@.subrange(from as int, data@.len() as int),
{
    slice_subrange(data, from, data.len())
}

/// An owned copy of `data[from..to]`.
pub fn copy_range(data: &[u8], from: usize, to: usize) -> (out: Vec<u8>)
    requires
        from <= to <= data@.len(),
    ensures
        out@ == data@.subrange(from as int, to as int),
{
    vstd::slice::slice_to_vec(slice_subrange(data, from, to))
}

/// Two bytes depend on the low 16 bits alone.
pub(crate) proof fn lemma_be_bytes_low(n: nat, low: nat)
    requires
        low == n % 65536,
    ensures
        be_bytes(n, 2) == be_bytes(low, 2),
{
    let q = n / 65536;
    assert(n == 65536 * q + low);
    assert(n / 256 == 256 * q + low / 256);
    assert(n / 256 % 256 == low / 256 % 256);
    assert(n % 256 == low % 256);
    lemma_be_bytes_unfold(n);
    lemma_be_bytes_unfold(low);
}

/// Append all of `bytes`.
pub fn push_all(buf: &mut Vec<u8>, bytes: &[u8])
    ensures
        final(buf)@ == old(buf)@ + bytes@,
{
    let mut i: usize = 0;
    while i < bytes.len()
        invariant
            i <= bytes@.len(),
            buf@ == old(buf)@ + bytes@.subrange(0, i as int),
        decreases bytes@.len() - i,
    {
        buf.push(bytes[i]);
        i += 1;
        assert(buf@ =~= old(buf)@ + bytes@.subrange(0, i as int));
    }
    assert(bytes@.subrange(0, i as int) =~= bytes@);
}

// ── Tag bytes ───────────────────────────────────────────────

/// Tag number: the high nibble of a tag byte.
pub open spec fn tag_number(b: u8) -> int {
    b as int / 16
}

/// Whether the class bit of a tag byte says "context".
pub open spec fn is_context(b: u8) -> bool {
    b as int / 8 % 2 == 1
}

/// Length/value/type: the low three bits of a tag byte.
pub open spec fn lvt(b: u8) -> int {
    b as int % 8
}

/// The tag byte of context tag `tag` with `len` value bytes.
pub open spec fn context_tag(tag: u8, len: nat) -> u8 {
    (tag as int % 16 * 16 + 8 + len) as u8
}

// ── Object identifiers ──────────────────────────────────────

/// The 32-bit form of an object identifier: ten bits of type, 22 of instance.
pub open spec fn object_id_raw(object_type: u16, instance: u32) -> nat {
    (object_type as nat % 1024) * 4194304 + instance as nat % 4194304
}

/// The object type in the 32-bit form of an object identifier.
pub open spec fn raw_object_type(raw: nat) -> u16 {
    (raw / 4194304 % 1024) as u16
}

/// The instance number in the 32-bit form of an object identifier.
pub open spec fn raw_instance(raw: nat) -> u32 {
    (raw % 4194304) as u32
}

/// Pack an object identifier; a type above 1023 or an instance above
/// 4 194 303 loses its high bits.
pub fn pack_object_id(object_type: u16, instance: u32) -> (raw: u32)
    ensures
        raw == object_id_raw(object_type, instance),
{
    (object_type as u32 % 1024) * 4194304 + instance % 4194304
}

/// Split the 32-bit form of an object identifier into type and instance.
pub fn unpack_object_id(raw: u32) -> (res: (u16, u32))
    ensures
        res.0 == raw_object_type(raw as nat),
        res.1 == raw_instance(raw as nat),
{
    ((raw / 4194304 % 1024) as u16, raw % 4194304)
}

/// An object identifier that fits its 10 and 22 bits survives packing.
pub proof fn object_id_round_trip(object_type: u16, instance: u32)
    requires
        object_type < 1024,
        instance < 4194304,
    ensures
        raw_object_type(object_id_raw(object_type, instance)) == object_type,
        raw_instance(object_id_raw(object_type, instance)) == instance,
{
}

} // verus!
