//! Text building blocks for messages: decimal and hexadecimal numerals.

use vstd::prelude::*;
use vstd::string::*;

verus! {

/// The numeral of a single hexadecimal digit, upper case.
pub open spec fn hex_digit(d: int) -> char {
    if d < 10 {
        ('0' as int + d) as char
    } else {
        ('A' as int + (d - 10)) as char
    }
}

/// The decimal numeral of `n`, without leading zeros.
pub open spec fn decimal(n: nat) -> Seq<char>
    decreases n,
{
    if n < 10 {
        seq![hex_digit(n as int)]
    } else {
        decimal(n / 10).push(hex_digit((n % 10) as int))
    }
}

/// Two upper-case hexadecimal digits.
pub open spec fn hex2(b: u8) -> Seq<char> {
    seq![hex_digit(b as int / 16), hex_digit(b as int % 16)]
}

/// Four upper-case hexadecimal digits.
pub open spec fn hex4(n: u16) -> Seq<char> {
    hex2((n / 256) as u8) + hex2((n % 256) as u8)
}

/// The one-character string of a hexadecimal digit.
fn digit_str(d: u8) -> (s: &'static str)
    requires
        d < 16,
    ensures
        s@ == seq![hex_digit(d as int)],
{
    proof {
        reveal_strlit("0");
        reveal_strlit("1");
        reveal_strlit("2");
        reveal_strlit("3");
        reveal_strlit("4");
        reveal_strlit("5");
        reveal_strlit("6");
        reveal_strlit("7");
        reveal_strlit("8");
        reveal_strlit("9");
        reveal_strlit("A");
        reveal_strlit("B");
        reveal_strlit("C");
        reveal_strlit("D");
        reveal_strlit("E");
        reveal_strlit("F");
    }
    match d {
        0 => "0",
        1 => "1",
        2 => "2",
        3 => "3",
        4 => "4",
        5 => "5",
        6 => "6",
        7 => "7",
        8 => "8",
        9 => "9",
        10 => "A",
        11 => "B",
        12 => "C",
        13 => "D",
        14 => "E",
        _ => "F",
    }
}

/// Append the decimal numeral of `n`.
pub fn push_decimal(out: &mut String, n: u128)
    ensures
        final(out)@ == old(out)@ + decimal(n as nat),
    decreases n,
{
    if n >= 10 {
        push_decimal(out, n / 10);
    }
    let d: u8 = (n % 10) as u8;
    out.append(digit_str(d));
    assert(out@ =~= old(out)@ + decimal(n as nat));
}

/// Append two hexadecimal digits.
pub fn push_hex2(out: &mut String, b: u8)
    ensures
        final(out)@ == old(out)@ + hex2(b),
{
    out.append(digit_str(b / 16));
    out.append(digit_str(b % 16));
    assert(out@ =~= old(out)@ + hex2(b));
}

/// Append four hexadecimal digits.
pub fn push_hex4(out: &mut String, n: u16)
    ensures
        final(out)@ == old(out)@ + hex4(n),
{
    push_hex2(out, (n / 256) as u8);
    push_hex2(out, (n % 256) as u8);
    assert(out@ =~= old(out)@ + hex4(n));
}

/// The literal `s` as an owned string.
pub fn text(s: &str) -> (out: String)
    ensures
        out@ == s@,
{
    s.to_owned()
}

/// `head` followed by the decimal numeral of `n`.
pub fn text_decimal(head: &str, n: u128) -> (out: String)
    ensures
        out@ == head@ + decimal(n as nat),
{
    let mut out: String = text(head);
    push_decimal(&mut out, n);
    out
}

/// `head`, the decimal numeral of `n`, then `tail`.
pub fn text_decimal_tail(head: &str, n: u128, tail: &str) -> (out: String)
    ensures
        out@ == head@ + decimal(n as nat) + tail@,
{
    let mut out: String = text_decimal(head, n);
    out.append(tail);
    out
}

/// `head` followed by two hexadecimal digits of `b`.
pub fn text_hex2(head: &str, b: u8) -> (out: String)
    ensures
        out@ == head@ + hex2(b),
{
    let mut out: String = text(head);
    push_hex2(&mut out, b);
    out
}

/// `head` followed by `tail`.
pub fn joined(head: &str, tail: &str) -> (out: String)
    ensures
        out@ == head@ + tail@,
{
    let mut out: String = text(head);
    out.append(tail);
    out
}

/// Whether `part` occurs in `whole`.
pub open spec fn occurs(part: Seq<char>, whole: Seq<char>) -> bool {
    exists|i: int|
        0 <= i <= whole.len() - part.len() && #[trigger] whole.subrange(i, i + part.len()) == part
}

/// Whether `part` occurs in `whole`.
pub fn mentions(whole: &str, part: &str) -> (res: bool)
    ensures
        res == occurs(part@, whole@),
{
    let wanted: String = text(part);
    let n: usize = whole.unicode_len();
    let m: usize = part.unicode_len();
    if m > n {
        return false;
    }
    let mut i: usize = 0;
    while i <= n - m
        invariant
            n == whole@.len(),
            m == part@.len(),
            m <= n,
            i <= n - m + 1,
            wanted@ == part@,
            forall|k: int|
                0 <= k < i ==> #[trigger] whole@.subrange(k, k + part@.len()) != part@,
        decreases n - m + 1 - i,
    {
        let here: String = text(whole.substring_char(i, i + m));
        if here == wanted {
            assert(whole@.subrange(i as int, i + part@.len()) == part@);
            return true;
        }
        if i == n - m {
            return false;
        }
        i += 1;
    }
    false
}

// ── Laws ────────────────────────────────────────────────────

/// The number that a decimal numeral stands for.
pub open spec fn numeral_value(s: Seq<char>) -> int
    decreases s.len(),
{
    if s.len() == 0 {
        0
    } else {
        numeral_value(s.drop_last()) * 10 + (s.last() as int - '0' as int)
    }
}

/// The decimal numeral of a number stands for it, is made of digits, and begins
/// with a zero only for zero itself.
pub proof fn decimal_stands_for_its_number(n: nat)
    ensures
        numeral_value(decimal(n)) == n,
        decimal(n).len() > 0,
        forall|i: int| 0 <= i < decimal(n).len() ==> '0' <= #[trigger] decimal(n)[i] <= '9',
        decimal(n)[0] == '0' <==> n == 0,
    decreases n,
{
    let s = decimal(n);
    if n < 10 {
        assert(s.drop_last() =~= Seq::empty());
        assert(numeral_value(s.drop_last()) == 0);
    } else {
        decimal_stands_for_its_number(n / 10);
        assert(s.drop_last() =~= decimal(n / 10));
        assert forall|i: int| 0 <= i < s.len() implies '0' <= #[trigger] s[i] <= '9' by {
            if i < s.len() - 1 {
                assert(s[i] == decimal(n / 10)[i]);
            }
        }
        assert(s[0] == decimal(n / 10)[0]);
    }
}

/// Two hexadecimal digits tell their byte.
pub proof fn hex_digits_tell_their_byte(a: u8, b: u8)
    ensures
        hex2(a).len() == 2,
        hex2(a) == hex2(b) ==> a == b,
        a < 10 ==> hex2(a)[0] == '0' && hex2(a)[1] as int == '0' as int + a,
{
    if hex2(a) == hex2(b) {
        assert(hex2(a)[0] == hex2(b)[0] && hex2(a)[1] == hex2(b)[1]);
        assert(a as int / 16 == b as int / 16);
        assert(a as int % 16 == b as int % 16);
    }
}

/// Four hexadecimal digits are those of the high and of the low byte.
pub proof fn hex_digits_tell_their_word(hi: u8, lo: u8)
    ensures
        hex4((hi * 256 + lo) as u16) == hex2(hi) + hex2(lo),
{
    let n = (hi * 256 + lo) as u16;
    assert(n / 256 == hi);
    assert(n % 256 == lo);
}

/// A hexadecimal digit below ten is the decimal one, and the others are letters.
pub proof fn hex_digit_is_digit_or_letter(n: int)
    requires
        0 <= n < 16,
    ensures
        n < 10 ==> hex_digit(n) as int == '0' as int + n,
        n >= 10 ==> hex_digit(n) as int == 'A' as int + n - 10,
{
}

} // verus!
