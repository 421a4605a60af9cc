//! Texts of messages.

use sandstar_drivers::text::{
    joined, mentions, push_hex4, text, text_decimal, text_decimal_tail, text_hex2,
};

#[test]
fn numerals_have_no_leading_zeros() {
    assert_eq!(text_decimal("", 0), "0");
    assert_eq!(text_decimal("n=", 10), "n=10");
    assert_eq!(text_decimal("", u128::MAX), u128::MAX.to_string());
    assert_eq!(text_decimal_tail("<", 4096, ">"), "<4096>");
}

#[test]
fn hexadecimal_numerals_have_a_fixed_width() {
    assert_eq!(text_hex2("0x", 0x0A), "0x0A");
    assert_eq!(text_hex2("", 0xFF), "FF");
    let mut out = text("0x");
    push_hex4(&mut out, 0x0030);
    assert_eq!(out, "0x0030");
}

#[test]
fn parts_of_texts_are_found() {
    assert!(mentions("driver 'x' not found", "not found"));
    assert!(mentions("not found", "not found"));
    assert!(!mentions("not foun", "not found"));
    assert!(!mentions("found not", "not found"));
    assert!(mentions("anything", ""));
    assert!(mentions("caf\u{E9} ol\u{E9}", "\u{E9} o"));
    assert_eq!(joined("a", "b"), "ab");
}
