//! Text helpers.

use luma_core::text::{
    ascii_string, parse_i64, push_decimal, push_padded, push_signed, same_bytes, same_text,
    same_text_ignoring_case, trim, upper_contains,
};
use luma_core::wire::{be16, be32};



#[test]
fn numbers_are_written_as_std_writes_them() {
    for n in [0u64, 7, 10, 65_535, u64::MAX] {
        let mut s = String::from("x");
        push_decimal(&mut s, n);
        assert_eq!(s, format!("x{n}"));
    }
    for n in [i64::MIN, -1, 0, 42, i64::MAX] {
        let mut s = String::new();
        push_signed(&mut s, n);
        assert_eq!(s, format!("{n}"));
    }
    let mut s = String::new();
    push_padded(&mut s, 7, 4);
    assert_eq!(s, "0007");
}

#[test]
fn numbers_are_read_as_std_reads_them() {
    for s in ["0", "-0", "+5", "-9223372036854775808", "9223372036854775807", "12x", "", "-", "9223372036854775808"] {
        assert_eq!(parse_i64(s.as_bytes()), s.parse::<i64>().ok(), "{s}");
    }
}

#[test]
fn white_space_is_trimmed_as_std_trims_it() {
    for s in ["", " ", "a", " a\tb\n", "\u{3000}a\u{85}", "\u{200b}a"] {
        assert_eq!(trim(s), s.trim(), "{s:?}");
    }
}

#[test]
fn text_is_compared_by_its_characters() {
    assert!(same_text("é", "é"));
    assert!(!same_text("é", "e"));
    assert!(same_bytes(b"ab", b"ab"));
    assert!(!same_bytes(b"ab", b"abc"));
    assert!(same_text_ignoring_case("sizeLength", "SIZElength"));
    assert!(!same_text_ignoring_case("é", "É"));
    assert!(upper_contains("0000aa13-0000", "AA13"));
    assert!(!upper_contains("0000aa12-0000", "AA13"));
    assert_eq!(ascii_string(b"T1"), "T1");
}

#[test]
fn wire_integers_are_big_endian() {
    assert_eq!(be16(&[0xFF, 0x01, 0x02], 1), 0x0102);
    assert_eq!(be32(&[0x00, 0x00, 0x04, 0x0B], 0), 0x0000_040B);
}
