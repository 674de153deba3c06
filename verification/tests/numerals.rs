//! The byte-string helpers behind the URL surface: numeral parsing exactly as
//! `str::parse::<u32>` behaves, rendering, and the small slice utilities.

use catmap::bytestr::{bytes_eq, copy_range, find_byte, parse_u32, starts_with, u32_to_dec};

#[test]
fn parse_u32_matches_the_standard_parser() {
    let cases: &[&str] = &[
        "0", "1", "007", "42", "4294967295", "4294967296", "99999999999999999999",
        "", "+", "+15", "++1", "-3", "1a", "a1", "1.5", " 1", "1 ",
    ];
    for s in cases {
        let expected = s.parse::<u32>().ok();
        assert_eq!(parse_u32(s.as_bytes()), expected, "on input {:?}", s);
    }
}

#[test]
fn u32_to_dec_renders_shortest_decimal() {
    assert_eq!(u32_to_dec(0), b"0".to_vec());
    assert_eq!(u32_to_dec(7), b"7".to_vec());
    assert_eq!(u32_to_dec(10), b"10".to_vec());
    assert_eq!(u32_to_dec(1234), b"1234".to_vec());
    assert_eq!(u32_to_dec(u32::MAX), b"4294967295".to_vec());
}

#[test]
fn rendering_parses_back() {
    for n in [0u32, 1, 9, 10, 99, 100, 4096, u32::MAX] {
        assert_eq!(parse_u32(&u32_to_dec(n)), Some(n));
    }
}

#[test]
fn slice_helpers() {
    assert!(bytes_eq(b"abc", b"abc"));
    assert!(!bytes_eq(b"abc", b"abd"));
    assert!(!bytes_eq(b"abc", b"ab"));
    assert!(starts_with(b"abcdef", b"abc"));
    assert!(starts_with(b"abc", b""));
    assert!(!starts_with(b"ab", b"abc"));
    assert_eq!(find_byte(b"a.b.c", b'.'), Some(1));
    assert_eq!(find_byte(b"abc", b'.'), None);
    assert_eq!(copy_range(b"abcdef", 1, 4), b"bcd".to_vec());
}
