//! Tests for the UTF-8 scanner, boundary check, and code-point encoder.

use strchunk::validate::{encode_char, is_boundary, scan_utf8, Utf8Tail};

#[test]
fn scan_complete_ascii() {
    assert_eq!(scan_utf8(b"abc"), (3, Utf8Tail::Complete));
}

#[test]
fn scan_complete_multibyte() {
    assert_eq!(scan_utf8("aß中𝄞".as_bytes()), (10, Utf8Tail::Complete));
}

#[test]
fn scan_empty() {
    assert_eq!(scan_utf8(b""), (0, Utf8Tail::Complete));
}

#[test]
fn scan_incomplete_tails() {
    assert_eq!(scan_utf8(b"ab\xd0"), (2, Utf8Tail::Incomplete));
    assert_eq!(scan_utf8(b"\xe2\x82"), (0, Utf8Tail::Incomplete));
    assert_eq!(scan_utf8(b"\xf0\x9d\x84"), (0, Utf8Tail::Incomplete));
}

#[test]
fn scan_invalid_sequences() {
    // a stray continuation byte
    assert_eq!(scan_utf8(b"a\x80b"), (1, Utf8Tail::Invalid { error_len: 1 }));
    // an overlong two-byte encoding
    assert_eq!(scan_utf8(b"\xc0\xaf"), (0, Utf8Tail::Invalid { error_len: 1 }));
    // a surrogate encoding
    assert_eq!(scan_utf8(b"\xed\xa0\x80"), (0, Utf8Tail::Invalid { error_len: 1 }));
    // a lead beyond U+10FFFF
    assert_eq!(scan_utf8(b"\xf5\x80\x80\x80"), (0, Utf8Tail::Invalid { error_len: 1 }));
    // a maximal subpart of three bytes before a plain letter
    assert_eq!(scan_utf8(b"\xf0\x90\x80W"), (0, Utf8Tail::Invalid { error_len: 3 }));
    // a two-byte maximal subpart
    assert_eq!(scan_utf8(b"\xe2\x82q"), (0, Utf8Tail::Invalid { error_len: 2 }));
}

#[test]
fn boundary_at_char_starts_only() {
    let s = "Привет".as_bytes();
    assert!(is_boundary(s, 0));
    assert!(!is_boundary(s, 1));
    assert!(is_boundary(s, 2));
    assert!(is_boundary(s, 12));
    assert!(!is_boundary(s, 13));
}

#[test]
fn encode_char_all_widths() {
    assert_eq!(encode_char('A'), vec![0x41]);
    assert_eq!(encode_char('ß'), vec![0xc3, 0x9f]);
    assert_eq!(encode_char('€'), vec![0xe2, 0x82, 0xac]);
    assert_eq!(encode_char('𝄞'), vec![0xf0, 0x9d, 0x84, 0x9e]);
}
