//! Tests for the growable `StrChunkMut` buffer.

use std::collections::hash_map::DefaultHasher;
use std::hash::{Hash, Hasher};
use strchunk::{StrChunk, StrChunkMut};

fn hash_of<T: Hash>(v: &T) -> u64 {
    let mut h = DefaultHasher::new();
    v.hash(&mut h);
    h.finish()
}

#[test]
fn chunk_mut_new_is_empty() {
    let m = StrChunkMut::new();
    assert!(m.is_empty());
    assert_eq!(m.len(), 0);
    assert_eq!(m.as_str(), "");
}

#[test]
fn with_capacity_reserves() {
    let m = StrChunkMut::with_capacity(16);
    assert!(m.is_empty());
    assert!(m.capacity() >= 16);
}

#[test]
fn chunk_mut_as_bytes_via_deref() {
    let s = StrChunkMut::copy_from_slice("Hello");
    assert_eq!(s.as_bytes(), b"Hello");
}

#[test]
fn put_char_encodes_all_widths() {
    // One code point of each UTF-8 encoding width, then freeze: the frozen
    // text is the concatenation of the characters' own encodings.
    let mut m = StrChunkMut::with_capacity(16);
    m.put_char('a');
    m.put_char('ß');
    m.put_char('中');
    m.put_char('𝄞');
    assert_eq!(m.len(), 1 + 2 + 3 + 4);
    assert_eq!(m.as_str(), "aß中𝄞");
    let frozen = m.freeze();
    assert_eq!(frozen.as_str(), "aß中𝄞");
    assert_eq!(frozen.as_bytes(), "aß中𝄞".as_bytes());
}

#[test]
fn put_str_appends() {
    let mut m = StrChunkMut::new();
    m.put_str("Hello, ");
    m.put_str("Здравствуй");
    assert_eq!(m.as_str(), "Hello, Здравствуй");
}

#[test]
fn extend_chars_appends_each() {
    let mut m = StrChunkMut::new();
    m.extend_chars(&['π', '≈', '3']);
    assert_eq!(m.as_str(), "π≈3");
}

#[test]
fn extend_strs_appends_each() {
    let mut m = StrChunkMut::new();
    m.extend_strs(&["He", "ll", "o"]);
    assert_eq!(m.as_str(), "Hello");
}

#[test]
fn from_chars_collects() {
    let m = StrChunkMut::from_chars(&['é', 't', 'é']);
    assert_eq!(m.as_str(), "été");
}

#[test]
fn reserve_keeps_content() {
    let mut m = StrChunkMut::copy_from_slice("abc");
    m.reserve(100);
    assert!(m.capacity() >= 103);
    assert_eq!(m.as_str(), "abc");
}

#[test]
fn with_capacity_holds_appends_without_reallocating() {
    let mut m = StrChunkMut::with_capacity(8);
    let cap = m.capacity();
    assert!(cap >= 8);
    m.put_str("12345678");
    assert_eq!(m.capacity(), cap);
    assert_eq!(m.as_str(), "12345678");
}

#[test]
fn remaining_mut_tracks_len() {
    let m = StrChunkMut::copy_from_slice("abcd");
    assert_eq!(m.remaining_mut(), isize::MAX as usize - 4);
}

#[test]
fn freeze_transfers_content() {
    let mut m = StrChunkMut::new();
    m.put_str("once frozen");
    let c: StrChunk = m.freeze();
    assert_eq!(c.as_str(), "once frozen");
}

#[test]
fn equal_text_from_different_paths() {
    // Three construction paths for the same text: static constant, copied
    // slice, and a frozen exclusive buffer.  All compare equal and hash
    // identically.
    let from_static = StrChunk::from_static("Hello");
    let copied = StrChunk::copy_from_slice("Hello");
    let mut m = StrChunkMut::with_capacity(8);
    m.put_char('H');
    m.put_str("ello");
    let frozen = m.freeze();

    assert_eq!(from_static, copied);
    assert_eq!(copied, frozen);
    assert_eq!(from_static, frozen);
    assert_eq!(hash_of(&from_static), hash_of(&copied));
    assert_eq!(hash_of(&copied), hash_of(&frozen));

    let different = StrChunk::from_static("Hellp");
    assert_ne!(from_static, different);
}

#[test]
fn ordering_is_lexicographic() {
    let lesser = StrChunk::from_static("Hell");
    let greater = StrChunk::from_static("Hello");
    assert!(lesser < greater);
    assert!(!(lesser >= greater));
    assert!(greater > lesser);
    assert!(!(greater <= lesser));

    let equal = StrChunk::copy_from_slice("Hello");
    assert!(greater <= equal);
    assert!(!(greater > equal));
    assert!(equal >= greater);
    assert!(!(equal < greater));

    assert!(StrChunk::from_static("abc") < StrChunk::from_static("abd"));
    // byte order on UTF-8 text agrees with code-point order
    assert!(StrChunk::from_static("z") < StrChunk::from_static("я"));
}

#[test]
fn mut_ordering_is_lexicographic() {
    let a = StrChunkMut::copy_from_slice("Hell");
    let b = StrChunkMut::copy_from_slice("Hello");
    assert!(a < b);
    assert!(b > a);
    assert!(!(a >= b));
}

#[test]
fn mut_buffers_compare_by_content() {
    let a = StrChunkMut::copy_from_slice("text");
    let mut b = StrChunkMut::new();
    b.put_str("text");
    assert_eq!(a, b);
    assert_eq!(hash_of(&a), hash_of(&b));
    b.put_char('!');
    assert_ne!(a, b);
}
