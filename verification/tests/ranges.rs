//! Tests for boundary-safe range operations on both buffer types.

use strchunk::{RangeError, StrChunk, StrChunkMut, StrRange, TakeRange};

#[test]
fn take_full() {
    let mut buf = StrChunk::from_static("Hello");
    let out = buf.take_range(StrRange::Full);
    assert_eq!(out.as_str(), "Hello");
    assert_eq!(buf.as_str(), "");
}

#[test]
fn take_from_start() {
    let mut buf = StrChunk::from_static("Hello");
    let out = buf.take_range(StrRange::From(0));
    assert_eq!(out.as_str(), "Hello");
    assert_eq!(buf.as_str(), "");
}

#[test]
fn take_from_end() {
    let mut buf = StrChunk::from_static("Hello");
    let out = buf.take_range(StrRange::From(5));
    assert_eq!(out.as_str(), "");
    assert_eq!(buf.as_str(), "Hello");
}

#[test]
fn take_from_mid() {
    let mut buf = StrChunk::from_static("Привет");
    let out = buf.take_range(StrRange::From(6));
    assert_eq!(out.as_str(), "вет");
    assert_eq!(buf.as_str(), "При");
}

#[test]
fn take_to_start() {
    let mut buf = StrChunk::from_static("Hello");
    let out = buf.take_range(StrRange::To(0));
    assert_eq!(out.as_str(), "");
    assert_eq!(buf.as_str(), "Hello");
}

#[test]
fn take_to_end() {
    let mut buf = StrChunk::from_static("Hello");
    let out = buf.take_range(StrRange::To(5));
    assert_eq!(out.as_str(), "Hello");
    assert_eq!(buf.as_str(), "");
}

#[test]
fn take_to_mid() {
    let mut buf = StrChunk::from_static("Привет");
    let out = buf.take_range(StrRange::To(6));
    assert_eq!(out.as_str(), "При");
    assert_eq!(buf.as_str(), "вет");
}

#[test]
fn take_to_inclusive_end() {
    let mut buf = StrChunk::from_static("Hello");
    let out = buf.take_range(StrRange::ToInclusive(4));
    assert_eq!(out.as_str(), "Hello");
    assert_eq!(buf.as_str(), "");
}

#[test]
fn take_to_inclusive_mid() {
    let mut buf = StrChunk::from_static("Привет");
    let out = buf.take_range(StrRange::ToInclusive(5));
    assert_eq!(out.as_str(), "При");
    assert_eq!(buf.as_str(), "вет");
}

#[test]
fn take_range_on_mut_buffer() {
    let mut buf = StrChunkMut::copy_from_slice("Привет");
    let out = buf.take_range(StrRange::To(6));
    assert_eq!(out.as_str(), "При");
    assert_eq!(buf.as_str(), "вет");
    let out = buf.take_range(StrRange::Full);
    assert_eq!(out.as_str(), "вет");
    assert_eq!(buf.as_str(), "");
}

#[test]
fn remove_full() {
    let mut buf = StrChunk::from_static("Hello");
    buf.remove_range(StrRange::Full);
    assert_eq!(buf.as_str(), "");
}

#[test]
fn remove_from_mid() {
    let mut buf = StrChunk::from_static("Привет");
    buf.remove_range(StrRange::From(6));
    assert_eq!(buf.as_str(), "При");
}

#[test]
fn remove_to_mid() {
    let mut buf = StrChunkMut::copy_from_slice("Привет");
    buf.remove_range(StrRange::To(6));
    assert_eq!(buf.as_str(), "вет");
}

#[test]
fn remove_to_inclusive() {
    let mut buf = StrChunkMut::copy_from_slice("Hello");
    buf.remove_range(StrRange::ToInclusive(0));
    assert_eq!(buf.as_str(), "ello");
}

#[test]
fn slice_shares_subrange() {
    let a = StrChunk::copy_from_slice("hello world");
    let b = a.slice(StrRange::Between(2, 5));
    assert_eq!(b.as_str(), "llo");
    assert_eq!(a.as_str(), "hello world");
}

#[test]
fn slice_full_and_edges() {
    let a = StrChunk::from_static("Hello");
    assert_eq!(a.slice(StrRange::Full).as_str(), "Hello");
    assert_eq!(a.slice(StrRange::Between(0, 5)).as_str(), "Hello");
    assert_eq!(a.slice(StrRange::From(5)).as_str(), "");
    assert_eq!(a.slice(StrRange::To(0)).as_str(), "");
    assert_eq!(a.slice(StrRange::BetweenInclusive(1, 3)).as_str(), "ell");
}

#[test]
fn validation_rejects_oob_and_non_boundaries() {
    let hello = StrChunk::from_static("Hello");
    let cyr = StrChunk::from_static("Привет");

    assert!(strchunk::split::is_valid_str_range(hello.as_bytes(), &StrRange::To(5)));
    assert!(!strchunk::split::is_valid_str_range(hello.as_bytes(), &StrRange::To(6)));
    assert!(!strchunk::split::is_valid_str_range(hello.as_bytes(), &StrRange::From(6)));
    assert!(!strchunk::split::is_valid_str_range(hello.as_bytes(), &StrRange::ToInclusive(5)));
    assert!(!strchunk::split::is_valid_str_range(cyr.as_bytes(), &StrRange::From(3)));
    assert!(!strchunk::split::is_valid_str_range(cyr.as_bytes(), &StrRange::To(3)));
    assert!(!strchunk::split::is_valid_str_range(cyr.as_bytes(), &StrRange::ToInclusive(2)));
    assert!(strchunk::split::is_valid_str_range(cyr.as_bytes(), &StrRange::Between(2, 4)));
    assert!(!strchunk::split::is_valid_str_range(cyr.as_bytes(), &StrRange::Between(2, 3)));

    // each bound is judged on its own: an inverted range whose endpoints
    // both lie on boundaries still validates, and the storage operation
    // that consumes it decides the ordering
    assert!(strchunk::split::is_valid_str_range(hello.as_bytes(), &StrRange::Between(4, 2)));
}

#[test]
fn validate_str_split_distinguishes_faults() {
    // A failed validation reports its cause and mutates nothing: the fault
    // on "Привет" at 3.. is a boundary violation, at 13.. an out-of-bounds
    // index, and the buffer is left as it was.
    let cyr = StrChunk::from_static("Привет");

    assert_eq!(strchunk::split::validate_str_split(cyr.as_bytes(), &StrRange::From(6)), Ok(()));
    assert_eq!(
        strchunk::split::validate_str_split(cyr.as_bytes(), &StrRange::From(3)),
        Err(RangeError::NotCharBoundary)
    );
    assert_eq!(
        strchunk::split::validate_str_split(cyr.as_bytes(), &StrRange::From(13)),
        Err(RangeError::OutOfBounds)
    );
    assert_eq!(
        strchunk::split::validate_str_split(cyr.as_bytes(), &StrRange::To(3)),
        Err(RangeError::NotCharBoundary)
    );
    assert_eq!(
        strchunk::split::validate_str_split(cyr.as_bytes(), &StrRange::ToInclusive(12)),
        Err(RangeError::OutOfBounds)
    );
    assert_eq!(cyr.as_str(), "Привет");
}

#[test]
fn range_error_messages_differ() {
    assert_eq!(
        RangeError::OutOfBounds.message(),
        "range is out of bounds of the string buffer"
    );
    assert_eq!(
        RangeError::NotCharBoundary.message(),
        "range does not split on a UTF-8 boundary"
    );
}

#[test]
fn convert_inclusive_end() {
    assert_eq!(strchunk::split::convert_inclusive_end_index(4), 5);
}
