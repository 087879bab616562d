//! Tests for `StrChunk` construction and incremental extraction.

use bytes::Buf;
use bytes::BytesMut;
use strchunk::StrChunk;

#[test]
fn chunk_new_is_empty() {
    let c = StrChunk::new();
    assert!(c.is_empty());
    assert_eq!(c.len(), 0);
    assert_eq!(c.as_str(), "");
}

#[test]
fn from_static_holds_text() {
    let c = StrChunk::from_static("Hello");
    assert_eq!(c.as_str(), "Hello");
    assert_eq!(c.len(), 5);
    assert!(!c.is_empty());
}

#[test]
fn copy_from_slice_holds_text() {
    let c = StrChunk::copy_from_slice("Здравствуй");
    assert_eq!(c.as_str(), "Здравствуй");
    assert_eq!(c.len(), 20);
}

#[test]
fn chunk_as_bytes_via_deref() {
    let s = StrChunk::from_static("Hello");
    assert_eq!(s.as_bytes(), b"Hello");
}

#[test]
fn clone_shares_content() {
    let a = StrChunk::copy_from_slice("shared");
    let b = a.clone();
    assert_eq!(a, b);
    assert_eq!(b.as_str(), "shared");
}

#[test]
fn extract_fully_valid_empties_source() {
    let mut buf = BytesMut::from(&b"Hello, world"[..]);
    let chunk = StrChunk::extract_utf8(&mut buf).unwrap();
    assert_eq!(chunk.as_str(), "Hello, world");
    assert!(buf.is_empty());
}

#[test]
fn extract_empty_buffer_yields_empty_chunk() {
    let mut buf = BytesMut::new();
    let chunk = StrChunk::extract_utf8(&mut buf).unwrap();
    assert!(chunk.is_empty());
    assert!(buf.is_empty());
}

#[test]
fn extract_lone_lead_byte_yields_empty_chunk() {
    let mut buf = BytesMut::from(&b"\xf0"[..]);
    let chunk = StrChunk::extract_utf8(&mut buf).unwrap();
    assert!(chunk.is_empty());
    assert_eq!(&buf[..], b"\xf0");
}

#[test]
fn extract_split_mid_character() {
    // "Здравствуй" split bytewise at index 9, in the middle of the fifth
    // character: the first call decodes "Здра" and keeps the lead byte.
    let s1: &[u8] = b"\xd0\x97\xd0\xb4\xd1\x80\xd0\xb0\xd0";
    let mut buf = BytesMut::from(s1);

    let chunk = StrChunk::extract_utf8(&mut buf).unwrap();
    assert_eq!(chunk.as_str(), "Здра");
    assert_eq!(&buf[..], b"\xd0");

    let s2: &[u8] = b"\xb2\xd1\x81\xd1\x82\xd0\xb2\xd1\x83\xd0\xb9";
    buf.extend_from_slice(s2);

    let chunk = StrChunk::extract_utf8(&mut buf).unwrap();
    assert_eq!(chunk.as_str(), "вствуй");
    assert!(buf.is_empty());
}

#[test]
fn extract_invalid_sequence_and_recover() {
    // A truncated 4-byte lead followed by an unrelated byte: the error
    // carries the decoded prefix and the length of the invalid sequence.
    const TEST_DATA: &[u8] = b"Hello \xF0\x90\x80World";
    let mut input = BytesMut::from(TEST_DATA);
    let err = StrChunk::extract_utf8(&mut input).unwrap_err();
    assert_eq!(err.error_len(), 3);
    assert_eq!(err.message(), "invalid UTF-8 sequence in input");
    input.advance(err.error_len());
    let chunk1 = err.into_extracted();
    assert_eq!(chunk1.as_str(), "Hello ");
    let chunk2 = StrChunk::extract_utf8(&mut input).unwrap();
    assert_eq!(chunk2.as_str(), "World");
    assert!(input.is_empty());
}

#[test]
fn extract_overlong_encoding_is_invalid() {
    // 0xC0 0xAF is an overlong encoding of '/': one byte to skip.
    let mut buf = BytesMut::from(&b"\xc0\xafA"[..]);
    let err = StrChunk::extract_utf8(&mut buf).unwrap_err();
    assert_eq!(err.error_len(), 1);
    assert!(err.into_extracted().is_empty());
    buf.advance(1);
    let err = StrChunk::extract_utf8(&mut buf).unwrap_err();
    assert_eq!(err.error_len(), 1);
    buf.advance(1);
    let chunk = StrChunk::extract_utf8(&mut buf).unwrap();
    assert_eq!(chunk.as_str(), "A");
}

#[test]
fn extract_surrogate_encoding_is_invalid() {
    // 0xED 0xA0 0x80 would encode the surrogate U+D800.
    let mut buf = BytesMut::from(&b"\xed\xa0\x80"[..]);
    let err = StrChunk::extract_utf8(&mut buf).unwrap_err();
    assert_eq!(err.error_len(), 1);
    assert!(err.into_extracted().is_empty());
}

#[test]
fn extract_chunked_roundtrip_at_every_split() {
    // Splitting the byte stream anywhere and extracting twice reproduces
    // the text: extraction is chunk-boundary independent.
    let text = "aß中𝄞!";
    let bytes = text.as_bytes();
    for k in 0..=bytes.len() {
        let mut buf = BytesMut::from(&bytes[..k]);
        let first = StrChunk::extract_utf8(&mut buf).unwrap();
        buf.extend_from_slice(&bytes[k..]);
        let second = StrChunk::extract_utf8(&mut buf).unwrap();
        assert!(buf.is_empty());
        let mut joined = String::new();
        joined.push_str(first.as_str());
        joined.push_str(second.as_str());
        assert_eq!(joined, text);
    }
}

#[test]
fn try_from_bytes_checks_validity() {
    let ok = StrChunk::try_from_bytes(bytes::Bytes::from_static(b"caf\xc3\xa9")).unwrap();
    assert_eq!(ok.as_str(), "café");

    let err = StrChunk::try_from_bytes(bytes::Bytes::from_static(b"ab\xff")).unwrap_err();
    assert_eq!(err.valid_up_to(), 2);
    assert_eq!(err.error_len(), Some(1));
    assert_eq!(err.message(), "byte content is not valid UTF-8");

    let err = StrChunk::try_from_bytes(bytes::Bytes::from_static(b"ab\xd0")).unwrap_err();
    assert_eq!(err.valid_up_to(), 2);
    assert_eq!(err.error_len(), None);
}

#[test]
fn try_from_bytes_mut_checks_validity() {
    let ok = strchunk::StrChunkMut::try_from_bytes(BytesMut::from(&b"ok"[..])).unwrap();
    assert_eq!(ok.as_str(), "ok");
    let err = strchunk::StrChunkMut::try_from_bytes(BytesMut::from(&b"\xf0\x90\x80W"[..]))
        .unwrap_err();
    assert_eq!(err.valid_up_to(), 0);
    assert_eq!(err.error_len(), Some(3));
}

#[test]
fn into_bytes_returns_content() {
    let c = StrChunk::from_static("abc");
    let b = c.into_bytes();
    assert_eq!(&b[..], b"abc");
}
