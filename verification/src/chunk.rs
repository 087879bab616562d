//! The shared, immutable UTF-8 buffer and the incremental extractor.

use crate::raw::{
    bytes_as_slice, bytes_clone, bytes_copy_from_slice, bytes_from_static, bytes_mut_as_slice,
    bytes_mut_freeze, bytes_mut_take_full, bytes_mut_take_to, bytes_new, bytes_remove_from,
    bytes_remove_full, bytes_remove_to, bytes_slice, bytes_take_from, bytes_take_full,
    bytes_take_to, bytes_view, bytes_mut_view, slice_as_str,
};
use crate::split::{range_is_valid, StrRange, TakeRange};
use crate::validate::{
    incomplete_suffix, invalid_seq_len, lemma_boundary_le_len, lemma_valid_iff_prefix_full,
    lemma_valid_subrange, scan_utf8, valid_prefix_len, Utf8Tail,
};
use crate::split::convert_inclusive_end_index;
use vstd::prelude::*;
use vstd::string::StringSliceAdditionalSpecFns;
use vstd::utf8::{
    decode_utf8, encode_utf8, encode_utf8_decode_utf8, encode_utf8_valid_utf8,
    is_char_boundary_start_end_of_seq, valid_utf8,
};

verus! {

/// A reference-counted, contiguous, immutable slice of memory whose content
/// is guaranteed to be valid UTF-8.
///
/// `StrChunk` builds on the slice-view semantics of `bytes::Bytes`: cloning
/// and slicing share the backing storage instead of copying it.
#[derive(Debug, Hash)]
pub struct StrChunk {
    bytes: bytes::Bytes,
}

/// Byte-wise comparison of two slices.
pub(crate) fn slice_eq(a: &[u8], b: &[u8]) -> (r: bool)
    ensures
        r == (a@ == b@),
{
    let n: usize = a.len();
    if n != b.len() {
        proof {
            assert(a@ != b@);
        }
        return false;
    }
    let mut i: usize = 0;
    while i < n
        invariant
            i <= n,
            n == a@.len(),
            n == b@.len(),
            forall|j: int| 0 <= j < i ==> a@[j] == b@[j],
        decreases n - i,
    {
        if a[i] != b[i] {
            return false;
        }
        i = i + 1;
    }
    proof {
        assert(a@ =~= b@);
    }
    true
}

/// Lexicographic order on byte sequences.  On valid UTF-8 content this
/// coincides with code-point order, a design property of the encoding.
pub open spec fn lex_cmp(a: Seq<u8>, b: Seq<u8>) -> core::cmp::Ordering
    decreases a.len(),
{
    if a.len() == 0 && b.len() == 0 {
        core::cmp::Ordering::Equal
    } else if a.len() == 0 {
        core::cmp::Ordering::Less
    } else if b.len() == 0 {
        core::cmp::Ordering::Greater
    } else if a[0] < b[0] {
        core::cmp::Ordering::Less
    } else if a[0] > b[0] {
        core::cmp::Ordering::Greater
    } else {
        lex_cmp(a.drop_first(), b.drop_first())
    }
}

/// Byte-wise lexicographic comparison of two slices.
pub(crate) fn slice_cmp(a: &[u8], b: &[u8]) -> (r: core::cmp::Ordering)
    ensures
        r == lex_cmp(a@, b@),
{
    let na: usize = a.len();
    let nb: usize = b.len();
    let n: usize = if na < nb {
        na
    } else {
        nb
    };
    let mut i: usize = 0;
    proof {
        assert(a@.skip(0) =~= a@);
        assert(b@.skip(0) =~= b@);
    }
    while i < n
        invariant
            i <= n,
            na == a@.len(),
            nb == b@.len(),
            n == if na < nb {
                na
            } else {
                nb
            },
            lex_cmp(a@, b@) == lex_cmp(a@.skip(i as int), b@.skip(i as int)),
        decreases n - i,
    {
        let x = a[i];
        let y = b[i];
        if x < y {
            return core::cmp::Ordering::Less;
        }
        if x > y {
            return core::cmp::Ordering::Greater;
        }
        proof {
            assert(a@.skip(i as int).drop_first() =~= a@.skip(i + 1));
            assert(b@.skip(i as int).drop_first() =~= b@.skip(i + 1));
        }
        i = i + 1;
    }
    if na == nb {
        core::cmp::Ordering::Equal
    } else if na < nb {
        core::cmp::Ordering::Less
    } else {
        core::cmp::Ordering::Greater
    }
}

impl View for StrChunk {
    type V = Seq<u8>;

    closed spec fn view(&self) -> Seq<u8> {
        bytes_view(self.bytes)
    }
}

impl StrChunk {
    /// The invariant of the type: the content is valid UTF-8.
    pub open spec fn wf(&self) -> bool {
        valid_utf8(self@)
    }

    /// The decoded text the buffer holds.
    pub open spec fn text(&self) -> Seq<char> {
        decode_utf8(self@)
    }

    /// Creates a new empty `StrChunk`.  This does not allocate.
    pub fn new() -> (r: StrChunk)
        ensures
            r@ == Seq::<u8>::empty(),
            r.wf(),
    {
        StrChunk { bytes: bytes_new() }
    }

    /// Creates a `StrChunk` from a static string slice, without allocating
    /// or copying.
    pub fn from_static(s: &'static str) -> (r: StrChunk)
        ensures
            r@ == encode_utf8(s@),
            r.text() == s@,
            r.wf(),
    {
        proof {
            encode_utf8_valid_utf8(s@);
            encode_utf8_decode_utf8(s@);
        }
        StrChunk { bytes: bytes_from_static(s.as_bytes()) }
    }

    /// Creates a `StrChunk` from a string slice, by copying it.
    pub fn copy_from_slice(s: &str) -> (r: StrChunk)
        ensures
            r@ == encode_utf8(s@),
            r.text() == s@,
            r.wf(),
    {
        proof {
            encode_utf8_valid_utf8(s@);
            encode_utf8_decode_utf8(s@);
        }
        StrChunk { bytes: bytes_copy_from_slice(s.as_bytes()) }
    }

    /// Returns the length of this `StrChunk` in bytes.
    pub fn len(&self) -> (r: usize)
        ensures
            r == self@.len(),
    {
        bytes_as_slice(&self.bytes).len()
    }

    /// Returns true if the `StrChunk` has a length of 0.
    pub fn is_empty(&self) -> (r: bool)
        ensures
            r == (self@.len() == 0),
    {
        self.len() == 0
    }

    /// Represents the contents as a string slice.
    pub fn as_str(&self) -> (r: &str)
        requires
            self.wf(),
        ensures
            r.spec_bytes() == self@,
            r@ == self.text(),
    {
        let r = slice_as_str(bytes_as_slice(&self.bytes));
        proof {
            encode_utf8_decode_utf8(r@);
        }
        r
    }

    /// Represents the contents as a byte slice.
    pub fn as_bytes(&self) -> (r: &[u8])
        ensures
            r@ == self@,
    {
        bytes_as_slice(&self.bytes)
    }

    /// Hands out the underlying `Bytes` handle.
    pub fn bytes_ref(&self) -> (r: &bytes::Bytes)
        ensures
            bytes_view(*r) == self@,
    {
        &self.bytes
    }

    /// Consumes the `StrChunk`, returning the underlying `Bytes`.
    pub fn into_bytes(self) -> (r: bytes::Bytes)
        ensures
            bytes_view(r) == self@,
    {
        self.bytes
    }

    /// Wraps raw bytes without validating them; internal callers establish
    /// validity themselves, immediately after having proven it.  The checked
    /// counterpart, [`StrChunk::try_from_bytes`], is the public path.
    pub(crate) fn from_bytes_unchecked(b: bytes::Bytes) -> (r: StrChunk)
        ensures
            r@ == bytes_view(b),
    {
        StrChunk { bytes: b }
    }

    /// Checked conversion from raw bytes: succeeds exactly when the content
    /// is valid UTF-8, sharing the storage of the given handle; fails with a
    /// validity error locating the first offending sequence.
    pub fn try_from_bytes(b: bytes::Bytes) -> (r: Result<StrChunk, Utf8ValidityError>)
        ensures
            match r {
                Ok(c) => c@ == bytes_view(b) && c.wf(),
                Err(e) => {
                    let v = valid_prefix_len(bytes_view(b));
                    let t = bytes_view(b).subrange(v, bytes_view(b).len() as int);
                    &&& !valid_utf8(bytes_view(b))
                    &&& e.spec_valid_up_to() as int == v
                    &&& ((e.spec_error_len() matches None) <==> incomplete_suffix(t))
                    &&& (e.spec_error_len() matches Some(k) ==> k as int == invalid_seq_len(t))
                },
            },
    {
        let scan = scan_utf8(bytes_as_slice(&b));
        proof {
            lemma_valid_iff_prefix_full(bytes_view(b));
            assert(bytes_view(b).subrange(0, bytes_view(b).len() as int) =~= bytes_view(b));
        }
        match scan.1 {
            Utf8Tail::Complete => Ok(StrChunk { bytes: b }),
            Utf8Tail::Incomplete => Err(
                Utf8ValidityError { valid_up_to: scan.0, error_len: None },
            ),
            Utf8Tail::Invalid { error_len } => Err(
                Utf8ValidityError { valid_up_to: scan.0, error_len: Some(error_len) },
            ),
        }
    }

    /// Extracts UTF-8 content from a byte buffer.
    ///
    /// Splits the longest valid UTF-8 prefix out of `src` and returns it as
    /// a new `StrChunk`, transferring the storage without a copy.  An
    /// incomplete multi-byte sequence at the end of `src` is not an error:
    /// it stays in `src` for the next append-and-extract cycle, and the
    /// prefix before it (possibly empty) is returned.  A sequence that can
    /// never be completed is an error: the valid prefix extracted so far and
    /// the byte length of the invalid sequence are returned in
    /// [`ExtractUtf8Error`], and the caller chooses a recovery policy.
    pub fn extract_utf8(src: &mut bytes::BytesMut) -> (r: Result<StrChunk, ExtractUtf8Error>)
        ensures
            ({
                let b = bytes_mut_view(*old(src));
                let v = valid_prefix_len(b);
                let t = b.subrange(v, b.len() as int);
                &&& bytes_mut_view(*final(src)) == t
                &&& match r {
                    Ok(c) => {
                        &&& c.wf()
                        &&& c@ == b.subrange(0, v)
                        &&& v == b.len() || incomplete_suffix(t)
                    },
                    Err(e) => {
                        &&& e.spec_extracted().wf()
                        &&& e.spec_extracted()@ == b.subrange(0, v)
                        &&& v < b.len()
                        &&& !incomplete_suffix(t)
                        &&& e.spec_error_len() as int == invalid_seq_len(t)
                        &&& 1 <= e.spec_error_len()
                        &&& v + e.spec_error_len() <= b.len()
                    },
                }
                &&& (r is Ok <==> (v == b.len() || incomplete_suffix(t)))
                &&& (valid_utf8(b) ==> (r matches Ok(c) && (c@ == b && bytes_mut_view(
                    *final(src),
                ) =~= Seq::<u8>::empty())))
            }),
    {
        let ghost b = bytes_mut_view(*src);
        let scan = scan_utf8(bytes_mut_as_slice(src));
        let vlen = scan.0;
        proof {
            lemma_valid_iff_prefix_full(b);
        }
        match scan.1 {
            Utf8Tail::Complete => {
                let taken = bytes_mut_take_full(src);
                proof {
                    assert(b.subrange(0, b.len() as int) =~= b);
                    assert(b.subrange(b.len() as int, b.len() as int) =~= Seq::<u8>::empty());
                }
                Ok(StrChunk { bytes: bytes_mut_freeze(taken) })
            },
            Utf8Tail::Incomplete => {
                let taken = bytes_mut_take_to(src, vlen);
                Ok(StrChunk { bytes: bytes_mut_freeze(taken) })
            },
            Utf8Tail::Invalid { error_len } => {
                let taken = bytes_mut_take_to(src, vlen);
                Err(
                    ExtractUtf8Error {
                        extracted: StrChunk { bytes: bytes_mut_freeze(taken) },
                        error_len,
                    },
                )
            },
        }
    }

    /// Returns a slice of self for the provided range.
    ///
    /// The new `StrChunk` shares the backing storage; the operation is
    /// `O(1)`.  The range must fall on UTF-8 code-point boundaries (which
    /// also keeps it within the buffer), and its start must not exceed its
    /// end, as the underlying storage slice demands.
    pub fn slice(&self, range: StrRange) -> (r: StrChunk)
        requires
            self.wf(),
            range_is_valid(self@, range),
            range.spec_start() <= range.spec_end(self@.len() as int),
        ensures
            r.wf(),
            r@ == self@.subrange(range.spec_start(), range.spec_end(self@.len() as int)),
    {
        proof {
            lemma_boundary_le_len(self@, range.spec_end(self@.len() as int));
        }
        let n: usize = self.len();
        let start: usize = match range {
            StrRange::Full => 0,
            StrRange::From(a) => a,
            StrRange::To(_) => 0,
            StrRange::ToInclusive(_) => 0,
            StrRange::Between(a, _) => a,
            StrRange::BetweenInclusive(a, _) => a,
        };
        let end: usize = match range {
            StrRange::Full => n,
            StrRange::From(_) => n,
            StrRange::To(b) => b,
            StrRange::ToInclusive(b) => convert_inclusive_end_index(b),
            StrRange::Between(_, b) => b,
            StrRange::BetweenInclusive(_, b) => convert_inclusive_end_index(b),
        };
        proof {
            lemma_valid_subrange(self@, start as int, end as int);
        }
        StrChunk { bytes: bytes_slice(&self.bytes, start, end) }
    }
}

impl Clone for StrChunk {
    /// Returns a new handle over the same storage region.
    fn clone(&self) -> (r: Self)
        ensures
            r@ == self@,
    {
        StrChunk { bytes: bytes_clone(&self.bytes) }
    }
}

impl PartialEq for StrChunk {
    /// Structural equality of the contents: two chunks over different
    /// storage are equal exactly when they hold the same text.
    fn eq(&self, other: &Self) -> (r: bool) {
        slice_eq(bytes_as_slice(&self.bytes), bytes_as_slice(&other.bytes))
    }
}

impl vstd::std_specs::cmp::PartialEqSpecImpl for StrChunk {
    open spec fn obeys_eq_spec() -> bool {
        true
    }

    open spec fn eq_spec(&self, other: &Self) -> bool {
        self@ == other@
    }
}

impl PartialOrd for StrChunk {
    /// Lexicographic order of the contents; on UTF-8 text this is
    /// code-point order.
    fn partial_cmp(&self, other: &Self) -> (r: Option<core::cmp::Ordering>) {
        Some(slice_cmp(bytes_as_slice(&self.bytes), bytes_as_slice(&other.bytes)))
    }
}

impl vstd::std_specs::cmp::PartialOrdSpecImpl for StrChunk {
    open spec fn obeys_partial_cmp_spec() -> bool {
        true
    }

    open spec fn partial_cmp_spec(&self, other: &Self) -> Option<core::cmp::Ordering> {
        Some(lex_cmp(self@, other@))
    }
}

impl TakeRange for StrChunk {
    open spec fn content(&self) -> Seq<u8> {
        self@
    }

    open spec fn inv(&self) -> bool {
        self.wf()
    }

    fn take_range(&mut self, range: StrRange) -> (out: Self) {
        let ghost b = self@;
        proof {
            is_char_boundary_start_end_of_seq(b);
            lemma_boundary_le_len(b, range.spec_start());
            lemma_boundary_le_len(b, range.spec_end(b.len() as int));
        }
        match range {
            StrRange::Full => {
                let taken = bytes_take_full(&mut self.bytes);
                proof {
                    assert(b.subrange(0, b.len() as int) =~= b);
                    assert(b.subrange(0, 0) + b.subrange(b.len() as int, b.len() as int)
                        =~= Seq::<u8>::empty());
                }
                StrChunk { bytes: taken }
            },
            StrRange::From(a) => {
                let taken = bytes_take_from(&mut self.bytes, a);
                proof {
                    lemma_valid_subrange(b, 0, a as int);
                    lemma_valid_subrange(b, a as int, b.len() as int);
                    assert(b.subrange(0, a as int) + b.subrange(b.len() as int, b.len() as int)
                        =~= b.subrange(0, a as int));
                }
                StrChunk { bytes: taken }
            },
            StrRange::To(e) => {
                let taken = bytes_take_to(&mut self.bytes, e);
                proof {
                    lemma_valid_subrange(b, 0, e as int);
                    lemma_valid_subrange(b, e as int, b.len() as int);
                    assert(b.subrange(0, 0) + b.subrange(e as int, b.len() as int) =~= b.subrange(
                        e as int,
                        b.len() as int,
                    ));
                }
                StrChunk { bytes: taken }
            },
            StrRange::ToInclusive(i) => {
                // the content length fits in usize, so the inclusive end index
                // is strictly below usize::MAX and can be converted
                let n: usize = self.len();
                let e = convert_inclusive_end_index(i);
                let taken = bytes_take_to(&mut self.bytes, e);
                proof {
                    lemma_valid_subrange(b, 0, e as int);
                    lemma_valid_subrange(b, e as int, b.len() as int);
                    assert(b.subrange(0, 0) + b.subrange(e as int, b.len() as int) =~= b.subrange(
                        e as int,
                        b.len() as int,
                    ));
                }
                StrChunk { bytes: taken }
            },
            StrRange::Between(_, _) | StrRange::BetweenInclusive(_, _) => {
                proof {
                    assert(false);
                }
                StrChunk { bytes: bytes_new() }
            },
        }
    }

    fn remove_range(&mut self, range: StrRange) {
        let ghost b = self@;
        proof {
            is_char_boundary_start_end_of_seq(b);
            lemma_boundary_le_len(b, range.spec_start());
            lemma_boundary_le_len(b, range.spec_end(b.len() as int));
        }
        match range {
            StrRange::Full => {
                bytes_remove_full(&mut self.bytes);
                proof {
                    assert(b.subrange(0, 0) + b.subrange(b.len() as int, b.len() as int)
                        =~= Seq::<u8>::empty());
                }
            },
            StrRange::From(a) => {
                bytes_remove_from(&mut self.bytes, a);
                proof {
                    lemma_valid_subrange(b, 0, a as int);
                    assert(b.subrange(0, a as int) + b.subrange(b.len() as int, b.len() as int)
                        =~= b.subrange(0, a as int));
                }
            },
            StrRange::To(e) => {
                bytes_remove_to(&mut self.bytes, e);
                proof {
                    lemma_valid_subrange(b, e as int, b.len() as int);
                    assert(b.subrange(0, 0) + b.subrange(e as int, b.len() as int) =~= b.subrange(
                        e as int,
                        b.len() as int,
                    ));
                }
            },
            StrRange::ToInclusive(i) => {
                // the content length fits in usize, so the inclusive end index
                // is strictly below usize::MAX and can be converted
                let n: usize = self.len();
                let e = convert_inclusive_end_index(i);
                bytes_remove_to(&mut self.bytes, e);
                proof {
                    lemma_valid_subrange(b, e as int, b.len() as int);
                    assert(b.subrange(0, 0) + b.subrange(e as int, b.len() as int) =~= b.subrange(
                        e as int,
                        b.len() as int,
                    ));
                }
            },
            StrRange::Between(_, _) | StrRange::BetweenInclusive(_, _) => {
                proof {
                    assert(false);
                }
            },
        }
    }
}

/// An error returned by the checked conversions from raw bytes.
///
/// Mirrors the shape of a standard UTF-8 validity error: the length of the
/// valid prefix, and the length of the offending sequence, `None` when the
/// input merely ends in an incomplete multi-byte sequence.
#[derive(Debug, Clone, Copy)]
pub struct Utf8ValidityError {
    valid_up_to: usize,
    error_len: Option<usize>,
}

impl Utf8ValidityError {
    pub(crate) fn new(valid_up_to: usize, error_len: Option<usize>) -> (r: Utf8ValidityError)
        ensures
            r.spec_valid_up_to() == valid_up_to,
            r.spec_error_len() == error_len,
    {
        Utf8ValidityError { valid_up_to, error_len }
    }

    /// The valid prefix length, as a spec-level value.
    pub closed spec fn spec_valid_up_to(&self) -> usize {
        self.valid_up_to
    }

    /// The invalid sequence length, as a spec-level value.
    pub closed spec fn spec_error_len(&self) -> Option<usize> {
        self.error_len
    }

    /// The length of the longest prefix of the input that is valid UTF-8.
    pub fn valid_up_to(&self) -> (r: usize)
        ensures
            r == self.spec_valid_up_to(),
    {
        self.valid_up_to
    }

    /// The length of the invalid byte sequence after the valid prefix, or
    /// `None` when the input ends in an incomplete multi-byte sequence that
    /// further bytes could still complete.
    pub fn error_len(&self) -> (r: Option<usize>)
        ensures
            r == self.spec_error_len(),
    {
        self.error_len
    }

    /// A human-readable description of the error.
    pub fn message(&self) -> &'static str {
        "byte content is not valid UTF-8"
    }
}

/// An error returned by [`StrChunk::extract_utf8`].
///
/// Indicates an invalid UTF-8 sequence in the input, and carries what is
/// needed for lossy recovery of an incremental decoding stream: the valid
/// content extracted before the invalid sequence, and that sequence's byte
/// length, which the caller should skip in the raw buffer before resuming.
#[derive(Debug, Clone)]
pub struct ExtractUtf8Error {
    extracted: StrChunk,
    error_len: usize,
}

impl ExtractUtf8Error {
    /// The extracted content, as a spec-level value.
    pub closed spec fn spec_extracted(&self) -> StrChunk {
        self.extracted
    }

    /// The length of the invalid byte sequence, as a spec-level value.
    pub closed spec fn spec_error_len(&self) -> usize {
        self.error_len
    }

    /// Length of the invalid byte sequence.  A lossy decoding procedure
    /// should advance the reading position of the input buffer by this
    /// amount to resume decoding.
    pub fn error_len(&self) -> (r: usize)
        ensures
            r == self.spec_error_len(),
    {
        self.error_len
    }

    /// Consumes `self` to obtain the string content extracted up to the
    /// encountered invalid sequence.
    pub fn into_extracted(self) -> (r: StrChunk)
        ensures
            r == self.spec_extracted(),
    {
        self.extracted
    }

    /// A human-readable description of the error.
    pub fn message(&self) -> &'static str {
        "invalid UTF-8 sequence in input"
    }
}

} // verus!
