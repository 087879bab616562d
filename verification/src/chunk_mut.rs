//! The uniquely owned, growable UTF-8 buffer.

use crate::chunk::{slice_eq, StrChunk, Utf8ValidityError};
use crate::raw::{
    bytes_mut_as_slice, bytes_mut_cap, bytes_mut_capacity, bytes_mut_extend, bytes_mut_freeze,
    bytes_mut_new,
    bytes_mut_remaining, bytes_mut_remove_from, bytes_mut_remove_full, bytes_mut_remove_to,
    bytes_mut_reserve, bytes_mut_take_from, bytes_mut_take_full, bytes_mut_take_to,
    bytes_mut_view, bytes_mut_with_capacity, slice_as_str,
};
use crate::split::{convert_inclusive_end_index, range_is_valid, StrRange, TakeRange};
use crate::validate::{
    encode_char, incomplete_suffix, invalid_seq_len, lemma_boundary_le_len,
    lemma_encode_utf8_concat, lemma_encode_utf8_singleton, lemma_valid_iff_prefix_full,
    lemma_valid_subrange, scan_utf8, valid_prefix_len, Utf8Tail,
};
use vstd::prelude::*;
use vstd::string::StringSliceAdditionalSpecFns;
use vstd::utf8::{
    decode_utf8, encode_scalar, encode_utf8, encode_utf8_decode_utf8, encode_utf8_valid_utf8,
    is_char_boundary_start_end_of_seq, valid_utf8, valid_utf8_concat,
};

verus! {

/// The concatenated UTF-8 encodings of a sequence of string slices.
pub open spec fn strs_bytes(ss: Seq<&str>) -> Seq<u8>
    decreases ss.len(),
{
    if ss.len() == 0 {
        Seq::<u8>::empty()
    } else {
        encode_utf8(ss[0]@) + strs_bytes(ss.drop_first())
    }
}

/// Encoding a sequence of string slices is a homomorphism from sequence
/// concatenation to byte concatenation.
pub proof fn lemma_strs_bytes_concat(s1: Seq<&str>, s2: Seq<&str>)
    ensures
        strs_bytes(s1 + s2) == strs_bytes(s1) + strs_bytes(s2),
    decreases s1.len(),
{
    if s1.len() == 0 {
        assert(s1 + s2 =~= s2);
        assert(strs_bytes(s1) + strs_bytes(s2) =~= strs_bytes(s2));
    } else {
        assert((s1 + s2).drop_first() =~= s1.drop_first() + s2);
        lemma_strs_bytes_concat(s1.drop_first(), s2);
        assert(encode_utf8((s1 + s2)[0]@) + (strs_bytes(s1.drop_first()) + strs_bytes(s2))
            =~= strs_bytes(s1) + strs_bytes(s2));
    }
}

/// A unique reference to a contiguous, growable UTF-8 slice in memory.
///
/// `StrChunkMut` builds on `bytes::BytesMut`, with the verified guarantee
/// that its initialized content is a valid UTF-8 string.  It is consumed by
/// [`StrChunkMut::freeze`] into an immutable, shareable [`StrChunk`].
#[derive(Debug, Hash)]
pub struct StrChunkMut {
    bytes: bytes::BytesMut,
}

impl View for StrChunkMut {
    type V = Seq<u8>;

    closed spec fn view(&self) -> Seq<u8> {
        bytes_mut_view(self.bytes)
    }
}

impl StrChunkMut {
    /// The invariant of the type: the initialized content is valid UTF-8.
    pub open spec fn wf(&self) -> bool {
        valid_utf8(self@)
    }

    /// The decoded text the buffer holds.
    pub open spec fn text(&self) -> Seq<char> {
        decode_utf8(self@)
    }

    /// The buffer's capacity: the content length it can hold without
    /// reallocating.
    pub closed spec fn spec_capacity(&self) -> nat {
        bytes_mut_cap(self.bytes)
    }

    /// Creates a new empty `StrChunkMut` with default capacity.
    pub fn new() -> (r: StrChunkMut)
        ensures
            r@ == Seq::<u8>::empty(),
            r.wf(),
    {
        StrChunkMut { bytes: bytes_mut_new() }
    }

    /// Creates a new empty `StrChunkMut` able to hold at least `capacity`
    /// bytes without reallocating.
    pub fn with_capacity(capacity: usize) -> (r: StrChunkMut)
        ensures
            r@ == Seq::<u8>::empty(),
            r.wf(),
            r.spec_capacity() >= capacity,
    {
        StrChunkMut { bytes: bytes_mut_with_capacity(capacity) }
    }

    /// Creates a `StrChunkMut` from a string slice, by copying it.
    pub fn copy_from_slice(s: &str) -> (r: StrChunkMut)
        ensures
            r@ == encode_utf8(s@),
            r.text() == s@,
            r.wf(),
    {
        // the slice length bounds the encoded length by usize::MAX
        let b = s.as_bytes();
        let n: usize = b.len();
        let mut r = StrChunkMut::new();
        r.put_str(s);
        proof {
            encode_utf8_decode_utf8(s@);
        }
        r
    }

    /// Checked conversion from raw bytes: succeeds exactly when the content
    /// is valid UTF-8, taking over the buffer without a copy; fails with a
    /// validity error locating the first offending sequence.
    pub fn try_from_bytes(b: bytes::BytesMut) -> (r: Result<StrChunkMut, Utf8ValidityError>)
        ensures
            match r {
                Ok(c) => c@ == bytes_mut_view(b) && c.wf(),
                Err(e) => {
                    let v = valid_prefix_len(bytes_mut_view(b));
                    let t = bytes_mut_view(b).subrange(v, bytes_mut_view(b).len() as int);
                    &&& !valid_utf8(bytes_mut_view(b))
                    &&& e.spec_valid_up_to() as int == v
                    &&& ((e.spec_error_len() matches None) <==> incomplete_suffix(t))
                    &&& (e.spec_error_len() matches Some(k) ==> k as int == invalid_seq_len(t))
                },
            },
    {
        let scan = scan_utf8(bytes_mut_as_slice(&b));
        proof {
            lemma_valid_iff_prefix_full(bytes_mut_view(b));
            assert(bytes_mut_view(b).subrange(0, bytes_mut_view(b).len() as int) =~= bytes_mut_view(
                b,
            ));
        }
        match scan.1 {
            Utf8Tail::Complete => Ok(StrChunkMut { bytes: b }),
            Utf8Tail::Incomplete => Err(Utf8ValidityError::new(scan.0, None)),
            Utf8Tail::Invalid { error_len } => Err(Utf8ValidityError::new(scan.0, Some(error_len))),
        }
    }

    /// Returns the length of the initialized string content, in bytes.
    pub fn len(&self) -> (r: usize)
        ensures
            r == self@.len(),
    {
        bytes_mut_as_slice(&self.bytes).len()
    }

    /// Returns true if the initialized string content has a length of 0.
    pub fn is_empty(&self) -> (r: bool)
        ensures
            r == (self@.len() == 0),
    {
        self.len() == 0
    }

    /// Returns the maximum length of a string this buffer can hold without
    /// reallocating.
    pub fn capacity(&self) -> (r: usize)
        ensures
            r == self.spec_capacity(),
            r >= self@.len(),
    {
        bytes_mut_capacity(&self.bytes)
    }

    /// Returns how many more bytes can be appended; the underlying buffer
    /// grows on demand, so this is bounded by the largest possible
    /// allocation rather than the current capacity.
    pub fn remaining_mut(&self) -> (r: usize)
        ensures
            r == isize::MAX as usize - self@.len(),
    {
        bytes_mut_remaining(&self.bytes)
    }

    /// Reserves capacity for at least `additional` more bytes of string
    /// content, leaving the content itself unchanged.
    pub fn reserve(&mut self, additional: usize)
        requires
            old(self)@.len() + additional <= usize::MAX,
        ensures
            final(self)@ == old(self)@,
            final(self).spec_capacity() >= old(self)@.len() + additional,
    {
        bytes_mut_reserve(&mut self.bytes, additional)
    }

    /// Converts `self` into an immutable [`StrChunk`].
    ///
    /// The conversion transfers the storage without copying; the frozen
    /// handle can then be cloned and shared.
    pub fn freeze(self) -> (r: StrChunk)
        ensures
            r@ == self@,
            self.wf() ==> r.wf(),
    {
        StrChunk::from_bytes_unchecked(bytes_mut_freeze(self.bytes))
    }

    /// Represents the contents as a string slice.
    pub fn as_str(&self) -> (r: &str)
        requires
            self.wf(),
        ensures
            r.spec_bytes() == self@,
            r@ == self.text(),
    {
        let r = slice_as_str(bytes_mut_as_slice(&self.bytes));
        proof {
            encode_utf8_decode_utf8(r@);
        }
        r
    }

    /// Represents the contents as a byte slice.
    pub fn as_bytes(&self) -> (r: &[u8])
        ensures
            r@ == self@,
    {
        bytes_mut_as_slice(&self.bytes)
    }

    /// Appends one Unicode code point, encoded into UTF-8, to the string
    /// content, growing the buffer if its remaining capacity does not
    /// suffice.
    pub fn put_char(&mut self, c: char)
        requires
            old(self).wf(),
            old(self)@.len() + encode_scalar(c as u32).len() <= usize::MAX,
        ensures
            final(self).wf(),
            final(self)@ == old(self)@ + encode_scalar(c as u32),
    {
        let ghost orig = self@;
        let v = encode_char(c);
        bytes_mut_extend(&mut self.bytes, v.as_slice());
        proof {
            encode_utf8_valid_utf8(seq![c]);
            lemma_encode_utf8_singleton(c);
            valid_utf8_concat(orig, encode_scalar(c as u32));
        }
    }

    /// Appends a string slice to the string content, growing the buffer as
    /// needed.
    pub fn put_str(&mut self, s: &str)
        requires
            old(self).wf(),
            old(self)@.len() + encode_utf8(s@).len() <= usize::MAX,
        ensures
            final(self).wf(),
            final(self)@ == old(self)@ + encode_utf8(s@),
    {
        let ghost orig = self@;
        bytes_mut_extend(&mut self.bytes, s.as_bytes());
        proof {
            encode_utf8_valid_utf8(s@);
            valid_utf8_concat(orig, encode_utf8(s@));
        }
    }

    /// Appends every code point of the slice, in order.
    pub fn extend_chars(&mut self, chars: &[char])
        requires
            old(self).wf(),
            old(self)@.len() + encode_utf8(chars@).len() <= usize::MAX,
        ensures
            final(self).wf(),
            final(self)@ == old(self)@ + encode_utf8(chars@),
    {
        let ghost orig = self@;
        let n: usize = chars.len();
        let mut i: usize = 0;
        proof {
            assert(chars@.take(0) =~= Seq::<char>::empty());
            assert(orig + encode_utf8(chars@.take(0)) =~= orig);
        }
        while i < n
            invariant
                i <= n,
                n == chars@.len(),
                self.wf(),
                self@ == orig + encode_utf8(chars@.take(i as int)),
                orig.len() + encode_utf8(chars@).len() <= usize::MAX,
                valid_utf8(orig),
            decreases n - i,
        {
            let c = chars[i];
            proof {
                assert(chars@.take(i + 1) =~= chars@.take(i as int) + seq![c]);
                lemma_encode_utf8_concat(chars@.take(i as int), seq![c]);
                lemma_encode_utf8_singleton(c);
                assert(chars@ =~= chars@.take(i + 1) + chars@.skip(i + 1));
                lemma_encode_utf8_concat(chars@.take(i + 1), chars@.skip(i + 1));
            }
            self.put_char(c);
            i = i + 1;
        }
        proof {
            assert(chars@.take(n as int) =~= chars@);
        }
    }

    /// Appends every string slice of the slice, in order.
    pub fn extend_strs(&mut self, strs: &[&str])
        requires
            old(self).wf(),
            old(self)@.len() + strs_bytes(strs@).len() <= usize::MAX,
        ensures
            final(self).wf(),
            final(self)@ == old(self)@ + strs_bytes(strs@),
    {
        let ghost orig = self@;
        let n: usize = strs.len();
        let mut i: usize = 0;
        proof {
            assert(strs@.take(0) =~= Seq::<&str>::empty());
            assert(orig + strs_bytes(strs@.take(0)) =~= orig);
        }
        while i < n
            invariant
                i <= n,
                n == strs@.len(),
                self.wf(),
                self@ == orig + strs_bytes(strs@.take(i as int)),
                orig.len() + strs_bytes(strs@).len() <= usize::MAX,
                valid_utf8(orig),
            decreases n - i,
        {
            let s = strs[i];
            proof {
                assert(strs@.take(i + 1) =~= strs@.take(i as int) + seq![s]);
                lemma_strs_bytes_concat(strs@.take(i as int), seq![s]);
                assert(seq![s].drop_first() =~= Seq::<&str>::empty());
                assert(strs_bytes(Seq::<&str>::empty()) == Seq::<u8>::empty());
                assert(encode_utf8(s@) + Seq::<u8>::empty() =~= encode_utf8(s@));
                assert(strs@ =~= strs@.take(i + 1) + strs@.skip(i + 1));
                lemma_strs_bytes_concat(strs@.take(i + 1), strs@.skip(i + 1));
                assert(strs_bytes(strs@.take(i + 1)) =~= strs_bytes(strs@.take(i as int))
                    + encode_utf8(s@));
            }
            self.put_str(s);
            proof {
                assert((orig + strs_bytes(strs@.take(i as int))) + encode_utf8(s@) =~= orig
                    + strs_bytes(strs@.take(i + 1)));
            }
            i = i + 1;
        }
        proof {
            assert(strs@.take(n as int) =~= strs@);
        }
    }

    /// Builds a buffer holding the UTF-8 encoding of the given code points.
    pub fn from_chars(chars: &[char]) -> (r: StrChunkMut)
        requires
            encode_utf8(chars@).len() <= usize::MAX,
        ensures
            r@ == encode_utf8(chars@),
            r.wf(),
    {
        let mut buf = StrChunkMut::with_capacity(chars.len());
        buf.extend_chars(chars);
        buf
    }
}

impl PartialEq for StrChunkMut {
    /// Structural equality of the contents.
    fn eq(&self, other: &Self) -> (r: bool) {
        slice_eq(bytes_mut_as_slice(&self.bytes), bytes_mut_as_slice(&other.bytes))
    }
}

impl vstd::std_specs::cmp::PartialEqSpecImpl for StrChunkMut {
    open spec fn obeys_eq_spec() -> bool {
        true
    }

    open spec fn eq_spec(&self, other: &Self) -> bool {
        self@ == other@
    }
}

impl PartialOrd for StrChunkMut {
    /// Lexicographic order of the contents; on UTF-8 text this is
    /// code-point order.
    fn partial_cmp(&self, other: &Self) -> (r: Option<core::cmp::Ordering>) {
        Some(
            crate::chunk::slice_cmp(
                bytes_mut_as_slice(&self.bytes),
                bytes_mut_as_slice(&other.bytes),
            ),
        )
    }
}

impl vstd::std_specs::cmp::PartialOrdSpecImpl for StrChunkMut {
    open spec fn obeys_partial_cmp_spec() -> bool {
        true
    }

    open spec fn partial_cmp_spec(&self, other: &Self) -> Option<core::cmp::Ordering> {
        Some(crate::chunk::lex_cmp(self@, other@))
    }
}

impl TakeRange for StrChunkMut {
    open spec fn content(&self) -> Seq<u8> {
        self@
    }

    open spec fn inv(&self) -> bool {
        self.wf()
    }

    fn take_range(&mut self, range: StrRange) -> (out: Self) {
        let ghost b = self@;
        proof {
            is_char_boundary_start_end_of_seq(b);
            lemma_boundary_le_len(b, range.spec_start());
            lemma_boundary_le_len(b, range.spec_end(b.len() as int));
        }
        match range {
            StrRange::Full => {
                let taken = bytes_mut_take_full(&mut self.bytes);
                proof {
                    assert(b.subrange(0, b.len() as int) =~= b);
                    assert(b.subrange(0, 0) + b.subrange(b.len() as int, b.len() as int)
                        =~= Seq::<u8>::empty());
                }
                StrChunkMut { bytes: taken }
            },
            StrRange::From(a) => {
                let taken = bytes_mut_take_from(&mut self.bytes, a);
                proof {
                    lemma_valid_subrange(b, 0, a as int);
                    lemma_valid_subrange(b, a as int, b.len() as int);
                    assert(b.subrange(0, a as int) + b.subrange(b.len() as int, b.len() as int)
                        =~= b.subrange(0, a as int));
                }
                StrChunkMut { bytes: taken }
            },
            StrRange::To(e) => {
                let taken = bytes_mut_take_to(&mut self.bytes, e);
                proof {
                    lemma_valid_subrange(b, 0, e as int);
                    lemma_valid_subrange(b, e as int, b.len() as int);
                    assert(b.subrange(0, 0) + b.subrange(e as int, b.len() as int) =~= b.subrange(
                        e as int,
                        b.len() as int,
                    ));
                }
                StrChunkMut { bytes: taken }
            },
            StrRange::ToInclusive(i) => {
                // the content length fits in usize, so the inclusive end index
                // is strictly below usize::MAX and can be converted
                let n: usize = self.len();
                let e = convert_inclusive_end_index(i);
                let taken = bytes_mut_take_to(&mut self.bytes, e);
                proof {
                    lemma_valid_subrange(b, 0, e as int);
                    lemma_valid_subrange(b, e as int, b.len() as int);
                    assert(b.subrange(0, 0) + b.subrange(e as int, b.len() as int) =~= b.subrange(
                        e as int,
                        b.len() as int,
                    ));
                }
                StrChunkMut { bytes: taken }
            },
            StrRange::Between(_, _) | StrRange::BetweenInclusive(_, _) => {
                proof {
                    assert(false);
                }
                StrChunkMut { bytes: bytes_mut_new() }
            },
        }
    }

    fn remove_range(&mut self, range: StrRange) {
        let ghost b = self@;
        proof {
            is_char_boundary_start_end_of_seq(b);
            lemma_boundary_le_len(b, range.spec_start());
            lemma_boundary_le_len(b, range.spec_end(b.len() as int));
        }
        match range {
            StrRange::Full => {
                bytes_mut_remove_full(&mut self.bytes);
                proof {
                    assert(b.subrange(0, 0) + b.subrange(b.len() as int, b.len() as int)
                        =~= Seq::<u8>::empty());
                }
            },
            StrRange::From(a) => {
                bytes_mut_remove_from(&mut self.bytes, a);
                proof {
                    lemma_valid_subrange(b, 0, a as int);
                    assert(b.subrange(0, a as int) + b.subrange(b.len() as int, b.len() as int)
                        =~= b.subrange(0, a as int));
                }
            },
            StrRange::To(e) => {
                bytes_mut_remove_to(&mut self.bytes, e);
                proof {
                    lemma_valid_subrange(b, e as int, b.len() as int);
                    assert(b.subrange(0, 0) + b.subrange(e as int, b.len() as int) =~= b.subrange(
                        e as int,
                        b.len() as int,
                    ));
                }
            },
            StrRange::ToInclusive(i) => {
                // the content length fits in usize, so the inclusive end index
                // is strictly below usize::MAX and can be converted
                let n: usize = self.len();
                let e = convert_inclusive_end_index(i);
                bytes_mut_remove_to(&mut self.bytes, e);
                proof {
                    lemma_valid_subrange(b, e as int, b.len() as int);
                    assert(b.subrange(0, 0) + b.subrange(e as int, b.len() as int) =~= b.subrange(
                        e as int,
                        b.len() as int,
                    ));
                }
            },
            StrRange::Between(_, _) | StrRange::BetweenInclusive(_, _) => {
                proof {
                    assert(false);
                }
            },
        }
    }
}

} // verus!
