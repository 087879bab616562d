//! Incremental UTF-8 validation and code-point encoding.
//!
//! The verified core of the library: byte-level characterization of
//! well-formed UTF-8 scalar encodings, the greedy longest-valid-prefix
//! function, classification of the unconsumed tail as incomplete or invalid,
//! the executable scanner that computes all of these, and the executable
//! encoder for a single code point.

use vstd::prelude::*;
use vstd::utf8::{
    char_is_scalar, codepoint_width_1, codepoint_width_2, codepoint_width_3, codepoint_width_4,
    decode_utf8, encode_scalar, encode_utf8, is_char_boundary,
    is_char_boundary_iff_not_is_continuation_byte,
    is_char_boundary_start_end_of_seq, is_continuation_byte, is_leading_byte_width_1,
    is_leading_byte_width_2, is_leading_byte_width_3, is_leading_byte_width_4,
    leading_byte_width_1, leading_byte_width_2, leading_byte_width_3, leading_byte_width_4,
    last_continuation_byte, length_of_first_scalar, partial_valid_utf8_extend,
    second_last_continuation_byte, third_last_continuation_byte, valid_first_scalar, valid_utf8,
    valid_utf8_split,
};

verus! {

/// Number of bytes promised by a leading byte: 0 when the byte can never
/// begin a well-formed scalar encoding.  The leads `0xC0`-`0xC1` (overlong)
/// and `0xF5`-`0xFF` (beyond U+10FFFF) are excluded.
pub open spec fn promised_len(w: u8) -> int {
    if w < 0x80 {
        1
    } else if 0xc2 <= w <= 0xdf {
        2
    } else if 0xe0 <= w <= 0xef {
        3
    } else if 0xf0 <= w <= 0xf4 {
        4
    } else {
        0
    }
}

/// Admissible range for the second byte of a multi-byte encoding, given its
/// lead.  Four leads constrain it beyond the plain continuation range, ruling
/// out overlong encodings (`0xE0`, `0xF0`), surrogates (`0xED`), and values
/// beyond U+10FFFF (`0xF4`).
pub open spec fn second_byte_ok(w: u8, b: u8) -> bool {
    if w == 0xe0 {
        0xa0 <= b <= 0xbf
    } else if w == 0xed {
        0x80 <= b <= 0x9f
    } else if w == 0xf0 {
        0x90 <= b <= 0xbf
    } else if w == 0xf4 {
        0x80 <= b <= 0x8f
    } else {
        is_continuation_byte(b)
    }
}

/// Byte-table form of [`valid_first_scalar`]: the sequence begins with a
/// lead byte followed by the promised number of admissible continuations.
pub open spec fn first_scalar_bytes_ok(t: Seq<u8>) -> bool {
    &&& t.len() >= 1
    &&& promised_len(t[0]) >= 1
    &&& t.len() >= promised_len(t[0])
    &&& promised_len(t[0]) >= 2 ==> second_byte_ok(t[0], t[1])
    &&& promised_len(t[0]) >= 3 ==> is_continuation_byte(t[2])
    &&& promised_len(t[0]) >= 4 ==> is_continuation_byte(t[3])
}

/// Length of the longest prefix that is valid UTF-8, by greedily consuming
/// well-formed scalar encodings from the front.
pub open spec fn valid_prefix_len(b: Seq<u8>) -> int
    decreases b.len(),
{
    if b.len() >= 1 && valid_first_scalar(b) {
        length_of_first_scalar(b) + valid_prefix_len(
            b.subrange(length_of_first_scalar(b), b.len() as int),
        )
    } else {
        0
    }
}

/// The tail is a proper prefix of some well-formed scalar encoding: more
/// input could still complete it.
pub open spec fn incomplete_suffix(t: Seq<u8>) -> bool {
    &&& t.len() >= 1
    &&& t.len() < promised_len(t[0])
    &&& t.len() >= 2 ==> second_byte_ok(t[0], t[1])
    &&& t.len() >= 3 ==> is_continuation_byte(t[2])
}

/// Length of the invalid sequence at the head of the tail: the longest
/// prefix that could still have begun a well-formed encoding (the "maximal
/// subpart"), after which decoding should resume.
pub open spec fn invalid_seq_len(t: Seq<u8>) -> int
    recommends
        t.len() >= 1,
        !valid_first_scalar(t),
        !incomplete_suffix(t),
{
    if promised_len(t[0]) <= 1 {
        1
    } else if t.len() >= 2 && !second_byte_ok(t[0], t[1]) {
        1
    } else if t.len() >= 3 && !is_continuation_byte(t[2]) {
        2
    } else {
        3
    }
}

proof fn bv_width1(b1: u8)
    by (bit_vector)
    requires
        b1 <= 0x7f,
    ensures
        codepoint_width_1(b1) <= 0x7f,
{
}

proof fn bv_width2(b1: u8, b2: u8)
    by (bit_vector)
    requires
        0xc0 <= b1 <= 0xdf,
        0x80 <= b2 <= 0xbf,
    ensures
        codepoint_width_2(b1, b2) <= 0x7ff,
        (0x80 <= codepoint_width_2(b1, b2)) <==> 0xc2 <= b1,
{
}

proof fn bv_width3(b1: u8, b2: u8, b3: u8)
    by (bit_vector)
    requires
        0xe0 <= b1 <= 0xef,
        0x80 <= b2 <= 0xbf,
        0x80 <= b3 <= 0xbf,
    ensures
        codepoint_width_3(b1, b2, b3) <= 0xffff,
        (0x800 <= codepoint_width_3(b1, b2, b3) && !(0xd800 <= codepoint_width_3(b1, b2, b3)
            <= 0xdfff)) <==> second_byte_ok(b1, b2),
{
}

proof fn bv_width4(b1: u8, b2: u8, b3: u8, b4: u8)
    by (bit_vector)
    requires
        0xf0 <= b1 <= 0xf7,
        0x80 <= b2 <= 0xbf,
        0x80 <= b3 <= 0xbf,
        0x80 <= b4 <= 0xbf,
    ensures
        (0x10000 <= codepoint_width_4(b1, b2, b3, b4) <= 0x10ffff) <==> (b1 <= 0xf4
            && second_byte_ok(b1, b2)),
{
}

/// The byte-table characterization agrees with the value-based definition of
/// a well-formed first scalar encoding.
pub proof fn lemma_first_scalar_table(t: Seq<u8>)
    requires
        t.len() >= 1,
    ensures
        valid_first_scalar(t) <==> first_scalar_bytes_ok(t),
        valid_first_scalar(t) ==> length_of_first_scalar(t) == promised_len(t[0]),
{
    let w = t[0];
    if w < 0x80 {
        bv_width1(w);
    } else if w < 0xc0 {
        // a continuation byte can lead no encoding: no leading-byte class matches
        assert(!is_leading_byte_width_1(w));
    } else if w <= 0xdf {
        if t.len() >= 2 && is_continuation_byte(t[1]) {
            bv_width2(w, t[1]);
        }
    } else if w <= 0xef {
        if t.len() >= 3 && is_continuation_byte(t[1]) && is_continuation_byte(t[2]) {
            bv_width3(w, t[1], t[2]);
        }
    } else if w <= 0xf7 {
        if t.len() >= 4 && is_continuation_byte(t[1]) && is_continuation_byte(t[2])
            && is_continuation_byte(t[3]) {
            bv_width4(w, t[1], t[2], t[3]);
        }
    } else {
        assert(!is_leading_byte_width_4(w));
    }
}

/// The longest valid prefix never exceeds the sequence and is itself valid
/// UTF-8.
pub proof fn lemma_valid_prefix_len_bounds(b: Seq<u8>)
    ensures
        0 <= valid_prefix_len(b) <= b.len(),
        valid_utf8(b.subrange(0, valid_prefix_len(b))),
    decreases b.len(),
{
    if b.len() >= 1 && valid_first_scalar(b) {
        let m = length_of_first_scalar(b);
        let rest = b.subrange(m, b.len() as int);
        lemma_valid_prefix_len_bounds(rest);
        let v = valid_prefix_len(b);
        assert(v == m + valid_prefix_len(rest));
        vstd::utf8::partial_valid_utf8_extend(b, 0);
        assert(b.subrange(0, 0) =~= Seq::<u8>::empty());
        // extend the valid prefix of `rest` by the first scalar
        assert(rest.subrange(0, valid_prefix_len(rest)) =~= b.subrange(m, v));
        vstd::utf8::valid_utf8_concat(b.subrange(0, m), b.subrange(m, v));
        assert(b.subrange(0, m) + b.subrange(m, v) =~= b.subrange(0, v));
    }
}

/// A sequence is valid UTF-8 exactly when its longest valid prefix is the
/// whole sequence.
pub proof fn lemma_valid_iff_prefix_full(b: Seq<u8>)
    ensures
        valid_utf8(b) <==> valid_prefix_len(b) == b.len(),
    decreases b.len(),
{
    if b.len() >= 1 && valid_first_scalar(b) {
        let m = length_of_first_scalar(b);
        let rest = b.subrange(m, b.len() as int);
        lemma_valid_prefix_len_bounds(rest);
        lemma_valid_iff_prefix_full(rest);
        assert(vstd::utf8::pop_first_scalar(b) =~= rest);
    }
}

/// One scanning step: consuming a well-formed scalar encoding keeps the
/// processed prefix valid and preserves the greedy-prefix accounting.
proof fn lemma_scan_step(s: Seq<u8>, i: int)
    requires
        0 <= i < s.len(),
        valid_utf8(s.subrange(0, i)),
        valid_first_scalar(s.subrange(i, s.len() as int)),
        valid_prefix_len(s) == i + valid_prefix_len(s.subrange(i, s.len() as int)),
    ensures
        ({
            let m = length_of_first_scalar(s.subrange(i, s.len() as int));
            &&& 1 <= m <= 4
            &&& i + m <= s.len()
            &&& valid_utf8(s.subrange(0, i + m))
            &&& valid_prefix_len(s) == (i + m) + valid_prefix_len(s.subrange(i + m, s.len() as int))
        }),
{
    let t = s.subrange(i, s.len() as int);
    let m = length_of_first_scalar(t);
    partial_valid_utf8_extend(s, i);
    assert(t.subrange(m, t.len() as int) =~= s.subrange(i + m, s.len() as int));
}

/// Outcome of scanning a byte buffer for its longest valid UTF-8 prefix:
/// what follows that prefix.
#[derive(Clone, Copy, Debug, PartialEq, Eq, Structural)]
pub enum Utf8Tail {
    /// The whole buffer is valid UTF-8.
    Complete,
    /// The bytes after the valid prefix begin a scalar encoding that more
    /// input could still complete.
    Incomplete,
    /// The bytes after the valid prefix can never be completed into a
    /// well-formed encoding; `error_len` bytes should be skipped.
    Invalid { error_len: usize },
}

/// Scans the buffer, returning the length of its longest valid UTF-8 prefix
/// and the classification of what follows it.
pub fn scan_utf8(s: &[u8]) -> (r: (usize, Utf8Tail))
    ensures
        r.0 as int == valid_prefix_len(s@),
        valid_utf8(s@.subrange(0, r.0 as int)),
        match r.1 {
            Utf8Tail::Complete => r.0 == s@.len(),
            Utf8Tail::Incomplete => r.0 < s@.len() && incomplete_suffix(
                s@.subrange(r.0 as int, s@.len() as int),
            ),
            Utf8Tail::Invalid { error_len } => {
                let t = s@.subrange(r.0 as int, s@.len() as int);
                &&& r.0 < s@.len()
                &&& !incomplete_suffix(t)
                &&& error_len as int == invalid_seq_len(t)
                &&& 1 <= error_len
                &&& r.0 + error_len <= s@.len()
            },
        },
{
    let n: usize = s.len();
    let mut i: usize = 0;
    proof {
        assert(s@.subrange(0, n as int) =~= s@);
        assert(s@.subrange(0, 0) =~= Seq::<u8>::empty());
    }
    loop
        invariant
            i <= n,
            n == s@.len(),
            valid_utf8(s@.subrange(0, i as int)),
            valid_prefix_len(s@) == i + valid_prefix_len(s@.subrange(i as int, n as int)),
        decreases n - i,
    {
        let ghost t = s@.subrange(i as int, n as int);
        if i == n {
            proof {
                assert(t =~= Seq::<u8>::empty());
            }
            return (i, Utf8Tail::Complete);
        }
        let w = s[i];
        proof {
            lemma_first_scalar_table(t);
        }
        if w < 0x80 {
            proof {
                lemma_scan_step(s@, i as int);
            }
            i = i + 1;
        } else {
            let need: usize = if 0xc2 <= w && w <= 0xdf {
                2
            } else if 0xe0 <= w && w <= 0xef {
                3
            } else if 0xf0 <= w && w <= 0xf4 {
                4
            } else {
                0
            };
            if need == 0 {
                return (i, Utf8Tail::Invalid { error_len: 1 });
            }
            if i + 1 == n {
                return (i, Utf8Tail::Incomplete);
            }
            let b2 = s[i + 1];
            let second_ok: bool = if w == 0xe0 {
                0xa0 <= b2 && b2 <= 0xbf
            } else if w == 0xed {
                0x80 <= b2 && b2 <= 0x9f
            } else if w == 0xf0 {
                0x90 <= b2 && b2 <= 0xbf
            } else if w == 0xf4 {
                0x80 <= b2 && b2 <= 0x8f
            } else {
                0x80 <= b2 && b2 <= 0xbf
            };
            if !second_ok {
                return (i, Utf8Tail::Invalid { error_len: 1 });
            }
            if need == 2 {
                proof {
                    lemma_scan_step(s@, i as int);
                }
                i = i + 2;
            } else {
                if i + 2 == n {
                    return (i, Utf8Tail::Incomplete);
                }
                let b3 = s[i + 2];
                if !(0x80 <= b3 && b3 <= 0xbf) {
                    return (i, Utf8Tail::Invalid { error_len: 2 });
                }
                if need == 3 {
                    proof {
                        lemma_scan_step(s@, i as int);
                    }
                    i = i + 3;
                } else {
                    if i + 3 == n {
                        return (i, Utf8Tail::Incomplete);
                    }
                    let b4 = s[i + 3];
                    if !(0x80 <= b4 && b4 <= 0xbf) {
                        return (i, Utf8Tail::Invalid { error_len: 3 });
                    }
                    proof {
                        lemma_scan_step(s@, i as int);
                    }
                    i = i + 4;
                }
            }
        }
    }
}

/// Decides whether `index` falls on a UTF-8 code-point boundary of the valid
/// content `s`: the ends always do, an interior index does exactly when the
/// byte there is not a continuation byte.
pub fn is_boundary(s: &[u8], index: usize) -> (r: bool)
    requires
        valid_utf8(s@),
    ensures
        r == is_char_boundary(s@, index as int),
{
    proof {
        is_char_boundary_start_end_of_seq(s@);
    }
    if index == s.len() {
        true
    } else if index > s.len() {
        false
    } else {
        proof {
            is_char_boundary_iff_not_is_continuation_byte(s@, index as int);
        }
        let b = s[index];
        !(0x80 <= b && b <= 0xbf)
    }
}

/// The UTF-8 encoding of a single character is the encoding of the
/// one-character sequence.
pub proof fn lemma_encode_utf8_singleton(c: char)
    ensures
        encode_utf8(seq![c]) == encode_scalar(c as u32),
{
    assert(seq![c].drop_first() =~= Seq::<char>::empty());
    assert(encode_scalar(c as u32) + encode_utf8(Seq::<char>::empty()) =~= encode_scalar(
        c as u32,
    ));
}

/// Encoding characters is a homomorphism from sequence concatenation to byte
/// concatenation: appending text appends its encoding.
pub proof fn lemma_encode_utf8_concat(s1: Seq<char>, s2: Seq<char>)
    ensures
        encode_utf8(s1 + s2) == encode_utf8(s1) + encode_utf8(s2),
    decreases s1.len(),
{
    if s1.len() == 0 {
        assert(s1 + s2 =~= s2);
        assert(encode_utf8(s1) + encode_utf8(s2) =~= encode_utf8(s2));
    } else {
        assert((s1 + s2).drop_first() =~= s1.drop_first() + s2);
        lemma_encode_utf8_concat(s1.drop_first(), s2);
        assert(encode_scalar((s1 + s2)[0] as u32) + (encode_utf8(s1.drop_first()) + encode_utf8(
            s2,
        )) =~= encode_utf8(s1) + encode_utf8(s2));
    }
}

/// The encoding of a single scalar takes between one and four bytes.
pub proof fn lemma_encode_scalar_len(c: char)
    ensures
        1 <= encode_scalar(c as u32).len() <= 4,
{
    char_is_scalar(c);
}

/// Encodes one Unicode code point into its UTF-8 byte sequence.
pub fn encode_char(c: char) -> (v: Vec<u8>)
    ensures
        v@ == encode_scalar(c as u32),
        1 <= v@.len() <= 4,
{
    proof {
        char_is_scalar(c);
    }
    let u = c as u32;
    let mut v: Vec<u8> = Vec::new();
    if u < 0x80 {
        v.push((u & 0x7f) as u8);
        proof {
            assert(v@ =~= seq![leading_byte_width_1(u)]);
        }
    } else if u < 0x800 {
        v.push(0xc0 | ((u >> 6u32) & 0x1f) as u8);
        v.push(0x80 | (u & 0x3f) as u8);
        proof {
            assert(v@ =~= seq![leading_byte_width_2(u), last_continuation_byte(u)]);
        }
    } else if u < 0x10000 {
        v.push(0xe0 | ((u >> 12u32) & 0x0f) as u8);
        v.push(0x80 | ((u >> 6u32) & 0x3f) as u8);
        v.push(0x80 | (u & 0x3f) as u8);
        proof {
            assert(v@ =~= seq![
                leading_byte_width_3(u),
                second_last_continuation_byte(u),
                last_continuation_byte(u),
            ]);
        }
    } else {
        v.push(0xf0 | ((u >> 18u32) & 0x7) as u8);
        v.push(0x80 | ((u >> 12u32) & 0x3f) as u8);
        v.push(0x80 | ((u >> 6u32) & 0x3f) as u8);
        v.push(0x80 | (u & 0x3f) as u8);
        proof {
            assert(v@ =~= seq![
                leading_byte_width_4(u),
                third_last_continuation_byte(u),
                second_last_continuation_byte(u),
                last_continuation_byte(u),
            ]);
        }
    }
    v
}

/// Scanning a prefix of a valid stream: the longest valid prefix of the cut
/// ends on a code-point boundary of the stream, and what follows it inside
/// the cut is empty or an incomplete (never invalid) sequence.
proof fn lemma_prefix_scan(s: Seq<u8>, k: int)
    requires
        valid_utf8(s),
        0 <= k <= s.len(),
    ensures
        ({
            let v = valid_prefix_len(s.subrange(0, k));
            &&& 0 <= v <= k
            &&& is_char_boundary(s, v)
            &&& v == k || incomplete_suffix(s.subrange(v, k))
        }),
    decreases s.len(),
{
    let s1 = s.subrange(0, k);
    if k == 0 {
        assert(s1 =~= Seq::<u8>::empty());
    } else {
        let m = length_of_first_scalar(s);
        lemma_first_scalar_table(s);
        lemma_first_scalar_table(s1);
        if k < m {
            assert(!valid_first_scalar(s1));
            assert(incomplete_suffix(s.subrange(0, k))) by {
                assert(s.subrange(0, k) =~= s1);
            }
        } else {
            assert(valid_first_scalar(s1) && length_of_first_scalar(s1) == m);
            let rest = s.subrange(m, s.len() as int);
            assert(vstd::utf8::pop_first_scalar(s) =~= rest);
            lemma_prefix_scan(rest, k - m);
            let vr = valid_prefix_len(rest.subrange(0, k - m));
            assert(s1.subrange(m as int, k as int) =~= rest.subrange(0, k - m));
            assert(valid_prefix_len(s1) == m + vr);
            if vr == k - m {
            } else {
                assert(rest.subrange(vr, k - m) =~= s.subrange(m + vr, k));
            }
        }
    }
}

/// Incremental extraction is chunk-boundary independent.
///
/// Split a valid UTF-8 stream at an arbitrary byte position `k`.  Extracting
/// from the first part succeeds (the cut can leave at most an incomplete
/// sequence, never an invalid one); appending the remaining bytes of the
/// stream to what extraction left behind gives a fully valid buffer, so the
/// second extraction consumes everything; and the two extracted contents
/// concatenate to the original stream.
pub proof fn lemma_extraction_chunk_independent(s: Seq<u8>, k: int)
    requires
        valid_utf8(s),
        0 <= k <= s.len(),
    ensures
        ({
            let s1 = s.subrange(0, k);
            let v = valid_prefix_len(s1);
            let rem = s1.subrange(v, k);
            let s2 = rem + s.subrange(k, s.len() as int);
            &&& 0 <= v <= k
            &&& v == k || incomplete_suffix(rem)
            &&& valid_utf8(s2)
            &&& s1.subrange(0, v) + s2 == s
            &&& decode_utf8(s1.subrange(0, v)) + decode_utf8(s2) == decode_utf8(s)
        }),
{
    lemma_prefix_scan(s, k);
    let s1 = s.subrange(0, k);
    let v = valid_prefix_len(s1);
    let rem = s1.subrange(v, k);
    let s2 = rem + s.subrange(k, s.len() as int);
    assert(rem =~= s.subrange(v, k));
    valid_utf8_split(s, v);
    assert(s2 =~= s.subrange(v, s.len() as int));
    assert(s1.subrange(0, v) =~= s.subrange(0, v));
    assert(s.subrange(0, v) + s.subrange(v, s.len() as int) =~= s);
    vstd::utf8::decode_utf8_split(s, v);
}

/// A code-point boundary of valid content never lies past its end.
pub proof fn lemma_boundary_le_len(b: Seq<u8>, i: int)
    requires
        valid_utf8(b),
        is_char_boundary(b, i),
        0 <= i,
    ensures
        i <= b.len(),
{
    if i > b.len() {
        assert(!is_char_boundary(b, i));
    }
}

/// A sub-range of valid UTF-8 content cut at code-point boundaries is itself
/// valid UTF-8.
pub proof fn lemma_valid_subrange(b: Seq<u8>, i: int, j: int)
    requires
        valid_utf8(b),
        0 <= i <= j <= b.len(),
        is_char_boundary(b, i),
        is_char_boundary(b, j),
    ensures
        valid_utf8(b.subrange(i, j)),
{
    valid_utf8_split(b, i);
    let rest = b.subrange(i, b.len() as int);
    if j == b.len() {
        assert(b.subrange(i, j) =~= rest);
    } else if j == i {
        assert(b.subrange(i, j) =~= Seq::<u8>::empty());
    } else {
        is_char_boundary_iff_not_is_continuation_byte(b, j);
        is_char_boundary_iff_not_is_continuation_byte(rest, j - i);
        valid_utf8_split(rest, j - i);
        assert(rest.subrange(0, j - i) =~= b.subrange(i, j));
    }
}

} // verus!
