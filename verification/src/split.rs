//! Boundary-safe range operations.
//!
//! A single tagged range value, [`StrRange`], stands for the range shapes the
//! buffer operations accept.  Every range is validated against the buffer
//! content before any storage operation runs: both endpoints must lie within
//! the buffer and on UTF-8 code-point boundaries.  A failed validation
//! reports whether the offending index exceeds the buffer length (a caller's
//! index arithmetic bug) or splits a multi-byte character (a Unicode
//! awareness bug).

use crate::validate::is_boundary;
use vstd::prelude::*;
use vstd::utf8::{is_char_boundary, valid_utf8};

verus! {

/// A byte range over a buffer, as a tagged value.
#[derive(Clone, Copy, Debug, PartialEq, Eq, Structural)]
pub enum StrRange {
    /// The whole buffer, `..`.
    Full,
    /// From the index to the end, `start..`.
    From(usize),
    /// From the start to the exclusive index, `..end`.
    To(usize),
    /// From the start to the inclusive index, `..=end`.
    ToInclusive(usize),
    /// Between the two indices, `start..end`.
    Between(usize, usize),
    /// Between the two indices with an inclusive end, `start..=end`.
    BetweenInclusive(usize, usize),
}

impl StrRange {
    /// First byte index the range covers.
    pub open spec fn spec_start(self) -> int {
        match self {
            StrRange::Full => 0,
            StrRange::From(a) => a as int,
            StrRange::To(_) => 0,
            StrRange::ToInclusive(_) => 0,
            StrRange::Between(a, _) => a as int,
            StrRange::BetweenInclusive(a, _) => a as int,
        }
    }

    /// One past the last byte index the range covers, in a buffer of length
    /// `len`.
    pub open spec fn spec_end(self, len: int) -> int {
        match self {
            StrRange::Full => len,
            StrRange::From(_) => len,
            StrRange::To(b) => b as int,
            StrRange::ToInclusive(b) => b as int + 1,
            StrRange::Between(_, b) => b as int,
            StrRange::BetweenInclusive(_, b) => b as int + 1,
        }
    }

    /// True for the shapes a buffer can be split at: the whole buffer, a
    /// prefix removed from the start, or a suffix removed up to an end index.
    pub open spec fn is_split_shape(self) -> bool {
        match self {
            StrRange::Full => true,
            StrRange::From(_) => true,
            StrRange::To(_) => true,
            StrRange::ToInclusive(_) => true,
            StrRange::Between(_, _) => false,
            StrRange::BetweenInclusive(_, _) => false,
        }
    }

    /// An inclusive end bound of `usize::MAX` cannot be converted to an
    /// exclusive one; every other range is representable.
    pub open spec fn end_representable(self) -> bool {
        match self {
            StrRange::ToInclusive(b) => b < usize::MAX,
            StrRange::BetweenInclusive(_, b) => b < usize::MAX,
            _ => true,
        }
    }
}

/// The range is valid for content `b`: each of its endpoints lies on a
/// code-point boundary, which also keeps it within the buffer.  Each bound
/// is judged on its own; whether the start may exceed the end is left to the
/// operation that consumes the range, as the underlying storage operations
/// decide it themselves.
pub open spec fn range_is_valid(b: Seq<u8>, r: StrRange) -> bool {
    &&& is_char_boundary(b, r.spec_start())
    &&& is_char_boundary(b, r.spec_end(b.len() as int))
}

/// The way a range can fail validation.
#[derive(Clone, Copy, Debug, PartialEq, Eq, Structural)]
pub enum RangeError {
    /// An endpoint exceeds the buffer length: an index arithmetic bug.
    OutOfBounds,
    /// An endpoint splits a multi-byte UTF-8 sequence: a Unicode bug.
    NotCharBoundary,
}

impl RangeError {
    /// A human-readable description of the failure, distinguishing the two
    /// causes.
    pub fn message(&self) -> (r: &'static str)
        ensures
            *self == RangeError::OutOfBounds ==> r@ == "range is out of bounds of the string buffer"@,
            *self == RangeError::NotCharBoundary ==> r@
                == "range does not split on a UTF-8 boundary"@,
    {
        match self {
            RangeError::OutOfBounds => "range is out of bounds of the string buffer",
            RangeError::NotCharBoundary => "range does not split on a UTF-8 boundary",
        }
    }
}

/// Converts an inclusive end index into the equivalent exclusive one.
pub fn convert_inclusive_end_index(index: usize) -> (r: usize)
    requires
        index < usize::MAX,
    ensures
        r == index + 1,
{
    index + 1
}

/// Checks that the start bound of `range` lies on a code-point boundary of
/// the content `s`.
pub fn is_valid_str_start_bound(s: &[u8], range: &StrRange) -> (r: bool)
    requires
        valid_utf8(s@),
    ensures
        r == is_char_boundary(s@, range.spec_start()),
{
    match range {
        StrRange::Full => {
            proof {
                vstd::utf8::is_char_boundary_start_end_of_seq(s@);
            }
            true
        },
        StrRange::To(_) | StrRange::ToInclusive(_) => {
            proof {
                vstd::utf8::is_char_boundary_start_end_of_seq(s@);
            }
            true
        },
        StrRange::From(a) => is_boundary(s, *a),
        StrRange::Between(a, _) => is_boundary(s, *a),
        StrRange::BetweenInclusive(a, _) => is_boundary(s, *a),
    }
}

/// Checks that the end bound of `range` lies on a code-point boundary of the
/// content `s`.
pub fn is_valid_str_end_bound(s: &[u8], range: &StrRange) -> (r: bool)
    requires
        valid_utf8(s@),
        range.end_representable(),
    ensures
        r == is_char_boundary(s@, range.spec_end(s@.len() as int)),
{
    match range {
        StrRange::Full | StrRange::From(_) => {
            proof {
                vstd::utf8::is_char_boundary_start_end_of_seq(s@);
            }
            true
        },
        StrRange::To(b) => is_boundary(s, *b),
        StrRange::ToInclusive(b) => is_boundary(s, convert_inclusive_end_index(*b)),
        StrRange::Between(_, b) => is_boundary(s, *b),
        StrRange::BetweenInclusive(_, b) => is_boundary(s, convert_inclusive_end_index(*b)),
    }
}

/// Checks that `range` is valid for splitting or slicing the content `s`:
/// each endpoint on a code-point boundary, which also puts it within
/// bounds.  Each bound is validated independently; an in-bounds range whose
/// start exceeds its end passes here and is left to the consuming operation.
pub fn is_valid_str_range(s: &[u8], range: &StrRange) -> (r: bool)
    requires
        valid_utf8(s@),
        range.end_representable(),
    ensures
        r == range_is_valid(s@, *range),
{
    is_valid_str_start_bound(s, range) && is_valid_str_end_bound(s, range)
}

/// The diagnosis of an invalid split range: the single finite bound either
/// exceeds the buffer length or splits a multi-byte sequence.
pub open spec fn split_fault(b: Seq<u8>, r: StrRange) -> RangeError
    recommends
        r.is_split_shape(),
        !range_is_valid(b, r),
{
    let idx = if r matches StrRange::From(_) {
        r.spec_start()
    } else {
        r.spec_end(b.len() as int)
    };
    if idx > b.len() {
        RangeError::OutOfBounds
    } else {
        RangeError::NotCharBoundary
    }
}

/// Diagnoses an invalid split range, distinguishing an out-of-bounds index
/// from one that splits a multi-byte character.
pub fn str_range_fail(s: &[u8], range: &StrRange) -> (e: RangeError)
    requires
        valid_utf8(s@),
        range.is_split_shape(),
        !range_is_valid(s@, *range),
    ensures
        e == split_fault(s@, *range),
{
    proof {
        vstd::utf8::is_char_boundary_start_end_of_seq(s@);
    }
    let idx: usize = match range {
        StrRange::From(a) => *a,
        StrRange::To(b) => *b,
        StrRange::ToInclusive(b) => {
            if *b >= s.len() {
                proof {
                    if range.spec_end(s@.len() as int) <= s@.len() {
                        assert(false);
                    }
                }
                return RangeError::OutOfBounds;
            }
            convert_inclusive_end_index(*b)
        },
        _ => {
            proof {
                assert(false);
            }
            0
        },
    };
    if idx > s.len() {
        RangeError::OutOfBounds
    } else {
        RangeError::NotCharBoundary
    }
}

/// Validates `range` for splitting the content `s`, reporting the diagnosis
/// on failure.  Validation alone never changes any buffer; a caller splits
/// only after an `Ok`.
pub fn validate_str_split(s: &[u8], range: &StrRange) -> (r: Result<(), RangeError>)
    requires
        valid_utf8(s@),
        range.is_split_shape(),
        range.end_representable(),
    ensures
        match r {
            Ok(_) => range_is_valid(s@, *range),
            Err(e) => !range_is_valid(s@, *range) && e == split_fault(s@, *range),
        },
{
    if is_valid_str_range(s, range) {
        Ok(())
    } else {
        Err(str_range_fail(s, range))
    }
}

/// Splitting a buffer at a validated range: `take_range` extracts the
/// designated sub-range and leaves the remainder, `remove_range` discards
/// it.  Both require the range to be valid for the current content, so a
/// well-formed buffer is never split inside a multi-byte character.
pub trait TakeRange: Sized {
    /// The byte content of the buffer.
    spec fn content(&self) -> Seq<u8>;

    /// The buffer's well-formedness condition.
    spec fn inv(&self) -> bool;

    /// Splits off and returns the part of the buffer designated by `range`,
    /// leaving the remainder.
    fn take_range(&mut self, range: StrRange) -> (out: Self)
        requires
            old(self).inv(),
            range.is_split_shape(),
            range_is_valid(old(self).content(), range),
        ensures
            final(self).inv(),
            out.inv(),
            ({
                let b = old(self).content();
                let s = range.spec_start();
                let e = range.spec_end(b.len() as int);
                &&& out.content() == b.subrange(s, e)
                &&& final(self).content() == b.subrange(0, s) + b.subrange(e, b.len() as int)
            }),
    ;

    /// Removes the part of the buffer designated by `range`, discarding it.
    fn remove_range(&mut self, range: StrRange)
        requires
            old(self).inv(),
            range.is_split_shape(),
            range_is_valid(old(self).content(), range),
        ensures
            final(self).inv(),
            ({
                let b = old(self).content();
                let s = range.spec_start();
                let e = range.spec_end(b.len() as int);
                final(self).content() == b.subrange(0, s) + b.subrange(e, b.len() as int)
            }),
    ;
}

} // verus!
