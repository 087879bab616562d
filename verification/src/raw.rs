//! Trusted boundary to the `bytes` and `range-split` crates.
//!
//! The two container types `bytes::Bytes` and `bytes::BytesMut` are opaque to
//! the verifier.  Their byte contents are modelled by the uninterpreted
//! functions [`bytes_view`] and [`bytes_mut_view`], and every method the
//! library calls is wrapped in a small function whose contract states, over
//! those views, what the crate's source shows the method to do.

use vstd::prelude::*;
use vstd::utf8::valid_utf8;
use vstd::string::StringSliceAdditionalSpecFns;

verus! {

#[verifier::external_type_specification]
#[verifier::external_body]
pub struct ExBytes(bytes::Bytes);

#[verifier::external_type_specification]
#[verifier::external_body]
pub struct ExBytesMut(bytes::BytesMut);

/// The byte contents of a `bytes::Bytes` handle.
pub uninterp spec fn bytes_view(b: bytes::Bytes) -> Seq<u8>;

/// The initialized byte contents of a `bytes::BytesMut` buffer.
pub uninterp spec fn bytes_mut_view(b: bytes::BytesMut) -> Seq<u8>;

/// The capacity of a `bytes::BytesMut` buffer: the content length it can
/// hold without reallocating, as `BytesMut::capacity` reports it.
pub uninterp spec fn bytes_mut_cap(b: bytes::BytesMut) -> nat;

/// Relies on `Bytes::new`: an empty handle, no allocation.
#[verifier::external_body]
pub(crate) fn bytes_new() -> (r: bytes::Bytes)
    ensures
        bytes_view(r) == Seq::<u8>::empty(),
{
    bytes::Bytes::new()
}

/// Relies on `Bytes::from_static`: a handle over the given static slice,
/// no allocation and no copy.
#[verifier::external_body]
pub(crate) fn bytes_from_static(s: &'static [u8]) -> (r: bytes::Bytes)
    ensures
        bytes_view(r) == s@,
{
    bytes::Bytes::from_static(s)
}

/// Relies on `Bytes::copy_from_slice`: a new handle holding a copy of the slice.
#[verifier::external_body]
pub(crate) fn bytes_copy_from_slice(s: &[u8]) -> (r: bytes::Bytes)
    ensures
        bytes_view(r) == s@,
{
    bytes::Bytes::copy_from_slice(s)
}

/// Relies on `Bytes` dereferencing to a slice of its contents.
#[verifier::external_body]
pub(crate) fn bytes_as_slice(b: &bytes::Bytes) -> (r: &[u8])
    ensures
        r@ == bytes_view(*b),
{
    &b[..]
}

/// Relies on `Bytes::slice`: a new handle over the sub-range, sharing the
/// same storage; panics unless `start <= end <= len`.
#[verifier::external_body]
pub(crate) fn bytes_slice(b: &bytes::Bytes, start: usize, end: usize) -> (r: bytes::Bytes)
    requires
        start <= end <= bytes_view(*b).len(),
    ensures
        bytes_view(r) == bytes_view(*b).subrange(start as int, end as int),
{
    b.slice(start..end)
}

/// Relies on `Bytes::clone`: a new handle over the same storage region.
#[verifier::external_body]
pub(crate) fn bytes_clone(b: &bytes::Bytes) -> (r: bytes::Bytes)
    ensures
        bytes_view(r) == bytes_view(*b),
{
    b.clone()
}

/// Relies on `range_split::TakeRange<RangeFull> for Bytes`: `take_range(..)`
/// splits off the whole content, leaving the handle empty.
#[verifier::external_body]
pub(crate) fn bytes_take_full(b: &mut bytes::Bytes) -> (r: bytes::Bytes)
    ensures
        bytes_view(r) == bytes_view(*old(b)),
        bytes_view(*final(b)) == Seq::<u8>::empty(),
{
    range_split::TakeRange::<core::ops::RangeFull>::take_range(b, ..)
}

/// Relies on `range_split::TakeRange<RangeFull> for Bytes`: `remove_range(..)`
/// clears the handle.
#[verifier::external_body]
pub(crate) fn bytes_remove_full(b: &mut bytes::Bytes)
    ensures
        bytes_view(*final(b)) == Seq::<u8>::empty(),
{
    range_split::TakeRange::<core::ops::RangeFull>::remove_range(b, ..)
}

/// Relies on `range_split::TakeRange<RangeFrom<usize>> for Bytes`:
/// `take_range(start..)` is `split_off(start)`, which returns the bytes from
/// `start` on and keeps the prefix; panics if `start > len`.
#[verifier::external_body]
pub(crate) fn bytes_take_from(b: &mut bytes::Bytes, start: usize) -> (r: bytes::Bytes)
    requires
        start <= bytes_view(*old(b)).len(),
    ensures
        bytes_view(r) == bytes_view(*old(b)).subrange(
            start as int,
            bytes_view(*old(b)).len() as int,
        ),
        bytes_view(*final(b)) == bytes_view(*old(b)).subrange(0, start as int),
{
    range_split::TakeRange::<core::ops::RangeFrom<usize>>::take_range(b, start..)
}

/// Relies on `range_split::TakeRange<RangeFrom<usize>> for Bytes`:
/// `remove_range(start..)` is `truncate(start)`.
#[verifier::external_body]
pub(crate) fn bytes_remove_from(b: &mut bytes::Bytes, start: usize)
    requires
        start <= bytes_view(*old(b)).len(),
    ensures
        bytes_view(*final(b)) == bytes_view(*old(b)).subrange(0, start as int),
{
    range_split::TakeRange::<core::ops::RangeFrom<usize>>::remove_range(b, start..)
}

/// Relies on `range_split::TakeRange<RangeTo<usize>> for Bytes`:
/// `take_range(..end)` is `split_to(end)`, which returns the prefix and keeps
/// the rest; panics if `end > len`.
#[verifier::external_body]
pub(crate) fn bytes_take_to(b: &mut bytes::Bytes, end: usize) -> (r: bytes::Bytes)
    requires
        end <= bytes_view(*old(b)).len(),
    ensures
        bytes_view(r) == bytes_view(*old(b)).subrange(0, end as int),
        bytes_view(*final(b)) == bytes_view(*old(b)).subrange(
            end as int,
            bytes_view(*old(b)).len() as int,
        ),
{
    range_split::TakeRange::<core::ops::RangeTo<usize>>::take_range(b, ..end)
}

/// Relies on `range_split::TakeRange<RangeTo<usize>> for Bytes`:
/// `remove_range(..end)` is `advance(end)`; panics if `end > len`.
#[verifier::external_body]
pub(crate) fn bytes_remove_to(b: &mut bytes::Bytes, end: usize)
    requires
        end <= bytes_view(*old(b)).len(),
    ensures
        bytes_view(*final(b)) == bytes_view(*old(b)).subrange(
            end as int,
            bytes_view(*old(b)).len() as int,
        ),
{
    range_split::TakeRange::<core::ops::RangeTo<usize>>::remove_range(b, ..end)
}

/// Relies on `BytesMut::new`: an empty buffer, no allocation.
#[verifier::external_body]
pub(crate) fn bytes_mut_new() -> (r: bytes::BytesMut)
    ensures
        bytes_mut_view(r) == Seq::<u8>::empty(),
{
    bytes::BytesMut::new()
}

/// Relies on `BytesMut::with_capacity`: an empty buffer that can hold at
/// least `capacity` bytes without reallocating.
#[verifier::external_body]
pub(crate) fn bytes_mut_with_capacity(capacity: usize) -> (r: bytes::BytesMut)
    ensures
        bytes_mut_view(r) == Seq::<u8>::empty(),
        bytes_mut_cap(r) >= capacity,
{
    bytes::BytesMut::with_capacity(capacity)
}

/// Relies on `BytesMut` dereferencing to a slice of its initialized contents.
#[verifier::external_body]
pub(crate) fn bytes_mut_as_slice(b: &bytes::BytesMut) -> (r: &[u8])
    ensures
        r@ == bytes_mut_view(*b),
{
    &b[..]
}

/// Relies on `BytesMut::capacity`, which is never below the length.
#[verifier::external_body]
pub(crate) fn bytes_mut_capacity(b: &bytes::BytesMut) -> (r: usize)
    ensures
        r == bytes_mut_cap(*b),
        r >= bytes_mut_view(*b).len(),
{
    b.capacity()
}

/// Relies on `BufMut::remaining_mut for BytesMut`, which returns
/// `isize::MAX as usize - len`, the buffer growing on demand.
#[verifier::external_body]
pub(crate) fn bytes_mut_remaining(b: &bytes::BytesMut) -> (r: usize)
    ensures
        r == isize::MAX as usize - bytes_mut_view(*b).len(),
{
    bytes::buf::BufMut::remaining_mut(b)
}

/// Relies on `BytesMut::reserve`: contents unchanged, and afterwards the
/// capacity holds at least `additional` more bytes past the length; panics
/// if the new capacity overflows `usize`.
#[verifier::external_body]
pub(crate) fn bytes_mut_reserve(b: &mut bytes::BytesMut, additional: usize)
    requires
        bytes_mut_view(*old(b)).len() + additional <= usize::MAX,
    ensures
        bytes_mut_view(*final(b)) == bytes_mut_view(*old(b)),
        bytes_mut_cap(*final(b)) >= bytes_mut_view(*old(b)).len() + additional,
{
    b.reserve(additional)
}

/// Relies on `BytesMut::extend_from_slice`: appends the slice, reserving as
/// needed; `reserve` panics if the new capacity overflows `usize`.
#[verifier::external_body]
pub(crate) fn bytes_mut_extend(b: &mut bytes::BytesMut, s: &[u8])
    requires
        bytes_mut_view(*old(b)).len() + s@.len() <= usize::MAX,
    ensures
        bytes_mut_view(*final(b)) == bytes_mut_view(*old(b)) + s@,
{
    b.extend_from_slice(s)
}

/// Relies on `BytesMut::freeze`: the same contents as an immutable handle.
#[verifier::external_body]
pub(crate) fn bytes_mut_freeze(b: bytes::BytesMut) -> (r: bytes::Bytes)
    ensures
        bytes_view(r) == bytes_mut_view(b),
{
    b.freeze()
}

/// Relies on `range_split::TakeRange<RangeFull> for BytesMut`:
/// `take_range(..)` is `split()`, taking the whole content.
#[verifier::external_body]
pub(crate) fn bytes_mut_take_full(b: &mut bytes::BytesMut) -> (r: bytes::BytesMut)
    ensures
        bytes_mut_view(r) == bytes_mut_view(*old(b)),
        bytes_mut_view(*final(b)) == Seq::<u8>::empty(),
{
    range_split::TakeRange::<core::ops::RangeFull>::take_range(b, ..)
}

/// Relies on `range_split::TakeRange<RangeFull> for BytesMut`:
/// `remove_range(..)` clears the buffer.
#[verifier::external_body]
pub(crate) fn bytes_mut_remove_full(b: &mut bytes::BytesMut)
    ensures
        bytes_mut_view(*final(b)) == Seq::<u8>::empty(),
{
    range_split::TakeRange::<core::ops::RangeFull>::remove_range(b, ..)
}

/// Relies on `range_split::TakeRange<RangeFrom<usize>> for BytesMut`:
/// `take_range(start..)` is `split_off(start)`; panics if `start > capacity`,
/// and `start <= len <= capacity` holds here.
#[verifier::external_body]
pub(crate) fn bytes_mut_take_from(b: &mut bytes::BytesMut, start: usize) -> (r: bytes::BytesMut)
    requires
        start <= bytes_mut_view(*old(b)).len(),
    ensures
        bytes_mut_view(r) == bytes_mut_view(*old(b)).subrange(
            start as int,
            bytes_mut_view(*old(b)).len() as int,
        ),
        bytes_mut_view(*final(b)) == bytes_mut_view(*old(b)).subrange(0, start as int),
{
    range_split::TakeRange::<core::ops::RangeFrom<usize>>::take_range(b, start..)
}

/// Relies on `range_split::TakeRange<RangeFrom<usize>> for BytesMut`:
/// `remove_range(start..)` is `truncate(start)`.
#[verifier::external_body]
pub(crate) fn bytes_mut_remove_from(b: &mut bytes::BytesMut, start: usize)
    requires
        start <= bytes_mut_view(*old(b)).len(),
    ensures
        bytes_mut_view(*final(b)) == bytes_mut_view(*old(b)).subrange(0, start as int),
{
    range_split::TakeRange::<core::ops::RangeFrom<usize>>::remove_range(b, start..)
}

/// Relies on `range_split::TakeRange<RangeTo<usize>> for BytesMut`:
/// `take_range(..end)` is `split_to(end)`; panics if `end > len`.
#[verifier::external_body]
pub(crate) fn bytes_mut_take_to(b: &mut bytes::BytesMut, end: usize) -> (r: bytes::BytesMut)
    requires
        end <= bytes_mut_view(*old(b)).len(),
    ensures
        bytes_mut_view(r) == bytes_mut_view(*old(b)).subrange(0, end as int),
        bytes_mut_view(*final(b)) == bytes_mut_view(*old(b)).subrange(
            end as int,
            bytes_mut_view(*old(b)).len() as int,
        ),
{
    range_split::TakeRange::<core::ops::RangeTo<usize>>::take_range(b, ..end)
}

/// Relies on `range_split::TakeRange<RangeTo<usize>> for BytesMut`:
/// `remove_range(..end)` is `advance(end)`; panics if `end > len`.
#[verifier::external_body]
pub(crate) fn bytes_mut_remove_to(b: &mut bytes::BytesMut, end: usize)
    requires
        end <= bytes_mut_view(*old(b)).len(),
    ensures
        bytes_mut_view(*final(b)) == bytes_mut_view(*old(b)).subrange(
            end as int,
            bytes_mut_view(*old(b)).len() as int,
        ),
{
    range_split::TakeRange::<core::ops::RangeTo<usize>>::remove_range(b, ..end)
}

/// Relies on `core::str::from_utf8` returning `Ok` exactly on input that is
/// valid UTF-8, with the returned slice viewing the same bytes.
#[verifier::external_body]
pub(crate) fn slice_as_str(s: &[u8]) -> (r: &str)
    requires
        valid_utf8(s@),
    ensures
        r.spec_bytes() == s@,
{
    match core::str::from_utf8(s) {
        Ok(r) => r,
        Err(_) => "",
    }
}

} // verus!
