//! Reference-counted byte buffers.
//!
//! Encoded messages and deferred properties are held in [`bytes::Bytes`], so
//! that a part of a received message can be kept without copying it. The
//! buffer type is opaque to the verifier: the functions here state what its
//! operations do to the bytes it holds, and are trusted.

use vstd::prelude::*;

verus! {

#[verifier::external_type_specification]
#[verifier::external_body]
pub struct ExBytes(bytes::Bytes);

/// The bytes that a buffer holds, in order.
pub uninterp spec fn contents(b: bytes::Bytes) -> Seq<u8>;

/// Calls `Bytes::as_ref`, which hands out the buffer's bytes as a slice of
/// the buffer's own length, without copying.
#[verifier::external_body]
pub(crate) fn as_slice<'a>(b: &'a bytes::Bytes) -> (r: &'a [u8])
    ensures
        r@ == contents(*b),
{
    b.as_ref()
}

/// Calls `Bytes::slice` with the range `begin..end`. That function panics
/// unless `begin <= end <= len`; within these bounds it returns a buffer over
/// the bytes of that range, sharing the memory.
#[verifier::external_body]
pub(crate) fn slice(b: &bytes::Bytes, begin: usize, end: usize) -> (r: bytes::Bytes)
    requires
        begin <= end <= contents(*b).len(),
    ensures
        contents(r) == contents(*b).subrange(begin as int, end as int),
{
    b.slice(begin..end)
}

/// Calls `Bytes::copy_from_slice`, which returns a buffer holding a copy of
/// the given bytes.
#[verifier::external_body]
pub(crate) fn copy_from_slice(data: &[u8]) -> (r: bytes::Bytes)
    ensures
        contents(r) == data@,
{
    bytes::Bytes::copy_from_slice(data)
}

/// Calls `Bytes::from` on a vector, which takes the vector's bytes over
/// unchanged.
#[verifier::external_body]
pub(crate) fn from_vec(data: Vec<u8>) -> (r: bytes::Bytes)
    ensures
        contents(r) == data@,
{
    bytes::Bytes::from(data)
}

/// `Bytes::clone` returns a second handle to the same bytes.
pub assume_specification[ <bytes::Bytes as Clone>::clone ](b: &bytes::Bytes) -> (r: bytes::Bytes)
    ensures
        contents(r) == contents(*b),
;

} // verus!
