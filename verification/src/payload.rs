//! The payloads that the cache stores: shared byte buffers.

use bytes::Bytes;
use vstd::prelude::*;

verus! {

/// The buffer type of the `bytes` crate: a cheaply cloned, immutable string of bytes.
#[verifier::external_type_specification]
#[verifier::external_body]
pub struct ExBytes(bytes::Bytes);

/// The bytes that a buffer holds.
pub uninterp spec fn contents(bytes: Bytes) -> Seq<u8>;

/// The bytes that an optional buffer holds.
pub open spec fn contents_of(bytes: Option<Bytes>) -> Option<Seq<u8>> {
    match bytes {
        Some(bytes) => Some(contents(bytes)),
        None => None,
    }
}

/// Clones a buffer with the `Clone` implementation of [`Bytes`]: the clone shares the memory of
/// the original and holds the same bytes.
#[verifier::external_body]
pub(crate) fn share_bytes(bytes: &Bytes) -> (shared: Bytes)
    ensures
        contents(shared) == contents(*bytes),
{
    bytes.clone()
}

/// The empty buffer, made by [`Bytes::new`].
#[verifier::external_body]
pub(crate) fn empty_bytes() -> (bytes: Bytes)
    ensures
        contents(bytes) == Seq::<u8>::empty(),
    opens_invariants none
{
    Bytes::new()
}

/// Turns a vector into a buffer with the `From<Vec<u8>>` implementation of [`Bytes`]: the buffer
/// holds the bytes of the vector.
#[verifier::external_body]
pub(crate) fn bytes_from_vec(vec: Vec<u8>) -> (bytes: Bytes)
    ensures
        contents(bytes) == vec@,
{
    Bytes::from(vec)
}

} // verus!
