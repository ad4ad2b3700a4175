//! Shared byte buffers.
//!
//! Image payloads and whole documents travel as `bytes::Bytes`: an immutable
//! buffer that is duplicated without copying. The verifier does not look inside
//! the type; what a buffer holds is named by [`contents`], and each operation
//! the library uses is stated over that name.

use vstd::prelude::*;

verus! {

#[verifier::external_type_specification]
#[verifier::external_body]
pub struct ExBytes(bytes::Bytes);

/// The bytes that a buffer holds, in order.
pub uninterp spec fn contents(b: bytes::Bytes) -> Seq<u8>;

/// `Bytes::from(Vec<u8>)`: the buffer takes over the vector and holds exactly
/// its bytes.
#[verifier::external_body]
pub(crate) fn from_vec(v: Vec<u8>) -> (b: bytes::Bytes)
    ensures
        contents(b) == v@,
{
    bytes::Bytes::from(v)
}

/// `Bytes::as_ref`: the buffer seen as a slice of the bytes it holds.
#[verifier::external_body]
pub(crate) fn as_slice(b: &bytes::Bytes) -> (s: &[u8])
    ensures
        s@ == contents(*b),
{
    b.as_ref()
}

/// `Bytes::clone`: a second handle on the same bytes.
#[verifier::external_body]
pub(crate) fn duplicate(b: &bytes::Bytes) -> (c: bytes::Bytes)
    ensures
        contents(c) == contents(*b),
{
    b.clone()
}

} // verus!
