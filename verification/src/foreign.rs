//! The types of other crates that values of this library hold or hand on.

use vstd::prelude::*;

verus! {

/// `bytes::Bytes`, a buffer of bytes that is read from its front. It is taken as it
/// is: all that is said of the bytes in it is said through `buffer::content`.
#[verifier::external_type_specification]
#[verifier::external_body]
pub struct ExBytes(bytes::Bytes);

/// `prost::DecodeError`, what `prost` hands back when it cannot read its input.
/// It is taken as it is and nothing is said of what it holds.
#[verifier::external_type_specification]
#[verifier::external_body]
pub struct ExDecodeError(prost::DecodeError);

} // verus!
