//! SHA-256, used to bind recipient addresses into public inputs and to derive
//! note-encryption keys.

use crate::field::Bytes32;
use sha2::{Digest, Sha256};
use vstd::prelude::*;

verus! {

/// The SHA-256 digest of a byte string.
pub uninterp spec fn sha256(data: Seq<u8>) -> Seq<u8>;

/// Calls `sha2::Sha256::digest`. Claimed: the result is `sha256(data)`, 32
/// bytes.
#[verifier::external_body]
pub(crate) fn sha256_digest(data: &[u8]) -> (r: Bytes32)
    ensures
        r@ == sha256(data@),
{
    Sha256::digest(data).into()
}

} // verus!
