//! SHA-256 digests.

use vstd::prelude::*;

verus! {

/// The SHA-256 digest that `sha2` computes of a byte sequence.
pub uninterp spec fn sha256(data: Seq<u8>) -> Seq<u8>;

/// Calls `sha2::Sha256::digest`.
///
/// Claimed of it: the digest has thirty-two bytes and depends on the data alone.
#[verifier::external_body]
pub(crate) fn digest(data: &[u8]) -> (digest: [u8; 32])
    ensures
        digest@ == sha256(data@),
{
    <sha2::Sha256 as sha2::Digest>::digest(data).into()
}

} // verus!
