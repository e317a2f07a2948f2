//! SHA-256, computed by the `sha2` crate.

use sha2::Digest;
use vstd::prelude::*;

verus! {

/// The SHA-256 digest of a byte string. The function itself is not
/// modelled: contracts only name its result.
pub uninterp spec fn sha256(data: Seq<u8>) -> Seq<u8>;

/// `sha2::Sha256::digest`: hashes `data` in one call.
///
/// Trusted: the returned 32 bytes are the digest of exactly the bytes of
/// `data`, and depend on nothing else.
#[verifier::external_body]
pub(crate) fn sha256_digest(data: &[u8]) -> (out: [u8; 32])
    ensures
        out@ == sha256(data@),
{
    sha2::Sha256::digest(data).into()
}

/// The digest of `data`, as an owned array.
pub fn digest(data: &[u8]) -> (out: [u8; 32])
    ensures
        out@ == sha256(data@),
{
    sha256_digest(data)
}

} // verus!
