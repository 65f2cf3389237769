use vstd::prelude::*;
use sha2::Digest;

verus! {

/// The SHA-512 digest of `data`.
pub uninterp spec fn sha512(data: Seq<u8>) -> Seq<u8>;

/// Calls `Sha512::digest` of the `sha2` crate and names the digest, which
/// is 64 bytes.
#[verifier::external_body]
pub(crate) fn sha512_digest(data: &[u8]) -> (out: [u8; 64])
    ensures
        out@ == sha512(data@),
{
    sha2::Sha512::digest(data).into()
}

} // verus!
