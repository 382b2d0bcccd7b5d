use vstd::prelude::*;

verus! {

/// The SHA-256 digest of `data`.
pub uninterp spec fn sha256_digest(data: Seq<u8>) -> Seq<u8>;

/// Trusted wrapper around `sha2::Sha256::digest` (through the `Digest`
/// trait): the result is the SHA-256 digest of the input, named
/// `sha256_digest`, and it is 32 bytes long, as SHA-256 always is. The
/// contracts use it where the host offers its `sha256` function.
#[verifier::external_body]
pub(crate) fn sha256(data: &[u8]) -> (r: Vec<u8>)
    ensures
        r@ == sha256_digest(data@),
        r@.len() == 32,
{
    <sha2::Sha256 as sha2::Digest>::digest(data).to_vec()
}

} // verus!
