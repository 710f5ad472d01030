//! Trusted access to the SHA-512 digest that the key schedule is built on.

use vstd::prelude::*;
use sha2::Digest;

verus! {

/// Number of bytes in a SHA-512 digest.
pub const DIGEST_LEN: usize = 64;

/// The SHA-512 digest of a byte sequence. The digest depends on the input
/// bytes alone; beyond its length, nothing in the library states which bytes
/// it yields for a given input.
pub uninterp spec fn sha512_of(data: Seq<u8>) -> Seq<u8>;

/// Relies on sha2::Sha512: the digest is 64 bytes and a function of the
/// input bytes alone.
#[verifier::external_body]
pub(crate) fn sha512(data: &[u8]) -> (r: Vec<u8>)
    ensures
        r@ == sha512_of(data@),
        r@.len() == DIGEST_LEN,
{
    sha2::Sha512::digest(data).to_vec()
}

} // verus!
