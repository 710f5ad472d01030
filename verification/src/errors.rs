//! Error taxonomy shared by the key schedule, the cipher and the factorizer.

use vstd::prelude::*;

verus! {

/// Every failure the library reports. Each variant is surfaced as an explicit
/// result value and never swallowed; the surrounding protocol layer decides
/// whether to retry or abort.
#[derive(Clone, Copy, Debug, PartialEq, Eq, Structural)]
pub enum CryptoError {
    /// A precondition was malformed: a shared secret of the wrong length, or
    /// a composite that is even or too small to be a product of two distinct
    /// odd primes. Failed fast, never retried internally.
    InvalidInput,
    /// The randomized factor search exhausted its retry budget without
    /// finding a nontrivial factor. A fresh call may succeed.
    Factorization,
    /// Ciphertext authentication failed: the tag did not verify, so the
    /// message was tampered with, corrupted, or keyed differently.
    Authentication,
    /// The underlying cipher primitive rejected its inputs. Unreachable for
    /// the fixed key and nonce sizes this library derives; treated as a
    /// programming-invariant violation.
    Cipher,
}

} // verus!
