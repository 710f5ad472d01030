//! Symmetric message encryption derived from a shared Diffie-Hellman secret,
//! together with a randomized integer factorizer used during key-exchange
//! setup.
//!
//! The key schedule hashes fixed byte ranges of a 256-byte shared secret
//! together with per-message material to derive an AES-256-GCM key and a
//! 96-bit nonce; the factorizer splits a product of two distinct odd primes
//! with a Pollard's-rho-style cycle search under a bounded retry budget.

mod bytes;
pub mod cipher;
pub mod errors;
pub mod factor;
pub mod hash;
pub mod keyschedule;
