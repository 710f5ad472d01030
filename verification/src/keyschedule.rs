//! Per-message key derivation from a shared Diffie-Hellman secret.
//!
//! Every derived value is a slice of a SHA-512 digest over fixed byte ranges
//! of the 256-byte shared secret concatenated with per-message material. The
//! byte offsets below are wire-compatibility constants of the exchange: any
//! change to them breaks interoperability with peers.

use vstd::prelude::*;
use crate::bytes::{concat_bytes, copy_range};
use crate::hash::{sha512, sha512_of};

verus! {

/// Length in bytes of the shared secret a completed key exchange supplies.
pub const SHARED_SECRET_LEN: usize = 256;

/// Length in bytes of a derived per-message key.
pub const MESSAGE_KEY_LEN: usize = 32;

/// Length in bytes of a derived AES-256 key.
pub const AES_KEY_LEN: usize = 32;

/// Length in bytes of a derived nonce, the 96 bits the cipher requires.
pub const IV_LEN: usize = 12;

/// Range of the shared secret hashed with the plaintext into a message key.
pub const MSG_KEY_SLICE_START: usize = 100;
pub const MSG_KEY_SLICE_END: usize = 140;

/// Range of the shared secret hashed after the message key into an AES key.
pub const AES_KEY_SLICE_START: usize = 170;
pub const AES_KEY_SLICE_END: usize = 210;

/// Range of the shared secret hashed before the message key into a nonce.
pub const IV_SLICE_START: usize = 180;
pub const IV_SLICE_END: usize = 220;

/// Offset of the digest half kept as the message key: the first half is
/// reserved for a different derivation context, the second half is the key.
pub const MSG_KEY_DIGEST_START: usize = 32;
pub const MSG_KEY_DIGEST_END: usize = 64;

/// The message key derived from an already-sliced piece of secret material
/// and a plaintext: the second half of `SHA-512(key_slice ++ plain)`.
pub open spec fn message_key_of_slice(key_slice: Seq<u8>, plain: Seq<u8>) -> Seq<u8> {
    sha512_of(key_slice + plain).subrange(MSG_KEY_DIGEST_START as int, MSG_KEY_DIGEST_END as int)
}

/// The message key a full shared secret and a plaintext derive.
pub open spec fn message_key_spec(secret: Seq<u8>, plain: Seq<u8>) -> Seq<u8> {
    message_key_of_slice(
        secret.subrange(MSG_KEY_SLICE_START as int, MSG_KEY_SLICE_END as int),
        plain,
    )
}

/// The AES-256 key derived from a shared secret and a message key: the first
/// 32 bytes of `SHA-512(message_key ++ secret[170..210])`. Note the message
/// key comes first here and second in the nonce derivation.
pub open spec fn aes_key_spec(secret: Seq<u8>, message_key: Seq<u8>) -> Seq<u8> {
    sha512_of(
        message_key + secret.subrange(AES_KEY_SLICE_START as int, AES_KEY_SLICE_END as int),
    ).subrange(0, AES_KEY_LEN as int)
}

/// The nonce derived from a shared secret and a message key: the first
/// 12 bytes of `SHA-512(secret[180..220] ++ message_key)`.
pub open spec fn iv_spec(secret: Seq<u8>, message_key: Seq<u8>) -> Seq<u8> {
    sha512_of(
        secret.subrange(IV_SLICE_START as int, IV_SLICE_END as int) + message_key,
    ).subrange(0, IV_LEN as int)
}

/// Derive a message key from an already-sliced piece of secret material and
/// a plaintext. The full-secret entry point is `derive_message_key`.
pub fn gen_message_key(key: &[u8], plain: &[u8]) -> (r: Vec<u8>)
    ensures
        r@ == message_key_of_slice(key@, plain@),
        r@.len() == MESSAGE_KEY_LEN,
{
    let joined = concat_bytes(key, plain);
    let digest = sha512(joined.as_slice());
    copy_range(digest.as_slice(), MSG_KEY_DIGEST_START, MSG_KEY_DIGEST_END)
}

/// Derive the per-message key binding `plain` to the shared secret: the
/// second half of `SHA-512(secret[100..140] ++ plain)`. Deterministic, and
/// never fails.
pub fn derive_message_key(secret: &[u8], plain: &[u8]) -> (r: Vec<u8>)
    requires
        secret@.len() == SHARED_SECRET_LEN,
    ensures
        r@ == message_key_spec(secret@, plain@),
        r@.len() == MESSAGE_KEY_LEN,
{
    let key_slice = copy_range(secret, MSG_KEY_SLICE_START, MSG_KEY_SLICE_END);
    gen_message_key(key_slice.as_slice(), plain)
}

/// Message-key derivation is deterministic: every call on one secret and
/// one plaintext returns the one value `message_key_spec` names, so any two
/// results for the same inputs are equal.
pub proof fn lemma_message_key_deterministic(
    secret: Seq<u8>,
    plain: Seq<u8>,
    r1: Seq<u8>,
    r2: Seq<u8>,
)
    requires
        r1 == message_key_spec(secret, plain),
        r2 == message_key_spec(secret, plain),
    ensures
        r1 == r2,
{
}

/// Derive the AES-256 key and the 96-bit nonce for one message key. The two
/// derivations hash overlapping but distinct ranges of the secret, with the
/// message key on opposite sides of the slice.
pub fn derive_aes_key_iv(secret: &[u8], message_key: &[u8]) -> (r: (Vec<u8>, Vec<u8>))
    requires
        secret@.len() == SHARED_SECRET_LEN,
    ensures
        r.0@ == aes_key_spec(secret@, message_key@),
        r.0@.len() == AES_KEY_LEN,
        r.1@ == iv_spec(secret@, message_key@),
        r.1@.len() == IV_LEN,
{
    let key_slice = copy_range(secret, AES_KEY_SLICE_START, AES_KEY_SLICE_END);
    let key_joined = concat_bytes(message_key, key_slice.as_slice());
    let key_digest = sha512(key_joined.as_slice());
    let aes_key = copy_range(key_digest.as_slice(), 0, AES_KEY_LEN);

    let iv_slice = copy_range(secret, IV_SLICE_START, IV_SLICE_END);
    let iv_joined = concat_bytes(iv_slice.as_slice(), message_key);
    let iv_digest = sha512(iv_joined.as_slice());
    let iv = copy_range(iv_digest.as_slice(), 0, IV_LEN);

    (aes_key, iv)
}

} // verus!
