//! Authenticated encryption of messages under keys the schedule derives.

use vstd::prelude::*;
use aes_gcm::KeyInit;
use aes_gcm::aead::Aead;
use crate::errors::CryptoError;
use crate::keyschedule::{
    aes_key_spec, derive_aes_key_iv, derive_message_key, iv_spec, message_key_spec,
    MESSAGE_KEY_LEN, SHARED_SECRET_LEN,
};

verus! {

/// Bytes of authentication tag the cipher appends to every ciphertext.
pub const TAG_LEN: usize = 16;

/// Longest plaintext AES-256-GCM accepts, in bytes: 2^36 - 32.
pub const MAX_PLAINTEXT_LEN: u64 = 68719476704;

/// The opaque error value of the AEAD crate family; every failure of the
/// underlying primitive carries it.
#[verifier::external_type_specification]
#[verifier::external_body]
pub struct ExAeadError(aes_gcm::aead::Error);

/// The AES-256-GCM sealing of a plaintext under a 32-byte key and a 12-byte
/// nonce with empty associated data: the encrypted bytes with the 16-byte
/// authentication tag appended, a function of the three inputs alone.
pub uninterp spec fn aes256gcm_seal(key: Seq<u8>, nonce: Seq<u8>, plain: Seq<u8>) -> Seq<u8>;

/// Relies on aes_gcm::Aes256Gcm through aead::Aead::encrypt: sealing is a
/// deterministic function of key, nonce and plaintext, appends a 16-byte
/// tag, fails exactly when the plaintext exceeds the GCM length limit, and
/// is injective in the plaintext, since decryption inverts it.
#[verifier::external_body]
fn aead_seal(key: &[u8], nonce: &[u8], plain: &[u8]) -> (r: Result<
    Vec<u8>,
    aes_gcm::aead::Error,
>)
    requires
        key@.len() == 32,
        nonce@.len() == 12,
    ensures
        r is Ok <==> plain@.len() <= MAX_PLAINTEXT_LEN,
        r matches Ok(c) ==> c@ == aes256gcm_seal(key@, nonce@, plain@) && c@.len() == plain@.len()
            + TAG_LEN,
        r matches Ok(c) ==> (forall|other: Seq<u8>|
            aes256gcm_seal(key@, nonce@, other) == c@ ==> other == plain@),
{
    let cipher = match aes_gcm::Aes256Gcm::new_from_slice(key) {
        Ok(c) => c,
        Err(_) => return Err(aes_gcm::aead::Error),
    };
    let nonce_arr: aes_gcm::aead::Nonce<aes_gcm::Aes256Gcm> = match nonce.try_into() {
        Ok(n) => n,
        Err(_) => return Err(aes_gcm::aead::Error),
    };
    cipher.encrypt(&nonce_arr, plain)
}

/// Relies on aes_gcm::Aes256Gcm through aead::Aead::decrypt: opening is the
/// deterministic inverse of sealing. It returns a plaintext exactly when the
/// ciphertext is that plaintext sealed under the same key and nonce — and
/// since opening is a function of its inputs, that plaintext is the only
/// sealed preimage, never over the length limit. Every other input fails
/// (tag verification failure).
#[verifier::external_body]
fn aead_open(key: &[u8], nonce: &[u8], sealed: &[u8]) -> (r: Result<
    Vec<u8>,
    aes_gcm::aead::Error,
>)
    requires
        key@.len() == 32,
        nonce@.len() == 12,
    ensures
        r matches Ok(p) ==> sealed@ == aes256gcm_seal(key@, nonce@, p@) && p@.len() + TAG_LEN
            == sealed@.len() && p@.len() <= MAX_PLAINTEXT_LEN,
        r matches Ok(p) ==> (forall|other: Seq<u8>|
            sealed@ == aes256gcm_seal(key@, nonce@, other) ==> other == p@),
        r is Err ==> (forall|p: Seq<u8>|
            p.len() <= MAX_PLAINTEXT_LEN ==> sealed@ != aes256gcm_seal(key@, nonce@, p)),
{
    let cipher = match aes_gcm::Aes256Gcm::new_from_slice(key) {
        Ok(c) => c,
        Err(_) => return Err(aes_gcm::aead::Error),
    };
    let nonce_arr: aes_gcm::aead::Nonce<aes_gcm::Aes256Gcm> = match nonce.try_into() {
        Ok(n) => n,
        Err(_) => return Err(aes_gcm::aead::Error),
    };
    cipher.decrypt(&nonce_arr, sealed)
}

/// The ciphertext `encrypt` owes for a shared secret and a plaintext: the
/// plaintext sealed under the AES key and nonce derived from the message key
/// that the same secret and plaintext derive.
pub open spec fn ciphertext_spec(secret: Seq<u8>, plain: Seq<u8>) -> Seq<u8> {
    aes256gcm_seal(
        aes_key_spec(secret, message_key_spec(secret, plain)),
        iv_spec(secret, message_key_spec(secret, plain)),
        plain,
    )
}

/// A ciphertext opens to `plain` under a secret and a message key exactly
/// when it is `plain` sealed under the key and nonce they derive.
pub open spec fn decrypts_to(
    secret: Seq<u8>,
    message_key: Seq<u8>,
    sealed: Seq<u8>,
    plain: Seq<u8>,
) -> bool {
    sealed == aes256gcm_seal(
        aes_key_spec(secret, message_key),
        iv_spec(secret, message_key),
        plain,
    )
}

/// Encrypt one message: derive its message key, then the AES key and nonce,
/// then seal the plaintext. Returns `InvalidInput` on a secret of the wrong
/// length and `Cipher` when the primitive rejects the plaintext, which the
/// fixed derivation sizes confine to plaintexts over the GCM length limit.
pub fn encrypt(secret: &[u8], plain: &[u8]) -> (r: Result<Vec<u8>, CryptoError>)
    ensures
        secret@.len() != SHARED_SECRET_LEN ==> r == Err::<Vec<u8>, CryptoError>(
            CryptoError::InvalidInput,
        ),
        secret@.len() == SHARED_SECRET_LEN && plain@.len() <= MAX_PLAINTEXT_LEN ==> (r matches Ok(
            c,
        ) && c@ == ciphertext_spec(secret@, plain@) && c@.len() == plain@.len() + TAG_LEN && (
        forall|other: Seq<u8>|
            decrypts_to(secret@, message_key_spec(secret@, plain@), c@, other) ==> other
                == plain@)),
        secret@.len() == SHARED_SECRET_LEN && plain@.len() > MAX_PLAINTEXT_LEN ==> r == Err::<
            Vec<u8>,
            CryptoError,
        >(CryptoError::Cipher),
{
    if secret.len() != SHARED_SECRET_LEN {
        return Err(CryptoError::InvalidInput);
    }
    let message_key = derive_message_key(secret, plain);
    let (aes_key, iv) = derive_aes_key_iv(secret, message_key.as_slice());
    match aead_seal(aes_key.as_slice(), iv.as_slice(), plain) {
        Ok(c) => Ok(c),
        Err(_) => Err(CryptoError::Cipher),
    }
}

/// Decrypt one message under an out-of-band message key: derive the AES key
/// and nonce from it, then authenticate and open the ciphertext. Returns the
/// plaintext exactly when the ciphertext is authentic for that key material;
/// a tampered or corrupted ciphertext fails with `Authentication` and never
/// yields unauthenticated bytes.
pub fn decrypt(secret: &[u8], message_key: &[u8], sealed: &[u8]) -> (r: Result<
    Vec<u8>,
    CryptoError,
>)
    ensures
        secret@.len() != SHARED_SECRET_LEN || message_key@.len() != MESSAGE_KEY_LEN ==> r == Err::<
            Vec<u8>,
            CryptoError,
        >(CryptoError::InvalidInput),
        secret@.len() == SHARED_SECRET_LEN && message_key@.len() == MESSAGE_KEY_LEN ==> {
            &&& (r matches Ok(p) ==> decrypts_to(secret@, message_key@, sealed@, p@) && p@.len()
                + TAG_LEN == sealed@.len() && p@.len() <= MAX_PLAINTEXT_LEN)
            &&& (r matches Ok(p) ==> (forall|other: Seq<u8>|
                decrypts_to(secret@, message_key@, sealed@, other) ==> other == p@))
            &&& (r is Err ==> (forall|p: Seq<u8>|
                p.len() <= MAX_PLAINTEXT_LEN ==> !decrypts_to(secret@, message_key@, sealed@, p)))
            &&& (r is Err ==> r == Err::<Vec<u8>, CryptoError>(CryptoError::Authentication))
        },
{
    if secret.len() != SHARED_SECRET_LEN || message_key.len() != MESSAGE_KEY_LEN {
        return Err(CryptoError::InvalidInput);
    }
    let (aes_key, iv) = derive_aes_key_iv(secret, message_key);
    match aead_open(aes_key.as_slice(), iv.as_slice(), sealed) {
        Ok(p) => Ok(p),
        Err(_) => Err(CryptoError::Authentication),
    }
}

/// Round trip: the ciphertext `encrypt` produces from a secret and a
/// plaintext opens, under the message key the same secret and plaintext
/// derive, back to exactly that plaintext.
pub proof fn lemma_round_trip(secret: Seq<u8>, plain: Seq<u8>)
    ensures
        decrypts_to(secret, message_key_spec(secret, plain), ciphertext_spec(secret, plain), plain),
{
}

} // verus!
