use dhcrypt::cipher::{decrypt, encrypt};
use dhcrypt::errors::CryptoError;
use dhcrypt::keyschedule::{derive_message_key, gen_message_key};

#[test]
fn check_encrypt() {
    let dh_key: [u8; 256] = [10; 256];
    let body = "Hi This is Me";
    let msg_key = gen_message_key(&dh_key[100..140], body.as_bytes());
    let cipher = encrypt(&dh_key, body.as_bytes()).expect("could not encrypt");
    let plain = decrypt(&dh_key, msg_key.as_slice(), body.as_bytes());
    assert_ne!(cipher.as_slice(), body.as_bytes());
    // The body itself is not an authentic ciphertext, so opening it fails.
    assert_eq!(plain, Err(CryptoError::Authentication));
}

#[test]
fn round_trip() {
    let mut secret: Vec<u8> = Vec::new();
    for i in 0..256 {
        secret.push((i * 7 + 3) as u8);
    }
    let plaintexts: Vec<Vec<u8>> = vec![
        Vec::new(),
        b"x".to_vec(),
        b"test".to_vec(),
        b"a somewhat longer message with spaces and punctuation!".to_vec(),
        vec![0u8; 1000],
        (0..=255u8).collect(),
    ];
    for plain in plaintexts {
        let message_key = derive_message_key(secret.as_slice(), plain.as_slice());
        let sealed = encrypt(secret.as_slice(), plain.as_slice()).expect("encrypt failed");
        assert_eq!(sealed.len(), plain.len() + 16);
        let opened = decrypt(secret.as_slice(), message_key.as_slice(), sealed.as_slice())
            .expect("decrypt failed");
        assert_eq!(opened, plain);
    }
}

#[test]
fn tamper_detection() {
    let secret: [u8; 256] = [0x5C; 256];
    let plain = b"attack at dawn";
    let message_key = derive_message_key(&secret, plain);
    let sealed = encrypt(&secret, plain).expect("encrypt failed");
    // Flip every bit of the ciphertext and of its tag in turn: each flip
    // must fail authentication, never return wrong plaintext.
    for byte in 0..sealed.len() {
        for bit in 0..8 {
            let mut tampered = sealed.clone();
            tampered[byte] ^= 1u8 << bit;
            let r = decrypt(&secret, message_key.as_slice(), tampered.as_slice());
            assert_eq!(r, Err(CryptoError::Authentication));
        }
    }
}

#[test]
fn truncated_ciphertext_fails() {
    let secret: [u8; 256] = [1; 256];
    let plain = b"short";
    let message_key = derive_message_key(&secret, plain);
    let sealed = encrypt(&secret, plain).expect("encrypt failed");
    let truncated = &sealed[..sealed.len() - 1];
    let r = decrypt(&secret, message_key.as_slice(), truncated);
    assert_eq!(r, Err(CryptoError::Authentication));
}

#[test]
fn wrong_message_key_fails() {
    let secret: [u8; 256] = [9; 256];
    let plain = b"payload";
    let sealed = encrypt(&secret, plain).expect("encrypt failed");
    let other_key = derive_message_key(&secret, b"another payload");
    let r = decrypt(&secret, other_key.as_slice(), sealed.as_slice());
    assert_eq!(r, Err(CryptoError::Authentication));
}

#[test]
fn wrong_length_inputs_rejected() {
    let short_secret: [u8; 16] = [0; 16];
    assert_eq!(
        encrypt(&short_secret, b"plaintext"),
        Err(CryptoError::InvalidInput)
    );
    let secret: [u8; 256] = [0; 256];
    let short_key: [u8; 7] = [0; 7];
    assert_eq!(
        decrypt(&secret, &short_key, b"whatever"),
        Err(CryptoError::InvalidInput)
    );
}
