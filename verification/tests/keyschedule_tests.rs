use dhcrypt::keyschedule::{derive_aes_key_iv, derive_message_key, gen_message_key};

#[test]
fn check_gen_message_key() {
    let dh_key: [u8; 100] = [0; 100];
    let mut dh_key: Vec<u8> = Vec::from(&dh_key[..]);
    dh_key.extend_from_slice("1234567890123456789012345678901234567890".as_bytes());

    let body = "Hello It is Ehsan";
    let res = gen_message_key(dh_key.split_off(100).as_slice(), body.as_bytes());
    let expected: [u8; 32] = [
        114, 17, 90, 91, 76, 180, 56, 136, 212, 194, 226, 220, 198, 5, 206, 109, 104, 103, 33, 67,
        242, 126, 229, 204, 77, 108, 47, 46, 72, 218, 127, 133,
    ];
    assert_eq!(res.as_slice(), &expected);
}

#[test]
fn message_key_golden_vector() {
    // A 256-byte all-0x0A secret and the plaintext "test" must reproduce a
    // pinned (message key, AES key, IV) triple, so that no refactor can
    // silently shift a byte-offset constant.
    let secret: [u8; 256] = [0x0A; 256];
    let message_key = derive_message_key(&secret, "test".as_bytes());
    let expected_message_key: [u8; 32] = [
        124, 227, 113, 232, 125, 81, 232, 66, 172, 254, 13, 61, 81, 24, 237, 228, 77, 168, 65,
        160, 85, 52, 114, 65, 113, 64, 7, 232, 248, 94, 68, 161,
    ];
    assert_eq!(message_key.as_slice(), &expected_message_key);

    let (aes_key, iv) = derive_aes_key_iv(&secret, message_key.as_slice());
    let expected_aes_key: [u8; 32] = [
        130, 131, 38, 12, 152, 14, 199, 61, 100, 156, 66, 195, 169, 126, 50, 182, 62, 47, 2, 180,
        70, 71, 207, 213, 172, 51, 105, 207, 29, 201, 77, 5,
    ];
    let expected_iv: [u8; 12] = [72, 17, 24, 114, 39, 97, 130, 156, 232, 49, 223, 64];
    assert_eq!(aes_key.as_slice(), &expected_aes_key);
    assert_eq!(iv.as_slice(), &expected_iv);
}

#[test]
fn message_key_deterministic() {
    let mut secret: Vec<u8> = Vec::new();
    for i in 0..256 {
        secret.push((i % 251) as u8);
    }
    let first = derive_message_key(secret.as_slice(), "same plaintext".as_bytes());
    let second = derive_message_key(secret.as_slice(), "same plaintext".as_bytes());
    assert_eq!(first, second);
}

#[test]
fn message_keys_distinct_for_distinct_plaintexts() {
    let secret: [u8; 256] = [0x42; 256];
    let a = derive_message_key(&secret, "first message".as_bytes());
    let b = derive_message_key(&secret, "second message".as_bytes());
    assert_ne!(a, b);
}

#[test]
fn message_key_lengths() {
    let secret: [u8; 256] = [7; 256];
    let message_key = derive_message_key(&secret, &[]);
    assert_eq!(message_key.len(), 32);
    let (aes_key, iv) = derive_aes_key_iv(&secret, message_key.as_slice());
    assert_eq!(aes_key.len(), 32);
    assert_eq!(iv.len(), 12);
}
