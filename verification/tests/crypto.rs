use oci_sync::crypto::{decrypt, encrypt, seal_envelope, CryptoError, GCM_TAG_SIZE, NONCE_SIZE, SALT_SIZE};

#[test]
fn roundtrip() {
    let plaintext = b"hello oci-sync, this is a secret message";
    let encrypted = encrypt(plaintext, "correct horse battery staple").unwrap();
    assert_ne!(encrypted, plaintext);
    let decrypted = decrypt(&encrypted, "correct horse battery staple").unwrap();
    assert_eq!(decrypted, plaintext);
}

#[test]
fn wrong_passphrase_fails() {
    let encrypted = encrypt(b"secret", "right").unwrap();
    assert!(decrypt(&encrypted, "wrong").is_err());
}

#[test]
fn same_plaintext_different_ciphertext() {
    let a = encrypt(b"same", "p").unwrap();
    let b = encrypt(b"same", "p").unwrap();
    assert_ne!(a, b);
}

#[test]
fn layout_is_salt_nonce_ciphertext() {
    let plaintext = b"0123456789abcdef";
    let encrypted = encrypt(plaintext, "p").unwrap();
    assert_eq!(encrypted.len(), SALT_SIZE + NONCE_SIZE + plaintext.len() + GCM_TAG_SIZE);
    assert_eq!(&encrypted[..SALT_SIZE].len(), &SALT_SIZE);
    assert_eq!(&encrypted[SALT_SIZE..SALT_SIZE + NONCE_SIZE].len(), &NONCE_SIZE);
}

#[test]
fn empty_plaintext_roundtrip() {
    let encrypted = encrypt(b"", "p").unwrap();
    assert_eq!(encrypted.len(), SALT_SIZE + NONCE_SIZE + GCM_TAG_SIZE);
    assert_eq!(decrypt(&encrypted, "p").unwrap(), b"");
}

#[test]
fn short_ciphertext_rejected() {
    assert!(decrypt(&[0u8; 10], "p").is_err());
    assert!(decrypt(&[0u8; SALT_SIZE + NONCE_SIZE + 15], "p").is_err());
}

#[test]
fn chinese_passphrase() {
    let data = b"data";
    let encrypted = encrypt(data, "我的密码").unwrap();
    assert_eq!(decrypt(&encrypted, "我的密码").unwrap(), data);
    assert!(decrypt(&encrypted, "错误密码").is_err());
}

#[test]
fn decrypt_error_kinds() {
    assert_eq!(decrypt(&[0u8; 10], "p"), Err(CryptoError::CiphertextTooShort));
    let mut e = encrypt(b"payload", "p").unwrap();
    let last = e.len() - 1;
    e[last] ^= 1;
    assert_eq!(decrypt(&e, "p"), Err(CryptoError::DecryptionFailed));
}

#[test]
fn sealed_envelope_layout() {
    let salt = [7u8; SALT_SIZE];
    let nonce = [9u8; NONCE_SIZE];
    let e = seal_envelope(b"payload", "p", &salt, &nonce).unwrap();
    assert_eq!(e.len(), SALT_SIZE + NONCE_SIZE + 7 + GCM_TAG_SIZE);
    assert_eq!(&e[..SALT_SIZE], &salt[..]);
    assert_eq!(&e[SALT_SIZE..SALT_SIZE + NONCE_SIZE], &nonce[..]);
    assert_ne!(&e[SALT_SIZE + NONCE_SIZE..SALT_SIZE + NONCE_SIZE + 7], b"payload");
    assert_eq!(seal_envelope(b"payload", "p", &salt, &nonce).unwrap(), e);
    assert_eq!(decrypt(&e, "p").unwrap(), b"payload");
    assert_eq!(decrypt(&e, "q"), Err(CryptoError::DecryptionFailed));
}
