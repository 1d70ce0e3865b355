use rusty_lock::crypto_utils::{decrypt, default_salt, encrypt, encrypt_bytes, hash_password};
use rusty_lock::error::VaultError;

fn key_of(byte: u8) -> Vec<u8> {
    vec![byte; 32]
}

#[test]
fn round_trip_recovers_plaintext() {
    let key = key_of(7);
    for text in ["", "p@ss1", "a longer secret with spaces and ünïcode"] {
        let blob = encrypt(text, &key);
        assert_eq!(decrypt(&blob, &key), Ok(text.as_bytes().to_vec()));
    }
}

#[test]
fn blob_is_nonce_ciphertext_and_tag() {
    let key = key_of(1);
    let blob = encrypt("hello", &key);
    assert_eq!(blob.len(), 12 + 5 + 16);
    assert_ne!(&blob[12..17], b"hello");
}

#[test]
fn wrong_key_is_authentication_failure() {
    let blob = encrypt("p@ss1", &key_of(1));
    assert_eq!(decrypt(&blob, &key_of(2)), Err(VaultError::AuthenticationFailure));
}

#[test]
fn tampered_blob_is_authentication_failure() {
    let key = key_of(3);
    let mut blob = encrypt_bytes(b"secret", &key);
    let last = blob.len() - 1;
    blob[last] ^= 1;
    assert_eq!(decrypt(&blob, &key), Err(VaultError::AuthenticationFailure));
}

#[test]
fn truncated_blob_is_authentication_failure() {
    let key = key_of(3);
    assert_eq!(decrypt(&[0u8; 5], &key), Err(VaultError::AuthenticationFailure));
    assert_eq!(decrypt(&[], &key), Err(VaultError::AuthenticationFailure));
    let blob = encrypt("secret", &key);
    assert_eq!(decrypt(&blob[..20], &key), Err(VaultError::AuthenticationFailure));
}

#[test]
fn nonces_do_not_repeat() {
    let key = key_of(9);
    let mut seen = std::collections::HashSet::new();
    for _ in 0..1000 {
        let blob = encrypt("same", &key);
        assert!(seen.insert(blob[..12].to_vec()));
    }
}

#[test]
fn derivation_is_deterministic() {
    let salt = default_salt();
    let a = hash_password("correct-horse", &salt).unwrap();
    let b = hash_password("correct-horse", &salt).unwrap();
    assert_eq!(a.len(), 32);
    assert_eq!(a, b);
    let c = hash_password("correct-horsf", &salt).unwrap();
    assert_ne!(a, c);
}

#[test]
fn derivation_depends_on_salt() {
    let a = hash_password("pw", &[1u8; 16]).unwrap();
    let b = hash_password("pw", &[2u8; 16]).unwrap();
    assert_ne!(a, b);
    assert_eq!(b, hash_password("pw", &default_salt()).unwrap());
}

#[test]
fn default_salt_is_sixteen_twos() {
    assert_eq!(default_salt(), vec![2u8; 16]);
}

#[test]
fn short_salt_is_key_derivation_error() {
    assert_eq!(hash_password("pw", &[1u8; 7]), Err(VaultError::KeyDerivationError));
    assert!(hash_password("pw", &[1u8; 8]).is_ok());
}
