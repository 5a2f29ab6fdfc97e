use aes_gcm::aead::{Aead, KeyInit};
use aes_gcm::{Aes256Gcm, Nonce};
use base64::engine::general_purpose;
use base64::Engine;

use proxy_trust::crypto::{
    decrypt_string, decrypt_with_key, deserialize_password, encrypt_string, encrypt_with_key,
    fixed_nonce, get_encryption_key, serialize_password, serialize_password_with_key,
};

const ENCRYPTED_PREFIX: &str = "ag_enc_";
const ENCRYPTED_V2_PREFIX: &str = "ag_enc_v2_";

#[test]
fn test_v2_encrypt_decrypt_cycle() {
    let password = "my_secret_password";
    let encrypted = encrypt_string(password).unwrap();

    assert!(encrypted.starts_with(ENCRYPTED_V2_PREFIX));
    assert_ne!(password, encrypted);

    let decrypted = decrypt_string(&encrypted).unwrap();
    assert_eq!(password, decrypted);
}

#[test]
fn test_v2_unique_nonces() {
    let password = "same_password";
    let enc1 = encrypt_string(password).unwrap();
    let enc2 = encrypt_string(password).unwrap();
    // Same plaintext should produce different ciphertexts (random nonce)
    assert_ne!(enc1, enc2);
    // But both should decrypt to the same value
    assert_eq!(decrypt_string(&enc1).unwrap(), password);
    assert_eq!(decrypt_string(&enc2).unwrap(), password);
}

#[test]
fn test_v1_backward_compatibility() {
    // Simulate v1 encryption (fixed nonce, ag_enc_ prefix)
    let password = "legacy_password";
    let key = get_encryption_key();
    let cipher = Aes256Gcm::new_from_slice(&key).unwrap();
    let nonce_bytes = fixed_nonce();
    let nonce = Nonce::from_slice(&nonce_bytes);
    let ciphertext = cipher.encrypt(nonce, password.as_bytes()).unwrap();
    let v1_encrypted = format!("{}{}", ENCRYPTED_PREFIX, general_purpose::STANDARD.encode(&ciphertext));

    // v1 format should still decrypt correctly
    let decrypted = decrypt_string(&v1_encrypted).unwrap();
    assert_eq!(password, decrypted);
}

#[test]
fn test_bare_legacy_compatibility() {
    // Simulate bare legacy (no prefix at all)
    let password = "bare_legacy";
    let key = get_encryption_key();
    let cipher = Aes256Gcm::new_from_slice(&key).unwrap();
    let nonce_bytes = fixed_nonce();
    let nonce = Nonce::from_slice(&nonce_bytes);
    let ciphertext = cipher.encrypt(nonce, password.as_bytes()).unwrap();
    let bare_encrypted = general_purpose::STANDARD.encode(ciphertext);

    assert!(!bare_encrypted.starts_with(ENCRYPTED_PREFIX));
    let decrypted = decrypt_string(&bare_encrypted).unwrap();
    assert_eq!(password, decrypted);
}

#[test]
fn test_encrypt_with_explicit_key_round_trips() {
    let key: Vec<u8> = (0u8..32).collect();
    let nonce: Vec<u8> = (100u8..112).collect();
    let env = encrypt_with_key(&key, &nonce, "hello world").unwrap();
    assert!(env.starts_with(ENCRYPTED_V2_PREFIX));
    assert_eq!(decrypt_with_key(&key, &env).unwrap(), "hello world");
}

#[test]
fn test_decrypt_fails_under_wrong_key() {
    let key: Vec<u8> = (0u8..32).collect();
    let other: Vec<u8> = (1u8..33).collect();
    let nonce: Vec<u8> = (100u8..112).collect();
    let env = encrypt_with_key(&key, &nonce, "hello world").unwrap();
    assert!(decrypt_with_key(&other, &env).is_err());
}

#[test]
fn test_decrypt_string_rejects_bad_base64() {
    // '!' is not in the base64 alphabet
    assert!(decrypt_string("ag_enc_v2_!!!").is_err());
    assert!(decrypt_string("ag_enc_!!!").is_err());
}

#[test]
fn test_serialize_guard_is_idempotent() {
    let once = serialize_password("top_secret").unwrap();
    assert!(once.starts_with(ENCRYPTED_V2_PREFIX));
    let twice = serialize_password(&once).unwrap();
    assert_eq!(once, twice, "an already-prefixed value must pass through unchanged");
    // a v1-prefixed value passes through as well, whatever follows the marker
    let v1ish = "ag_enc_abcdef";
    assert_eq!(serialize_password(v1ish).unwrap(), v1ish);
}

#[test]
fn test_serialize_guard_with_explicit_key() {
    let key: Vec<u8> = (7u8..39).collect();
    let nonce: Vec<u8> = (50u8..62).collect();
    let env = serialize_password_with_key(&key, &nonce, "abc").unwrap();
    assert!(env.starts_with(ENCRYPTED_V2_PREFIX));
    let again = serialize_password_with_key(&key, &nonce, &env).unwrap();
    assert_eq!(env, again);
    assert_eq!(decrypt_with_key(&key, &env).unwrap(), "abc");
}

#[test]
fn test_deserialize_round_trip() {
    let stored = serialize_password("db_password").unwrap();
    assert_eq!(deserialize_password(&stored), "db_password");
}

#[test]
fn test_deserialize_returns_unreadable_input_unchanged() {
    // not an envelope at all: comes back untouched instead of failing
    assert_eq!(deserialize_password("just a plain password!"), "just a plain password!");
    // an envelope that cannot be opened (corrupted) also comes back untouched
    let corrupted = "ag_enc_v2_AAAAAAAAAAAAAAAAAAAAAAAAAAAAAAAAAAAA";
    assert_eq!(deserialize_password(corrupted), corrupted);
    // the empty string stays empty
    assert_eq!(deserialize_password(""), "");
}

#[test]
fn test_encryption_key_is_32_bytes() {
    assert_eq!(get_encryption_key().len(), 32);
    assert_eq!(get_encryption_key(), get_encryption_key());
}

#[test]
fn test_fixed_nonce_value() {
    assert_eq!(fixed_nonce(), b"antigravsalt".to_vec());
}

#[test]
fn test_distinct_nonces_give_distinct_envelopes() {
    let key: Vec<u8> = (0u8..32).collect();
    let n1: Vec<u8> = (0u8..12).collect();
    let n2: Vec<u8> = (1u8..13).collect();
    let e1 = encrypt_with_key(&key, &n1, "same_password").unwrap();
    let e2 = encrypt_with_key(&key, &n2, "same_password").unwrap();
    assert_ne!(e1, e2);
    assert_eq!(decrypt_with_key(&key, &e1).unwrap(), "same_password");
    assert_eq!(decrypt_with_key(&key, &e2).unwrap(), "same_password");
}

#[test]
fn test_decrypt_error_texts() {
    assert_eq!(decrypt_string("ag_enc_v2_!!!").unwrap_err(), "Base64 decode failed");
    // base64 of five bytes: too short to carry a 12-byte nonce
    assert_eq!(
        decrypt_string("ag_enc_v2_aGVsbG8=").unwrap_err(),
        "Ciphertext too short (missing nonce)"
    );
    let key: Vec<u8> = (0u8..32).collect();
    let other: Vec<u8> = (1u8..33).collect();
    let nonce: Vec<u8> = (100u8..112).collect();
    let env = encrypt_with_key(&key, &nonce, "x").unwrap();
    assert_eq!(decrypt_with_key(&other, &env).unwrap_err(), "Decryption failed");
}
