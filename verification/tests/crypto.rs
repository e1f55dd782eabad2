use base64::Engine;
use soundpad_bard::crypto::{
    decrypt_password, encrypt_password, encrypt_password_with, is_encrypted, machine_key_material,
    CryptoError,
};

#[test]
fn prefix_marks_encrypted_values() {
    assert!(is_encrypted("enc:abc"));
    assert!(is_encrypted("enc:"));
    assert!(!is_encrypted("en"));
    assert!(!is_encrypted("ENC:abc"));
    assert!(!is_encrypted("secret"));
}

#[test]
fn round_trip() {
    let stored = encrypt_password("hunter2", "host:user").unwrap();
    assert!(is_encrypted(&stored));
    assert_eq!(decrypt_password(&stored, "host:user").unwrap(), "hunter2");
}

#[test]
fn round_trip_of_empty_and_unicode_passwords() {
    for p in ["", "sénha ✓ 密码"] {
        let stored = encrypt_password(p, "m:u").unwrap();
        assert_eq!(decrypt_password(&stored, "m:u").unwrap(), p);
    }
}

#[test]
fn fresh_salt_each_time() {
    let a = encrypt_password("x", "k").unwrap();
    let b = encrypt_password("x", "k").unwrap();
    assert_ne!(a, b);
}

#[test]
fn fixed_salt_and_nonce_give_fixed_output() {
    let salt = [7u8; 16];
    let nonce = [9u8; 12];
    let a = encrypt_password_with("pw", "k", &salt, &nonce).unwrap();
    let b = encrypt_password_with("pw", "k", &salt, &nonce).unwrap();
    assert_eq!(a, b);
    assert!(a.starts_with("enc:"));
    // 16 + 12 + 2 + 16 = 46 bytes of payload: 64 characters of Base64.
    assert_eq!(a.len(), 4 + 64);
    assert_eq!(decrypt_password(&a, "k").unwrap(), "pw");
}

#[test]
fn plain_values_pass_through() {
    assert_eq!(decrypt_password("plain", "k").unwrap(), "plain");
    assert_eq!(decrypt_password("", "k").unwrap(), "");
}

#[test]
fn wrong_key_fails() {
    let stored = encrypt_password("pw", "a:b").unwrap();
    assert_eq!(decrypt_password(&stored, "a:c"), Err(CryptoError::DecryptionFailed));
}

#[test]
fn malformed_payloads() {
    assert_eq!(decrypt_password("enc:***", "k"), Err(CryptoError::InvalidBase64));
    assert_eq!(decrypt_password("enc:AAAA", "k"), Err(CryptoError::PayloadTooShort));
    let mut stored = encrypt_password("pw", "k").unwrap();
    stored.truncate(stored.len() - 4);
    stored.push_str("AAAA");
    assert!(decrypt_password(&stored, "k").is_err());
}

#[test]
fn key_material_falls_back() {
    let s = |v: &str| Some(v.to_string());
    assert_eq!(machine_key_material(s("h"), s("c"), s("u"), s("n")), "h:u");
    assert_eq!(machine_key_material(None, s("c"), None, s("n")), "c:n");
    assert_eq!(machine_key_material(None, None, None, None), "default-host:default-user");
}

#[test]
fn short_passwords_are_always_encrypted() {
    for p in ["", "a", "senha longa com acentuação ç"] {
        let stored = encrypt_password(p, "h:u").unwrap();
        assert!(is_encrypted(&stored));
        assert_eq!(decrypt_password(&stored, "h:u").unwrap(), p);
    }
}

#[test]
fn payload_holds_salt_nonce_and_tagged_ciphertext() {
    let salt = [7u8; 16];
    let nonce = [9u8; 12];
    let stored = encrypt_password_with("abcde", "k", &salt, &nonce).unwrap();
    let payload = base64::engine::general_purpose::STANDARD.decode(&stored[4..]).unwrap();
    assert_eq!(payload.len(), 16 + 12 + 5 + 16);
    assert_eq!(&payload[..16], &salt[..]);
    assert_eq!(&payload[16..28], &nonce[..]);
}
