use zync::crypto::{decrypt, derive_key, encrypt, NONCE_LEN, TAG_LEN};

#[test]
fn round_trip() {
    let plaintext = b"hello from zen sync";
    let key = "A3F9B2";
    let ciphertext = encrypt(plaintext, key).expect("encrypt failed");
    assert_ne!(&ciphertext[NONCE_LEN..], plaintext); // actually encrypted
    let recovered = decrypt(&ciphertext, key).expect("decrypt failed");
    assert_eq!(recovered, plaintext);
}

#[test]
fn wrong_key_fails() {
    let ciphertext = encrypt(b"secret data", "AAAAAA").expect("encrypt failed");
    assert!(decrypt(&ciphertext, "BBBBBB").is_err());
}

#[test]
fn truncated_payload_fails() {
    assert!(decrypt(&[0u8; 4], "AAAAAA").is_err());
}

#[test]
fn encrypted_payload_has_nonce_and_tag() {
    let data = b"profile bytes";
    let out = encrypt(data, "0A0B0C").unwrap();
    assert_eq!(out.len(), NONCE_LEN + data.len() + TAG_LEN);
}

#[test]
fn round_trip_of_empty_data() {
    let out = encrypt(b"", "FFFFFF").unwrap();
    assert_eq!(out.len(), NONCE_LEN + TAG_LEN);
    assert_eq!(decrypt(&out, "FFFFFF").unwrap(), Vec::<u8>::new());
}

#[test]
fn short_payload_error_text() {
    let err = decrypt(&[1u8; 11], "AAAAAA").unwrap_err();
    assert_eq!(err, "Payload too short — not a valid Zync bundle");
}

#[test]
fn tampered_payload_fails_with_text() {
    let mut out = encrypt(b"secret data", "AAAAAA").unwrap();
    let last = out.len() - 1;
    out[last] ^= 1;
    let err = decrypt(&out, "AAAAAA").unwrap_err();
    assert_eq!(err, "Decryption failed — wrong sync code or corrupted bundle");
}

#[test]
fn nonce_only_payload_fails() {
    assert!(decrypt(&[0u8; 12], "AAAAAA").is_err());
}

#[test]
fn two_encryptions_use_fresh_nonces() {
    let a = encrypt(b"same", "ABCDEF").unwrap();
    let b = encrypt(b"same", "ABCDEF").unwrap();
    assert_ne!(a, b);
    assert_eq!(decrypt(&a, "ABCDEF").unwrap(), b"same");
    assert_eq!(decrypt(&b, "ABCDEF").unwrap(), b"same");
}

#[test]
fn derived_key_is_deterministic_and_keyed() {
    let k1 = derive_key("A3F9B2");
    let k2 = derive_key("A3F9B2");
    let k3 = derive_key("A3F9B3");
    assert_eq!(k1.len(), 32);
    assert_eq!(k1, k2);
    assert_ne!(k1, k3);
    assert_ne!(&k1[..6], b"A3F9B2");
}

#[test]
fn decrypt_error_texts() {
    assert_eq!(decrypt(&[0u8; 4], "AAAAAA"), Err("Payload too short — not a valid Zync bundle".to_string()));
    let c = encrypt(b"secret data", "AAAAAA").expect("encrypt failed");
    assert_eq!(decrypt(&c, "BBBBBB"), Err("Decryption failed — wrong sync code or corrupted bundle".to_string()));
}
