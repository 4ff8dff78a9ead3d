use config_server::encryption::{decrypt, encrypt, encrypt_with_nonce, CipherError};

#[test]
fn encrypt_then_decrypt_gives_the_plaintext() {
    for plaintext in ["", "secret", "pässwörd with spaces", "{cipher}looks encrypted"] {
        let encrypted = encrypt(plaintext).unwrap();
        assert!(encrypted.starts_with("{cipher}"));
        assert_ne!(encrypted, plaintext);
        assert_eq!(decrypt(&encrypted).unwrap(), plaintext);
    }
}

#[test]
fn encrypt_draws_a_fresh_nonce() {
    let a = encrypt("same").unwrap();
    let b = encrypt("same").unwrap();
    assert_ne!(a, b);
}

#[test]
fn encrypt_with_nonce_is_determined_by_its_inputs() {
    let nonce = vec![7u8; 12];
    let a = encrypt_with_nonce("value", &nonce).unwrap();
    let b = encrypt_with_nonce("value", &nonce).unwrap();
    assert_eq!(a, b);
    assert_eq!(decrypt(&a).unwrap(), "value");
    // 12 bytes of nonce and 16 of tag make 28 bytes, which base64 writes in 40 characters.
    assert_eq!(encrypt_with_nonce("", &nonce).unwrap().len(), "{cipher}".len() + 40);
    assert!(encrypt_with_nonce("", &nonce).unwrap().starts_with("{cipher}BwcHBwcHBwcHBwcH"));
    let other = encrypt_with_nonce("value", &vec![8u8; 12]).unwrap();
    assert_ne!(a, other);
}

#[test]
fn encrypt_with_nonce_wants_twelve_bytes() {
    assert_eq!(encrypt_with_nonce("v", &vec![0u8; 11]).unwrap_err(), CipherError::Nonce);
    assert_eq!(encrypt_with_nonce("v", &vec![0u8; 13]).unwrap_err(), CipherError::Nonce);
    assert_eq!(encrypt_with_nonce("v", &vec![]).unwrap_err(), CipherError::Nonce);
}

#[test]
fn decrypt_hands_back_what_is_not_marked() {
    assert_eq!(decrypt("plain value").unwrap(), "plain value");
    assert_eq!(decrypt("").unwrap(), "");
    assert_eq!(decrypt("{cipher").unwrap(), "{cipher");
    assert_eq!(decrypt(" {cipher}AAAA").unwrap(), " {cipher}AAAA");
}

#[test]
fn decrypt_errors() {
    assert_eq!(decrypt("{cipher}not base64!").unwrap_err(), CipherError::Decode);
    assert_eq!(decrypt("{cipher}").unwrap_err(), CipherError::TooShort);
    assert_eq!(decrypt("{cipher}AAAAAAAAAAAAAAA=").unwrap_err(), CipherError::TooShort);
    assert_eq!(decrypt("{cipher}AAAAAAAAAAAAAAAA").unwrap_err(), CipherError::Decrypt);
    let mut tampered = encrypt("value").unwrap();
    let last = tampered.pop().unwrap();
    tampered.insert(20, if last == 'A' { 'B' } else { 'A' });
    assert!(matches!(decrypt(&tampered), Err(CipherError::Decrypt) | Err(CipherError::Decode)));
}

use aes_gcm::aead::{Aead, KeyInit};
use base64::Engine;

#[test]
fn decrypt_refuses_plaintext_that_is_no_text() {
    let cipher = aes_gcm::Aes256Gcm::new_from_slice(b"default-secret-key-32-characters").unwrap();
    let nonce = [3u8; 12];
    let sealed = cipher.encrypt(aes_gcm::Nonce::from_slice(&nonce), &[0xffu8, 0xfe][..]).unwrap();
    let mut data = nonce.to_vec();
    data.extend_from_slice(&sealed);
    let encrypted =
        format!("{{cipher}}{}", base64::engine::general_purpose::STANDARD.encode(data));
    assert_eq!(decrypt(&encrypted).unwrap_err(), CipherError::Utf8);
}

#[test]
fn encrypted_form_is_mark_then_base64_of_nonce_and_ciphertext() {
    let cipher = aes_gcm::Aes256Gcm::new_from_slice(b"default-secret-key-32-characters").unwrap();
    let nonce = [9u8; 12];
    let sealed = cipher.encrypt(aes_gcm::Nonce::from_slice(&nonce), &b"value"[..]).unwrap();
    let mut data = nonce.to_vec();
    data.extend_from_slice(&sealed);
    let expected =
        format!("{{cipher}}{}", base64::engine::general_purpose::STANDARD.encode(data));
    assert_eq!(encrypt_with_nonce("value", &nonce.to_vec()).unwrap(), expected);
}

#[test]
fn ciphertext_is_the_tag_longer_than_the_plaintext() {
    let nonce = vec![1u8; 12];
    for plaintext in ["", "a", "twelve bytes", "größer"] {
        let encrypted = encrypt_with_nonce(plaintext, &nonce).unwrap();
        let data = base64::engine::general_purpose::STANDARD
            .decode(encrypted.strip_prefix("{cipher}").unwrap())
            .unwrap();
        assert_eq!(data.len(), 12 + plaintext.len() + 16);
        assert_eq!(&data[..12], &nonce[..]);
    }
}
