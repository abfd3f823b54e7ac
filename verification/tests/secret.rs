use lsyshell::secret::{decrypt_secret, password_from_plaintext, SecretError};

#[test]
fn sealed_password_is_recovered() {
    let key = orion::aead::SecretKey::from_slice(&[7u8; 32]).unwrap();
    let sealed = orion::aead::seal(&key, "hunter2".as_bytes()).unwrap();
    assert_eq!(decrypt_secret(&[7u8; 32], &sealed), Ok("hunter2".to_string()));
}

#[test]
fn wrong_key_fails_to_decrypt() {
    let key = orion::aead::SecretKey::from_slice(&[7u8; 32]).unwrap();
    let sealed = orion::aead::seal(&key, b"hunter2").unwrap();
    assert_eq!(decrypt_secret(&[8u8; 32], &sealed), Err(SecretError::DecryptionFailed));
}

#[test]
fn key_of_other_length_fails_to_decrypt() {
    let key = orion::aead::SecretKey::from_slice(&[7u8; 32]).unwrap();
    let sealed = orion::aead::seal(&key, b"hunter2").unwrap();
    assert_eq!(decrypt_secret(&[7u8; 16], &sealed), Err(SecretError::DecryptionFailed));
}

#[test]
fn empty_key_is_invalid() {
    assert_eq!(decrypt_secret(&[], &[0u8; 64]), Err(SecretError::InvalidKey));
}

#[test]
fn short_sealed_data_fails() {
    assert_eq!(decrypt_secret(&[1u8; 32], &[0u8; 40]), Err(SecretError::DecryptionFailed));
}

#[test]
fn non_utf8_plaintext_is_rejected() {
    let key = orion::aead::SecretKey::from_slice(&[9u8; 32]).unwrap();
    let sealed = orion::aead::seal(&key, &[0xff, 0xfe]).unwrap();
    assert_eq!(decrypt_secret(&[9u8; 32], &sealed), Err(SecretError::InvalidUtf8));
}

#[test]
fn plaintext_outcomes() {
    assert_eq!(password_from_plaintext(None), Err(SecretError::DecryptionFailed));
    assert_eq!(password_from_plaintext(Some(b"pw".to_vec())), Ok("pw".to_string()));
    assert_eq!(password_from_plaintext(Some(vec![0xc3])), Err(SecretError::InvalidUtf8));
}
