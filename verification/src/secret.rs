//! Recovering the password of a saved session from its sealed form: the key
//! and the sealed bytes go through orion's authenticated decryption, and the
//! plaintext must be UTF-8.
use vstd::prelude::*;
use vstd::utf8::{decode_utf8, decode_utf8_encode_utf8, encode_utf8, valid_utf8};
use orion::aead::SecretKey;
use orion::errors::UnknownCryptoError;
use std::string::FromUtf8Error;

verus! {

#[verifier::external_type_specification]
#[verifier::external_body]
pub struct ExSecretKey(SecretKey);

#[verifier::external_type_specification]
#[verifier::external_body]
pub struct ExUnknownCryptoError(UnknownCryptoError);

#[verifier::external_type_specification]
#[verifier::external_body]
pub struct ExFromUtf8Error(FromUtf8Error);

/// Why a sealed password could not be recovered.
#[derive(PartialEq, Eq, Structural, Clone, Copy, Debug)]
pub enum SecretError {
    /// The key is empty or longer than `isize::MAX` bytes.
    InvalidKey,
    /// The key does not open the sealed bytes (wrong key, wrong length, or tampered data).
    DecryptionFailed,
    /// The plaintext is not UTF-8.
    InvalidUtf8,
}

/// The bytes an orion `SecretKey` holds.
pub uninterp spec fn secret_key_bytes(key: SecretKey) -> Seq<u8>;

/// What XChaCha20-Poly1305 decryption of `sealed` (nonce first, tag last) under
/// `key` yields: the plaintext, or `None` when it does not authenticate.
pub uninterp spec fn aead_opened(key: Seq<u8>, sealed: Seq<u8>) -> Option<Seq<u8>>;

/// `orion::aead::SecretKey::from_slice`: accepts any non-empty slice of at
/// most `isize::MAX` bytes and holds a copy of it.
#[verifier::external_body]
fn secret_key_from_slice(bytes: &[u8]) -> (r: Result<SecretKey, UnknownCryptoError>)
    ensures
        r is Ok <==> (bytes@.len() > 0 && bytes@.len() <= isize::MAX),
        r matches Ok(k) ==> secret_key_bytes(k) == bytes@,
{
    SecretKey::from_slice(bytes)
}

/// `orion::aead::open`: the contract claims that the result is `aead_opened` of
/// the key's bytes and the sealed bytes, and that a key other than 32 bytes, or
/// sealed bytes no longer than nonce and tag (40 bytes), fail. The cipher itself
/// is not stated.
#[verifier::external_body]
fn aead_open(key: &SecretKey, sealed: &[u8]) -> (r: Result<Vec<u8>, UnknownCryptoError>)
    ensures
        r matches Ok(p) ==> aead_opened(secret_key_bytes(*key), sealed@) == Some(p@),
        r is Err ==> aead_opened(secret_key_bytes(*key), sealed@) is None,
        (secret_key_bytes(*key).len() != 32 || sealed@.len() <= 40) ==> r is Err,
{
    orion::aead::open(key, sealed)
}

/// `String::from_utf8`: succeeds exactly on valid UTF-8, with the decoded characters.
#[verifier::external_body]
fn string_from_utf8(bytes: Vec<u8>) -> (r: Result<String, FromUtf8Error>)
    ensures
        r is Ok <==> valid_utf8(bytes@),
        r matches Ok(s) ==> s@ == decode_utf8(bytes@),
{
    String::from_utf8(bytes)
}

/// What a decryption outcome gives: the password's characters or the error.
pub open spec fn plaintext_outcome(opened: Option<Seq<u8>>) -> Result<Seq<char>, SecretError> {
    match opened {
        None => Err(SecretError::DecryptionFailed),
        Some(p) => if valid_utf8(p) {
            Ok(decode_utf8(p))
        } else {
            Err(SecretError::InvalidUtf8)
        },
    }
}

/// The bytes of an optional vector.
pub open spec fn bytes_view(opened: Option<Vec<u8>>) -> Option<Seq<u8>> {
    match opened {
        Some(p) => Some(p@),
        None => None,
    }
}

/// What `decrypt_secret` gives for a key and sealed bytes.
pub open spec fn secret_outcome(key: Seq<u8>, sealed: Seq<u8>) -> Result<Seq<char>, SecretError> {
    if key.len() == 0 || key.len() > isize::MAX {
        Err(SecretError::InvalidKey)
    } else {
        plaintext_outcome(aead_opened(key, sealed))
    }
}

/// The password in a decryption outcome: `DecryptionFailed` for `None`,
/// the text for UTF-8 plaintext, `InvalidUtf8` otherwise.
pub fn password_from_plaintext(opened: Option<Vec<u8>>) -> (r: Result<String, SecretError>)
    ensures
        r matches Ok(s) ==> opened matches Some(p) && encode_utf8(s@) == p@,
        opened is None ==> r == Err::<String, SecretError>(SecretError::DecryptionFailed),
        opened matches Some(p) ==> (r is Ok <==> valid_utf8(p@)),
        match r {
            Ok(s) => plaintext_outcome(bytes_view(opened)) == Ok::<Seq<char>, SecretError>(s@),
            Err(e) => plaintext_outcome(bytes_view(opened)) == Err::<Seq<char>, SecretError>(e),
        },
{
    proof {
        if opened is Some {
            law_password_is_whole_plaintext(opened->0@);
        }
    }
    match opened {
        None => Err(SecretError::DecryptionFailed),
        Some(p) => match string_from_utf8(p) {
            Ok(s) => Ok(s),
            Err(_) => Err(SecretError::InvalidUtf8),
        },
    }
}

/// Recovers the password that `secret_data` seals under `secret_key`.
pub fn decrypt_secret(secret_key: &[u8], secret_data: &[u8]) -> (r: Result<String, SecretError>)
    ensures
        r matches Ok(s) ==> aead_opened(secret_key@, secret_data@) == Some(encode_utf8(s@)),
        match r {
            Ok(s) => secret_outcome(secret_key@, secret_data@) == Ok::<Seq<char>, SecretError>(s@),
            Err(e) => secret_outcome(secret_key@, secret_data@) == Err::<Seq<char>, SecretError>(e),
        },
        (secret_key@.len() > 0 && secret_key@.len() <= isize::MAX && secret_key@.len() != 32) ==> r matches Err(
            SecretError::DecryptionFailed,
        ),
{
    let key = match secret_key_from_slice(secret_key) {
        Ok(k) => k,
        Err(_) => return Err(SecretError::InvalidKey),
    };
    let opened = match aead_open(&key, secret_data) {
        Ok(p) => Some(p),
        Err(_) => None,
    };
    let r = password_from_plaintext(opened);
    proof {
        law_recovered_password_is_opened_plaintext(secret_key@, secret_data@);
    }
    r
}

/// Law: a plaintext yields a password exactly when it is valid UTF-8, and
/// then the password encodes back to the whole plaintext, byte for byte.
pub proof fn law_password_is_whole_plaintext(p: Seq<u8>)
    ensures
        plaintext_outcome(Some(p)) is Ok <==> valid_utf8(p),
        plaintext_outcome(Some(p)) matches Ok(s) ==> encode_utf8(s) == p,
        plaintext_outcome(None) == Err::<Seq<char>, SecretError>(SecretError::DecryptionFailed),
{
    if valid_utf8(p) {
        decode_utf8_encode_utf8(p);
    }
}

/// Law: a recovered password is the authenticated plaintext of the sealed
/// bytes under the key, whole; and any key that orion accepts and that opens
/// the sealed bytes to valid UTF-8 recovers that text.
pub proof fn law_recovered_password_is_opened_plaintext(key: Seq<u8>, sealed: Seq<u8>)
    ensures
        secret_outcome(key, sealed) matches Ok(s) ==> aead_opened(key, sealed) == Some(
            encode_utf8(s),
        ),
        forall|p: Seq<u8>|
            0 < key.len() <= isize::MAX && aead_opened(key, sealed) == Some(p) && #[trigger] valid_utf8(p)
                ==> secret_outcome(key, sealed) == Ok::<Seq<char>, SecretError>(decode_utf8(p)),
        (key.len() == 0 || key.len() > isize::MAX) ==> secret_outcome(key, sealed) == Err::<
            Seq<char>,
            SecretError,
        >(SecretError::InvalidKey),
{
    if let Some(p) = aead_opened(key, sealed) {
        law_password_is_whole_plaintext(p);
    }
}

} // verus!
