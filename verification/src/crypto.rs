//! Key derivation and authenticated encryption, relied on from the argon2
//! and aes_gcm crates.

use aes_gcm::aead::Aead;
use aes_gcm::{AeadCore, Aes256Gcm, Key, KeyInit, Nonce};
use rand::Rng;
use vstd::prelude::*;
use vstd::string::StringSliceAdditionalSpecFns;

verus! {

/// The key that Argon2 (default parameters, 32-byte output) derives from a
/// passphrase and a 16-byte salt. Deterministic in its arguments alone.
pub uninterp spec fn derived_key_of(passphrase: Seq<char>, salt: Seq<u8>) -> Seq<u8>;

/// The ciphertext-and-tag that AES-256-GCM produces from a key, a nonce and a
/// plaintext. Deterministic in its arguments alone.
pub uninterp spec fn sealed_of(key: Seq<u8>, nonce: Seq<u8>, plaintext: Seq<u8>) -> Seq<u8>;

/// What AES-256-GCM decryption returns for a key, a nonce and a
/// ciphertext-and-tag: the plaintext when the tag authenticates, nothing
/// otherwise. Deterministic in its arguments alone.
pub uninterp spec fn opened_of(key: Seq<u8>, nonce: Seq<u8>, ciphertext: Seq<u8>) -> Option<
    Seq<u8>,
>;

/// Draws 16 random salt bytes from the thread's cryptographically secure
/// generator. Nothing holds of the result beyond its length: every call may
/// differ.
///
/// Relies on rand's `thread_rng` and `Rng::fill`.
#[verifier::external_body]
pub(crate) fn generate_salt() -> [u8; 16] {
    let mut salt = [0u8; 16];
    rand::thread_rng().fill(&mut salt);
    salt
}

/// Draws a fresh 12-byte nonce from the operating system's random source.
/// Nothing holds of the result beyond its length: every call may differ.
///
/// Relies on aes_gcm's `AeadCore::generate_nonce` over rand's `OsRng`.
#[verifier::external_body]
pub(crate) fn generate_nonce() -> [u8; 12] {
    let nonce = Aes256Gcm::generate_nonce(&mut rand::rngs::OsRng);
    nonce.into()
}

/// Derives a 32-byte key from a passphrase and a 16-byte salt.
///
/// Relies on argon2's `Argon2::hash_password_into` with default parameters:
/// the result is deterministic in the passphrase and the salt, and with a
/// 16-byte salt and a 32-byte output buffer the call fails exactly when the
/// passphrase is longer than 0xFFFF_FFFF bytes.
#[verifier::external_body]
pub(crate) fn derive_key(passphrase: &str, salt: &[u8]) -> (r: Option<[u8; 32]>)
    requires
        salt@.len() == 16,
    ensures
        r is Some <==> passphrase.spec_bytes().len() <= 0xFFFF_FFFF,
        r is Some ==> r->0@ == derived_key_of(passphrase@, salt@),
{
    let mut key = [0u8; 32];
    match argon2::Argon2::default().hash_password_into(passphrase.as_bytes(), salt, &mut key) {
        Ok(()) => Some(key),
        Err(_) => None,
    }
}

/// Encrypts a plaintext under a 32-byte key and a 12-byte nonce, appending
/// the 16-byte authentication tag.
///
/// Relies on aes_gcm's `Aead::encrypt` for `Aes256Gcm`: deterministic in the
/// key, the nonce and the plaintext; fails exactly when the plaintext is
/// longer than 2^36 bytes; and produces exactly what `Aead::decrypt` accepts
/// and inverts under the same key and nonce.
#[verifier::external_body]
pub(crate) fn aead_seal(key: &[u8], nonce: &[u8], plaintext: &[u8]) -> (r: Option<Vec<u8>>)
    requires
        key@.len() == 32,
        nonce@.len() == 12,
    ensures
        r is Some <==> plaintext@.len() <= 0x10_0000_0000,
        r is Some ==> r->0@ == sealed_of(key@, nonce@, plaintext@),
        r is Some ==> r->0@.len() == plaintext@.len() + 16,
        r is Some ==> opened_of(key@, nonce@, r->0@) == Some(plaintext@),
{
    let cipher = Aes256Gcm::new(Key::<Aes256Gcm>::from_slice(key));
    cipher.encrypt(Nonce::from_slice(nonce), plaintext).ok()
}

/// Decrypts a ciphertext-and-tag under a 32-byte key and a 12-byte nonce,
/// releasing the plaintext only when the tag authenticates.
///
/// Relies on aes_gcm's `Aead::decrypt` for `Aes256Gcm`: deterministic in the
/// key, the nonce and the ciphertext, and always failing on a buffer shorter
/// than the 16-byte tag.
#[verifier::external_body]
pub(crate) fn aead_open(key: &[u8], nonce: &[u8], ciphertext: &[u8]) -> (r: Option<Vec<u8>>)
    requires
        key@.len() == 32,
        nonce@.len() == 12,
    ensures
        r is Some <==> opened_of(key@, nonce@, ciphertext@) is Some,
        r is Some ==> Some(r->0@) == opened_of(key@, nonce@, ciphertext@),
        ciphertext@.len() < 16 ==> r is None,
{
    let cipher = Aes256Gcm::new(Key::<Aes256Gcm>::from_slice(key));
    cipher.decrypt(Nonce::from_slice(nonce), ciphertext).ok()
}

} // verus!
