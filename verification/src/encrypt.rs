//! At-rest sealing of blobs with ChaCha20-Poly1305: a fresh 12-byte nonce
//! is prepended to the ciphertext, and opening checks the authentication
//! tag. The cipher itself is the `chacha20poly1305` crate's; what opening
//! returns is a function of ciphertext and key alone, named `open_of`.

use chacha20poly1305::aead::{Aead, KeyInit};
use chacha20poly1305::{ChaCha20Poly1305, Key, Nonce};
use rand::RngCore;
use vstd::prelude::*;

verus! {

/// What opening a sealed blob (12-byte nonce, then ciphertext and tag)
/// under a key returns: the plaintext, or nothing when the blob is not a
/// valid sealing under that key.
pub uninterp spec fn open_of(ciphertext: Seq<u8>, key: Seq<u8>) -> Option<Seq<u8>>;

/// Relies on chacha20poly1305's encrypt (and rand::thread_rng for the
/// nonce): the result is the nonce followed by ciphertext and 16-byte tag,
/// and decrypting it with the same key gives the plaintext back. Encrypting
/// is fallible only beyond the cipher's 2^38-byte message bound, which the
/// precondition rules out.
#[verifier::external_body]
fn aead_seal(data: &[u8], key_bytes: &[u8; 32]) -> (r: Vec<u8>)
    requires
        data@.len() < 0x3fffffffc0,
    ensures
        r@.len() == data@.len() + 28,
        open_of(r@, key_bytes@) == Some(data@),
{
    let cipher = ChaCha20Poly1305::new(Key::from_slice(key_bytes));
    let mut nonce_bytes = [0u8; 12];
    rand::thread_rng().fill_bytes(&mut nonce_bytes);
    let nonce = Nonce::from_slice(&nonce_bytes);
    let mut ciphertext = cipher.encrypt(nonce, data).unwrap();
    let mut result = nonce_bytes.to_vec();
    result.append(&mut ciphertext);
    result
}

/// Relies on chacha20poly1305's decrypt: it returns the plaintext exactly
/// when the blob is a valid sealing under the key, and fails otherwise; the
/// outcome depends on ciphertext and key alone.
#[verifier::external_body]
fn aead_open(ciphertext: &[u8], key_bytes: &[u8; 32]) -> (r: Option<Vec<u8>>)
    ensures
        match r {
            Some(v) => open_of(ciphertext@, key_bytes@) == Some(v@),
            None => open_of(ciphertext@, key_bytes@) is None,
        },
{
    if ciphertext.len() < 12 {
        return None;
    }
    let (nonce_bytes, ct) = ciphertext.split_at(12);
    let cipher = ChaCha20Poly1305::new(Key::from_slice(key_bytes));
    let nonce = Nonce::from_slice(nonce_bytes);
    cipher.decrypt(nonce, ct).ok()
}

/// Seal a blob under a 256-bit key: a fresh nonce, the ciphertext, and the
/// authentication tag, 28 bytes longer than the plaintext; opening the
/// result with the same key gives the blob back.
pub fn encrypt(data: &[u8], key_bytes: &[u8; 32]) -> (r: Vec<u8>)
    requires
        data@.len() < 0x3fffffffc0,
    ensures
        r@.len() == data@.len() + 28,
        open_of(r@, key_bytes@) == Some(data@),
{
    aead_seal(data, key_bytes)
}

/// Open a sealed blob known to be valid under the key.
pub fn decrypt(ciphertext: &[u8], key_bytes: &[u8; 32]) -> (r: Vec<u8>)
    requires
        open_of(ciphertext@, key_bytes@) is Some,
    ensures
        Some(r@) == open_of(ciphertext@, key_bytes@),
{
    match aead_open(ciphertext, key_bytes) {
        Some(v) => v,
        None => vstd::pervasive::unreached(),
    }
}

/// Open a sealed blob, or learn that it is not a valid sealing under the
/// key: the checked front door to `decrypt`.
pub fn decrypt_checked(ciphertext: &[u8], key_bytes: &[u8; 32]) -> (r: Option<Vec<u8>>)
    ensures
        match r {
            Some(v) => open_of(ciphertext@, key_bytes@) == Some(v@),
            None => open_of(ciphertext@, key_bytes@) is None,
        },
{
    match aead_open(ciphertext, key_bytes) {
        Some(_) => Some(decrypt(ciphertext, key_bytes)),
        None => None,
    }
}

} // verus!
