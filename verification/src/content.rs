//! Content helpers of the overlay browser: decrypting fetched pages,
//! signature checking, and address formatting. Content hashing lives in
//! the digest module.

use crate::encrypt::{decrypt, open_of};
use vstd::prelude::*;
use vstd::string::StringExecFns;

verus! {

/// Decrypt an in-memory page: a 12-byte nonce followed by sealed bytes,
/// known to be a valid sealing under the key.
pub fn decrypt_fdom(ciphertext: &[u8], key_bytes: &[u8; 32]) -> (r: Vec<u8>)
    requires
        open_of(ciphertext@, key_bytes@) is Some,
    ensures
        Some(r@) == open_of(ciphertext@, key_bytes@),
{
    decrypt(ciphertext, key_bytes)
}

/// Decrypt an in-memory page, or learn that the bytes are not a valid
/// sealing under the key: the checked front door to `decrypt_fdom`.
pub fn decrypt_fdom_checked(ciphertext: &[u8], key_bytes: &[u8; 32]) -> (r: Option<Vec<u8>>)
    ensures
        match r {
            Some(v) => open_of(ciphertext@, key_bytes@) == Some(v@),
            None => open_of(ciphertext@, key_bytes@) is None,
        },
{
    match crate::encrypt::decrypt_checked(ciphertext, key_bytes) {
        Some(v) => {
            proof {
                assert(open_of(ciphertext@, key_bytes@) is Some);
            }
            Some(decrypt_fdom(ciphertext, key_bytes))
        },
        None => None,
    }
}

/// Site signature verification. A placeholder: every signature is
/// accepted, and the contract says exactly that.
pub fn verify_signature(_content: &[u8], _signature: &[u8], _public_key: &[u8]) -> (r: bool)
    ensures
        r == true,
{
    true
}

/// Render a hex site address as a browser address.
pub fn format_address(hex_addr: &str) -> (r: String)
    ensures
        r@ == "freedom://"@ + hex_addr@,
{
    let mut r = String::from_str("freedom://");
    r.append(hex_addr);
    r
}

} // verus!
