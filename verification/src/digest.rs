//! Hashing and hex-encoding primitives shared by the directory, the onion
//! layer and the identity code. The SHA3-256 digest itself is computed by
//! the `sha3` crate and is only named here; hex encoding is specified
//! exactly.

use sha3::Digest;
use vstd::prelude::*;

verus! {

/// The SHA3-256 digest of a byte sequence, as the `sha3` crate computes it.
pub uninterp spec fn sha3_256_of(data: Seq<u8>) -> Seq<u8>;

/// Relies on sha3::Sha3_256 (via Digest::update / finalize): the digest is a
/// function of the input bytes alone and is always 32 bytes long.
#[verifier::external_body]
pub(crate) fn sha3_256(data: &[u8]) -> (r: Vec<u8>)
    ensures
        r@ == sha3_256_of(data@),
        r@.len() == 32,
{
    let mut hasher = sha3::Sha3_256::new();
    hasher.update(data);
    hasher.finalize().to_vec()
}

pub const HEX_DIGITS: [char; 16] = ['0', '1', '2', '3', '4', '5', '6', '7', '8', '9', 'a', 'b', 'c', 'd', 'e', 'f'];

/// Lower-case hex encoding of a byte sequence, two digits per byte.
pub open spec fn hex_of(data: Seq<u8>) -> Seq<char>
    decreases data.len(),
{
    if data.len() == 0 {
        seq![]
    } else {
        seq![
            HEX_DIGITS@[(data.first() >> 4) as int],
            HEX_DIGITS@[(data.first() & 0x0f) as int],
        ] + hex_of(data.drop_first())
    }
}

/// Relies on hex::encode: lower-case hex, two digits per byte, high
/// nibble first.
#[verifier::external_body]
pub(crate) fn hex_encode(data: &[u8]) -> (r: String)
    ensures
        r@ == hex_of(data@),
{
    hex::encode(data)
}

pub proof fn lemma_hex_of_len(data: Seq<u8>)
    ensures
        hex_of(data).len() == 2 * data.len(),
    decreases data.len(),
{
    if data.len() > 0 {
        lemma_hex_of_len(data.drop_first());
    }
}

/// SHA3-256 hash of content, hex-encoded; used for address verification.
pub fn hash_content(content: &[u8]) -> (r: String)
    ensures
        r@ == hex_of(sha3_256_of(content@)),
        r@.len() == 64,
{
    let digest = sha3_256(content);
    let r = hex_encode(digest.as_slice());
    proof {
        lemma_hex_of_len(sha3_256_of(content@));
    }
    r
}

} // verus!
