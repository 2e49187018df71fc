//! Node identity: a random private key, a public key derived from it by
//! SHA3-256, and a hex address derived from the public key in turn.

use crate::digest::{hex_of, sha3_256, sha3_256_of, hex_encode};
use crate::entropy::random_bytes;
use vstd::prelude::*;

verus! {

broadcast use vstd::array::group_array_axioms;

/// A node's key pair and derived address.
pub struct Identity {
    pub private_key: [u8; 32],
    pub public_key: [u8; 32],
    pub address: String,
}

/// Copy a 32-byte digest into an array.
fn to_key(bytes: &Vec<u8>) -> (r: [u8; 32])
    requires
        bytes@.len() == 32,
    ensures
        r@ == bytes@,
{
    let mut out = [0u8; 32];
    let mut i: usize = 0;
    while i < 32
        invariant
            i <= 32,
            bytes@.len() == 32,
            forall|j: int| 0 <= j < i ==> out@[j] == bytes@[j],
        decreases 32 - i,
    {
        out[i] = bytes[i];
        i = i + 1;
    }
    proof {
        assert(out@ =~= bytes@);
    }
    out
}

/// Generate a fresh identity: a random 256-bit private key, the public key
/// as its SHA3-256 digest, and the address as the hex of the public key's
/// digest.
pub fn generate_identity() -> (r: Identity)
    ensures
        r.public_key@ == sha3_256_of(r.private_key@),
        r.address@ == hex_of(sha3_256_of(r.public_key@)),
{
    let priv_bytes = random_bytes(32);
    let private_key = to_key(&priv_bytes);
    let pub_digest = sha3_256(priv_bytes.as_slice());
    let public_key = to_key(&pub_digest);
    let addr_digest = sha3_256(pub_digest.as_slice());
    let address = hex_encode(addr_digest.as_slice());
    Identity { private_key, public_key, address }
}

} // verus!
