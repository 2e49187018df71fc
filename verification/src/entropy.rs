//! Sources of randomness and wall-clock time. Nothing can be promised of
//! their values, so the contracts state only shape.

use rand::RngCore;
use vstd::prelude::*;

verus! {

/// Relies on rand::thread_rng (RngCore::fill_bytes): fills a buffer of the
/// requested length; nothing is promised of the values.
#[verifier::external_body]
pub(crate) fn random_bytes(n: usize) -> (r: Vec<u8>)
    ensures
        r@.len() == n,
{
    let mut buf = vec![0u8; n];
    rand::thread_rng().fill_bytes(&mut buf);
    buf
}

/// Relies on std::time::SystemTime: seconds since the Unix epoch, or 0 if
/// the clock is set before it.
#[verifier::external_body]
pub(crate) fn unix_time_secs() -> u64 {
    std::time::SystemTime::now()
        .duration_since(std::time::UNIX_EPOCH)
        .map(|d| d.as_secs())
        .unwrap_or(0)
}

/// Relies on std::time::SystemTime: nanoseconds since the Unix epoch, or 0
/// if the clock is set before it.
#[verifier::external_body]
pub(crate) fn unix_time_nanos() -> u128 {
    std::time::SystemTime::now()
        .duration_since(std::time::UNIX_EPOCH)
        .map(|d| d.as_nanos())
        .unwrap_or(0)
}

} // verus!
