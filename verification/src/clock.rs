//! Wall-clock and randomness sources. Their results depend on the machine
//! and the moment, so nothing is promised of them beyond their types; the
//! logic that consumes them is verified for every value they may return.

use vstd::prelude::*;

verus! {

/// Milliseconds since the Unix epoch from `std::time::SystemTime::now()`
/// (`duration_since(UNIX_EPOCH)`, 0 before the epoch, truncated to `u64`).
/// Nothing is claimed of the value.
#[verifier::external_body]
pub fn unix_time_ms() -> u64 {
    std::time::SystemTime::now().duration_since(std::time::UNIX_EPOCH).unwrap_or_default().as_millis() as u64
}

/// Whole seconds since the Unix epoch from `std::time::SystemTime::now()`
/// (`duration_since(UNIX_EPOCH)`, 0 before the epoch). Nothing is claimed
/// of the value.
#[verifier::external_body]
pub fn unix_time_secs() -> u64 {
    std::time::SystemTime::now().duration_since(std::time::UNIX_EPOCH).unwrap_or_default().as_secs()
}

/// Microseconds since the Unix epoch from `std::time::SystemTime::now()`,
/// truncated to `u64`. Nothing is claimed of the value.
#[verifier::external_body]
pub fn unix_time_us() -> u64 {
    std::time::SystemTime::now().duration_since(std::time::UNIX_EPOCH).unwrap_or_default().as_micros() as u64
}

/// The 16 bytes of a fresh random UUID from `uuid::Uuid::new_v4()`.
/// Claimed: the version nibble is 4 and the variant bits are `10` (the
/// function masks them into its random value); the other bits are random
/// and nothing is claimed of them.
#[verifier::external_body]
pub fn random_uuid_bytes() -> (r: [u8; 16])
    ensures
        r@[6] & 0xF0 == 0x40,
        r@[8] & 0xC0 == 0x80,
{
    *::uuid::Uuid::new_v4().as_bytes()
}

} // verus!
