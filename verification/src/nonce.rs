//! The numbers that tell one scan from another, taken from the clock.

use std::time::{SystemTime, SystemTimeError};
use vstd::prelude::*;

verus! {

/// The first port of the dynamic range.
pub const FIRST_DYNAMIC_PORT: u16 = 49152;

/// `std::time::SystemTime`.
#[verifier::external_type_specification]
#[verifier::external_body]
pub struct ExSystemTime(SystemTime);

/// `std::time::SystemTimeError`.
#[verifier::external_type_specification]
#[verifier::external_body]
pub struct ExSystemTimeError(SystemTimeError);

/// `SystemTime::now`: nothing is claimed of the time.
pub assume_specification[ SystemTime::now ]() -> SystemTime
;

/// `SystemTime::duration_since`, from `UNIX_EPOCH`: the time between the two in whole
/// seconds and the nanoseconds that are left, fewer than a second has. Nothing else is
/// claimed of it, nor when the clock stands before the epoch.
#[verifier::external_body]
fn since_unix_epoch(time: &SystemTime) -> (since: Result<(u64, u32), SystemTimeError>)
    ensures
        since matches Ok((_, nanos)) ==> nanos < 1_000_000_000,
{
    let since = time.duration_since(std::time::UNIX_EPOCH);
    since.map(|since| (since.as_secs(), since.subsec_nanos()))
}

/// The nonce for a reading of the clock, in seconds and nanoseconds since the
/// beginning of 1970: the nanoseconds of the current second. It is zero where the
/// clock stands before that.
pub fn nonce_from(reading: Option<(u64, u32)>) -> (nonce: u32)
    ensures
        nonce == match reading {
            Some((_, nanos)) => nanos,
            None => 0,
        },
{
    match reading {
        Some((_, nanos)) => nanos,
        None => 0,
    }
}

/// The nonce at the current time. Which one it is depends on the clock.
pub fn nonce() -> (nonce: u32)
    ensures
        nonce < 1_000_000_000,
{
    nonce_from(since_unix_epoch(&SystemTime::now()).ok())
}

/// The source port that a nonce picks.
pub fn source_port_from(nonce: u32) -> (port: u16)
    ensures
        port == FIRST_DYNAMIC_PORT + nonce % 16384,
        49152 <= port <= 65535,
{
    FIRST_DYNAMIC_PORT + (nonce % 16384) as u16
}

/// A source port of the dynamic range, picked by the clock.
pub fn source_port() -> (port: u16)
    ensures
        49152 <= port <= 65535,
{
    source_port_from(nonce())
}

} // verus!
