//! The wall clock.
use vstd::prelude::*;

verus! {

/// Nanoseconds per millisecond.
pub const MS: i64 = 1_000_000;

/// `SystemTime::now` and its distance from the epoch in nanoseconds; `None` where the
/// clock stands before the epoch. Nothing is promised of the time itself.
#[verifier::external_body]
fn unix_nanos() -> (r: Option<u128>) {
    std::time::SystemTime::now()
        .duration_since(std::time::UNIX_EPOCH)
        .ok()
        .map(|d| d.as_nanos())
}

/// Nanoseconds since the unix epoch as a stamp: 0 where the clock stands before the epoch,
/// and the largest `i64` where the count no longer fits.
pub fn nanos_of(n: Option<u128>) -> (r: i64)
    ensures
        r == match n {
            Some(x) => if x <= i64::MAX {
                x as i64
            } else {
                i64::MAX
            },
            None => 0,
        },
{
    match n {
        Some(x) => if x <= 9223372036854775807 {
            x as i64
        } else {
            9223372036854775807
        },
        None => 0,
    }
}

/// Wall-clock nanoseconds since the unix epoch: what `nanos_of` makes of the clock.
pub fn now_ns() -> (r: i64)
    ensures
        r >= 0,
{
    nanos_of(unix_nanos())
}

/// Wall-clock milliseconds since the unix epoch.
pub fn now_ms() -> (r: i64)
    ensures
        0 <= r <= i64::MAX / MS,
{
    now_ns() / MS
}

} // verus!
