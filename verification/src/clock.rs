//! Wall-clock time as whole seconds since the Unix epoch.

use vstd::prelude::*;

verus! {

/// Reads the system clock: `std::time::SystemTime::elapsed` on `UNIX_EPOCH`.
///
/// The result is the whole seconds since the Unix epoch, or `None` where the clock stands before
/// the epoch. It rests on the clock, so nothing is claimed of it.
#[verifier::external_body]
fn elapsed_since_epoch() -> Option<u64> {
    match std::time::UNIX_EPOCH.elapsed() {
        Ok(d) => Some(d.as_secs()),
        Err(_) => None,
    }
}

/// The timestamp that a clock reading stands for: its seconds, or 0 for a clock that stands before
/// the epoch.
pub fn unix_seconds(elapsed: Option<u64>) -> (out: u64)
    ensures
        out == (match elapsed {
            Some(seconds) => seconds,
            None => 0,
        }),
{
    match elapsed {
        Some(seconds) => seconds,
        None => 0,
    }
}

/// The current time in whole seconds since the Unix epoch, or 0 for a clock that stands before
/// it. No clause says which value comes back: it is the clock's.
pub fn now_unix() -> u64 {
    unix_seconds(elapsed_since_epoch())
}

/// A reading of the clock gives its seconds, and none gives 0.
pub proof fn law_reading_gives_seconds(seconds: u64, read: u64, missing: u64)
    requires
        call_ensures(unix_seconds, (Some(seconds),), read),
        call_ensures(unix_seconds, (None,), missing),
    ensures
        read == seconds,
        missing == 0,
{
}

} // verus!
