//! The wall clock.

use vstd::prelude::*;

verus! {

/// Milliseconds since the Unix epoch by the system clock, or 0 where the
/// clock reads before the epoch (`SystemTime::elapsed` on the epoch).
/// Nothing is stated of the value: it is whatever the clock reads.
#[verifier::external_body]
pub(crate) fn now_ms() -> (r: u64) {
    let elapsed = std::time::UNIX_EPOCH.elapsed();
    match elapsed {
        Ok(duration) => duration.as_millis() as u64,
        Err(_) => 0,
    }
}

} // verus!
