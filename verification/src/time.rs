//! The wall clock.
//!
//! Every decision that depends on time (token expiry, link-state TTL)
//! takes the current time as an argument, so the logic is verified for
//! every clock value; this module only supplies the value.

use vstd::prelude::*;

verus! {

/// Relies on `std::time::SystemTime::now`: the current Unix time in
/// milliseconds, negative when the clock stands before the epoch, and
/// saturating at the ends of the `i64` range. The outcome depends on
/// the wall clock, so nothing is stated of it.
#[verifier::external_body]
pub fn now_unix_millis() -> i64 {
    match std::time::SystemTime::now().duration_since(std::time::UNIX_EPOCH) {
        Ok(since) => i64::try_from(since.as_millis()).unwrap_or(i64::MAX),
        Err(before) => i64::try_from(before.duration().as_millis()).map_or(i64::MIN, |m| -m),
    }
}

} // verus!
