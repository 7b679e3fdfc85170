//! The time of day, from chrono.

use vstd::prelude::*;

verus! {

/// Calls `Utc::now` of chrono, and `DateTime::timestamp` on what it
/// returns: the seconds since the Unix epoch, as the system clock has them.
/// Nothing is claimed of the result: two calls may differ, and the second
/// need not be the later one. Where the system clock stands before 1970,
/// `Utc::now` does not return.
#[verifier::external_body]
pub(crate) fn current_time() -> (now: i64) {
    chrono::Utc::now().timestamp()
}

} // verus!
