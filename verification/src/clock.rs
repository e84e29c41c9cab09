//! The two readings of the outside world the library makes: fresh identifiers and the time.
use vstd::prelude::*;

verus! {

/// Draws a fresh identifier with `uuid::Uuid::new_v4`, as its 128-bit value.
/// The value is random: nothing is claimed of it.
#[verifier::external_body]
pub(crate) fn fresh_id() -> (id: u128) {
    uuid::Uuid::new_v4().as_u128()
}

/// Reads the wall clock with `chrono::Utc::now`, in nanoseconds since the Unix epoch;
/// `None` past the year 2262, where that count leaves `i64`. The value depends on the
/// time of the call: nothing is claimed of it.
#[verifier::external_body]
fn clock_nanos() -> (t: Option<i64>) {
    chrono::Utc::now().timestamp_nanos_opt()
}

/// The current time in nanoseconds since the Unix epoch, held at the largest `i64`
/// past the year 2262.
pub(crate) fn now_nanos() -> (t: i64) {
    match clock_nanos() {
        Some(t) => t,
        None => i64::MAX,
    }
}

} // verus!
