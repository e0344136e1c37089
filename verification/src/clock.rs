//! The one place the library reads the wall clock. Every store operation
//! that stamps a sync time takes the stamp as an argument; these helpers
//! produce that stamp for the convenience entry points.

use vstd::prelude::*;

verus! {

/// Relies on chrono's `Utc::now` / `DateTime::timestamp_millis`:
/// the current wall-clock time as milliseconds since the Unix epoch.
/// Nothing can be promised of a clock reading.
#[verifier::external_body]
fn now_millis_raw() -> i64 {
    chrono::Utc::now().timestamp_millis()
}

/// The current time as milliseconds since the Unix epoch, clamped to
/// zero if the clock reads before the epoch.
pub fn now_millis() -> u64 {
    let t: i64 = now_millis_raw();
    if t < 0 {
        0
    } else {
        t as u64
    }
}

} // verus!
