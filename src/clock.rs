//! The wall clock.

use vstd::prelude::*;

verus! {

/// Relies on chrono's `Utc::now`, read as milliseconds since the Unix epoch
/// by `DateTime::timestamp_millis`. Nothing is promised of the value: it is
/// the time when it was read.
#[verifier::external_body]
pub(crate) fn now_millis() -> (r: i64) {
    chrono::Utc::now().timestamp_millis()
}

} // verus!
