//! Wall-clock access for the operations that stamp rows.
//!
//! The stores take their timestamps as plain millisecond values; this is
//! the one place that reads the clock for the convenience entry points.

use vstd::prelude::*;

verus! {

/// Relies on chrono's `Utc::now` and `timestamp_millis`: the current wall
/// clock as milliseconds since the Unix epoch. Nothing is assumed of the
/// value — callers state what holds whatever time comes back.
#[verifier::external_body]
pub fn now_millis() -> i64 {
    chrono::Utc::now().timestamp_millis()
}

} // verus!
