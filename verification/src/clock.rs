//! Wall-clock access for the phase timer, through `chrono`.
//!
//! The timer only ever needs one thing from the clock: the instant "now", as
//! a plain number of milliseconds since the Unix epoch.  Nothing can be
//! promised about a value read from the wall clock, so this item carries no
//! contract; all timer logic is verified as a function of the elapsed
//! minutes instead.

use vstd::prelude::*;

verus! {

/// Relies on chrono::Utc::now and chrono::DateTime::timestamp_millis: the
/// wall clock now, converted to milliseconds since the Unix epoch.
#[verifier::external_body]
pub(crate) fn now_epoch_millis() -> i64 {
    chrono::Utc::now().timestamp_millis()
}

} // verus!
