//! Input for bringing raw machine time values into human readable form.

use vstd::prelude::*;

verus! {

/// A raw time value to format: either nanoseconds or seconds.
pub struct Time {
    /// Convert nanoseconds to human readable time.
    pub nanos: Option<i64>,
    /// Convert seconds to human readable time.
    pub seconds: Option<i64>,
}

} // verus!
