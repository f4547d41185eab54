//! Small helpers around reporting.

use vstd::prelude::*;

verus! {

/// Splits a non-negative duration in seconds into whole hours, minutes
/// within the hour, and seconds within the minute, for display.
pub fn time_parts(seconds: i64) -> (r: (i64, i64, i64))
    requires
        seconds >= 0,
    ensures
        r.0 == seconds as int / 3600,
        r.1 == (seconds as int / 60) % 60,
        r.2 == (seconds as int) % 60,
{
    let h = seconds / 3600;
    let m = (seconds / 60) % 60;
    let s = seconds % 60;
    (h, m, s)
}

} // verus!
