//! Clock readings as programs see them.

use vstd::prelude::*;

verus! {

/// A count of milliseconds as far as it can be represented.
pub open spec fn representable(milliseconds: int) -> i64 {
    if milliseconds > i64::MAX {
        i64::MAX
    } else {
        milliseconds as i64
    }
}

/// The reading of a clock that only goes forward, from the time that has passed
/// since its first reading.
pub fn monotonic_milliseconds(elapsed: u128) -> (reading: i64)
    ensures
        reading == representable(elapsed as int),
{
    if elapsed > i64::MAX as u128 {
        i64::MAX
    } else {
        elapsed as i64
    }
}

/// The reading of the wall clock: the time that has passed since 1970 began, or
/// the time that is left until then, which counts as negative.
pub fn unix_milliseconds(since: Result<u128, u128>) -> (reading: i64)
    ensures
        match since {
            Ok(passed) => reading == representable(passed as int),
            Err(left) => reading == -representable(left as int),
        },
{
    match since {
        Ok(passed) => monotonic_milliseconds(passed),
        Err(left) => -monotonic_milliseconds(left),
    }
}

/// Later readings of a clock are never smaller.
pub proof fn law_readings_keep_their_order(earlier: int, later: int)
    requires
        0 <= earlier <= later,
    ensures
        representable(earlier) <= representable(later),
{
}

} // verus!
