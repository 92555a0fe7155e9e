use vstd::prelude::*;

verus! {

/// `x` clamped into the range of `i64`.
pub open spec fn saturate(x: int) -> i64 {
    if x > i64::MAX {
        i64::MAX
    } else if x < i64::MIN {
        i64::MIN
    } else {
        x as i64
    }
}

/// Milliseconds from `since` to `now` (negative when the clock went back).
pub open spec fn elapsed(now: i64, since: i64) -> i64 {
    saturate(now - since)
}

/// A running total after the span from `since` to `now` is added to it.
pub open spec fn accumulated(total: i64, now: i64, since: i64) -> i64 {
    saturate(total + elapsed(now, since))
}

/// Clamps a wide integer into `i64`.
pub fn saturating_i64(x: i128) -> (r: i64)
    ensures
        r == saturate(x as int),
{
    if x > i64::MAX as i128 {
        i64::MAX
    } else if x < i64::MIN as i128 {
        i64::MIN
    } else {
        x as i64
    }
}

/// Milliseconds from `since` to `now`, clamped into `i64`.
pub fn elapsed_millis(now: i64, since: i64) -> (r: i64)
    ensures
        r == elapsed(now, since),
{
    saturating_i64(now as i128 - since as i128)
}

/// Adds the span from `since` to `now` to `total`, clamped into `i64`.
pub fn add_elapsed(total: i64, now: i64, since: i64) -> (r: i64)
    ensures
        r == accumulated(total, now, since),
{
    let d = elapsed_millis(now, since);
    saturating_i64(total as i128 + d as i128)
}

} // verus!
