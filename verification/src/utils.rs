//! Small numeric helpers shared by the filters.
use vstd::prelude::*;

verus! {

/// `a` moved into `[min, max]`: `min` when below it, else `max` when above it.
pub open spec fn spec_clamp(a: int, min: int, max: int) -> int {
    if a < min {
        min
    } else if a > max {
        max
    } else {
        a
    }
}

/// Clamps `a` to `[min, max]`; below `min` gives `min` (also when `min > max`).
pub fn clamp_i64(a: i64, min: i64, max: i64) -> (r: i64)
    ensures
        r == spec_clamp(a as int, min as int, max as int),
{
    if a < min {
        min
    } else if a > max {
        max
    } else {
        a
    }
}

/// Clamps `a` to `[min, max]`; below `min` gives `min` (also when `min > max`).
pub fn clamp_u32(a: u32, min: u32, max: u32) -> (r: u32)
    ensures
        r == spec_clamp(a as int, min as int, max as int),
{
    if a < min {
        min
    } else if a > max {
        max
    } else {
        a
    }
}

/// Clamps `a` to `[min, max]`; below `min` gives `min` (also when `min > max`).
pub fn clamp_i32(a: i32, min: i32, max: i32) -> (r: i32)
    ensures
        r == spec_clamp(a as int, min as int, max as int),
{
    if a < min {
        min
    } else if a > max {
        max
    } else {
        a
    }
}

} // verus!
