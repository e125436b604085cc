//! Icon sizes in the grid: zooming by steps, always within bounds.
use vstd::prelude::*;

verus! {

pub const DEFAULT: u16 = 48;
pub const MIN: u16 = 24;
pub const MAX: u16 = 128;
pub const STEP: i32 = 8;

/// `Ord::clamp` on integers.
pub open spec fn clamp(x: int, lo: int, hi: int) -> int {
    if x < lo {
        lo
    } else if x > hi {
        hi
    } else {
        x
    }
}

/// The size after `steps` zoom steps: at most sixteen steps of eight pixels
/// count, and the result stays between `MIN` and `MAX`.
pub open spec fn stepped_spec(size: int, steps: int) -> int {
    clamp(size + clamp(steps, -16, 16) * STEP, MIN as int, MAX as int)
}

pub fn stepped(size: u16, steps: i32) -> (r: u16)
    ensures
        r == stepped_spec(size as int, steps as int),
        MIN <= r <= MAX,
{
    let bounded: i32 = if steps < -16 {
        -16
    } else if steps > 16 {
        16
    } else {
        steps
    };
    let target: i32 = size as i32 + bounded * STEP;
    let r: i32 = if target < MIN as i32 {
        MIN as i32
    } else if target > MAX as i32 {
        MAX as i32
    } else {
        target
    };
    r as u16
}

} // verus!
