//! The fixed-point unit and the constants of the growth rules.

use vstd::prelude::*;

verus! {

/// One whole unit: scalars are counted in millionths.
pub const SCALE: i64 = 1_000_000;

/// A full turn, 2*pi radians, rounded down to a millionth.
pub const TAU: i64 = 6_283_185;

/// Total width of the window in which an existing angle repels a candidate.
pub const RANGE_WIDTH: i64 = 2_000_000;

/// Half of `RANGE_WIDTH`: how far from a candidate an angle counts as near.
pub const HALF_RANGE: i64 = 1_000_000;

/// Spread of the density bell around an existing angle.
pub const BELL_WIDTH: i64 = 600_000;

/// An angle is a direction in `[0, TAU)`.
pub open spec fn valid_angle(a: int) -> bool {
    0 <= a < TAU as int
}

/// Every entry of an angle history is an angle.
pub open spec fn valid_angles(angles: Seq<i64>) -> bool {
    forall|i: int| 0 <= i < angles.len() ==> valid_angle(#[trigger] angles[i] as int)
}

/// Absolute difference of two integers.
pub open spec fn abs_diff(a: int, b: int) -> int {
    if a <= b {
        b - a
    } else {
        a - b
    }
}

} // verus!
