//! Cosine and sine of an angle in fixed point.
//!
//! The angle is folded into the first eighth of the circle, where the power
//! series of both functions converge fast, and the result is turned back.

use vstd::prelude::*;
use crate::expo::lemma_accuracy_step;
use crate::units::{valid_angle, SCALE};

verus! {

/// A quarter turn, `pi / 2`, rounded down to a millionth.
pub const QUARTER_TURN: i64 = 1_570_796;

/// An eighth of a turn, `pi / 4`, rounded down to a millionth.
pub const EIGHTH_TURN: i64 = 785_398;

/// The series are summed up to the term of this degree.
pub const LAST_DEGREE: u64 = 10;

/// The series `1 - x/(k(k+1)) * (1 - x/((k+2)(k+3)) * (...))` for `x` the
/// square of the angle, each quotient rounded down to a millionth. From
/// `k = 1` it is the cosine; from `k = 2`, the sine divided by the angle.
pub open spec fn trig_series(x: int, k: nat) -> int
    decreases LAST_DEGREE + 2 - k,
{
    if k > LAST_DEGREE {
        SCALE as int
    } else {
        SCALE as int - (x * trig_series(x, k + 2)) / (k as int * (k as int + 1) * SCALE as int)
    }
}

/// Cosine of an angle of at most an eighth of a turn.
pub open spec fn cos_small(r: int) -> int {
    trig_series(r * r / SCALE as int, 1)
}

/// Sine of an angle of at most an eighth of a turn.
pub open spec fn sin_small(r: int) -> int {
    r * trig_series(r * r / SCALE as int, 2) / SCALE as int
}

/// Cosine and sine of an angle within the first quarter turn: beyond an eighth
/// of a turn they are the sine and cosine of what is left to the quarter.
pub open spec fn quadrant_point(r: int) -> (int, int) {
    if r <= EIGHTH_TURN as int {
        (cos_small(r), sin_small(r))
    } else {
        (sin_small(QUARTER_TURN as int - r), cos_small(QUARTER_TURN as int - r))
    }
}

/// Cosine and sine of an angle, in millionths: the point of the first quarter
/// turn, turned by as many quarter turns as the angle holds.
pub open spec fn circle_point(angle: int) -> (int, int) {
    let p = quadrant_point(angle % QUARTER_TURN as int);
    let q = (angle / QUARTER_TURN as int) % 4;
    if q == 0 {
        p
    } else if q == 1 {
        (-p.1, p.0)
    } else if q == 2 {
        (-p.0, -p.1)
    } else {
        (p.1, -p.0)
    }
}

/// One step of the series stays between zero and one.
proof fn lemma_trig_step(x: int, h: int, k: int)
    requires
        0 <= x < SCALE,
        0 <= h <= SCALE,
        1 <= k,
    ensures
        0 <= (x * h) / (k * (k + 1) * SCALE as int) <= h,
        x == 0 ==> (x * h) / (k * (k + 1) * SCALE as int) == 0,
{
    let d = k * (k + 1) * SCALE as int;
    assert(d == k * (k + 1) * 1_000_000);
    assert(d >= 1_000_000) by (nonlinear_arith)
        requires
            d == k * (k + 1) * 1_000_000,
            1 <= k,
    ;
    assert(0 <= x * h <= h * d) by (nonlinear_arith)
        requires
            0 <= x < 1_000_000,
            0 <= h,
            d >= 1_000_000,
    ;
    assert(0 <= (x * h) / d <= h) by (nonlinear_arith)
        requires
            0 <= x * h <= h * d,
            d > 0,
    ;
    if x == 0 {
        assert(x * h == 0) by (nonlinear_arith)
            requires
                x == 0,
        ;
    }
}

/// Every tail of the series lies between zero and one, and is one at zero.
pub proof fn lemma_trig_series_bounds(x: int, k: nat)
    requires
        0 <= x < SCALE,
        1 <= k,
    ensures
        0 <= trig_series(x, k) <= SCALE,
        x == 0 ==> trig_series(x, k) == SCALE,
    decreases LAST_DEGREE + 2 - k,
{
    if k <= LAST_DEGREE {
        lemma_trig_series_bounds(x, k + 2);
        lemma_trig_step(x, trig_series(x, k + 2), k as int);
    }
}

/// Denominator of the exact tail of the series from its term `k` on.
pub open spec fn exact_trig_den(k: nat) -> int
    decreases LAST_DEGREE + 2 - k,
{
    if k > LAST_DEGREE {
        1
    } else {
        k as int * (k as int + 1) * SCALE as int * exact_trig_den(k + 2)
    }
}

/// Numerator of the exact tail of the series from its term `k` on: over
/// `exact_trig_den(k)` it is `1 - x/(k(k+1)) * (1 - x/((k+2)(k+3)) * (...))`
/// without any rounding, for `x` in millionths.
pub open spec fn exact_trig_num(x: int, k: nat) -> int
    decreases LAST_DEGREE + 2 - k,
{
    if k > LAST_DEGREE {
        1
    } else {
        k as int * (k as int + 1) * SCALE as int * exact_trig_den(k + 2) - x * exact_trig_num(
            x,
            k + 2,
        )
    }
}

/// The denominators are positive.
pub proof fn lemma_exact_trig_den_positive(k: nat)
    requires
        1 <= k,
    ensures
        0 < exact_trig_den(k),
    decreases LAST_DEGREE + 2 - k,
{
    if k <= LAST_DEGREE {
        lemma_exact_trig_den_positive(k + 2);
        let d = exact_trig_den(k + 2);
        assert(0 < k as int * (k as int + 1) * 1_000_000 * d) by (nonlinear_arith)
            requires
                0 < d,
                1 <= k,
        ;
    }
}

/// The rounded series stays within two millionths of the exact one.
pub proof fn lemma_trig_series_accuracy(x: int, k: nat)
    requires
        0 <= x < SCALE,
        1 <= k,
    ensures
        -2 * exact_trig_den(k) <= trig_series(x, k) * exact_trig_den(k) - SCALE * exact_trig_num(
            x,
            k,
        ) <= 2 * exact_trig_den(k),
    decreases LAST_DEGREE + 2 - k,
{
    lemma_exact_trig_den_positive(k);
    if k > LAST_DEGREE {
        let d = exact_trig_den(k);
        assert(trig_series(x, k) * d - SCALE * exact_trig_num(x, k) == 0) by (nonlinear_arith)
            requires
                trig_series(x, k) == 1_000_000,
                d == 1,
                exact_trig_num(x, k) == 1,
                SCALE == 1_000_000,
        ;
    } else {
        lemma_trig_series_accuracy(x, k + 2);
        lemma_trig_series_bounds(x, k + 2);
        lemma_exact_trig_den_positive(k + 2);
        let c = k as int * (k as int + 1);
        assert(2 <= c) by (nonlinear_arith)
            requires
                c == k as int * (k as int + 1),
                1 <= k,
        ;
        lemma_accuracy_step(
            x,
            c,
            trig_series(x, k + 2),
            exact_trig_den(k + 2),
            exact_trig_num(x, k + 2),
            2,
        );
    }
}

/// The square of an angle of at most an eighth of a turn is below one.
proof fn lemma_small_square(r: int)
    requires
        0 <= r <= EIGHTH_TURN,
    ensures
        0 <= r * r <= 785_398 * 785_398,
        0 <= r * r / SCALE as int <= 616_850,
        r == 0 ==> r * r / SCALE as int == 0,
{
    assert(0 <= r * r <= 785_398 * 785_398) by (nonlinear_arith)
        requires
            0 <= r <= 785_398,
    ;
    assert(785_398 * 785_398 == 616_850_018_404) by (nonlinear_arith);
    if r == 0 {
        assert(r * r == 0) by (nonlinear_arith)
            requires
                r == 0,
        ;
    }
}

/// In the first eighth of a turn, cosine and sine lie between zero and one;
/// at zero they are one and zero.
pub proof fn lemma_small_bounds(r: int)
    requires
        0 <= r <= EIGHTH_TURN,
    ensures
        0 <= cos_small(r) <= SCALE,
        0 <= sin_small(r) <= SCALE,
        r == 0 ==> cos_small(r) == SCALE && sin_small(r) == 0,
{
    lemma_small_square(r);
    let x = r * r / SCALE as int;
    lemma_trig_series_bounds(x, 1);
    lemma_trig_series_bounds(x, 2);
    let h = trig_series(x, 2);
    assert(0 <= r * h <= 1_000_000 * 1_000_000) by (nonlinear_arith)
        requires
            0 <= r <= 1_000_000,
            0 <= h <= 1_000_000,
    ;
    if r == 0 {
        assert(r * h == 0) by (nonlinear_arith)
            requires
                r == 0,
        ;
    }
}

/// Sums the series from the term `first` on, for the square `x` of an angle.
fn series_sum(x: i64, first: u64) -> (h: i64)
    requires
        0 <= x < SCALE,
        first == 1 || first == 2,
    ensures
        h == trig_series(x as int, first as nat),
        0 <= h <= SCALE,
{
    let mut h: i64 = SCALE;
    let mut k: u64 = first + 10;
    while k > first
        invariant
            first == 1 || first == 2,
            first <= k <= first + 10,
            (k - first) % 2 == 0,
            0 <= x < SCALE,
            0 <= h <= SCALE,
            h == trig_series(x as int, k as nat),
        decreases k,
    {
        k = k - 2;
        proof {
            lemma_trig_step(x as int, h as int, k as int);
            assert(0 <= x * h <= 1_000_000 * 1_000_000) by (nonlinear_arith)
                requires
                    0 <= x < 1_000_000,
                    0 <= h <= 1_000_000,
            ;
            assert(1 <= k * (k + 1) <= 110) by (nonlinear_arith)
                requires
                    1 <= k <= 10,
            ;
        }
        let divisor: i64 = ((k * (k + 1)) as i64) * SCALE;
        h = SCALE - (x * h) / divisor;
    }
    h
}

/// Cosine and sine of an angle of at most an eighth of a turn.
fn small_point(r: i64) -> (p: (i64, i64))
    requires
        0 <= r <= EIGHTH_TURN,
    ensures
        p.0 == cos_small(r as int),
        p.1 == sin_small(r as int),
        0 <= p.0 <= SCALE,
        0 <= p.1 <= SCALE,
{
    proof {
        lemma_small_square(r as int);
        lemma_small_bounds(r as int);
    }
    let x: i64 = r * r / SCALE;
    let cos: i64 = series_sum(x, 1);
    let over_angle: i64 = series_sum(x, 2);
    proof {
        assert(0 <= r * over_angle <= 1_000_000 * 1_000_000) by (nonlinear_arith)
            requires
                0 <= r <= 1_000_000,
                0 <= over_angle <= 1_000_000,
        ;
    }
    (cos, r * over_angle / SCALE)
}

/// Cosine and sine of an angle, in millionths.
pub fn unit_circle_point(angle: i64) -> (p: (i64, i64))
    requires
        valid_angle(angle as int),
    ensures
        (p.0 as int, p.1 as int) == circle_point(angle as int),
        -SCALE <= p.0 <= SCALE,
        -SCALE <= p.1 <= SCALE,
{
    let r: i64 = angle % QUARTER_TURN;
    let quarter: i64 = (angle / QUARTER_TURN) % 4;
    let (c, s) = if r <= EIGHTH_TURN {
        small_point(r)
    } else {
        let mirrored = small_point(QUARTER_TURN - r);
        (mirrored.1, mirrored.0)
    };
    if quarter == 0 {
        (c, s)
    } else if quarter == 1 {
        (-s, c)
    } else if quarter == 2 {
        (-c, -s)
    } else {
        (s, -c)
    }
}

} // verus!
