//! The decaying exponential `e^(-t)` in fixed point.

use vstd::prelude::*;
use crate::units::SCALE;

verus! {

/// Number of terms of the power series that are summed for the fractional part.
pub const SERIES_TERMS: u64 = 10;

/// `e^(-n)` for a whole number `n`, rounded to a millionth.
pub open spec fn exp_neg_whole(n: int) -> int {
    if n <= 0 {
        1_000_000
    } else if n == 1 {
        367_879
    } else if n == 2 {
        135_335
    } else if n == 3 {
        49_787
    } else if n == 4 {
        18_316
    } else if n == 5 {
        6_738
    } else if n == 6 {
        2_479
    } else if n == 7 {
        912
    } else if n == 8 {
        335
    } else if n == 9 {
        123
    } else if n == 10 {
        45
    } else if n == 11 {
        17
    } else if n == 12 {
        6
    } else if n == 13 {
        2
    } else if n == 14 {
        1
    } else {
        0
    }
}

/// The tail of the power series of `e^(-r)` from its term `k` on, nested as
/// `1 - r/k * (1 - r/(k+1) * (...))`, each quotient rounded down to a millionth.
pub open spec fn exp_neg_series(r: int, k: nat) -> int
    decreases SERIES_TERMS + 1 - k,
{
    if k > SERIES_TERMS {
        SCALE as int
    } else {
        SCALE as int - (r * exp_neg_series(r, k + 1)) / (k as int * SCALE as int)
    }
}

/// `e^(-t)` in millionths, for `t` in millionths: the tabulated power for the
/// whole part of `t` times the series for its fractional part.
pub open spec fn exp_neg(t: int) -> int {
    if t <= 0 {
        SCALE as int
    } else {
        exp_neg_whole(t / SCALE as int) * exp_neg_series(t % SCALE as int, 1) / SCALE as int
    }
}

/// One step of the nested series stays between zero and one.
proof fn lemma_series_step(r: int, h: int, k: int)
    requires
        0 <= r < SCALE,
        0 <= h <= SCALE,
        1 <= k,
    ensures
        0 <= (r * h) / (k * SCALE as int) <= h,
        (r * h) / (k * SCALE as int) <= SCALE,
        r == 0 ==> (r * h) / (k * SCALE as int) == 0,
{
    let d = k * SCALE as int;
    assert(0 <= r * h) by (nonlinear_arith)
        requires
            0 <= r,
            0 <= h,
    ;
    assert(r * h <= h * d) by (nonlinear_arith)
        requires
            0 <= r < 1_000_000,
            0 <= h,
            d == k * 1_000_000,
            1 <= k,
    ;
    assert(0 <= (r * h) / d <= h) by (nonlinear_arith)
        requires
            0 <= r * h <= h * d,
            d > 0,
    ;
    if r == 0 {
        assert(r * h == 0) by (nonlinear_arith)
            requires
                r == 0,
        ;
    }
}

/// Every tail of the series lies between zero and one, and is one at zero.
pub proof fn lemma_series_bounds(r: int, k: nat)
    requires
        0 <= r < SCALE,
        1 <= k,
    ensures
        0 <= exp_neg_series(r, k) <= SCALE,
        r == 0 ==> exp_neg_series(r, k) == SCALE,
    decreases SERIES_TERMS + 1 - k,
{
    if k <= SERIES_TERMS {
        lemma_series_bounds(r, k + 1);
        lemma_series_step(r, exp_neg_series(r, k + 1), k as int);
    }
}

/// The exponential lies between zero and one, and is one at zero.
pub proof fn lemma_exp_neg_bounds(t: int)
    ensures
        0 <= exp_neg(t) <= SCALE,
        t <= 0 ==> exp_neg(t) == SCALE,
{
    if t > 0 {
        let n = t / SCALE as int;
        let r = t % SCALE as int;
        lemma_series_bounds(r, 1);
        let w = exp_neg_whole(n);
        let s = exp_neg_series(r, 1);
        assert(0 <= w <= 1_000_000);
        assert(0 <= (w * s) / 1_000_000 <= 1_000_000) by (nonlinear_arith)
            requires
                0 <= w <= 1_000_000,
                0 <= s <= 1_000_000,
        ;
    }
}

/// Denominator of the exact tail of the series from its term `k` on.
pub open spec fn exact_series_den(k: nat) -> int
    decreases SERIES_TERMS + 1 - k,
{
    if k > SERIES_TERMS {
        1
    } else {
        k as int * SCALE as int * exact_series_den(k + 1)
    }
}

/// Numerator of the exact tail of the series from its term `k` on: over
/// `exact_series_den(k)` it is `1 - r/k * (1 - r/(k+1) * (...))` without any
/// rounding, for `r` in millionths. From `k = 1` that is the polynomial
/// `1 - r + r^2/2! - ... + r^10/10!`.
pub open spec fn exact_series_num(r: int, k: nat) -> int
    decreases SERIES_TERMS + 1 - k,
{
    if k > SERIES_TERMS {
        1
    } else {
        k as int * SCALE as int * exact_series_den(k + 1) - r * exact_series_num(r, k + 1)
    }
}

/// The denominators are positive.
pub proof fn lemma_exact_den_positive(k: nat)
    requires
        1 <= k,
    ensures
        0 < exact_series_den(k),
    decreases SERIES_TERMS + 1 - k,
{
    if k <= SERIES_TERMS {
        lemma_exact_den_positive(k + 1);
        let d = exact_series_den(k + 1);
        assert(0 < k as int * 1_000_000 * d) by (nonlinear_arith)
            requires
                0 < d,
                1 <= k,
        ;
    }
}

/// One step of a nested series `1 - r/k * h`, rounded down to a millionth,
/// against the same step without rounding: where the rounded `h` is within
/// two millionths of the exact `n / d`, the result is within two of the exact
/// result for `k` of at least two, and within three for `k` of one.
pub proof fn lemma_accuracy_step(r: int, k: int, h: int, d: int, n: int, bound: int)
    requires
        0 <= r < SCALE,
        1 <= k,
        0 <= h <= SCALE,
        0 < d,
        -2 * d <= h * d - SCALE * n <= 2 * d,
        bound == if k == 1 { 3int } else { 2int },
    ensures
        ({
            let q = (r * h) / (k * SCALE as int);
            let e = (SCALE - q) * (k * SCALE as int * d) - SCALE * (k * SCALE as int * d - r * n);
            -bound * (k * SCALE as int * d) <= e <= bound * (k * SCALE as int * d)
        }),
{
    let s = SCALE as int;
    let ks = k * s;
    let q = (r * h) / ks;
    let rem = (r * h) % ks;
    let prev = h * d - s * n;
    assert(ks == k * 1_000_000);
    assert(ks > 0);
    assert(r * h == q * ks + rem && 0 <= rem < ks) by (nonlinear_arith)
        requires
            ks > 0,
            q == (r * h) / ks,
            rem == (r * h) % ks,
    ;
    let x = ks * d;
    let e = (s - q) * x - s * (x - r * n);
    let rh = r * h;
    let hd = h * d;
    let rn = r * n;
    assert((s - q) * x == s * x - q * x) by (nonlinear_arith);
    assert(s * (x - rn) == s * x - s * rn) by (nonlinear_arith);
    assert(q * x == (q * ks) * d) by (nonlinear_arith)
        requires
            x == ks * d,
    ;
    assert((rh - rem) * d == rh * d - rem * d) by (nonlinear_arith);
    assert(rh * d == r * hd) by (nonlinear_arith)
        requires
            rh == r * h,
            hd == h * d,
    ;
    assert(s * rn == r * (s * n)) by (nonlinear_arith)
        requires
            rn == r * n,
    ;
    assert(r * prev == r * hd - r * (s * n)) by (nonlinear_arith)
        requires
            prev == hd - s * n,
    ;
    assert(e == rem * d - r * prev);
    assert(0 <= rem * d <= ks * d) by (nonlinear_arith)
        requires
            0 <= rem < ks,
            0 < d,
    ;
    let sd = s * d;
    let shift = r * prev;
    assert(-2 * sd <= shift <= 2 * sd) by (nonlinear_arith)
        requires
            shift == r * prev,
            sd == s * d,
            0 <= r < s,
            -2 * d <= prev <= 2 * d,
            0 < d,
            s == 1_000_000,
    ;
    let limit = bound * x;
    assert(2 * sd + x <= limit) by (nonlinear_arith)
        requires
            sd == s * d,
            x == ks * d,
            limit == bound * x,
            ks == k * s,
            s == 1_000_000,
            0 < d,
            1 <= k,
            bound == if k == 1 { 3int } else { 2int },
    ;
    assert(0 <= x) by (nonlinear_arith)
        requires
            x == ks * d,
            0 < ks,
            0 < d,
    ;
    assert(-bound * x == -limit) by (nonlinear_arith)
        requires
            limit == bound * x,
    ;
    assert(-limit <= e <= limit);
}

/// The rounded series stays close to the exact one: the tail from the term
/// `k` on is within two millionths of it, and the whole series, from `k = 1`,
/// within three.
pub proof fn lemma_series_accuracy(r: int, k: nat)
    requires
        0 <= r < SCALE,
        1 <= k,
    ensures
        k >= 2 ==> -2 * exact_series_den(k) <= exp_neg_series(r, k) * exact_series_den(k) - SCALE
            * exact_series_num(r, k) <= 2 * exact_series_den(k),
        -3 * exact_series_den(k) <= exp_neg_series(r, k) * exact_series_den(k) - SCALE
            * exact_series_num(r, k) <= 3 * exact_series_den(k),
    decreases SERIES_TERMS + 1 - k,
{
    lemma_exact_den_positive(k);
    if k > SERIES_TERMS {
        let d = exact_series_den(k);
        assert(d == 1);
        assert(exp_neg_series(r, k) * d - SCALE * exact_series_num(r, k) == 0) by (nonlinear_arith)
            requires
                exp_neg_series(r, k) == 1_000_000,
                d == 1,
                exact_series_num(r, k) == 1,
                SCALE == 1_000_000,
        ;
    } else {
        lemma_series_accuracy(r, k + 1);
        lemma_series_bounds(r, k + 1);
        lemma_exact_den_positive(k + 1);
        let bound = if k == 1 { 3int } else { 2int };
        lemma_accuracy_step(
            r,
            k as int,
            exp_neg_series(r, k + 1),
            exact_series_den(k + 1),
            exact_series_num(r, k + 1),
            bound,
        );
    }
}

/// Looks up `e^(-n)` for a whole number `n`.
fn whole_power(n: i64) -> (r: i64)
    ensures
        r == exp_neg_whole(n as int),
{
    if n <= 0 {
        1_000_000
    } else if n == 1 {
        367_879
    } else if n == 2 {
        135_335
    } else if n == 3 {
        49_787
    } else if n == 4 {
        18_316
    } else if n == 5 {
        6_738
    } else if n == 6 {
        2_479
    } else if n == 7 {
        912
    } else if n == 8 {
        335
    } else if n == 9 {
        123
    } else if n == 10 {
        45
    } else if n == 11 {
        17
    } else if n == 12 {
        6
    } else if n == 13 {
        2
    } else if n == 14 {
        1
    } else {
        0
    }
}

/// Sums the series of `e^(-r)` for a fraction `r` of a unit.
fn series_sum(r: i64) -> (h: i64)
    requires
        0 <= r < SCALE,
    ensures
        h == exp_neg_series(r as int, 1),
        0 <= h <= SCALE,
{
    let mut h: i64 = SCALE;
    let mut k: u64 = SERIES_TERMS;
    while k >= 1
        invariant
            0 <= k <= SERIES_TERMS,
            0 <= r < SCALE,
            0 <= h <= SCALE,
            h == exp_neg_series(r as int, (k + 1) as nat),
        decreases k,
    {
        proof {
            lemma_series_step(r as int, h as int, k as int);
            assert(0 <= r * h <= 1_000_000 * 1_000_000) by (nonlinear_arith)
                requires
                    0 <= r < 1_000_000,
                    0 <= h <= 1_000_000,
            ;
        }
        let divisor: i64 = (k as i64) * SCALE;
        let term: i64 = (r * h) / divisor;
        h = SCALE - term;
        k = k - 1;
    }
    h
}

/// Computes `e^(-t)`, both in millionths. A `t` at or below zero gives one.
pub fn exp_neg_fixed(t: i64) -> (r: i64)
    ensures
        r == exp_neg(t as int),
        0 <= r <= SCALE,
        t <= 0 ==> r == SCALE,
{
    proof {
        lemma_exp_neg_bounds(t as int);
    }
    if t <= 0 {
        return SCALE;
    }
    let whole: i64 = whole_power(t / SCALE);
    let series: i64 = series_sum(t % SCALE);
    proof {
        assert(0 <= whole * series <= 1_000_000 * 1_000_000) by (nonlinear_arith)
            requires
                0 <= whole <= 1_000_000,
                0 <= series <= 1_000_000,
        ;
    }
    (whole * series) / SCALE
}

} // verus!
