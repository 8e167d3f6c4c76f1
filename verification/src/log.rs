//! The natural logarithm in fixed point, for arguments of at least one.
//!
//! The binary logarithm is found digit by digit: the argument is halved until
//! it lies between one and two, which gives the whole part, and is then squared
//! again and again, each squaring giving one more binary digit of the fraction.
//! The natural logarithm is the binary one times `ln 2`.

use vstd::prelude::*;
use vstd::arithmetic::power2::{lemma2_to64_rest, lemma_pow2_unfold, pow2};
use crate::units::SCALE;

verus! {

/// Weight of the first binary digit of the fraction: twenty digits are found.
pub const TOP_WEIGHT: i64 = 524_288;

/// `ln 2` in thousand-millionths.
pub const LN2_NANO: i64 = 693_147_181;

/// How often `x` is halved until it is below two.
pub open spec fn binary_exponent(x: int) -> int
    decreases x,
{
    if x < 2 * SCALE as int {
        0
    } else {
        1 + binary_exponent(x / 2)
    }
}

/// What is left of `x` after those halvings, each rounded down.
pub open spec fn binary_mantissa(x: int) -> int
    decreases x,
{
    if x < 2 * SCALE as int {
        x
    } else {
        binary_mantissa(x / 2)
    }
}

/// The fraction of the binary logarithm of `m`, for `m` between one and two,
/// counted in units of which `2 * weight` make one. Squaring `m` doubles its
/// logarithm; the next digit is set where the square reaches two.
pub open spec fn log2_fraction(m: int, weight: int) -> int
    decreases weight,
{
    if weight <= 0 {
        0
    } else {
        let sq = m * m / SCALE as int;
        if sq >= 2 * SCALE as int {
            weight + log2_fraction(sq / 2, weight / 2)
        } else {
            log2_fraction(sq, weight / 2)
        }
    }
}

/// The binary logarithm of `x`, in units of which `2 * TOP_WEIGHT` make one.
pub open spec fn log2_fixed(x: int) -> int {
    binary_exponent(x) * (2 * TOP_WEIGHT as int) + log2_fraction(
        binary_mantissa(x),
        TOP_WEIGHT as int,
    )
}

/// The natural logarithm of `x`, both in millionths, rounded down.
pub open spec fn ln_fixed(x: int) -> int {
    log2_fixed(x) * LN2_NANO as int / (2 * TOP_WEIGHT as int * 1000)
}

/// The square of a mantissa stays between one and four, and squaring keeps order.
proof fn lemma_square(a: int, b: int)
    requires
        SCALE <= a <= b < 2 * SCALE,
    ensures
        SCALE <= (a * a) / (SCALE as int) <= (b * b) / (SCALE as int),
        (b * b) / (SCALE as int) < 4 * SCALE,
{
    assert(1_000_000 * 1_000_000 <= a * a <= b * b < 4 * 1_000_000 * 1_000_000)
        by (nonlinear_arith)
        requires
            1_000_000 <= a <= b < 2_000_000,
    ;
}

/// The fraction is below one.
pub proof fn lemma_fraction_bound(m: int, weight: int)
    requires
        SCALE <= m < 2 * SCALE,
        0 <= weight,
    ensures
        0 <= log2_fraction(m, weight) <= 2 * weight,
        weight >= 1 ==> log2_fraction(m, weight) < 2 * weight,
    decreases weight,
{
    if weight > 0 {
        lemma_square(m, m);
        let sq = m * m / SCALE as int;
        if sq >= 2 * SCALE {
            lemma_fraction_bound(sq / 2, weight / 2);
        } else {
            lemma_fraction_bound(sq, weight / 2);
        }
    }
}

/// The fraction does not decrease as the mantissa grows.
pub proof fn lemma_fraction_monotone(a: int, b: int, weight: int)
    requires
        SCALE <= a <= b < 2 * SCALE,
        0 <= weight,
    ensures
        log2_fraction(a, weight) <= log2_fraction(b, weight),
    decreases weight,
{
    if weight > 0 {
        lemma_square(a, b);
        lemma_square(a, a);
        lemma_square(b, b);
        let sa = a * a / SCALE as int;
        let sb = b * b / SCALE as int;
        if sa >= 2 * SCALE {
            lemma_fraction_monotone(sa / 2, sb / 2, weight / 2);
        } else if sb >= 2 * SCALE {
            lemma_fraction_bound(sa, weight / 2);
            lemma_fraction_bound(sb / 2, weight / 2);
        } else {
            lemma_fraction_monotone(sa, sb, weight / 2);
        }
    }
}

/// The mantissa lies between one and two, and the exponent is not negative.
pub proof fn lemma_mantissa_bound(x: int)
    requires
        SCALE <= x,
    ensures
        SCALE <= binary_mantissa(x) < 2 * SCALE,
        0 <= binary_exponent(x),
    decreases x,
{
    if x >= 2 * SCALE {
        lemma_mantissa_bound(x / 2);
    }
}

/// A larger argument has a larger exponent, or the same one and a mantissa
/// that is not smaller.
pub proof fn lemma_exponent_monotone(a: int, b: int)
    requires
        SCALE <= a <= b,
    ensures
        binary_exponent(a) < binary_exponent(b) || (binary_exponent(a) == binary_exponent(b)
            && binary_mantissa(a) <= binary_mantissa(b)),
    decreases b,
{
    if b >= 2 * SCALE {
        if a >= 2 * SCALE {
            lemma_exponent_monotone(a / 2, b / 2);
        } else {
            lemma_mantissa_bound(b / 2);
        }
    }
}

/// The binary logarithm does not decrease as its argument grows.
pub proof fn lemma_log2_monotone(a: int, b: int)
    requires
        SCALE <= a <= b,
    ensures
        0 <= log2_fixed(a) <= log2_fixed(b),
{
    lemma_exponent_monotone(a, b);
    lemma_mantissa_bound(a);
    lemma_mantissa_bound(b);
    let ka = binary_exponent(a);
    let kb = binary_exponent(b);
    lemma_fraction_bound(binary_mantissa(a), TOP_WEIGHT as int);
    lemma_fraction_bound(binary_mantissa(b), TOP_WEIGHT as int);
    if ka == kb {
        lemma_fraction_monotone(binary_mantissa(a), binary_mantissa(b), TOP_WEIGHT as int);
    } else {
        assert(ka + 1 <= kb);
        assert((ka + 1) * 1_048_576 <= kb * 1_048_576) by (nonlinear_arith)
            requires
                ka + 1 <= kb,
        ;
        assert((ka + 1) * 1_048_576 == ka * 1_048_576 + 1_048_576) by (nonlinear_arith);
    }
    assert(0 <= ka * 1_048_576) by (nonlinear_arith)
        requires
            0 <= ka,
    ;
}

/// The natural logarithm does not decrease as its argument grows, and is not
/// negative for an argument of at least one.
pub proof fn lemma_ln_monotone(a: int, b: int)
    requires
        SCALE <= a <= b,
    ensures
        0 <= ln_fixed(a) <= ln_fixed(b),
{
    lemma_log2_monotone(a, b);
    let la = log2_fixed(a);
    let lb = log2_fixed(b);
    assert(0 <= la * 693_147_181 <= lb * 693_147_181) by (nonlinear_arith)
        requires
            0 <= la <= lb,
    ;
}

/// An argument below `2^(j+1)` is halved at most `j` times.
pub proof fn lemma_exponent_bound(x: int, j: nat)
    requires
        x < 2 * SCALE * pow2(j),
    ensures
        binary_exponent(x) <= j,
    decreases j,
{
    if x >= 2 * SCALE {
        if j == 0 {
            assert(pow2(0) == 1) by {
                vstd::arithmetic::power2::lemma2_to64();
            }
        } else {
            lemma_pow2_unfold(j);
            let p = pow2((j - 1) as nat) as int;
            assert(2 * 1_000_000 * (2 * p) == 2 * (2 * 1_000_000 * p)) by (nonlinear_arith);
            lemma_exponent_bound(x / 2, (j - 1) as nat);
        }
    }
}

/// The logarithm of anything that fits the machine word is below thirty-one.
pub proof fn lemma_ln_upper(x: int)
    requires
        SCALE <= x <= i64::MAX,
    ensures
        0 <= ln_fixed(x) <= 31_000_000,
{
    lemma2_to64_rest();
    lemma_exponent_bound(x, 43);
    lemma_mantissa_bound(x);
    lemma_fraction_bound(binary_mantissa(x), TOP_WEIGHT as int);
    let k = binary_exponent(x);
    assert(0 <= k * 1_048_576 <= 43 * 1_048_576) by (nonlinear_arith)
        requires
            0 <= k <= 43,
    ;
    let l = log2_fixed(x);
    assert(0 <= l * 693_147_181 <= 46_137_344 * 693_147_181) by (nonlinear_arith)
        requires
            0 <= l <= 46_137_344,
    ;
    let n = l * 693_147_181;
    assert(2 * TOP_WEIGHT as int * 1000 == 1_048_576_000);
    assert(ln_fixed(x) == n / 1_048_576_000);
    assert(0 <= n / 1_048_576_000 <= 31_000_000);
}

/// Computes the natural logarithm of `x`, both in millionths, for `x` of at
/// least one.
pub fn natural_log(x: i64) -> (r: i64)
    requires
        SCALE <= x,
    ensures
        r == ln_fixed(x as int),
        0 <= r,
{
    proof {
        lemma2_to64_rest();
        lemma_exponent_bound(x as int, 43);
        lemma_mantissa_bound(x as int);
        lemma_ln_monotone(x as int, x as int);
    }
    let mut exponent: i64 = 0;
    let mut m: i64 = x;
    while m >= 2 * SCALE
        invariant
            SCALE <= m <= x,
            0 <= exponent,
            exponent + binary_exponent(m as int) == binary_exponent(x as int),
            binary_mantissa(m as int) == binary_mantissa(x as int),
            binary_exponent(x as int) <= 43,
        decreases m,
    {
        proof {
            lemma_mantissa_bound(m as int / 2);
        }
        m = m / 2;
        exponent = exponent + 1;
    }
    let mut fraction: i64 = 0;
    let mut weight: i64 = TOP_WEIGHT;
    let ghost m0: int = m as int;
    while weight > 0
        invariant
            SCALE <= m < 2 * SCALE,
            SCALE <= m0 < 2 * SCALE,
            0 <= weight <= TOP_WEIGHT,
            0 <= fraction,
            fraction + 2 * weight <= 2 * TOP_WEIGHT,
            fraction + log2_fraction(m as int, weight as int) == log2_fraction(
                m0,
                TOP_WEIGHT as int,
            ),
        decreases weight,
    {
        proof {
            lemma_square(m as int, m as int);
        }
        let sq: i64 = m * m / SCALE;
        if sq >= 2 * SCALE {
            fraction = fraction + weight;
            m = sq / 2;
        } else {
            m = sq;
        }
        weight = weight / 2;
    }
    let log2: i64 = exponent * (2 * TOP_WEIGHT) + fraction;
    proof {
        assert(0 <= exponent * 1_048_576 <= 43 * 1_048_576) by (nonlinear_arith)
            requires
                0 <= exponent <= 43,
        ;
        assert(0 <= log2 * 693_147_181 <= 46_137_344 * 693_147_181) by (nonlinear_arith)
            requires
                0 <= log2 <= 46_137_344,
        ;
    }
    log2 * LN2_NANO / (2 * TOP_WEIGHT * 1000)
}

} // verus!
