//! Numeric values of the engine: exact rationals for metric results, and
//! the round-half-away-from-zero division used by the rollup and the
//! dashboard.

use vstd::prelude::*;

use vstd::arithmetic::div_mod::{lemma_fundamental_div_mod, lemma_remainder_upper,
    lemma_remainder_lower};

verus! {

/// An exact rational metric value.  The engine never divides; consumers
/// render `num / den` however they like.
#[derive(Clone, Copy, Debug, PartialEq, Eq)]
pub struct Rational {
    pub num: i128,
    pub den: i128,
}

pub open spec fn rat_wf(r: Rational) -> bool {
    r.den > 0
}

impl Rational {
    /// The whole number `n`.
    pub fn whole(n: i128) -> (r: Rational)
        ensures
            r.num == n,
            r.den == 1,
            rat_wf(r),
    {
        Rational { num: n, den: 1 }
    }
}

/// `n / d` rounded to the nearest integer, halves away from zero.
pub open spec fn rounded_ratio(n: int, d: int) -> int
    recommends
        d > 0,
{
    if n >= 0 {
        (2 * n + d) / (2 * d)
    } else {
        -((2 * (-n) + d) / (2 * d))
    }
}

/// Executable round-half-away-from-zero division.
pub fn round_ratio(n: i128, d: i128) -> (r: i128)
    requires
        d > 0,
        n > i128::MIN,
        2 * d <= i128::MAX,
        2 * n + d <= i128::MAX,
        2 * (-n) + d <= i128::MAX,
    ensures
        r == rounded_ratio(n as int, d as int),
{
    if n >= 0 {
        (2 * n + d) / (2 * d)
    } else {
        proof {
            let a = 2 * (-n) + d;
            let b = 2 * (d as int);
            lemma_fundamental_div_mod(a as int, b);
            lemma_remainder_upper(a as int, b);
            lemma_remainder_lower(a as int, b);
            assert(a / b >= 0) by (nonlinear_arith)
                requires
                    b > 0,
                    a >= 0,
                    a == b * (a / b) + a % b,
                    a % b < b,
            ;
        }
        -((2 * (-n) + d) / (2 * d))
    }
}

/// A mean of values lying in `[lo, hi]` rounds back into `[lo, hi]`.
pub proof fn lemma_rounded_ratio_bounds(n: int, d: int, lo: int, hi: int)
    requires
        d > 0,
        d * lo <= n <= d * hi,
    ensures
        lo <= rounded_ratio(n, d) <= hi,
{
    if n >= 0 {
        lemma_round_nonneg_bounds(n, d, lo, hi);
    } else {
        let m = -n;
        let q = (2 * m + d) / (2 * d);
        assert(d * (-lo) == -(d * lo)) by (nonlinear_arith);
        assert(d * (-hi) == -(d * hi)) by (nonlinear_arith);
        if hi >= 0 {
            lemma_round_nonneg_bounds(m, d, 0, -lo);
            assert(lo <= -q <= hi);
        } else {
            lemma_round_nonneg_bounds(m, d, -hi, -lo);
            assert(lo <= -q <= hi);
        }
    }
}

proof fn lemma_round_nonneg_bounds(n: int, d: int, lo: int, hi: int)
    requires
        d > 0,
        n >= 0,
        d * lo <= n,
        n <= d * hi,
    ensures
        lo <= (2 * n + d) / (2 * d) <= hi,
{
    let a = 2 * n + d;
    let b = 2 * d;
    let q = a / b;
    lemma_fundamental_div_mod(a, b);
    lemma_remainder_upper(a, b);
    lemma_remainder_lower(a, b);
    assert(a == b * q + a % b);
    assert(0 <= a % b < b);
    assert(q <= hi) by (nonlinear_arith)
        requires
            d > 0,
            b == 2 * d,
            n <= d * hi,
            a == 2 * n + d,
            a == b * q + a % b,
            0 <= a % b,
    ;
    assert(q >= lo) by (nonlinear_arith)
        requires
            d > 0,
            b == 2 * d,
            d * lo <= n,
            a == 2 * n + d,
            a == b * q + a % b,
            a % b < b,
    ;
}

} // verus!
