//! Fixed-point arithmetic in micro-units.
//!
//! A value `v` stands for the real number `v / SCALE`. Fractions and rates
//! (probabilities, tax rates, learning rates) are fixed-point values in
//! `[0, SCALE]`; wealth, education and coordinates are signed fixed-point
//! values. All divisions truncate toward zero, as the corresponding `i128`
//! division does.

use vstd::prelude::*;

verus! {

/// One whole unit in fixed-point micro-units.
pub const SCALE: i64 = 1_000_000;

/// Integer division truncating toward zero (the rounding of Rust's `/` on
/// signed integers), for a positive divisor.
pub open spec fn div_trunc(a: int, b: int) -> int
    recommends
        b > 0,
{
    if a >= 0 {
        a / b
    } else {
        -((-a) / b)
    }
}

/// Product of a fixed-point value and a fraction in `[0, SCALE]`, truncated
/// toward zero: the result never exceeds `a` in magnitude.
pub open spec fn spec_mul_frac(a: int, f: int) -> int {
    div_trunc(a * f, SCALE as int)
}

proof fn lemma_div_trunc_bound(m: int, f: int)
    requires
        m >= 0,
        0 <= f <= SCALE as int,
    ensures
        0 <= (m * f) / (SCALE as int) <= m,
{
    assert(m * f <= m * (SCALE as int)) by (nonlinear_arith)
        requires
            m >= 0,
            f <= SCALE as int,
    ;
    assert(m * f >= 0) by (nonlinear_arith)
        requires
            m >= 0,
            f >= 0,
    ;
    assert((m * f) / (SCALE as int) <= (m * (SCALE as int)) / (SCALE as int)) by (nonlinear_arith)
        requires
            m * f <= m * (SCALE as int),
            SCALE as int > 0,
    ;
    assert((m * (SCALE as int)) / (SCALE as int) == m) by (nonlinear_arith)
        requires
            SCALE as int > 0,
    ;
    assert((m * f) / (SCALE as int) >= 0) by (nonlinear_arith)
        requires
            m * f >= 0,
            SCALE as int > 0,
    ;
}

/// `a * f / SCALE`, truncated toward zero. `f` is a fraction in `[0, SCALE]`,
/// so the result stays between `0` and `a`.
pub fn mul_frac(a: i64, f: i64) -> (r: i64)
    requires
        a > i64::MIN,
        0 <= f <= SCALE,
    ensures
        r == spec_mul_frac(a as int, f as int),
        a >= 0 ==> 0 <= r <= a,
        a < 0 ==> a <= r <= 0,
{
    let neg = a < 0;
    let mag: u128 = if a >= 0 {
        a as u128
    } else {
        (-a) as u128
    };
    proof {
        assert(mag as int * f as int <= i64::MAX as int * SCALE as int) by (nonlinear_arith)
            requires
                0 <= mag as int <= i64::MAX as int,
                0 <= f as int <= SCALE as int,
        ;
    }
    let prod: u128 = mag * (f as u128);
    let q: u128 = prod / (SCALE as u128);
    proof {
        lemma_div_trunc_bound(mag as int, f as int);
        if a < 0 {
            assert((-(a as int)) * (f as int) == -(a as int * f as int)) by (nonlinear_arith);
        }
    }
    if neg {
        -(q as i64)
    } else {
        q as i64
    }
}

/// A value clamped into `[lo, hi]`.
pub open spec fn spec_clamp(v: int, lo: int, hi: int) -> int {
    if v < lo {
        lo
    } else if v > hi {
        hi
    } else {
        v
    }
}

/// Truncated division of a wealth value by a positive share count: the
/// even split of an estate.
pub fn div_share(w: i64, n: usize) -> (r: i64)
    requires
        n > 0,
        w > i64::MIN,
    ensures
        r == div_trunc(w as int, n as int),
        w >= 0 ==> 0 <= r <= w,
        w < 0 ==> w <= r <= 0,
{
    let neg = w < 0;
    let mag: u128 = if w >= 0 {
        w as u128
    } else {
        (-w) as u128
    };
    let q: u128 = mag / (n as u128);
    proof {
        assert(mag as int / n as int <= mag as int) by (nonlinear_arith)
            requires
                0 <= mag as int,
                1 <= n as int,
        ;
        assert(mag as int / n as int >= 0) by (nonlinear_arith)
            requires
                0 <= mag as int,
                1 <= n as int,
        ;
    }
    if neg {
        -(q as i64)
    } else {
        q as i64
    }
}

/// Magnitude bound of a product from magnitude bounds of its factors.
pub proof fn lemma_abs_mul_le(a: int, b: int, am: int, bm: int)
    requires
        -am <= a <= am,
        -bm <= b <= bm,
        0 <= am,
        0 <= bm,
    ensures
        -(am * bm) <= a * b <= am * bm,
{
    assert(-(am * bm) <= a * b <= am * bm) by (nonlinear_arith)
        requires
            -am <= a <= am,
            -bm <= b <= bm,
            0 <= am,
            0 <= bm,
    ;
}

/// Sum of two `i64` values, or `None` when it leaves the `i64` range.
pub fn add_checked(a: i64, b: i64) -> (r: Option<i64>)
    ensures
        i64::MIN <= a + b <= i64::MAX ==> r == Some((a + b) as i64),
        !(i64::MIN <= a + b <= i64::MAX) ==> r is None,
{
    let s: i128 = a as i128 + b as i128;
    if s >= i64::MIN as i128 && s <= i64::MAX as i128 {
        Some(s as i64)
    } else {
        None
    }
}

/// Difference of two `i64` values, or `None` when it leaves the `i64` range.
pub fn sub_checked(a: i64, b: i64) -> (r: Option<i64>)
    ensures
        i64::MIN <= a - b <= i64::MAX ==> r == Some((a - b) as i64),
        !(i64::MIN <= a - b <= i64::MAX) ==> r is None,
{
    let s: i128 = a as i128 - b as i128;
    if s >= i64::MIN as i128 && s <= i64::MAX as i128 {
        Some(s as i64)
    } else {
        None
    }
}

} // verus!
