//! Fixed-point curve evaluation: the sine and cosine used for random
//! headings, and the logistic death-probability curve.
//!
//! Real transcendental functions cannot be evaluated exactly; these are
//! deterministic rational approximations, each pinned to its own spec mirror
//! and bounded where the engine's invariants need bounds. Headings are
//! measured in turn units: `TURN` units make a full circle.

use vstd::prelude::*;

use crate::fixed::SCALE;

verus! {

/// Turn units in a full circle.
pub const TURN: u32 = 4096;

/// Turn units in half a circle.
pub const HALF_TURN: u32 = 2048;

/// Saturation threshold of the logistic curve, fixed-point: beyond `|t| >=
/// EXP_SAT` the curve is within one micro-unit of its limit and is clamped
/// to it.
pub const EXP_SAT: i64 = 20_000_000;

/// Natural logarithm of two, fixed-point.
pub const LN2_FIX: i64 = 693_147;

/// Rational approximation of `sin(pi * x / HALF_TURN) * SCALE` on the first
/// half-turn `0 <= x <= HALF_TURN`; always in `[0, SCALE]`.
pub open spec fn spec_sin_half(x: int) -> int {
    let p = x * (HALF_TURN as int - x);
    (16 * p * SCALE as int) / (5 * HALF_TURN as int * HALF_TURN as int - 4 * p)
}

/// `sin` of a heading in turn units, fixed-point.
pub open spec fn spec_sin_turn(h: int) -> int {
    if h <= HALF_TURN as int {
        spec_sin_half(h)
    } else {
        -spec_sin_half(h - HALF_TURN as int)
    }
}

/// `cos` of a heading in turn units, fixed-point: the sine a quarter turn
/// ahead.
pub open spec fn spec_cos_turn(h: int) -> int {
    spec_sin_turn((h + TURN as int / 4) % TURN as int)
}

/// Sine on the first half-turn, by Bhaskara's rational approximation.
fn sin_half(x: u32) -> (r: i64)
    requires
        x <= HALF_TURN,
    ensures
        r == spec_sin_half(x as int),
        0 <= r <= SCALE,
{
    proof {
        assert(0 <= (x as int) * (HALF_TURN as int - x as int) <= 1_048_576 && 4 * ((x as int) * (
        HALF_TURN as int - x as int)) <= HALF_TURN as int * HALF_TURN as int) by (nonlinear_arith)
            requires
                0 <= x as int <= 2048,
                HALF_TURN as int == 2048,
        ;
    }
    let p: u64 = (x as u64) * ((HALF_TURN - x) as u64);
    let num: u64 = 16 * p * (SCALE as u64);
    let den: u64 = 5 * (HALF_TURN as u64) * (HALF_TURN as u64) - 4 * p;
    let r: u64 = num / den;
    proof {
        assert(num as int <= den as int * SCALE as int) by (nonlinear_arith)
            requires
                16 * p as int <= den as int,
                num as int == 16 * p as int * SCALE as int,
                SCALE as int > 0,
                den as int > 0,
        ;
        assert(num as int / den as int <= SCALE as int) by (nonlinear_arith)
            requires
                num as int <= den as int * SCALE as int,
                den as int > 0,
        ;
    }
    r as i64
}

/// Sine of a heading in turn units, fixed-point in `[-SCALE, SCALE]`.
pub fn sin_turn(h: u32) -> (r: i64)
    requires
        h < TURN,
    ensures
        r == spec_sin_turn(h as int),
        -SCALE <= r <= SCALE,
{
    if h <= HALF_TURN {
        sin_half(h)
    } else {
        -sin_half(h - HALF_TURN)
    }
}

/// Cosine of a heading in turn units, fixed-point in `[-SCALE, SCALE]`.
pub fn cos_turn(h: u32) -> (r: i64)
    requires
        h < TURN,
    ensures
        r == spec_cos_turn(h as int),
        -SCALE <= r <= SCALE,
{
    let shifted: u32 = (h + TURN / 4) % TURN;
    sin_turn(shifted)
}

/// Truncated alternating series for `exp(-r) * SCALE` on one binary
/// sub-range `0 <= r < LN2_FIX`, clamped into `[0, SCALE]`.
pub open spec fn spec_exp_neg_frac(r: int) -> int {
    let r2 = (r * r) / SCALE as int;
    let r3 = (r2 * r) / SCALE as int;
    let r4 = (r3 * r) / SCALE as int;
    let raw = SCALE as int - r + r2 / 2 - r3 / 6 + r4 / 24;
    if raw < 0 {
        0
    } else if raw > SCALE as int {
        SCALE as int
    } else {
        raw
    }
}

/// `e` halved `n` times, truncating at each step.
pub open spec fn spec_halved(e: int, n: nat) -> int
    decreases n,
{
    if n == 0 {
        e
    } else {
        spec_halved(e, (n - 1) as nat) / 2
    }
}

/// `exp(-x) * SCALE` for `0 <= x <= EXP_SAT`: series on the fractional part,
/// then halved once per whole multiple of `ln 2`.
pub open spec fn spec_exp_neg(x: int) -> int {
    spec_halved(spec_exp_neg_frac(x % LN2_FIX as int), (x / LN2_FIX as int) as nat)
}

fn exp_neg_frac(r: i64) -> (e: i64)
    requires
        0 <= r < LN2_FIX,
    ensures
        e == spec_exp_neg_frac(r as int),
        0 <= e <= SCALE,
{
    proof {
        assert(0 <= r as int * r as int <= SCALE as int * SCALE as int && r as int * r as int
            / SCALE as int <= SCALE as int) by (nonlinear_arith)
            requires
                0 <= r as int <= SCALE as int,
                SCALE as int > 0,
        ;
    }
    let q2: i128 = (r as i128 * r as i128) / SCALE as i128;
    let r2: i64 = q2 as i64;
    proof {
        assert(0 <= r2 as int * r as int <= SCALE as int * SCALE as int && r2 as int * r as int
            / SCALE as int <= SCALE as int) by (nonlinear_arith)
            requires
                0 <= r2 as int <= SCALE as int,
                0 <= r as int <= SCALE as int,
                SCALE as int > 0,
        ;
    }
    let q3: i128 = (r2 as i128 * r as i128) / SCALE as i128;
    let r3: i64 = q3 as i64;
    proof {
        assert(0 <= r3 as int * r as int <= SCALE as int * SCALE as int && r3 as int * r as int
            / SCALE as int <= SCALE as int) by (nonlinear_arith)
            requires
                0 <= r3 as int <= SCALE as int,
                0 <= r as int <= SCALE as int,
                SCALE as int > 0,
        ;
    }
    let q4: i128 = (r3 as i128 * r as i128) / SCALE as i128;
    let r4: i64 = q4 as i64;
    let raw: i64 = SCALE - r + r2 / 2 - r3 / 6 + r4 / 24;
    if raw < 0 {
        0
    } else if raw > SCALE {
        SCALE
    } else {
        raw
    }
}

/// `exp(-x) * SCALE`; exactly the spec mirror, and always in `[0, SCALE]`.
pub fn exp_neg(x: i64) -> (e: i64)
    requires
        0 <= x <= EXP_SAT,
    ensures
        e == spec_exp_neg(x as int),
        0 <= e <= SCALE,
{
    let n: i64 = x / LN2_FIX;
    let r: i64 = x % LN2_FIX;
    let frac = exp_neg_frac(r);
    let mut e: i64 = frac;
    let mut i: i64 = 0;
    while i < n
        invariant
            0 <= i <= n,
            n == x as int / LN2_FIX as int,
            0 <= e <= SCALE,
            e == spec_halved(frac as int, i as nat),
        decreases n - i,
    {
        e = e / 2;
        i = i + 1;
    }
    e
}

/// The death chance of the logistic curve, fixed-point: `SCALE / (1 +
/// exp(-t))` for the scaled argument `t`, clamped to its limits past the
/// saturation threshold.
pub open spec fn spec_logistic(t: int) -> int {
    if t >= EXP_SAT as int {
        SCALE as int
    } else if t <= -EXP_SAT as int {
        0
    } else if t >= 0 {
        (SCALE as int * SCALE as int) / (SCALE as int + spec_exp_neg(t))
    } else {
        (SCALE as int * spec_exp_neg(-t)) / (SCALE as int + spec_exp_neg(-t))
    }
}

/// Evaluates the logistic curve; the result is a probability in
/// `[0, SCALE]`, exactly `SCALE` at and beyond positive saturation and
/// exactly `0` at and beyond negative saturation.
pub fn logistic(t: i64) -> (p: i64)
    ensures
        p == spec_logistic(t as int),
        0 <= p <= SCALE,
        t >= EXP_SAT ==> p == SCALE,
        t <= -EXP_SAT ==> p == 0,
{
    if t >= EXP_SAT {
        SCALE
    } else if t <= -EXP_SAT {
        0
    } else if t >= 0 {
        let e = exp_neg(t);
        let q: i128 = (SCALE as i128 * SCALE as i128) / (SCALE as i128 + e as i128);
        proof {
            assert(0 <= SCALE as int * SCALE as int / (SCALE as int + e as int) <= SCALE as int)
                by (nonlinear_arith)
                requires
                    0 <= e as int,
                    SCALE as int > 0,
            ;
        }
        q as i64
    } else {
        let e = exp_neg(-t);
        let q: i128 = (SCALE as i128 * e as i128) / (SCALE as i128 + e as i128);
        proof {
            assert(0 <= SCALE as int * e as int / (SCALE as int + e as int) <= SCALE as int)
                by (nonlinear_arith)
                requires
                    0 <= e as int <= SCALE as int,
                    SCALE as int > 0,
            ;
        }
        q as i64
    }
}

} // verus!
