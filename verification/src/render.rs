//! The render sink's computations: the linear color gradient over wealth
//! and the mapping from simulation coordinates to a display surface.
//!
//! The renderer is a read-only consumer of the post-step agent collection;
//! painting is the caller's business, these functions only compute what it
//! paints.

use vstd::prelude::*;

use crate::fixed::{div_trunc, spec_clamp};
use crate::metrics::STAT_LIMIT;

verus! {

/// Maps a wealth value linearly into a byte of the color gradient between
/// the population's extremes: the poorest map to zero, the richest to 255.
pub fn wealth_color(wealth: i64, min_wealth: i64, max_wealth: i64) -> (c: u8)
    requires
        min_wealth < max_wealth,
        -STAT_LIMIT <= min_wealth,
        max_wealth <= STAT_LIMIT,
    ensures
        c as int == div_trunc(
            (spec_clamp(wealth as int, min_wealth as int, max_wealth as int) - min_wealth) * 255,
            max_wealth - min_wealth,
        ),
{
    let clamped = if wealth < min_wealth {
        min_wealth
    } else if wealth > max_wealth {
        max_wealth
    } else {
        wealth
    };
    let num: i128 = (clamped as i128 - min_wealth as i128) * 255;
    let den: i128 = max_wealth as i128 - min_wealth as i128;
    proof {
        let d = clamped as int - min_wealth as int;
        let span = max_wealth as int - min_wealth as int;
        assert(0 <= d * 255 <= span * 255) by (nonlinear_arith)
            requires
                0 <= d <= span,
        ;
        assert((d * 255) / span <= (span * 255) / span) by (nonlinear_arith)
            requires
                0 <= d * 255 <= span * 255,
                span >= 1,
        ;
        assert((span * 255) / span == 255) by (nonlinear_arith)
            requires
                span >= 1,
        ;
        assert((d * 255) / span >= 0) by (nonlinear_arith)
            requires
                0 <= d * 255,
                span >= 1,
        ;
    }
    let q: i128 = num / den;
    q as u8
}

/// Maps a simulation coordinate linearly onto a display surface of the
/// given extent.
pub fn to_screen(v: i64, sim_max: i64, screen_max: i64) -> (r: i64)
    requires
        0 < sim_max <= STAT_LIMIT,
        0 <= v <= sim_max,
        0 <= screen_max <= STAT_LIMIT,
    ensures
        r == div_trunc(v as int * screen_max as int, sim_max as int),
        0 <= r <= screen_max,
{
    proof {
        assert(0 <= v as int * screen_max as int <= 1_000_000_000_000_000_000_000_000_000_000)
            by (nonlinear_arith)
            requires
                0 <= v as int <= 1_000_000_000_000_000,
                0 <= screen_max as int <= 1_000_000_000_000_000,
        ;
    }
    let num: i128 = (v as i128) * (screen_max as i128);
    proof {
        assert(0 <= v as int * screen_max as int <= sim_max as int * screen_max as int)
            by (nonlinear_arith)
            requires
                0 <= v as int <= sim_max as int,
                0 <= screen_max as int,
        ;
        assert((v as int * screen_max as int) / sim_max as int <= (sim_max as int
            * screen_max as int) / sim_max as int) by (nonlinear_arith)
            requires
                0 <= v as int * screen_max as int <= sim_max as int * screen_max as int,
                sim_max as int >= 1,
        ;
        assert((sim_max as int * screen_max as int) / sim_max as int == screen_max as int)
            by (nonlinear_arith)
            requires
                sim_max as int >= 1,
        ;
        assert((v as int * screen_max as int) / sim_max as int >= 0) by (nonlinear_arith)
            requires
                0 <= v as int * screen_max as int,
                sim_max as int >= 1,
        ;
    }
    let q: i128 = num / (sim_max as i128);
    q as i64
}

} // verus!
