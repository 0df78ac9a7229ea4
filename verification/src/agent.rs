//! The atomic entity of the simulation: identity, spatial position, wealth,
//! education, age, alive flag and descendant ids.
//!
//! Positions, wealth and education are fixed-point micro-units; ages are
//! integer months. Per-agent operations know nothing of the population.

use vstd::prelude::*;

use crate::config::{AgeAndDeath, Education, Wealth, AGE_CEIL, FIX_LIMIT};
use crate::curves::{cos_turn, logistic, sin_turn, spec_cos_turn, spec_sin_turn, TURN, EXP_SAT};
use crate::fixed::{div_trunc, mul_frac, spec_clamp, SCALE};
use crate::rng::RandomSource;

verus! {

/// Age in months from which an agent is an adult.
pub const ADULT_AGE: u32 = 216;

#[derive(Clone, Debug)]
pub struct Agent {
    pub children: Vec<usize>,
    pub id: usize,
    pub x: i64,
    pub y: i64,
    pub wealth: i64,
    pub education: i64,
    pub age: u32,
    pub alive: bool,
    /// Age in months where the death chance is 50%.
    pub mid_age: u32,
    /// How quickly the death probability rises with age, fixed-point per
    /// month.
    pub steepness: i64,
}

/// The sign-split scaled product used for a movement step equals the
/// truncated product of the distance and the fixed-point factor.
proof fn lemma_signed_step(delta: int, c: int, d: int)
    requires
        0 <= delta,
        c >= 0 ==> d == div_trunc(delta * c, SCALE as int),
        c < 0 ==> d == -div_trunc(delta * (-c), SCALE as int),
    ensures
        d == div_trunc(delta * c, SCALE as int),
{
    if c < 0 {
        assert(delta * (-c) == -(delta * c)) by (nonlinear_arith);
        assert(delta * (-c) >= 0) by (nonlinear_arith)
            requires
                0 <= delta,
                c < 0,
        ;
    }
}

/// The pure income formula: `alpha * education + beta * age`, with `alpha`
/// fixed-point (so the product is rescaled) and `age` in months.
pub open spec fn spec_income(education: int, age: int, alpha: int, beta: int) -> int {
    div_trunc(alpha * education, SCALE as int) + beta * age
}

impl Agent {
    /// Constructs an initial agent: age uniform below `max_start_age`,
    /// education from the three-band age rule (under six years none, school
    /// age a ramp with jitter, adults a drawn initial range), wealth and
    /// position uniform over their configured ranges.
    pub fn new(
        id: usize,
        min_x: i64,
        max_x: i64,
        min_y: i64,
        max_y: i64,
        age_and_death: &AgeAndDeath,
        education: &Education,
        wealth: &Wealth,
        rng: &mut RandomSource,
    ) -> (r: Agent)
        requires
            age_and_death.wf(),
            education.wf(),
            wealth.wf(),
            -FIX_LIMIT <= min_x < max_x <= FIX_LIMIT,
            -FIX_LIMIT <= min_y < max_y <= FIX_LIMIT,
        ensures
            r.id == id,
            r.alive,
            r.children@ == Seq::<usize>::empty(),
            min_x <= r.x < max_x,
            min_y <= r.y < max_y,
            r.age < age_and_death.max_start_age,
            0 <= r.education <= education.max,
            r.age < 72 ==> r.education == 0,
            72 <= r.age < 216 ==> {
                let ramp = ((r.age - 72) as int * education.elemental_education_threshold as int)
                    / 144;
                ramp <= r.education < ramp + education.children_education_jitter
            },
            r.age >= 216 ==> education.initial_adult_min <= r.education
                < education.initial_adult_max,
            wealth.min_initial_wealth <= r.wealth < wealth.max_initial_wealth,
            r.mid_age == age_and_death.mid_age,
            r.steepness == age_and_death.steepness,
    {
        let age_months: u32 = rng.below(age_and_death.max_start_age as u64) as u32;

        let edu: i64 = if age_months < 72 {
            0
        } else if age_months < 216 {
            let band: u64 = (age_months - 72) as u64;
            proof {
                assert(0 <= band as int * education.elemental_education_threshold as int <= 144
                    * education.elemental_education_threshold as int) by (nonlinear_arith)
                    requires
                        0 <= band as int <= 144,
                        0 <= education.elemental_education_threshold as int <= FIX_LIMIT as int,
                ;
            }
            let ramp: u64 = band * (education.elemental_education_threshold as u64);
            let base: i64 = (ramp / 144) as i64;
            proof {
                assert(ramp as int / 144 <= (144 * education.elemental_education_threshold as int)
                    / 144) by (nonlinear_arith)
                    requires
                        0 <= ramp as int <= 144 * education.elemental_education_threshold as int,
                ;
            }
            let jitter = rng.range_fix(0, education.children_education_jitter);
            base + jitter
        } else {
            rng.range_fix(education.initial_adult_min, education.initial_adult_max)
        };

        Agent {
            id,
            children: Vec::new(),
            x: rng.range_fix(min_x, max_x),
            y: rng.range_fix(min_y, max_y),
            wealth: rng.range_fix(wealth.min_initial_wealth, wealth.max_initial_wealth),
            education: edu,
            age: age_months,
            alive: true,
            mid_age: age_and_death.mid_age,
            steepness: age_and_death.steepness,
        }
    }

    /// Moves by a uniformly drawn heading and radial distance, then clamps
    /// the result back into the bounds. Only the position changes, and it
    /// lands inside the bounds whatever was drawn.
    pub fn move_randomly(
        &mut self,
        max_distance: i64,
        min_x: i64,
        min_y: i64,
        max_x: i64,
        max_y: i64,
        rng: &mut RandomSource,
    )
        requires
            0 <= max_distance <= FIX_LIMIT,
            -FIX_LIMIT <= min_x <= max_x <= FIX_LIMIT,
            -FIX_LIMIT <= min_y <= max_y <= FIX_LIMIT,
            -FIX_LIMIT <= old(self).x <= FIX_LIMIT,
            -FIX_LIMIT <= old(self).y <= FIX_LIMIT,
        ensures
            min_x <= final(self).x <= max_x,
            min_y <= final(self).y <= max_y,
            *final(self) == (Agent { x: final(self).x, y: final(self).y, ..*old(self) }),
            (max_distance == 0 && min_x <= old(self).x <= max_x && min_y <= old(self).y <= max_y)
                ==> *final(self) == *old(self),
            (min_x <= old(self).x <= max_x && min_y <= old(self).y <= max_y) ==> (-max_distance
                <= final(self).x - old(self).x <= max_distance && -max_distance <= final(self).y
                - old(self).y <= max_distance),
            exists|h: int, delta: int|
                0 <= h < TURN && 0 <= delta <= max_distance && final(self).x == spec_clamp(
                    old(self).x + #[trigger] div_trunc(delta * spec_cos_turn(h), SCALE as int),
                    min_x as int,
                    max_x as int,
                ) && final(self).y == spec_clamp(
                    old(self).y + div_trunc(delta * spec_sin_turn(h), SCALE as int),
                    min_y as int,
                    max_y as int,
                ),
    {
        let heading: u32 = rng.below(TURN as u64) as u32;
        let delta: i64 = if max_distance == 0 {
            0
        } else {
            rng.range_fix(0, max_distance)
        };
        let c = cos_turn(heading);
        let s = sin_turn(heading);
        let dx: i64 = if c < 0 {
            -mul_frac(delta, -c)
        } else {
            mul_frac(delta, c)
        };
        let dy: i64 = if s < 0 {
            -mul_frac(delta, -s)
        } else {
            mul_frac(delta, s)
        };
        proof {
            lemma_signed_step(delta as int, c as int, dx as int);
            lemma_signed_step(delta as int, s as int, dy as int);
        }
        let nx = self.x + dx;
        self.x = if nx < min_x {
            min_x
        } else if nx > max_x {
            max_x
        } else {
            nx
        };
        let ny = self.y + dy;
        self.y = if ny < min_y {
            min_y
        } else if ny > max_y {
            max_y
        } else {
            ny
        };
        proof {
            let h = heading as int;
            let d = delta as int;
            assert(0 <= h < TURN && 0 <= d <= max_distance && self.x == spec_clamp(
                old(self).x + div_trunc(d * spec_cos_turn(h), SCALE as int),
                min_x as int,
                max_x as int,
            ) && self.y == spec_clamp(
                old(self).y + div_trunc(d * spec_sin_turn(h), SCALE as int),
                min_y as int,
                max_y as int,
            ));
        }
    }

    /// The income formula `alpha * education + beta * age`; pure, no side
    /// effects.
    pub fn income(&self, alpha: i64, beta: i64) -> (r: i64)
        requires
            0 <= alpha <= FIX_LIMIT,
            0 <= beta <= FIX_LIMIT,
            0 <= self.education <= FIX_LIMIT,
            self.age <= AGE_CEIL,
        ensures
            r == spec_income(self.education as int, self.age as int, alpha as int, beta as int),
            0 <= r <= 2_000_000_000_000_000_000,
    {
        proof {
            assert(0 <= alpha as int * self.education as int <= FIX_LIMIT as int
                * FIX_LIMIT as int) by (nonlinear_arith)
                requires
                    0 <= alpha as int <= FIX_LIMIT as int,
                    0 <= self.education as int <= FIX_LIMIT as int,
            ;
            assert(0 <= alpha as int * self.education as int / SCALE as int
                <= 1_000_000_000_000_000_000) by (nonlinear_arith)
                requires
                    0 <= alpha as int * self.education as int <= FIX_LIMIT as int
                        * FIX_LIMIT as int,
                    SCALE as int == 1_000_000,
                    FIX_LIMIT as int == 1_000_000_000_000,
            ;
            assert(0 <= beta as int * self.age as int <= FIX_LIMIT as int * AGE_CEIL as int)
                by (nonlinear_arith)
                requires
                    0 <= beta as int <= FIX_LIMIT as int,
                    0 <= self.age as int <= AGE_CEIL as int,
            ;
        }
        let from_education: i128 = (alpha as i128 * self.education as i128) / (SCALE as i128);
        let from_age: i128 = (beta as i128) * (self.age as i128);
        (from_education + from_age) as i64
    }

    /// Increments age by one month, evaluates the logistic death curve at
    /// the new age, and dies when a uniform draw falls below it. Must be
    /// called at most once per step, and only on a living agent. At and
    /// beyond the curve's positive saturation death is certain; at and
    /// beyond its negative saturation it cannot happen.
    pub fn age_and_check_death(&mut self, rng: &mut RandomSource) -> (died: bool)
        requires
            old(self).alive,
            old(self).age < AGE_CEIL,
            old(self).mid_age <= AGE_CEIL,
            0 <= old(self).steepness <= FIX_LIMIT,
        ensures
            final(self).age == old(self).age + 1,
            died == !final(self).alive,
            *final(self) == (Agent { age: final(self).age, alive: final(self).alive, ..*old(
                self,
            ) }),
            old(self).steepness * (old(self).age + 1 - old(self).mid_age) >= EXP_SAT ==> died,
            old(self).steepness * (old(self).age + 1 - old(self).mid_age) <= -EXP_SAT ==> !died,
    {
        self.age = self.age + 1;
        let diff: i64 = self.age as i64 - self.mid_age as i64;
        proof {
            let st = self.steepness as int;
            let df = diff as int;
            assert(-(FIX_LIMIT as int) * (AGE_CEIL as int) <= st * df <= FIX_LIMIT as int
                * AGE_CEIL as int) by (nonlinear_arith)
                requires
                    0 <= st <= FIX_LIMIT as int,
                    -(AGE_CEIL as int) <= df <= AGE_CEIL as int,
            ;
        }
        let t128: i128 = (self.steepness as i128) * (diff as i128);
        let t: i64 = t128 as i64;
        let death_chance = logistic(t);
        let draw = rng.fraction();
        if draw < death_chance {
            self.alive = false;
        }
        !self.alive
    }

    /// Whether the agent is an adult: at least eighteen years old.
    pub fn is_adult(&self) -> (r: bool)
        ensures
            r == (self.age >= ADULT_AGE),
    {
        self.age >= 18 * 12
    }
}

} // verus!
