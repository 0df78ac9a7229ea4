//! The random variate source.
//!
//! Every random draw the simulation makes goes through [`RandomSource`], an
//! explicitly passed, seedable object, so that runs are reproducible. A
//! scripted source serves a fixed queue of draws first, which makes the
//! stochastic state transitions testable; when the queue is exhausted the
//! draws come from the seeded generator.
//!
//! Nothing is promised of the value of a draw: every caller's contract holds
//! for every outcome.

use vstd::prelude::*;

use crate::fixed::SCALE;

verus! {

#[verifier::external_type_specification]
#[verifier::external_body]
pub struct ExStdRng(rand::rngs::StdRng);

/// Relies on `rand::SeedableRng::seed_from_u64`: builds the standard
/// generator deterministically from a 64-bit seed.
#[verifier::external_body]
fn std_rng_from_seed(seed: u64) -> (r: rand::rngs::StdRng) {
    <rand::rngs::StdRng as rand::SeedableRng>::seed_from_u64(seed)
}

/// Relies on `rand::Rng::next_u64`: returns the generator's next 64-bit
/// value. Nothing is promised of a random draw.
#[verifier::external_body]
fn std_rng_next_u64(rng: &mut rand::rngs::StdRng) -> (r: u64) {
    rand::Rng::next_u64(rng)
}

/// A seedable source of uniform draws, with an optional scripted prefix.
pub struct RandomSource {
    rng: rand::rngs::StdRng,
    script: Vec<u64>,
    script_pos: usize,
}

impl RandomSource {
    /// A source whose draws come from the standard generator under the given
    /// seed.
    pub fn seeded(seed: u64) -> (r: RandomSource) {
        RandomSource { rng: std_rng_from_seed(seed), script: Vec::new(), script_pos: 0 }
    }

    /// A source that serves the given draws first, in order, and falls back
    /// to the seeded generator once they are spent.
    pub fn scripted(script: Vec<u64>, seed: u64) -> (r: RandomSource) {
        RandomSource { rng: std_rng_from_seed(seed), script, script_pos: 0 }
    }

    /// The next raw 64-bit draw.
    pub fn next_u64(&mut self) -> u64 {
        if self.script_pos < self.script.len() {
            let v = self.script[self.script_pos];
            self.script_pos = self.script_pos + 1;
            v
        } else {
            std_rng_next_u64(&mut self.rng)
        }
    }

    /// A draw uniform over `[0, bound)`.
    pub fn below(&mut self, bound: u64) -> (r: u64)
        requires
            bound > 0,
        ensures
            r < bound,
    {
        self.next_u64() % bound
    }

    /// A fixed-point fraction drawn uniformly from `[0, 1)`, that is from
    /// `[0, SCALE)` in micro-units.
    pub fn fraction(&mut self) -> (r: i64)
        ensures
            0 <= r < SCALE,
    {
        self.below(SCALE as u64) as i64
    }

    /// A fixed-point value drawn uniformly from `[lo, hi)`.
    pub fn range_fix(&mut self, lo: i64, hi: i64) -> (r: i64)
        requires
            lo < hi,
        ensures
            lo <= r < hi,
    {
        let span: u64 = (hi as i128 - lo as i128) as u64;
        let d = self.below(span);
        (lo as i128 + d as i128) as i64
    }
}

} // verus!
