//! The population engine: owns the agent collection and orchestrates, per
//! time step, movement, learning, income and consumption, pairwise
//! interactions, the demographic lifecycle and compaction.
//!
//! Mutable-pair aliasing is resolved by index-based access into the single
//! owned vector: a pair is read immutably, the new values are computed, and
//! the two elements are written back one at a time. Population mutation
//! during iteration is resolved by fixed index snapshots and side buffers
//! (newborns, inheritance credits) merged after the scan.

use vstd::prelude::*;

use crate::agent::{spec_income, Agent, ADULT_AGE};
use crate::curves::EXP_SAT;
use crate::config::{EnvironmentConfig, AGE_CEIL, FIX_LIMIT};
use crate::fixed::{
    add_checked, div_trunc, lemma_abs_mul_le, mul_frac, spec_mul_frac, sub_checked, SCALE,
};
use crate::rng::RandomSource;

verus! {

/// Why a step could not run to completion. Each of these is fatal: after
/// an error the engine state is partial and the run is over.
#[derive(Clone, Copy, Debug, PartialEq, Eq, Structural)]
pub enum StepError {
    /// The engine's well-formedness check failed at entry.
    InvalidState,
    /// Fewer than two reproduction-eligible agents existed when a death
    /// demanded offspring creation.
    PopulationExhausted,
    /// A wealth, age, id or iteration count left its representable range.
    RangeExhausted,
}

pub struct Environment {
    pub agents: Vec<Agent>,
    pub iteration: usize,
    pub min_x: usize,
    pub max_x: usize,
    pub min_y: usize,
    pub max_y: usize,
    pub next_agent_id: usize,
    pub config: EnvironmentConfig,
    pub rng: RandomSource,
}

/// What every agent of a well-formed population satisfies: position within
/// the bounds, education within `[0, ceiling]`, the demographic curve
/// parameters copied from the configuration, and no agent among its own
/// children.
pub open spec fn wf_agent(a: Agent, c: EnvironmentConfig) -> bool {
    &&& 0 <= a.x <= c.length as int * SCALE as int
    &&& 0 <= a.y <= c.width as int * SCALE as int
    &&& 0 <= a.education <= c.education.max
    &&& a.mid_age == c.age_and_death.mid_age
    &&& a.steepness == c.age_and_death.steepness
    &&& forall|k: int| 0 <= k < a.children@.len() ==> a.children@[k] != a.id
}

impl Environment {
    /// The engine invariant: a valid configuration, bounds wired to it,
    /// well-formed agents, and ids unique and below the id counter.
    pub open spec fn wf(self) -> bool {
        &&& self.config.valid()
        &&& self.min_x == 0
        &&& self.min_y == 0
        &&& self.max_x == self.config.length
        &&& self.max_y == self.config.width
        &&& forall|i: int|
            0 <= i < self.agents@.len() ==> wf_agent(#[trigger] self.agents@[i], self.config)
        &&& forall|i: int|
            0 <= i < self.agents@.len() ==> (#[trigger] self.agents@[i].id) < self.next_agent_id
        &&& forall|i: int, j: int|
            0 <= i < j < self.agents@.len() ==> self.agents@[i].id != self.agents@[j].id
    }

    /// Everything outside the agent collection, the id counter, the
    /// iteration counter and the random source is unchanged.
    pub open spec fn frame_eq(self, other: Environment) -> bool {
        &&& self.min_x == other.min_x
        &&& self.max_x == other.max_x
        &&& self.min_y == other.min_y
        &&& self.max_y == other.max_y
        &&& self.config == other.config
    }

    /// Decides the engine invariant at run time.
    pub fn check_wf(&self) -> (b: bool)
        ensures
            b == self.wf(),
    {
        if !(self.config.check_valid() && self.min_x == 0 && self.min_y == 0 && self.max_x
            == self.config.length && self.max_y == self.config.width)  {
            return false;
        }
        let n = self.agents.len();
        let mut i: usize = 0;
        while i < n
            invariant
                0 <= i <= n,
                n == self.agents@.len(),
                self.config.valid(),
                forall|p: int| 0 <= p < i ==> wf_agent(#[trigger] self.agents@[p], self.config),
                forall|p: int|
                    0 <= p < i ==> (#[trigger] self.agents@[p].id) < self.next_agent_id,
                forall|p: int, q: int|
                    0 <= p < q < i ==> self.agents@[p].id != self.agents@[q].id,
            decreases n - i,
        {
            let a = &self.agents[i];
            let max_x_fix: i64 = (self.config.length as i64) * SCALE;
            let max_y_fix: i64 = (self.config.width as i64) * SCALE;
            if !(0 <= a.x && a.x <= max_x_fix && 0 <= a.y && a.y <= max_y_fix && 0 <= a.education
                && a.education <= self.config.education.max && a.mid_age
                == self.config.age_and_death.mid_age && a.steepness
                == self.config.age_and_death.steepness && a.id < self.next_agent_id)  {
                return false;
            }
            let mut k: usize = 0;
            while k < a.children.len()
                invariant
                    0 <= k <= a.children@.len(),
                    0 <= i < n,
                    n == self.agents@.len(),
                    a == self.agents@[i as int],
                    forall|m: int| 0 <= m < k ==> a.children@[m] != a.id,
                decreases a.children@.len() - k,
            {
                if a.children[k] == a.id {
                    proof {
                        assert(!wf_agent(self.agents@[i as int], self.config));
                    }
                    return false;
                }
                k = k + 1;
            }
            let mut j: usize = 0;
            while j < i
                invariant
                    0 <= j <= i < n,
                    n == self.agents@.len(),
                    a == self.agents@[i as int],
                    forall|q: int| 0 <= q < j ==> self.agents@[q].id != a.id,
                decreases i - j,
            {
                if self.agents[j].id == a.id {
                    proof {
                        assert(self.agents@[j as int].id == self.agents@[i as int].id);
                    }
                    return false;
                }
                j = j + 1;
            }
            i = i + 1;
        }
        true
    }

    /// Movement: every living agent moves randomly within the bounds; dead
    /// agents are untouched.
    pub fn movement_phase(&mut self)
        requires
            old(self).wf(),
        ensures
            final(self).wf(),
            final(self).frame_eq(*old(self)),
            final(self).iteration == old(self).iteration,
            final(self).next_agent_id == old(self).next_agent_id,
            final(self).agents@.len() == old(self).agents@.len(),
            forall|j: int|
                0 <= j < old(self).agents@.len() ==> moved_only(
                    old(self).agents@[j],
                    #[trigger] final(self).agents@[j],
                ),
            forall|j: int|
                0 <= j < old(self).agents@.len() && !old(self).agents@[j].alive ==> final(self).agents@[j] == old(self).agents@[j],
            old(self).config.max_movement == 0 ==> final(self).agents@ == old(self).agents@,
    {
        let n = self.agents.len();
        let max_x_fix: i64 = (self.max_x as i64) * SCALE;
        let max_y_fix: i64 = (self.max_y as i64) * SCALE;
        let max_movement = self.config.max_movement;
        let mut i: usize = 0;
        while i < n
            invariant
                0 <= i <= n,
                n == self.agents@.len(),
                self.wf(),
                self.frame_eq(*old(self)),
                self.iteration == old(self).iteration,
                self.next_agent_id == old(self).next_agent_id,
                max_x_fix == self.config.length as int * SCALE as int,
                max_y_fix == self.config.width as int * SCALE as int,
                max_movement == self.config.max_movement,
                forall|j: int| i <= j < n ==> self.agents@[j] == old(self).agents@[j],
                forall|j: int|
                    0 <= j < i ==> moved_only(old(self).agents@[j], #[trigger] self.agents@[j]),
                forall|j: int|
                    0 <= j < i && !old(self).agents@[j].alive ==> self.agents@[j] == old(self).agents@[j],
                old(self).config.max_movement == 0 ==> self.agents@ == old(self).agents@,
            decreases n - i,
        {
            let ghost pre_move = self.agents@;
            if self.agents[i].alive {
                let a = agent_at_mut(&mut self.agents, i);
                a.move_randomly(max_movement, 0, 0, max_x_fix, max_y_fix, &mut self.rng);
                proof {
                    if old(self).config.max_movement == 0 {
                        assert(self.agents@ =~= pre_move);
                    }
                }
            }
            i = i + 1;
        }
    }

    /// Learning: every living agent's education rises by a drawn rate times
    /// its remaining headroom, never past the ceiling; dead agents are
    /// untouched.
    pub fn learning_phase(&mut self)
        requires
            old(self).wf(),
        ensures
            final(self).wf(),
            final(self).frame_eq(*old(self)),
            final(self).iteration == old(self).iteration,
            final(self).next_agent_id == old(self).next_agent_id,
            final(self).agents@.len() == old(self).agents@.len(),
            forall|j: int|
                0 <= j < old(self).agents@.len() ==> learned_only(
                    old(self).agents@[j],
                    #[trigger] final(self).agents@[j],
                ),
            forall|j: int|
                0 <= j < old(self).agents@.len() ==> old(self).agents@[j].education <= final(self).agents@[j].education,
            forall|j: int|
                0 <= j < old(self).agents@.len() && !old(self).agents@[j].alive ==> final(self).agents@[j] == old(self).agents@[j],
            forall|j: int|
                0 <= j < old(self).agents@.len() && old(self).agents@[j].alive ==> exists|
                    rate: i64,
                |
                    old(self).config.education.learning_rate_min <= rate < old(self).config.education.learning_rate_max && (#[trigger] final(self).agents@[j]).education == spec_learn(
                        old(self).agents@[j].education as int,
                        rate as int,
                        old(self).config.education.max as int,
                    ),
    {
        let n = self.agents.len();
        let lr_min = self.config.education.learning_rate_min;
        let lr_max = self.config.education.learning_rate_max;
        let edu_max = self.config.education.max;
        let mut i: usize = 0;
        while i < n
            invariant
                0 <= i <= n,
                n == self.agents@.len(),
                self.wf(),
                self.frame_eq(*old(self)),
                self.iteration == old(self).iteration,
                self.next_agent_id == old(self).next_agent_id,
                lr_min == self.config.education.learning_rate_min,
                lr_max == self.config.education.learning_rate_max,
                edu_max == self.config.education.max,
                forall|j: int| i <= j < n ==> self.agents@[j] == old(self).agents@[j],
                forall|j: int|
                    0 <= j < i ==> learned_only(old(self).agents@[j], #[trigger] self.agents@[j]),
                forall|j: int|
                    0 <= j < i ==> old(self).agents@[j].education <= self.agents@[j].education,
                forall|j: int|
                    0 <= j < i && !old(self).agents@[j].alive ==> self.agents@[j] == old(self).agents@[j],
                forall|j: int|
                    0 <= j < i && old(self).agents@[j].alive ==> exists|rate: i64|
                        lr_min <= rate < lr_max && (#[trigger] self.agents@[j]).education
                            == spec_learn(
                            old(self).agents@[j].education as int,
                            rate as int,
                            edu_max as int,
                        ),
            decreases n - i,
        {
            if self.agents[i].alive {
                let rate = self.rng.range_fix(lr_min, lr_max);
                let e = self.agents[i].education;
                let updated = learn_update(e, rate, edu_max);
                let a = agent_at_mut(&mut self.agents, i);
                a.education = updated;
                proof {
                    assert(lr_min <= rate < lr_max && self.agents@[i as int].education
                        == spec_learn(
                        old(self).agents@[i as int].education as int,
                        rate as int,
                        edu_max as int,
                    ));
                }
            }
            i = i + 1;
        }
    }

    /// Income and consumption, restricted to living adults: both are
    /// computed on the wealth before either is applied. Succeeds unless a
    /// wealth leaves the representable range; dead agents are untouched
    /// either way.
    pub fn income_phase(&mut self) -> (r: Result<(), StepError>)
        requires
            old(self).wf(),
        ensures
            final(self).wf(),
            final(self).frame_eq(*old(self)),
            final(self).iteration == old(self).iteration,
            final(self).next_agent_id == old(self).next_agent_id,
            final(self).agents@.len() == old(self).agents@.len(),
            forall|j: int|
                0 <= j < old(self).agents@.len() ==> wealth_only(
                    old(self).agents@[j],
                    #[trigger] final(self).agents@[j],
                ),
            forall|j: int|
                0 <= j < old(self).agents@.len() && !(old(self).agents@[j].alive && old(self).agents@[j].age >= ADULT_AGE) ==> final(self).agents@[j] == old(self).agents@[j],
            r is Err ==> r == Err::<(), StepError>(StepError::RangeExhausted),
            r is Ok <==> forall|j: int|
                0 <= j < old(self).agents@.len() && (#[trigger] old(self).agents@[j]).alive && old(self).agents@[j].age >= ADULT_AGE ==> old(self).agents@[j].age <= AGE_CEIL && i64::MIN
                    <= spec_wealth_after_income(
                    old(self).agents@[j].wealth as int,
                    old(self).agents@[j].education as int,
                    old(self).agents@[j].age as int,
                    old(self).config.income_and_consumption,
                ) <= i64::MAX,
            r is Ok ==> forall|j: int|
                0 <= j < old(self).agents@.len() && old(self).agents@[j].alive && old(self).agents@[j].age >= ADULT_AGE ==> (#[trigger] final(self).agents@[j]).wealth
                    == spec_wealth_after_income(
                    old(self).agents@[j].wealth as int,
                    old(self).agents@[j].education as int,
                    old(self).agents@[j].age as int,
                    old(self).config.income_and_consumption,
                ),
    {
        let n = self.agents.len();
        let mut i: usize = 0;
        while i < n
            invariant
                0 <= i <= n,
                n == self.agents@.len(),
                n == old(self).agents@.len(),
                self.wf(),
                self.frame_eq(*old(self)),
                self.iteration == old(self).iteration,
                self.next_agent_id == old(self).next_agent_id,
                forall|j: int| i <= j < n ==> self.agents@[j] == old(self).agents@[j],
                forall|j: int|
                    0 <= j < i ==> wealth_only(old(self).agents@[j], #[trigger] self.agents@[j]),
                forall|j: int|
                    0 <= j < i && !(old(self).agents@[j].alive && old(self).agents@[j].age
                        >= ADULT_AGE) ==> self.agents@[j] == old(self).agents@[j],
                forall|j: int|
                    0 <= j < i && old(self).agents@[j].alive && old(self).agents@[j].age
                        >= ADULT_AGE ==> (#[trigger] self.agents@[j]).wealth
                        == spec_wealth_after_income(
                        old(self).agents@[j].wealth as int,
                        old(self).agents@[j].education as int,
                        old(self).agents@[j].age as int,
                        old(self).config.income_and_consumption,
                    ),
                forall|j: int|
                    0 <= j < i && (#[trigger] old(self).agents@[j]).alive && old(self).agents@[j].age >= ADULT_AGE ==> old(self).agents@[j].age <= AGE_CEIL
                        && i64::MIN <= spec_wealth_after_income(
                        old(self).agents@[j].wealth as int,
                        old(self).agents@[j].education as int,
                        old(self).agents@[j].age as int,
                        old(self).config.income_and_consumption,
                    ) <= i64::MAX,
            decreases n - i,
        {
            if self.agents[i].alive && self.agents[i].is_adult() {
                if self.agents[i].age > AGE_CEIL {
                    proof {
                        assert(old(self).agents@[i as int].alive && old(self).agents@[i
                            as int].age >= ADULT_AGE && old(self).agents@[i as int].age
                            > AGE_CEIL);
                    }
                    return Err(StepError::RangeExhausted);
                }
                let w = self.agents[i].wealth;
                let e = self.agents[i].education;
                let age = self.agents[i].age;
                let ic = self.config.income_and_consumption;
                match wealth_after_income(w, e, age, &ic) {
                    Ok(updated) => {
                        let a = agent_at_mut(&mut self.agents, i);
                        a.wealth = updated;
                    },
                    Err(e) => {
                        return Err(e);
                    },
                }
            }
            i = i + 1;
        }
        Ok(())
    }

    /// Splits the dying agent's wealth evenly across its recorded children
    /// (truncated toward zero, so the division remainder leaves
    /// circulation) and queues one deferred credit per child; the dying
    /// agent's wealth is zeroed immediately.
    fn resolve_inheritance(&mut self, credits: &mut Vec<(usize, i64)>, agent_id: usize) -> (r:
        Result<(), StepError>)
        requires
            old(self).wf(),
            agent_id < old(self).agents@.len(),
        ensures
            r is Err ==> r == Err::<(), StepError>(StepError::RangeExhausted) && *final(self)
                == *old(self) && *final(credits) == *old(credits),
            r is Ok ==> *final(self) == (Environment {
                agents: final(self).agents,
                ..*old(self)
            }) && final(self).agents@ == old(self).agents@.update(
                agent_id as int,
                Agent { wealth: 0, ..old(self).agents@[agent_id as int] },
            ) && final(credits)@ == old(credits)@ + Seq::new(
                old(self).agents@[agent_id as int].children@.len(),
                |k: int|
                    (
                        old(self).agents@[agent_id as int].children@[k],
                        div_trunc(
                            old(self).agents@[agent_id as int].wealth as int,
                            old(self).agents@[agent_id as int].children@.len() as int,
                        ) as i64,
                    ),
            ),
            r is Ok && old(self).agents@[agent_id as int].children@.len() > 0 ==> {
                let w = old(self).agents@[agent_id as int].wealth as int;
                let k = old(self).agents@[agent_id as int].children@.len() as int;
                let credited = k * div_trunc(w, k);
                // the k equal shares sum to the estate less the division
                // remainder, which leaves circulation
                &&& (w >= 0 ==> 0 <= w - credited < k)
                &&& (w < 0 ==> -k < w - credited <= 0)
            },
    {
        let w = self.agents[agent_id].wealth;
        if w == i64::MIN {
            return Err(StepError::RangeExhausted);
        }
        let num_children = self.agents[agent_id].children.len();
        if num_children > 0 {
            proof {
                let wi = w as int;
                let ki = num_children as int;
                if wi >= 0 {
                    vstd::arithmetic::div_mod::lemma_fundamental_div_mod(wi, ki);
                    assert(ki * div_trunc(wi, ki) == wi - wi % ki);
                } else {
                    vstd::arithmetic::div_mod::lemma_fundamental_div_mod(-wi, ki);
                    assert(ki * ((-wi) / ki) == -wi - (-wi) % ki);
                    assert(ki * div_trunc(wi, ki) == ki * (-((-wi) / ki))) by (nonlinear_arith)
                        requires
                            div_trunc(wi, ki) == -((-wi) / ki),
                    ;
                    assert(ki * (-((-wi) / ki)) == -(ki * ((-wi) / ki))) by (nonlinear_arith);
                }
            }
            let share = crate::fixed::div_share(w, num_children);
            let mut k: usize = 0;
            while k < num_children
                invariant
                    0 <= k <= num_children,
                    *self == *old(self),
                    agent_id < self.agents@.len(),
                    num_children == self.agents@[agent_id as int].children@.len(),
                    share == div_trunc(
                        self.agents@[agent_id as int].wealth as int,
                        num_children as int,
                    ),
                    credits@ == old(credits)@ + Seq::new(
                        k as nat,
                        |m: int| (self.agents@[agent_id as int].children@[m], share),
                    ),
                decreases num_children - k,
            {
                let child_id = self.agents[agent_id].children[k];
                credits.push((child_id, share));
                proof {
                    assert(credits@ =~= old(credits)@ + Seq::new(
                        (k + 1) as nat,
                        |m: int| (self.agents@[agent_id as int].children@[m], share),
                    ));
                }
                k = k + 1;
            }
        }
        let a = agent_at_mut(&mut self.agents, agent_id);
        a.wealth = 0;
        proof {
            assert(final(credits)@ =~= old(credits)@ + Seq::new(
                old(self).agents@[agent_id as int].children@.len(),
                |k: int|
                    (
                        old(self).agents@[agent_id as int].children@[k],
                        div_trunc(
                            old(self).agents@[agent_id as int].wealth as int,
                            old(self).agents@[agent_id as int].children@.len() as int,
                        ) as i64,
                    ),
            ));
        }
        Ok(())
    }

    /// Applies one queued inheritance credit to the agent with the given
    /// id, if it is still present; only that agent's wealth changes.
    fn apply_credit(&mut self, id: usize, amount: i64) -> (r: Result<(), StepError>)
        requires
            old(self).wf(),
        ensures
            *final(self) == (Environment { agents: final(self).agents, ..*old(self) }),
            final(self).agents@.len() == old(self).agents@.len(),
            forall|j: int|
                0 <= j < old(self).agents@.len() ==> wealth_only(
                    old(self).agents@[j],
                    #[trigger] final(self).agents@[j],
                ),
            forall|j: int|
                0 <= j < old(self).agents@.len() && old(self).agents@[j].id != id ==> final(self).agents@[j] == old(self).agents@[j],
            r is Ok ==> forall|j: int|
                0 <= j < old(self).agents@.len() && (#[trigger] old(self).agents@[j]).id == id
                    ==> final(self).agents@[j].wealth == old(self).agents@[j].wealth + amount,
            r is Err ==> r == Err::<(), StepError>(StepError::RangeExhausted),
    {
        let n = self.agents.len();
        let mut j: usize = 0;
        while j < n
            invariant
                0 <= j <= n,
                n == self.agents@.len(),
                *self == (Environment { agents: self.agents, ..*old(self) }),
                n == old(self).agents@.len(),
                self.wf(),
                forall|m: int| j <= m < n ==> self.agents@[m] == old(self).agents@[m],
                forall|m: int| 0 <= m < j ==> self.agents@[m] == old(self).agents@[m],
                forall|m: int| 0 <= m < j ==> (#[trigger] old(self).agents@[m]).id != id,
            decreases n - j,
        {
            if self.agents[j].id == id {
                let w = self.agents[j].wealth;
                match add_checked(w, amount) {
                    Some(updated) => {
                        let a = agent_at_mut(&mut self.agents, j);
                        a.wealth = updated;
                        proof {
                            assert(forall|m: int|
                                0 <= m < n && m != j ==> old(self).agents@[m].id != id);
                        }
                        return Ok(());
                    },
                    None => {
                        return Err(StepError::RangeExhausted);
                    },
                }
            }
            j = j + 1;
        }
        Ok(())
    }

    /// Selects two distinct agents uniformly at random from those alive and
    /// strictly between 20 and 60 years of age; fails exactly when fewer
    /// than two such agents exist.
    fn select_parents(&mut self) -> (r: Result<(usize, usize), StepError>)
        requires
            old(self).wf(),
        ensures
            *final(self) == (Environment { rng: final(self).rng, ..*old(self) }),
            r is Err ==> r == Err::<(usize, usize), StepError>(StepError::PopulationExhausted),
            r is Err <==> spec_eligible_parent_count(old(self).agents@) < 2,
            r matches Ok(p) ==> p.0 < old(self).agents@.len() && p.1 < old(self).agents@.len()
                && p.0 != p.1 && old(self).agents@[p.0 as int].alive && 240 < old(self).agents@[p.0 as int].age < 720 && old(self).agents@[p.1 as int].alive && 240 < old(self).agents@[p.1 as int].age < 720,
    {
        let n = self.agents.len();
        let mut reproductive: Vec<usize> = Vec::new();
        let mut i: usize = 0;
        while i < n
            invariant
                0 <= i <= n,
                n == self.agents@.len(),
                *self == (Environment { rng: self.rng, ..*old(self) }),
                forall|m: int| 0 <= m < reproductive@.len() ==> (#[trigger] reproductive@[m]) < i,
                forall|m1: int, m2: int|
                    0 <= m1 < m2 < reproductive@.len() ==> reproductive@[m1] < reproductive@[m2],
                forall|m: int|
                    0 <= m < reproductive@.len() ==> {
                        let a = self.agents@[#[trigger] reproductive@[m] as int];
                        a.alive && 240 < a.age < 720
                    },
                reproductive@.len() == spec_eligible_parent_count(self.agents@.take(i as int)),
            decreases n - i,
        {
            proof {
                assert(self.agents@.take(i + 1) =~= self.agents@.take(i as int).push(
                    self.agents@[i as int],
                ));
                lemma_filter_push(
                    self.agents@.take(i as int),
                    self.agents@[i as int],
                    reproductive_pred(),
                );
            }
            let a = &self.agents[i];
            if a.alive && a.age > 240 && a.age < 720 {
                reproductive.push(i);
            }
            i = i + 1;
        }
        proof {
            assert(self.agents@.take(n as int) =~= self.agents@);
        }
        let len = reproductive.len();
        if len < 2 {
            return Err(StepError::PopulationExhausted);
        }
        let idx1 = self.rng.below(len as u64) as usize;
        let raw2 = self.rng.below((len - 1) as u64) as usize;
        let idx2 = if raw2 >= idx1 {
            raw2 + 1
        } else {
            raw2
        };
        let a_idx = reproductive[idx1];
        let b_idx = reproductive[idx2];
        proof {
            if idx1 < idx2 {
                assert(reproductive@[idx1 as int] < reproductive@[idx2 as int]);
            } else {
                assert(reproductive@[idx2 as int] < reproductive@[idx1 as int]);
            }
        }
        Ok((a_idx, b_idx))
    }

    /// Creates one offspring of the two selected parents: each contributes
    /// a drawn fraction of its current wealth, debited immediately, and
    /// records the new id among its children. The child is born alive at
    /// age zero with no education, at a random position within bounds.
    fn create_offspring(&mut self, p1: usize, p2: usize, id: usize) -> (r: Result<
        Agent,
        StepError,
    >)
        requires
            old(self).wf(),
            p1 != p2,
            p1 < old(self).agents@.len(),
            p2 < old(self).agents@.len(),
            forall|j: int|
                0 <= j < old(self).agents@.len() ==> (#[trigger] old(self).agents@[j]).id < id,
        ensures
            final(self).wf(),
            final(self).frame_eq(*old(self)),
            final(self).iteration == old(self).iteration,
            final(self).next_agent_id == old(self).next_agent_id,
            final(self).agents@.len() == old(self).agents@.len(),
            r is Err ==> r == Err::<Agent, StepError>(StepError::RangeExhausted) && final(self).agents == old(self).agents,
            r is Ok ==> forall|j: int|
                0 <= j < old(self).agents@.len() && j != p1 && j != p2 ==> final(self).agents@[j]
                    == old(self).agents@[j],
            r is Ok ==> parent_updated(
                old(self).agents@[p1 as int],
                final(self).agents@[p1 as int],
                id,
            ),
            r is Ok ==> parent_updated(
                old(self).agents@[p2 as int],
                final(self).agents@[p2 as int],
                id,
            ),
            r matches Ok(child) ==> child.id == id && child.alive && child.age == 0
                && child.education == 0 && child.children@.len() == 0 && wf_agent(
                child,
                old(self).config,
            ),
            r matches Ok(child) ==> exists|f1: int, f2: int|
                #![trigger spec_mul_frac(old(self).agents@[p1 as int].wealth as int, f1), spec_mul_frac(old(self).agents@[p2 as int].wealth as int, f2)]
                old(self).config.wealth.min_inheritance_at_birth_rate <= f1 < old(
                    self,
                ).config.wealth.max_inheritance_at_birth_rate && old(
                    self,
                ).config.wealth.min_inheritance_at_birth_rate <= f2 < old(
                    self,
                ).config.wealth.max_inheritance_at_birth_rate && final(self).agents@[p1 as
                    int].wealth == old(self).agents@[p1 as int].wealth - spec_mul_frac(
                    old(self).agents@[p1 as int].wealth as int,
                    f1,
                ) && final(self).agents@[p2 as int].wealth == old(self).agents@[p2 as int].wealth
                    - spec_mul_frac(old(self).agents@[p2 as int].wealth as int, f2)
                    && child.wealth == spec_mul_frac(old(self).agents@[p1 as int].wealth as int, f1)
                    + spec_mul_frac(old(self).agents@[p2 as int].wealth as int, f2),
            r is Err ==> old(self).agents@[p1 as int].wealth == i64::MIN || old(self).agents@[p2 as
                int].wealth == i64::MIN || exists|f1: int, f2: int|
                #![trigger spec_mul_frac(old(self).agents@[p1 as int].wealth as int, f1), spec_mul_frac(old(self).agents@[p2 as int].wealth as int, f2)]
                old(self).config.wealth.min_inheritance_at_birth_rate <= f1 < old(
                    self,
                ).config.wealth.max_inheritance_at_birth_rate && old(
                    self,
                ).config.wealth.min_inheritance_at_birth_rate <= f2 < old(
                    self,
                ).config.wealth.max_inheritance_at_birth_rate && !(i64::MIN <= spec_mul_frac(
                    old(self).agents@[p1 as int].wealth as int,
                    f1,
                ) + spec_mul_frac(old(self).agents@[p2 as int].wealth as int, f2) <= i64::MAX),
    {
        let w1 = self.agents[p1].wealth;
        let w2 = self.agents[p2].wealth;
        if w1 == i64::MIN || w2 == i64::MIN {
            return Err(StepError::RangeExhausted);
        }
        let min_rate = self.config.wealth.min_inheritance_at_birth_rate;
        let max_rate = self.config.wealth.max_inheritance_at_birth_rate;
        let f1 = self.rng.range_fix(min_rate, max_rate);
        let c1 = mul_frac(w1, f1);
        let f2 = self.rng.range_fix(min_rate, max_rate);
        let c2 = mul_frac(w2, f2);
        let child_wealth = match add_checked(c1, c2) {
            Some(v) => v,
            None => {
                proof {
                    assert(min_rate <= f1 < max_rate && min_rate <= f2 < max_rate && !(i64::MIN
                        <= spec_mul_frac(w1 as int, f1 as int) + spec_mul_frac(w2 as int, f2 as int)
                        <= i64::MAX));
                }
                return Err(StepError::RangeExhausted);
            },
        };
        let max_x_fix: i64 = (self.max_x as i64) * SCALE;
        let max_y_fix: i64 = (self.max_y as i64) * SCALE;
        let cx = self.rng.range_fix(0, max_x_fix);
        let cy = self.rng.range_fix(0, max_y_fix);
        let mid_age = self.config.age_and_death.mid_age;
        let steepness = self.config.age_and_death.steepness;
        let a1 = agent_at_mut(&mut self.agents, p1);
        a1.wealth = w1 - c1;
        a1.children.push(id);
        let a2 = agent_at_mut(&mut self.agents, p2);
        a2.wealth = w2 - c2;
        a2.children.push(id);
        proof {
            assert(min_rate <= f1 < max_rate && min_rate <= f2 < max_rate && self.agents@[p1 as
                int].wealth == old(self).agents@[p1 as int].wealth - spec_mul_frac(
                old(self).agents@[p1 as int].wealth as int,
                f1 as int,
            ) && self.agents@[p2 as int].wealth == old(self).agents@[p2 as int].wealth
                - spec_mul_frac(old(self).agents@[p2 as int].wealth as int, f2 as int)
                && child_wealth == spec_mul_frac(old(self).agents@[p1 as int].wealth as int,
            f1 as int) + spec_mul_frac(old(self).agents@[p2 as int].wealth as int, f2 as int));
        }
        Ok(
            Agent {
                id,
                children: Vec::new(),
                x: cx,
                y: cy,
                wealth: child_wealth,
                education: 0,
                age: 0,
                alive: true,
                mid_age,
                steepness,
            },
        )
    }

    /// Lifecycle: ages every agent alive at the start of the sub-phase
    /// exactly once, over a fixed snapshot of indices. On a death, the
    /// estate is split across the recorded children and queued, and two
    /// reproduction-eligible parents fund exactly one offspring, so the
    /// newborn count equals the death count and the id counter advances by
    /// it. Queued credits are applied and newborns appended only after the
    /// scan; death is terminal, no dead agent is ever re-aged, a wealth
    /// moves only by dying, parenting, or a credit addressed to a
    /// recorded heir, and an estate no dying agent's list records is
    /// destroyed.
    pub fn update_agents(&mut self) -> (r: Result<(), StepError>)
        requires
            old(self).wf(),
        ensures
            final(self).wf(),
            final(self).frame_eq(*old(self)),
            final(self).iteration == old(self).iteration,
            final(self).next_agent_id >= old(self).next_agent_id,
            final(self).agents@.len() >= old(self).agents@.len(),
            forall|j: int|
                0 <= j < old(self).agents@.len() && !old(self).agents@[j].alive ==> !(
                #[trigger] final(self).agents@[j]).alive && final(self).agents@[j].age == old(self).agents@[j].age,
            r is Ok ==> forall|j: int|
                0 <= j < old(self).agents@.len() && old(self).agents@[j].alive ==> (
                #[trigger] final(self).agents@[j]).age == old(self).agents@[j].age + 1,
            r is Err ==> r == Err::<(), StepError>(StepError::RangeExhausted) || r == Err::<
                (),
                StepError,
            >(StepError::PopulationExhausted),
            r is Ok ==> forall|j: int|
                old(self).agents@.len() <= j < final(self).agents@.len() ==> (#[trigger] final(self).agents@[j]).alive && final(self).agents@[j].age == 0 && final(self).agents@[j].education == 0
                    && final(self).agents@[j].children@.len() == 0 && final(self).agents@[j].id
                    == old(self).next_agent_id + (j - old(self).agents@.len()),
            forall|j: int|
                0 <= j < old(self).agents@.len() ==> (#[trigger] final(self).agents@[j]).id == old(self).agents@[j].id,
            r is Ok ==> final(self).next_agent_id == old(self).next_agent_id + (final(self).agents@.len() - old(self).agents@.len()),
            r is Ok ==> final(self).agents@.len() == old(self).agents@.len() + spec_died_count(
                old(self).agents@,
                final(self).agents@,
                old(self).agents@.len() as int,
            ),
            spec_no_death_possible(old(self).agents@) ==> r is Ok,
            r is Ok ==> forall|j: int|
                0 <= j < old(self).agents@.len() && (#[trigger] final(self).agents@[j]).wealth
                    != old(self).agents@[j].wealth ==> (old(self).agents@[j].alive && !final(self).agents@[j].alive) || (old(self).agents@[j].alive && 240 <= old(self).agents@[j].age
                    < 720) || (exists|d: int|
                    0 <= d < old(self).agents@.len() && (#[trigger] old(self).agents@[d]).alive
                        && !final(self).agents@[d].alive && old(self).agents@[d].children@.contains(
                        old(self).agents@[j].id,
                    )),
            r is Ok ==> forall|j: int|
                0 <= j < old(self).agents@.len() && (#[trigger] old(self).agents@[j]).alive
                    && !final(self).agents@[j].alive && (forall|d: int|
                    0 <= d < old(self).agents@.len() && (#[trigger] old(self).agents@[d]).alive
                        && !final(self).agents@[d].alive ==> !old(self).agents@[d].children@.contains(
                        old(self).agents@[j].id,
                    )) ==> final(self).agents@[j].wealth == 0,
    {
        let size = self.agents.len();
        let mut new_agents: Vec<Agent> = Vec::new();
        let mut credits: Vec<(usize, i64)> = Vec::new();
        let mut i: usize = 0;
        while i < size
            invariant
                0 <= i <= size,
                size == self.agents@.len(),
                size == old(self).agents@.len(),
                self.wf(),
                self.frame_eq(*old(self)),
                self.iteration == old(self).iteration,
                self.next_agent_id >= old(self).next_agent_id,
                forall|j: int|
                    i <= j < size ==> (#[trigger] self.agents@[j]).alive == old(self).agents@[j].alive && self.agents@[j].age == old(self).agents@[j].age
                        && self.agents@[j].steepness == old(self).agents@[j].steepness
                        && self.agents@[j].mid_age == old(self).agents@[j].mid_age,
                forall|j: int|
                    0 <= j < size && !old(self).agents@[j].alive ==> #[trigger] self.agents@[j]
                        == old(self).agents@[j],
                forall|j: int|
                    0 <= j < i && old(self).agents@[j].alive ==> (
                    #[trigger] self.agents@[j]).age == old(self).agents@[j].age + 1,
                forall|j: int|
                    0 <= j < size ==> (#[trigger] self.agents@[j]).id == old(self).agents@[j].id,
                forall|m: int|
                    0 <= m < new_agents@.len() ==> wf_agent(
                        #[trigger] new_agents@[m],
                        self.config,
                    ) && new_agents@[m].alive && new_agents@[m].age == 0 && new_agents@[m].education
                        == 0,
                forall|m: int|
                    0 <= m < new_agents@.len() ==> (#[trigger] new_agents@[m]).id == old(self).next_agent_id + m
                        && new_agents@[m].children@.len() == 0,
                self.next_agent_id == old(self).next_agent_id + new_agents@.len(),
                new_agents@.len() == spec_died_count(
                    old(self).agents@,
                    self.agents@,
                    i as int,
                ),
                spec_no_death_possible(old(self).agents@) ==> credits@.len() == 0,
                forall|j: int|
                    0 <= j < size ==> (#[trigger] self.agents@[j]).children@.len() >= old(self).agents@[j].children@.len() && self.agents@[j].children@.take(
                        old(self).agents@[j].children@.len() as int,
                    ) == old(self).agents@[j].children@,
                forall|j: int, kk: int|
                    0 <= j < size && old(self).agents@[j].children@.len() <= kk < self.agents@[j].children@.len() ==> (#[trigger] self.agents@[j].children@[kk]) >= old(self).next_agent_id,
                forall|t: int|
                    0 <= t < credits@.len() ==> ((#[trigger] credits@[t]).0
                        >= old(self).next_agent_id) || (exists|d: int|
                        0 <= d < size && (#[trigger] old(self).agents@[d]).alive
                            && !self.agents@[d].alive && old(self).agents@[d].children@.contains(
                            credits@[t].0,
                        )),
                forall|j: int|
                    0 <= j < size && (#[trigger] self.agents@[j]).wealth != old(self).agents@[j].wealth ==> (old(self).agents@[j].alive && !self.agents@[j].alive) || (old(self).agents@[j].alive && 240 <= old(self).agents@[j].age < 720),
                forall|j: int|
                    0 <= j < size && (#[trigger] old(self).agents@[j]).alive
                        && !self.agents@[j].alive ==> self.agents@[j].wealth == 0,
            decreases size - i,
        {
            let ghost pre_iter = self.agents@;
            if self.agents[i].alive {
                if self.agents[i].age >= AGE_CEIL {
                    return Err(StepError::RangeExhausted);
                }
                let a = agent_at_mut(&mut self.agents, i);
                let died = a.age_and_check_death(&mut self.rng);
                if died {
                    proof {
                        assert(old(self).agents@[i as int].alive);
                        assert(!(old(self).agents@[i as int].steepness * (old(self).agents@[i
                            as int].age + 1 - old(self).agents@[i as int].mid_age) <= -EXP_SAT));
                    }
                    let ghost credits_base = credits@.len() as int;
                    let ghost pre_resolve = self.agents@;
                    match self.resolve_inheritance(&mut credits, i) {
                        Ok(()) => {},
                        Err(e) => {
                            return Err(e);
                        },
                    }
                    proof {
                        assert forall|t: int|
                            credits_base <= t < credits@.len() implies ((
                            #[trigger] credits@[t]).0 >= old(self).next_agent_id) || (exists|
                                d: int,
                            |
                                0 <= d < size && (#[trigger] old(self).agents@[d]).alive
                                    && !self.agents@[d].alive && old(self).agents@[d].children@.contains(
                                    credits@[t].0,
                                )) by {
                            let kk = t - credits_base;
                            assert(credits@[t].0 == pre_resolve[i as int].children@[kk]);
                            if kk < old(self).agents@[i as int].children@.len() {
                                assert(pre_resolve[i as int].children@[kk] == old(self).agents@[i
                                    as int].children@[kk]);
                                assert(old(self).agents@[i as int].children@.contains(
                                    credits@[t].0,
                                ));
                                assert(old(self).agents@[i as int].alive
                                    && !self.agents@[i as int].alive);
                            } else {
                                assert(pre_resolve[i as int].children@[kk] >= old(self).next_agent_id);
                            }
                        }
                    }
                    if self.next_agent_id == usize::MAX {
                        return Err(StepError::RangeExhausted);
                    }
                    let id = self.next_agent_id;
                    proof {
                        assert(forall|j: int|
                            0 <= j < size ==> (#[trigger] self.agents@[j]).id < id);
                    }
                    self.next_agent_id = id + 1;
                    let parents = match self.select_parents() {
                        Ok(p) => p,
                        Err(e) => {
                            return Err(e);
                        },
                    };
                    let child = match self.create_offspring(parents.0, parents.1, id) {
                        Ok(c) => c,
                        Err(e) => {
                            return Err(e);
                        },
                    };
                    new_agents.push(child);
                }
            }
            proof {
                lemma_died_count_stable(old(self).agents@, pre_iter, self.agents@, i as int);
            }
            i = i + 1;
        }
        let ghost mid = self.agents@;
        let num_credits = credits.len();
        let mut c: usize = 0;
        while c < num_credits
            invariant
                0 <= c <= num_credits,
                num_credits == credits@.len(),
                size == self.agents@.len(),
                size == old(self).agents@.len(),
                size == mid.len(),
                self.wf(),
                self.frame_eq(*old(self)),
                self.iteration == old(self).iteration,
                self.next_agent_id >= old(self).next_agent_id,
                forall|j: int|
                    0 <= j < size ==> wealth_only(mid[j], #[trigger] self.agents@[j]),
                forall|j: int|
                    0 <= j < size && !old(self).agents@[j].alive ==> !(
                    #[trigger] self.agents@[j]).alive && self.agents@[j].age == old(self).agents@[j].age,
                forall|j: int|
                    0 <= j < size && old(self).agents@[j].alive ==> (
                    #[trigger] self.agents@[j]).age == old(self).agents@[j].age + 1,
                forall|j: int|
                    0 <= j < size ==> (#[trigger] self.agents@[j]).id == old(self).agents@[j].id,
                forall|m: int|
                    0 <= m < new_agents@.len() ==> wf_agent(
                        #[trigger] new_agents@[m],
                        self.config,
                    ) && new_agents@[m].alive && new_agents@[m].age == 0 && new_agents@[m].education
                        == 0,
                forall|m: int|
                    0 <= m < new_agents@.len() ==> (#[trigger] new_agents@[m]).id == old(self).next_agent_id + m
                        && new_agents@[m].children@.len() == 0,
                self.next_agent_id == old(self).next_agent_id + new_agents@.len(),
                new_agents@.len() == spec_died_count(old(self).agents@, mid, size as int),
                spec_no_death_possible(old(self).agents@) ==> num_credits == 0,
                old(self).wf(),
                forall|t: int|
                    0 <= t < credits@.len() ==> ((#[trigger] credits@[t]).0
                        >= old(self).next_agent_id) || (exists|d: int|
                        0 <= d < size && (#[trigger] old(self).agents@[d]).alive
                            && !self.agents@[d].alive && old(self).agents@[d].children@.contains(
                            credits@[t].0,
                        )),
                forall|j: int|
                    0 <= j < size && (#[trigger] self.agents@[j]).wealth != old(self).agents@[j].wealth ==> (old(self).agents@[j].alive && !self.agents@[j].alive) || (old(self).agents@[j].alive && 240 <= old(self).agents@[j].age < 720) || (exists|d: int|
                        0 <= d < size && (#[trigger] old(self).agents@[d]).alive
                            && !self.agents@[d].alive && old(self).agents@[d].children@.contains(
                            old(self).agents@[j].id,
                        )),
                forall|j: int|
                    0 <= j < size && (#[trigger] old(self).agents@[j]).alive
                        && !self.agents@[j].alive && (forall|d: int|
                        0 <= d < size && (#[trigger] old(self).agents@[d]).alive
                            && !self.agents@[d].alive ==> !old(self).agents@[d].children@.contains(
                            old(self).agents@[j].id,
                        )) ==> self.agents@[j].wealth == 0,
            decreases num_credits - c,
        {
            let credit = credits[c];
            let ghost pre_credit = self.agents@;
            match self.apply_credit(credit.0, credit.1) {
                Ok(()) => {},
                Err(e) => {
                    return Err(e);
                },
            }
            proof {
                assert forall|j: int|
                    0 <= j < size && (#[trigger] self.agents@[j]).wealth != old(self).agents@[j].wealth implies (old(self).agents@[j].alive && !self.agents@[j].alive) || (old(self).agents@[j].alive && 240 <= old(self).agents@[j].age < 720) || (exists|d: int|
                        0 <= d < size && (#[trigger] old(self).agents@[d]).alive
                            && !self.agents@[d].alive && old(self).agents@[d].children@.contains(
                            old(self).agents@[j].id,
                        )) by {
                    if self.agents@[j].wealth != pre_credit[j].wealth {
                        assert(pre_credit[j].id == credit.0);
                        assert(old(self).agents@[j].id == credit.0);
                        assert(old(self).wf());
                        assert(0 <= j < old(self).agents@.len());
                        assert(old(self).agents@[j].id < old(self).next_agent_id);
                    }
                }
                assert forall|j: int|
                    0 <= j < size && (#[trigger] old(self).agents@[j]).alive
                        && !self.agents@[j].alive && (forall|d: int|
                        0 <= d < size && (#[trigger] old(self).agents@[d]).alive
                            && !self.agents@[d].alive ==> !old(self).agents@[d].children@.contains(
                            old(self).agents@[j].id,
                        )) implies self.agents@[j].wealth == 0 by {
                    if self.agents@[j].wealth != pre_credit[j].wealth {
                        assert(pre_credit[j].id == credit.0);
                        assert(old(self).agents@[j].id == credit.0);
                        assert(old(self).wf());
                        assert(old(self).agents@[j].id < old(self).next_agent_id);
                    }
                }
            }
            c = c + 1;
        }
        proof {
            assert(forall|j: int|
                0 <= j < size ==> (#[trigger] self.agents@[j]).id == mid[j].id);
        }
        let ghost before_append = self.agents@;
        let ghost newborns = new_agents@;
        self.agents.append(&mut new_agents);
        proof {
            assert(self.agents@ == before_append + newborns);
            assert forall|p: int, q: int| 0 <= p < q < self.agents@.len() implies self.agents@[p].id
                != self.agents@[q].id by {
                if q < size {
                } else if p < size {
                    assert(self.agents@[q] == newborns[q - size]);
                    assert(newborns[q - size].id >= old(self).next_agent_id);
                    assert(self.agents@[p].id == old(self).agents@[p].id);
                    assert(old(self).agents@[p].id < old(self).next_agent_id);
                } else {
                    assert(self.agents@[p] == newborns[p - size]);
                    assert(self.agents@[q] == newborns[q - size]);
                }
            }
            lemma_died_count_stable(old(self).agents@, mid, self.agents@, size as int);
        }
        Ok(())
    }

    /// Compaction: removes the agents whose alive flag is false, keeping
    /// the survivors in their order.
    fn compact(&mut self)
        requires
            old(self).wf(),
        ensures
            final(self).wf(),
            *final(self) == (Environment { agents: final(self).agents, ..*old(self) }),
            final(self).agents@ == old(self).agents@.filter(|a: Agent| a.alive),
    {
        let ghost orig = self.agents@;
        let ghost pred = |a: Agent| a.alive;
        let ghost mut k: int = 0;
        let mut i: usize = 0;
        while i < self.agents.len()
            invariant
                0 <= k <= orig.len(),
                i as int == orig.take(k).filter(pred).len(),
                self.agents@ =~= orig.take(k).filter(pred) + orig.skip(k),
                *self == (Environment { agents: self.agents, ..*old(self) }),
                orig == old(self).agents@,
                pred == (|a: Agent| a.alive),
                old(self).wf(),
            decreases orig.len() - k,
        {
            proof {
                assert(self.agents@.len() == orig.take(k).filter(pred).len() + (orig.len() - k));
                assert(k < orig.len());
                assert(orig.take(k + 1) =~= orig.take(k).push(orig[k]));
                lemma_filter_push(orig.take(k), orig[k], pred);
                assert(self.agents@[i as int] == orig.skip(k)[0]);
                assert(orig.skip(k)[0] == orig[k]);
            }
            if self.agents[i].alive {
                proof {
                    assert(pred(orig[k]));
                    assert(self.agents@ =~= orig.take(k + 1).filter(pred) + orig.skip(k + 1));
                    k = k + 1;
                }
                i = i + 1;
            } else {
                let _removed = self.agents.remove(i);
                proof {
                    assert(!pred(orig[k]));
                    assert(self.agents@ =~= orig.take(k + 1).filter(pred) + orig.skip(k + 1));
                    k = k + 1;
                }
            }
        }
        proof {
            assert(orig.skip(k).len() == 0);
            assert(k == orig.len());
            assert(orig.take(k) =~= orig);
            assert(self.agents@ =~= orig.filter(pred));
            let fin = self.agents@;
            assert forall|p: int| 0 <= p < fin.len() implies wf_agent(
                #[trigger] fin[p],
                old(self).config,
            ) && fin[p].id < old(self).next_agent_id by {
                lemma_filter_elem(orig, pred, p);
                let q = choose|q: int| 0 <= q < orig.len() && orig[q] == fin[p];
                assert(wf_agent(orig[q], old(self).config));
            }
            lemma_filter_unique_ids(orig, pred);
        }
    }

    /// Records `child` among the children of `parent`; nothing else
    /// changes.
    fn record_parent(&mut self, parent: usize, child: usize)
        requires
            old(self).wf(),
            parent < old(self).agents@.len(),
            child < old(self).agents@.len(),
            parent_link_ok(old(self).agents@, parent as int, child as int),
            forall|j: int|
                0 <= j < old(self).agents@.len() ==> (#[trigger] old(self).agents@[j]).id == j,
        ensures
            final(self).wf(),
            *final(self) == (Environment { agents: final(self).agents, ..*old(self) }),
            final(self).agents@ == old(self).agents@.update(
                parent as int,
                Agent {
                    children: final(self).agents@[parent as int].children,
                    ..old(self).agents@[parent as int]
                },
            ),
            final(self).agents@[parent as int].children@ == old(self).agents@[parent as
                int].children@.push(child),
    {
        let a = agent_at_mut(&mut self.agents, parent);
        a.children.push(child);
    }

    /// One-time ancestry wiring at initialization: for each agent, the
    /// chance of having two, one or no recorded parents decays linearly
    /// with its age; eligible parents are the agents between 18 and 45
    /// years older, scanned in index order and sampled without replacement
    /// (or all of them when fewer are eligible), and each selected parent
    /// records the agent among its children. Only children lists change,
    /// they grow append-only, and every recorded link satisfies
    /// [`parent_link_ok`].
    fn wire_ancestry(&mut self)
        requires
            old(self).wf(),
            forall|j: int|
                0 <= j < old(self).agents@.len() ==> (#[trigger] old(self).agents@[j]).id == j,
            forall|j: int|
                0 <= j < old(self).agents@.len() ==> (#[trigger] old(self).agents@[j]).age
                    <= AGE_CEIL,
        ensures
            final(self).wf(),
            final(self).frame_eq(*old(self)),
            final(self).iteration == old(self).iteration,
            final(self).next_agent_id == old(self).next_agent_id,
            final(self).agents@.len() == old(self).agents@.len(),
            forall|j: int|
                0 <= j < old(self).agents@.len() ==> children_only(
                    old(self).agents@[j],
                    #[trigger] final(self).agents@[j],
                ),
            forall|j: int|
                0 <= j < old(self).agents@.len() ==> (#[trigger] final(self).agents@[j]).children@.len()
                    >= old(self).agents@[j].children@.len() && final(self).agents@[j].children@.take(
                    old(self).agents@[j].children@.len() as int,
                ) == old(self).agents@[j].children@,
            forall|j: int, k: int|
                0 <= j < old(self).agents@.len() && old(self).agents@[j].children@.len() <= k
                    < final(self).agents@[j].children@.len() ==> parent_link_ok(
                    final(self).agents@,
                    j,
                    (#[trigger] final(self).agents@[j].children@[k]) as int,
                ),
            forall|c: usize|
                #![trigger spec_recorded_parents(final(self).agents@, c, old(self).agents@.len() as int)]
                spec_recorded_parents(final(self).agents@, c, old(self).agents@.len() as int)
                    <= spec_recorded_parents(
                    old(self).agents@,
                    c,
                    old(self).agents@.len() as int,
                ) + 2,
    {
        let n = self.agents.len();
        let mut i: usize = 0;
        while i < n
            invariant
                0 <= i <= n,
                n == self.agents@.len(),
                n == old(self).agents@.len(),
                self.wf(),
                self.frame_eq(*old(self)),
                self.iteration == old(self).iteration,
                self.next_agent_id == old(self).next_agent_id,
                forall|j: int|
                    0 <= j < n ==> children_only(
                        old(self).agents@[j],
                        #[trigger] self.agents@[j],
                    ),
                forall|j: int| 0 <= j < n ==> (#[trigger] self.agents@[j]).id == j,
                forall|j: int| 0 <= j < n ==> (#[trigger] self.agents@[j]).age <= AGE_CEIL,
                forall|j: int|
                    0 <= j < n ==> (#[trigger] self.agents@[j]).children@.len() >= old(self).agents@[j].children@.len()
                        && self.agents@[j].children@.take(
                        old(self).agents@[j].children@.len() as int,
                    ) == old(self).agents@[j].children@,
                forall|j: int, k: int|
                    0 <= j < n && old(self).agents@[j].children@.len() <= k
                        < self.agents@[j].children@.len() ==> parent_link_ok(
                        self.agents@,
                        j,
                        (#[trigger] self.agents@[j].children@[k]) as int,
                    ),
                forall|c: usize|
                    #![trigger spec_recorded_parents(self.agents@, c, n as int)]
                    (c as int) < i ==> spec_recorded_parents(self.agents@, c, n as int)
                        <= spec_recorded_parents(old(self).agents@, c, n as int) + 2,
                forall|c: usize|
                    #![trigger spec_recorded_parents(self.agents@, c, n as int)]
                    (c as int) >= i ==> spec_recorded_parents(self.agents@, c, n as int)
                        == spec_recorded_parents(old(self).agents@, c, n as int),
            decreases n - i,
        {
            let ghost iter_start_agents = self.agents@;
            let age = self.agents[i].age;
            let ms = self.config.age_and_death.max_start_age;
            let denom_two: i64 = (ms - 360) as i64;
            let frac_two: i64 = ((SCALE as i128 * age as i128) / (denom_two as i128)) as i64;
            let raw_two: i64 = SCALE - frac_two;
            let p_two: i64 = if raw_two < 0 {
                0
            } else if raw_two > SCALE {
                SCALE
            } else {
                raw_two
            };
            let denom_one: i64 = 2 * ((ms - 216) as i64);
            let frac_one: i64 = ((SCALE as i128 * age as i128) / (denom_one as i128)) as i64;
            let raw_one: i64 = SCALE - frac_one;
            let clamped_one: i64 = if raw_one < 0 {
                0
            } else if raw_one > SCALE {
                SCALE
            } else {
                raw_one
            };
            let rest: i64 = SCALE - p_two;
            let capped: i64 = if clamped_one < rest {
                clamped_one
            } else {
                rest
            };
            let p_one: i64 = mul_frac(rest, capped);
            let roll = self.rng.fraction();
            let num_parents: usize = if roll < p_two {
                2
            } else if roll < p_two + p_one {
                1
            } else {
                0
            };
            let mut possible: Vec<usize> = Vec::new();
            let mut m: usize = 0;
            while m < n
                invariant
                    0 <= m <= n,
                    n == self.agents@.len(),
                    0 <= i < n,
                    age == self.agents@[i as int].age,
                    forall|q: int| 0 <= q < possible@.len() ==> (#[trigger] possible@[q]) < m,
                    forall|q1: int, q2: int|
                        0 <= q1 < q2 < possible@.len() ==> possible@[q1] < possible@[q2],
                    forall|q: int|
                        0 <= q < possible@.len() ==> parent_link_ok(
                            self.agents@,
                            (#[trigger] possible@[q]) as int,
                            i as int,
                        ),
                    forall|j: int| 0 <= j < n ==> (#[trigger] self.agents@[j]).age <= AGE_CEIL,
                decreases n - m,
            {
                let candidate_age = self.agents[m].age;
                if m != i && candidate_age >= age + 216 && candidate_age < age + 540 {
                    possible.push(m);
                }
                m = m + 1;
            }
            let available = possible.len();
            if available >= num_parents {
                if num_parents == 1 {
                    let pick = self.rng.below(available as u64) as usize;
                    let pidx = possible[pick];
                    self.record_parent(pidx, i);
                    proof {
                        assert forall|c2: usize|
                            #![trigger spec_recorded_parents(self.agents@, c2, n as int)]
                            c2 != i implies spec_recorded_parents(self.agents@, c2, n as int)
                            == spec_recorded_parents(iter_start_agents, c2, n as int) by {
                            lemma_recorded_parents_push(
                                iter_start_agents,
                                pidx as int,
                                self.agents@[pidx as int],
                                i,
                                c2,
                                n as int,
                            );
                        }
                        lemma_recorded_parents_push(
                            iter_start_agents,
                            pidx as int,
                            self.agents@[pidx as int],
                            i,
                            i,
                            n as int,
                        );
                    }
                } else if num_parents == 2 {
                    let first = self.rng.below(available as u64) as usize;
                    let raw_second = self.rng.below((available - 1) as u64) as usize;
                    let second = if raw_second >= first {
                        raw_second + 1
                    } else {
                        raw_second
                    };
                    let pidx1 = possible[first];
                    self.record_parent(pidx1, i);
                    let ghost after_first = self.agents@;
                    proof {
                        assert forall|c2: usize|
                            #![trigger spec_recorded_parents(self.agents@, c2, n as int)]
                            c2 != i implies spec_recorded_parents(self.agents@, c2, n as int)
                            == spec_recorded_parents(iter_start_agents, c2, n as int) by {
                            lemma_recorded_parents_push(
                                iter_start_agents,
                                pidx1 as int,
                                self.agents@[pidx1 as int],
                                i,
                                c2,
                                n as int,
                            );
                        }
                        lemma_recorded_parents_push(
                            iter_start_agents,
                            pidx1 as int,
                            self.agents@[pidx1 as int],
                            i,
                            i,
                            n as int,
                        );
                    }
                    let pidx2 = possible[second];
                    self.record_parent(pidx2, i);
                    proof {
                        assert forall|c2: usize|
                            #![trigger spec_recorded_parents(self.agents@, c2, n as int)]
                            c2 != i implies spec_recorded_parents(self.agents@, c2, n as int)
                            == spec_recorded_parents(after_first, c2, n as int) by {
                            lemma_recorded_parents_push(
                                after_first,
                                pidx2 as int,
                                self.agents@[pidx2 as int],
                                i,
                                c2,
                                n as int,
                            );
                        }
                        lemma_recorded_parents_push(
                            after_first,
                            pidx2 as int,
                            self.agents@[pidx2 as int],
                            i,
                            i,
                            n as int,
                        );
                    }
                }
            } else {
                let mut q: usize = 0;
                while q < available
                    invariant
                        0 <= q <= available,
                        available == possible@.len(),
                        available <= 1,
                        0 <= i < n,
                        n == self.agents@.len(),
                        forall|c2: usize|
                            #![trigger spec_recorded_parents(self.agents@, c2, n as int)]
                            (c2 as int) < i ==> spec_recorded_parents(self.agents@, c2, n as int)
                                <= spec_recorded_parents(old(self).agents@, c2, n as int) + 2,
                        forall|c2: usize|
                            #![trigger spec_recorded_parents(self.agents@, c2, n as int)]
                            (c2 as int) > i ==> spec_recorded_parents(self.agents@, c2, n as int)
                                == spec_recorded_parents(old(self).agents@, c2, n as int),
                        spec_recorded_parents(self.agents@, i, n as int) <= spec_recorded_parents(
                            old(self).agents@,
                            i,
                            n as int,
                        ) + q,
                        n == self.agents@.len(),
                        n == old(self).agents@.len(),
                        0 <= i < n,
                        self.wf(),
                        self.frame_eq(*old(self)),
                        self.iteration == old(self).iteration,
                        self.next_agent_id == old(self).next_agent_id,
                        forall|p: int|
                            0 <= p < possible@.len() ==> parent_link_ok(
                                self.agents@,
                                (#[trigger] possible@[p]) as int,
                                i as int,
                            ),
                        forall|j: int|
                            0 <= j < n ==> children_only(
                                old(self).agents@[j],
                                #[trigger] self.agents@[j],
                            ),
                        forall|j: int| 0 <= j < n ==> (#[trigger] self.agents@[j]).id == j,
                        forall|j: int| 0 <= j < n ==> (#[trigger] self.agents@[j]).age <= AGE_CEIL,
                        forall|j: int|
                            0 <= j < n ==> (#[trigger] self.agents@[j]).children@.len() >= old(self).agents@[j].children@.len()
                                && self.agents@[j].children@.take(
                                old(self).agents@[j].children@.len() as int,
                            ) == old(self).agents@[j].children@,
                        forall|j: int, k: int|
                            0 <= j < n && old(self).agents@[j].children@.len() <= k
                                < self.agents@[j].children@.len() ==> parent_link_ok(
                                self.agents@,
                                j,
                                (#[trigger] self.agents@[j].children@[k]) as int,
                            ),
                    decreases available - q,
                {
                    let pidx = possible[q];
                    let ghost pre_push = self.agents@;
                    self.record_parent(pidx, i);
                    proof {
                        assert forall|c2: usize|
                            #![trigger spec_recorded_parents(self.agents@, c2, n as int)]
                            c2 != i implies spec_recorded_parents(self.agents@, c2, n as int)
                            == spec_recorded_parents(pre_push, c2, n as int) by {
                            lemma_recorded_parents_push(
                                pre_push,
                                pidx as int,
                                self.agents@[pidx as int],
                                i,
                                c2,
                                n as int,
                            );
                        }
                        lemma_recorded_parents_push(
                            pre_push,
                            pidx as int,
                            self.agents@[pidx as int],
                            i,
                            i,
                            n as int,
                        );
                    }
                    q = q + 1;
                }
            }
            i = i + 1;
        }
    }

    /// Builds the initial population: `num_agents` agents with randomly
    /// sampled attributes, ids assigned from zero, then the one-time
    /// ancestry wiring.
    pub fn new(config: &EnvironmentConfig, rng: RandomSource) -> (env: Environment)
        requires
            config.valid(),
        ensures
            env.wf(),
            env.config == *config,
            env.iteration == 0,
            env.agents@.len() == config.num_agents,
            env.next_agent_id == config.num_agents,
            forall|j: int| 0 <= j < env.agents@.len() ==> (#[trigger] env.agents@[j]).alive,
            forall|j: int| 0 <= j < env.agents@.len() ==> (#[trigger] env.agents@[j]).id == j,
            forall|j: int|
                0 <= j < env.agents@.len() ==> (#[trigger] env.agents@[j]).age
                    < config.age_and_death.max_start_age,
            forall|j: int|
                0 <= j < env.agents@.len() ==> config.wealth.min_initial_wealth <= (
                #[trigger] env.agents@[j]).wealth < config.wealth.max_initial_wealth,
            forall|j: int|
                0 <= j < env.agents@.len() && (#[trigger] env.agents@[j]).age < 72
                    ==> env.agents@[j].education == 0,
            forall|j: int|
                0 <= j < env.agents@.len() && 72 <= (#[trigger] env.agents@[j]).age < 216 ==> {
                    let ramp = ((env.agents@[j].age - 72) as int
                        * config.education.elemental_education_threshold as int) / 144;
                    ramp <= env.agents@[j].education < ramp
                        + config.education.children_education_jitter
                },
            forall|j: int|
                0 <= j < env.agents@.len() && (#[trigger] env.agents@[j]).age >= 216
                    ==> config.education.initial_adult_min <= env.agents@[j].education
                    < config.education.initial_adult_max,
            forall|j: int, k: int|
                0 <= j < env.agents@.len() && 0 <= k < env.agents@[j].children@.len()
                    ==> parent_link_ok(
                    env.agents@,
                    j,
                    (#[trigger] env.agents@[j].children@[k]) as int,
                ),
            forall|c: usize|
                #![trigger spec_recorded_parents(env.agents@, c, env.agents@.len() as int)]
                spec_recorded_parents(env.agents@, c, env.agents@.len() as int) <= 2,
    {
        let mut rng = rng;
        let n = config.num_agents;
        let max_x_fix: i64 = (config.length as i64) * SCALE;
        let max_y_fix: i64 = (config.width as i64) * SCALE;
        let mut agents: Vec<Agent> = Vec::new();
        let mut id: usize = 0;
        while id < n
            invariant
                0 <= id <= n,
                agents@.len() == id,
                config.valid(),
                max_x_fix == config.length as int * SCALE as int,
                max_y_fix == config.width as int * SCALE as int,
                forall|j: int|
                    0 <= j < id ==> wf_agent(#[trigger] agents@[j], *config) && agents@[j].id == j
                        && agents@[j].alive && agents@[j].age <= AGE_CEIL,
                forall|j: int|
                    0 <= j < id ==> (#[trigger] agents@[j]).children@.len() == 0 && agents@[j].age
                        < config.age_and_death.max_start_age
                        && config.wealth.min_initial_wealth <= agents@[j].wealth
                        < config.wealth.max_initial_wealth,
                forall|j: int|
                    0 <= j < id && (#[trigger] agents@[j]).age < 72 ==> agents@[j].education == 0,
                forall|j: int|
                    0 <= j < id && 72 <= (#[trigger] agents@[j]).age < 216 ==> {
                        let ramp = ((agents@[j].age - 72) as int
                            * config.education.elemental_education_threshold as int) / 144;
                        ramp <= agents@[j].education < ramp
                            + config.education.children_education_jitter
                    },
                forall|j: int|
                    0 <= j < id && (#[trigger] agents@[j]).age >= 216
                        ==> config.education.initial_adult_min <= agents@[j].education
                        < config.education.initial_adult_max,
            decreases n - id,
        {
            let a = Agent::new(
                id,
                0,
                max_x_fix,
                0,
                max_y_fix,
                &config.age_and_death,
                &config.education,
                &config.wealth,
                &mut rng,
            );
            agents.push(a);
            id = id + 1;
        }
        let mut env = Environment {
            agents,
            iteration: 0,
            min_x: 0,
            max_x: config.length,
            min_y: 0,
            max_y: config.width,
            next_agent_id: n,
            config: *config,
            rng,
        };
        let ghost pre_wire = env.agents@;
        env.wire_ancestry();
        proof {
            assert forall|c: usize|
                #![trigger spec_recorded_parents(env.agents@, c, env.agents@.len() as int)]
                spec_recorded_parents(env.agents@, c, env.agents@.len() as int) <= 2 by {
                lemma_recorded_parents_empty(pre_wire, c, n as int);
            }
        }
        env
    }

    /// One full simulation step, in the fixed order: movement, learning,
    /// income and consumption, interactions, lifecycle, compaction; the
    /// iteration counter then increments by one. Fails with `InvalidState`
    /// exactly when the engine invariant does not hold at entry; the other
    /// errors are population exhaustion at a reproduction and exhaustion
    /// of a representable range, after which the state is partial and the
    /// run is over. On success every surviving agent is one of the agents
    /// alive at entry, aged one month under its old id, newborns carry
    /// fresh ids, and the population size equals the count of agents alive
    /// at entry.
    #[verifier::rlimit(100)]
    pub fn step(&mut self) -> (r: Result<(), StepError>)
        ensures
            r == Err::<(), StepError>(StepError::InvalidState) <==> !old(self).wf(),
            final(self).frame_eq(*old(self)),
            final(self).next_agent_id >= old(self).next_agent_id,
            r is Ok ==> final(self).wf() && final(self).iteration == old(self).iteration + 1
                && forall|j: int|
                0 <= j < final(self).agents@.len() ==> (#[trigger] final(self).agents@[j]).alive,
            r is Ok ==> final(self).agents@.len() == spec_alive_count(
                old(self).agents@,
                old(self).agents@.len() as int,
            ),
            r is Ok ==> final(self).next_agent_id == old(self).next_agent_id + spec_fresh_count(
                final(self).agents@,
                old(self).next_agent_id,
            ),
            spec_step_infallible(*old(self)) ==> r is Ok,
            r is Ok ==> forall|k: int|
                0 <= k < final(self).agents@.len() ==> ((#[trigger] final(self).agents@[k]).id
                    >= old(self).next_agent_id) || (exists|j: int|
                    0 <= j < old(self).agents@.len() && (#[trigger] old(self).agents@[j]).alive
                        && old(self).agents@[j].id == final(self).agents@[k].id && final(self).agents@[k].age == old(self).agents@[j].age + 1 && ((old(self).agents@[j].age + 1
                        < ADULT_AGE && (forall|d: int|
                        0 <= d < old(self).agents@.len() && (#[trigger] old(self).agents@[d]).alive
                            && (forall|k2: int|
                            0 <= k2 < final(self).agents@.len() ==> (#[trigger] final(self).agents@[k2]).id != old(self).agents@[d].id)
                            ==> !old(self).agents@[d].children@.contains(old(self).agents@[j].id))) ==> final(self).agents@[k].wealth
                        == old(self).agents@[j].wealth)),
    {
        if !self.check_wf() {
            return Err(StepError::InvalidState);
        }
        if self.iteration == usize::MAX {
            return Err(StepError::RangeExhausted);
        }
        let ghost n0 = old(self).agents@.len() as int;
        self.movement_phase();
        let ghost s_moved = self.agents@;
        self.learning_phase();
        let ghost s_learned = self.agents@;
        proof {
            if spec_step_infallible(*old(self)) {
                assert forall|j: int|
                    0 <= j < n0 && (#[trigger] self.agents@[j]).alive && self.agents@[j].age
                        >= ADULT_AGE implies self.agents@[j].age <= AGE_CEIL && i64::MIN
                    <= spec_wealth_after_income(
                    self.agents@[j].wealth as int,
                    self.agents@[j].education as int,
                    self.agents@[j].age as int,
                    self.config.income_and_consumption,
                ) <= i64::MAX by {
                    assert(moved_only(old(self).agents@[j], s_moved[j]));
                    assert(learned_only(s_moved[j], self.agents@[j]));
                    assert(old(self).agents@[j].alive && old(self).agents@[j].age >= ADULT_AGE);
                    assert(old(self).agents@[j].education <= self.agents@[j].education);
                    assert(self.agents@[j].education <= self.config.education.max);
                }
            }
        }
        match self.income_phase() {
            Ok(()) => {},
            Err(e) => {
                return Err(e);
            },
        }
        let ghost s_income = self.agents@;
        proof {
            if spec_step_infallible(*old(self)) {
                assert forall|j: int|
                    0 <= j < n0 implies (#[trigger] self.agents@[j]).x == old(self).agents@[j].x
                        && self.agents@[j].y == old(self).agents@[j].y && self.agents@[j].alive
                        == old(self).agents@[j].alive && self.agents@[j].age == old(self).agents@[j].age by {
                    assert(s_moved[j] == old(self).agents@[j]);
                    assert(learned_only(s_moved[j], s_learned[j]));
                    assert(wealth_only(s_learned[j], self.agents@[j]));
                }
                assert(spec_adult_ages_ok(self.agents@)) by {
                    assert forall|j: int|
                        0 <= j < self.agents@.len() && (#[trigger] self.agents@[j]).alive
                            && self.agents@[j].age >= ADULT_AGE implies self.agents@[j].age
                        <= AGE_CEIL by {
                        assert(old(self).agents@[j].alive && old(self).agents@[j].age
                            >= ADULT_AGE);
                    }
                }
                assert(spec_all_pairs_distant(
                    self.agents@,
                    self.config.interaction_radius as int,
                )) by {
                    assert forall|a: int, b: int|
                        0 <= a < b < self.agents@.len() && self.agents@[a].alive
                            && self.agents@[a].age >= ADULT_AGE && self.agents@[b].alive
                            && self.agents@[b].age >= ADULT_AGE implies #[trigger] spec_dist2(
                        self.agents@[a],
                        self.agents@[b],
                    ) >= self.config.interaction_radius as int
                        * self.config.interaction_radius as int by {
                        assert(old(self).agents@[a].alive && old(self).agents@[a].age
                            >= ADULT_AGE);
                        assert(old(self).agents@[b].alive && old(self).agents@[b].age
                            >= ADULT_AGE);
                        assert(spec_dist2(old(self).agents@[a], old(self).agents@[b]) >= old(self).config.interaction_radius as int * old(self).config.interaction_radius as int);
                        assert(spec_dist2(self.agents@[a], self.agents@[b]) == spec_dist2(
                            old(self).agents@[a],
                            old(self).agents@[b],
                        ));
                    }
                }
            }
        }
        match self.handle_interactions() {
            Ok(()) => {},
            Err(e) => {
                return Err(e);
            },
        }
        let ghost s_pre_life = self.agents@;
        proof {
            assert forall|j: int|
                0 <= j < n0 implies (#[trigger] s_pre_life[j]).alive == old(self).agents@[j].alive
                    && s_pre_life[j].age == old(self).agents@[j].age && s_pre_life[j].id == old(self).agents@[j].id && s_pre_life[j].steepness == old(self).agents@[j].steepness
                    && s_pre_life[j].mid_age == old(self).agents@[j].mid_age by {
                assert(moved_only(old(self).agents@[j], s_moved[j]));
                assert(learned_only(s_moved[j], s_learned[j]));
                assert(wealth_only(s_learned[j], s_income[j]));
                assert(wealth_only(s_income[j], s_pre_life[j]));
            }
            if spec_step_infallible(*old(self)) {
                assert(spec_no_death_possible(self.agents@)) by {
                    assert forall|j: int|
                        0 <= j < self.agents@.len() && (#[trigger] self.agents@[j]).alive implies self.agents@[j].age
                        + 1 < AGE_CEIL && self.agents@[j].steepness * (self.agents@[j].age + 1
                        - self.agents@[j].mid_age) <= -EXP_SAT by {
                        assert(old(self).agents@[j].alive);
                    }
                }
            }
        }
        match self.update_agents() {
            Ok(()) => {},
            Err(e) => {
                return Err(e);
            },
        }
        let ghost before_compact = self.agents@;
        self.compact();
        proof {
            let pred = |a: Agent| a.alive;
            assert forall|j: int| 0 <= j < self.agents@.len() implies (
            #[trigger] self.agents@[j]).alive by {
                before_compact.lemma_filter_pred(pred, j);
            }
            lemma_alive_count_stable(old(self).agents@, s_pre_life, n0);
            assert forall|j: int|
                0 <= j < n0 implies ((#[trigger] before_compact[j]).alive
                    ==> s_pre_life[j].alive) by {}
            lemma_alive_count_after_deaths(s_pre_life, before_compact, n0);
            lemma_alive_count_extend_alive(before_compact, n0, before_compact.len() as int);
            lemma_alive_count_is_filter_len(before_compact);
            assert(self.agents@.len() == spec_alive_count(old(self).agents@, n0));
            assert forall|j: int|
                0 <= j < n0 implies (#[trigger] before_compact[j]).id < old(self).next_agent_id by {
                assert(before_compact[j].id == s_pre_life[j].id);
                assert(old(self).wf());
            }
            lemma_fresh_count_split(before_compact, old(self).next_agent_id, n0);
            assert forall|j: int|
                0 <= j < before_compact.len() && (#[trigger] before_compact[j]).id >= old(self).next_agent_id implies before_compact[j].alive by {}
            lemma_fresh_count_filter(before_compact, old(self).next_agent_id);
            assert(self.next_agent_id == old(self).next_agent_id + spec_fresh_count(
                self.agents@,
                old(self).next_agent_id,
            ));
            assert forall|k: int|
                0 <= k < self.agents@.len() implies ((#[trigger] self.agents@[k]).id >= old(self).next_agent_id)
                    || (exists|j: int|
                    0 <= j < n0 && (#[trigger] old(self).agents@[j]).alive && old(self).agents@[j].id == self.agents@[k].id && self.agents@[k].age == old(self).agents@[j].age
                        + 1 && ((old(self).agents@[j].age + 1 < ADULT_AGE && (forall|d: int|
                        0 <= d < n0 && (#[trigger] old(self).agents@[d]).alive && (forall|k2: int|
                            0 <= k2 < self.agents@.len() ==> (#[trigger] self.agents@[k2]).id
                                != old(self).agents@[d].id) ==> !old(self).agents@[d].children@.contains(
                            old(self).agents@[j].id,
                        ))) ==> self.agents@[k].wealth == old(self).agents@[j].wealth)) by {
                lemma_filter_elem(before_compact, pred, k);
                let j = choose|j: int|
                    0 <= j < before_compact.len() && before_compact[j] == self.agents@[k];
                if j < n0 {
                    assert(before_compact[j].alive);
                    assert(s_pre_life[j].alive);
                    assert(old(self).agents@[j].alive);
                    assert(before_compact[j].id == s_pre_life[j].id);
                    assert(before_compact[j].age == s_pre_life[j].age + 1);
                    if old(self).agents@[j].age + 1 < ADULT_AGE && (forall|d: int|
                        0 <= d < n0 && (#[trigger] old(self).agents@[d]).alive && (forall|k2: int|
                            0 <= k2 < self.agents@.len() ==> (#[trigger] self.agents@[k2]).id
                                != old(self).agents@[d].id) ==> !old(self).agents@[d].children@.contains(
                            old(self).agents@[j].id,
                        )) {
                        assert(s_pre_life[j].wealth == old(self).agents@[j].wealth) by {
                            assert(moved_only(old(self).agents@[j], s_moved[j]));
                            assert(learned_only(s_moved[j], s_learned[j]));
                            assert(s_income[j] == s_learned[j]);
                            assert(s_pre_life[j] == s_income[j]);
                        }
                        assert(before_compact[j].wealth == s_pre_life[j].wealth) by {
                            if before_compact[j].wealth != s_pre_life[j].wealth {
                                assert((s_pre_life[j].alive && !before_compact[j].alive) || (
                                s_pre_life[j].alive && 240 <= s_pre_life[j].age < 720) || (exists|
                                    d: int,
                                |
                                    0 <= d < n0 && (#[trigger] s_pre_life[d]).alive
                                        && !before_compact[d].alive && s_pre_life[d].children@.contains(
                                        s_pre_life[j].id,
                                    )));
                                if exists|d: int|
                                    0 <= d < n0 && (#[trigger] s_pre_life[d]).alive
                                        && !before_compact[d].alive && s_pre_life[d].children@.contains(
                                        s_pre_life[j].id,
                                    ) {
                                    let d = choose|d: int|
                                        0 <= d < n0 && (#[trigger] s_pre_life[d]).alive
                                            && !before_compact[d].alive && s_pre_life[d].children@.contains(
                                            s_pre_life[j].id,
                                        );
                                    assert(moved_only(old(self).agents@[d], s_moved[d]));
                                    assert(learned_only(s_moved[d], s_learned[d]));
                                    assert(wealth_only(s_learned[d], s_income[d]));
                                    assert(wealth_only(s_income[d], s_pre_life[d]));
                                    assert(s_pre_life[d].children@ == old(self).agents@[d].children@);
                                    assert(old(self).agents@[d].alive);
                                    assert(before_compact[d].id == old(self).agents@[d].id);
                                    assert forall|k2: int|
                                        0 <= k2 < self.agents@.len() implies (
                                    #[trigger] self.agents@[k2]).id != old(self).agents@[d].id by {
                                        lemma_filter_elem(before_compact, pred, k2);
                                        let j2 = choose|j2: int|
                                            0 <= j2 < before_compact.len() && before_compact[j2]
                                                == self.agents@[k2];
                                        assert(before_compact[j2].alive);
                                        if j2 != d {
                                            assert(before_compact[j2].id != before_compact[d].id);
                                        }
                                    }
                                    assert(false);
                                }
                                assert(false);
                            }
                        }
                    }
                } else {
                    assert(before_compact[j].id >= old(self).next_agent_id);
                }
            }
        }
        self.iteration = self.iteration + 1;
        Ok(())
    }

    /// The spatial bounds, as `(min_x, max_x, min_y, max_y)`.
    pub fn bounds(&self) -> (r: (usize, usize, usize, usize))
        ensures
            r == (self.min_x, self.max_x, self.min_y, self.max_y),
    {
        (self.min_x, self.max_x, self.min_y, self.max_y)
    }

    /// The configuration of this run.
    pub fn config(&self) -> (c: EnvironmentConfig)
        ensures
            c == self.config,
    {
        self.config
    }

    /// Decides the winner of a pair: the chance that the first agent wins
    /// is its score over the summed scores, decided by [`first_wins`] on
    /// one drawn fraction (an even chance when both scores are zero).
    /// Returns `(winner, loser)` indices.
    fn decide_transaction_by_id(&mut self, a_id: usize, b_id: usize) -> (wl: (usize, usize))
        requires
            old(self).wf(),
            a_id < old(self).agents@.len(),
            b_id < old(self).agents@.len(),
            old(self).agents@[a_id as int].age <= AGE_CEIL,
            old(self).agents@[b_id as int].age <= AGE_CEIL,
        ensures
            *final(self) == (Environment { rng: final(self).rng, ..*old(self) }),
            (wl.0 == a_id && wl.1 == b_id) || (wl.0 == b_id && wl.1 == a_id),
            exists|draw: int|
                0 <= draw < SCALE && wl == (if #[trigger] spec_first_wins(
                    draw,
                    spec_income(
                        old(self).agents@[a_id as int].education as int,
                        old(self).agents@[a_id as int].age as int,
                        old(self).config.transaction.education_parameter as int,
                        old(self).config.transaction.age_parameter as int,
                    ),
                    spec_income(
                        old(self).agents@[b_id as int].education as int,
                        old(self).agents@[b_id as int].age as int,
                        old(self).config.transaction.education_parameter as int,
                        old(self).config.transaction.age_parameter as int,
                    ),
                ) {
                    (a_id, b_id)
                } else {
                    (b_id, a_id)
                }),
    {
        let edu_param = self.config.transaction.education_parameter;
        let age_param = self.config.transaction.age_parameter;
        let sa = self.agents[a_id].income(edu_param, age_param);
        let sb = self.agents[b_id].income(edu_param, age_param);
        let draw = self.rng.fraction();
        let a_wins = first_wins(draw, sa, sb);
        let wl = if a_wins {
            (a_id, b_id)
        } else {
            (b_id, a_id)
        };
        proof {
            let d = draw as int;
            assert(0 <= d < SCALE && wl == (if spec_first_wins(
                d,
                spec_income(
                    old(self).agents@[a_id as int].education as int,
                    old(self).agents@[a_id as int].age as int,
                    old(self).config.transaction.education_parameter as int,
                    old(self).config.transaction.age_parameter as int,
                ),
                spec_income(
                    old(self).agents@[b_id as int].education as int,
                    old(self).agents@[b_id as int].age as int,
                    old(self).config.transaction.education_parameter as int,
                    old(self).config.transaction.age_parameter as int,
                ),
            ) {
                (a_id, b_id)
            } else {
                (b_id, a_id)
            }));
        }
        wl
    }

    /// Interactions: every living adult is eligible with the configured
    /// probability, drawn once per agent; every eligible unordered pair
    /// closer than the interaction radius resolves exactly one transaction,
    /// processed sequentially in ascending index order. Only wealth
    /// changes; agents not both alive and adult are untouched.
    pub fn handle_interactions(&mut self) -> (r: Result<(), StepError>)
        requires
            old(self).wf(),
        ensures
            final(self).wf(),
            final(self).frame_eq(*old(self)),
            final(self).iteration == old(self).iteration,
            final(self).next_agent_id == old(self).next_agent_id,
            final(self).agents@.len() == old(self).agents@.len(),
            forall|j: int|
                0 <= j < old(self).agents@.len() ==> wealth_only(
                    old(self).agents@[j],
                    #[trigger] final(self).agents@[j],
                ),
            forall|j: int|
                0 <= j < old(self).agents@.len() && !(old(self).agents@[j].alive && old(self).agents@[j].age >= ADULT_AGE) ==> final(self).agents@[j] == old(self).agents@[j],
            r is Err ==> r == Err::<(), StepError>(StepError::RangeExhausted),
            spec_all_pairs_distant(
                old(self).agents@,
                old(self).config.interaction_radius as int,
            ) ==> final(self).agents == old(self).agents,
            forall|j: int|
                0 <= j < old(self).agents@.len() && (#[trigger] old(self).agents@[j]).alive && old(self).agents@[j].age >= ADULT_AGE && spec_isolated(
                    old(self).agents@,
                    j,
                    old(self).config.interaction_radius as int,
                ) ==> final(self).agents@[j] == old(self).agents@[j],
            (spec_all_pairs_distant(
                old(self).agents@,
                old(self).config.interaction_radius as int,
            ) && spec_adult_ages_ok(old(self).agents@)) ==> r is Ok,
            (forall|j: int|
                0 <= j < old(self).agents@.len() ==> (#[trigger] old(self).agents@[j]).wealth
                    >= 0) ==> ((forall|j: int|
                0 <= j < final(self).agents@.len() ==> (#[trigger] final(self).agents@[j]).wealth
                    >= 0) && spec_wealth_sum(final(self).agents@) <= spec_wealth_sum(
                old(self).agents@,
            )),
            old(self).config.transaction.tax_rate == 0 ==> spec_wealth_sum(final(self).agents@)
                == spec_wealth_sum(old(self).agents@),
    {
        let n = self.agents.len();
        let prob = self.config.transaction.transaction_probability;
        let mut eligible: Vec<usize> = Vec::new();
        let mut i: usize = 0;
        while i < n
            invariant
                0 <= i <= n,
                n == self.agents@.len(),
                self.agents == old(self).agents,
                self.wf(),
                self.frame_eq(*old(self)),
                self.iteration == old(self).iteration,
                self.next_agent_id == old(self).next_agent_id,
                prob == self.config.transaction.transaction_probability,
                forall|m: int| 0 <= m < eligible@.len() ==> (#[trigger] eligible@[m]) < i,
                forall|m1: int, m2: int|
                    0 <= m1 < m2 < eligible@.len() ==> eligible@[m1] < eligible@[m2],
                forall|m: int|
                    0 <= m < eligible@.len() ==> {
                        let a = self.agents@[#[trigger] eligible@[m] as int];
                        a.alive && a.age >= ADULT_AGE && a.age <= AGE_CEIL
                    },
            decreases n - i,
        {
            if self.agents[i].alive && self.agents[i].is_adult() {
                if self.agents[i].age > AGE_CEIL {
                    proof {
                        assert(old(self).agents@[i as int].alive && old(self).agents@[i
                            as int].age >= ADULT_AGE && old(self).agents@[i as int].age
                            > AGE_CEIL);
                    }
                    return Err(StepError::RangeExhausted);
                }
                let draw = self.rng.fraction();
                if draw < prob {
                    eligible.push(i);
                }
            }
            i = i + 1;
        }
        let k = eligible.len();
        let radius = self.config.interaction_radius;
        proof {
            lemma_abs_mul_le(radius as int, radius as int, 2 * FIX_LIMIT as int, 2 * FIX_LIMIT as int);
        }
        let rad2: i128 = (radius as i128) * (radius as i128);
        let amount_rate = self.config.transaction.amount_rate;
        let tax_rate = self.config.transaction.tax_rate;
        let mut pi: usize = 0;
        while pi < k
            invariant
                0 <= pi <= k,
                k == eligible@.len(),
                n == self.agents@.len(),
                n == old(self).agents@.len(),
                self.wf(),
                self.frame_eq(*old(self)),
                self.iteration == old(self).iteration,
                self.next_agent_id == old(self).next_agent_id,
                0 <= amount_rate <= SCALE,
                0 <= tax_rate <= SCALE,
                forall|m: int| 0 <= m < k ==> (#[trigger] eligible@[m]) < n,
                forall|m1: int, m2: int| 0 <= m1 < m2 < k ==> eligible@[m1] < eligible@[m2],
                forall|m: int|
                    0 <= m < k ==> {
                        let a = self.agents@[#[trigger] eligible@[m] as int];
                        a.alive && a.age >= ADULT_AGE && a.age <= AGE_CEIL
                    },
                forall|j: int|
                    0 <= j < n ==> wealth_only(old(self).agents@[j], #[trigger] self.agents@[j]),
                forall|j: int|
                    0 <= j < n && !(old(self).agents@[j].alive && old(self).agents@[j].age
                        >= ADULT_AGE) ==> self.agents@[j] == old(self).agents@[j],
                rad2 as int == old(self).config.interaction_radius as int * old(self).config.interaction_radius as int,
                tax_rate == old(self).config.transaction.tax_rate,
                spec_all_pairs_distant(
                    old(self).agents@,
                    old(self).config.interaction_radius as int,
                ) ==> self.agents == old(self).agents,
                tax_rate == 0 ==> spec_wealth_sum(self.agents@) == spec_wealth_sum(
                    old(self).agents@,
                ),
                forall|j: int|
                    0 <= j < n && (#[trigger] old(self).agents@[j]).alive && old(self).agents@[j].age >= ADULT_AGE && spec_isolated(
                        old(self).agents@,
                        j,
                        old(self).config.interaction_radius as int,
                    ) ==> self.agents@[j] == old(self).agents@[j],
                (forall|j: int|
                    0 <= j < n ==> (#[trigger] old(self).agents@[j]).wealth >= 0) ==> ((forall|
                    j: int,
                |
                    0 <= j < n ==> (#[trigger] self.agents@[j]).wealth >= 0)
                    && spec_wealth_sum(self.agents@) <= spec_wealth_sum(old(self).agents@)),
            decreases k - pi,
        {
            let mut pj: usize = pi + 1;
            while pj < k
                invariant
                    0 <= pi < pj <= k,
                    k == eligible@.len(),
                    n == self.agents@.len(),
                    n == old(self).agents@.len(),
                    self.wf(),
                    self.frame_eq(*old(self)),
                    self.iteration == old(self).iteration,
                    self.next_agent_id == old(self).next_agent_id,
                    0 <= amount_rate <= SCALE,
                    0 <= tax_rate <= SCALE,
                    forall|m: int| 0 <= m < k ==> (#[trigger] eligible@[m]) < n,
                    forall|m1: int, m2: int| 0 <= m1 < m2 < k ==> eligible@[m1] < eligible@[m2],
                    forall|m: int|
                        0 <= m < k ==> {
                            let a = self.agents@[#[trigger] eligible@[m] as int];
                            a.alive && a.age >= ADULT_AGE && a.age <= AGE_CEIL
                        },
                    forall|j: int|
                        0 <= j < n ==> wealth_only(
                            old(self).agents@[j],
                            #[trigger] self.agents@[j],
                        ),
                    forall|j: int|
                        0 <= j < n && !(old(self).agents@[j].alive && old(self).agents@[j].age
                            >= ADULT_AGE) ==> self.agents@[j] == old(self).agents@[j],
                    rad2 as int == old(self).config.interaction_radius as int * old(self).config.interaction_radius as int,
                    tax_rate == old(self).config.transaction.tax_rate,
                    spec_all_pairs_distant(
                        old(self).agents@,
                        old(self).config.interaction_radius as int,
                    ) ==> self.agents == old(self).agents,
                    tax_rate == 0 ==> spec_wealth_sum(self.agents@) == spec_wealth_sum(
                        old(self).agents@,
                    ),
                    forall|j: int|
                        0 <= j < n && (#[trigger] old(self).agents@[j]).alive && old(self).agents@[j].age >= ADULT_AGE && spec_isolated(
                            old(self).agents@,
                            j,
                            old(self).config.interaction_radius as int,
                        ) ==> self.agents@[j] == old(self).agents@[j],
                    (forall|j: int|
                        0 <= j < n ==> (#[trigger] old(self).agents@[j]).wealth >= 0) ==> ((forall|
                        j: int,
                    |
                        0 <= j < n ==> (#[trigger] self.agents@[j]).wealth >= 0)
                        && spec_wealth_sum(self.agents@) <= spec_wealth_sum(old(self).agents@)),
                decreases k - pj,
            {
                let ia = eligible[pi];
                let jb = eligible[pj];
                let ax = self.agents[ia].x;
                let ay = self.agents[ia].y;
                let bx = self.agents[jb].x;
                let by_ = self.agents[jb].y;
                let dx = ax - bx;
                let dy = ay - by_;
                proof {
                    lemma_abs_mul_le(dx as int, dx as int, FIX_LIMIT as int, FIX_LIMIT as int);
                    lemma_abs_mul_le(dy as int, dy as int, FIX_LIMIT as int, FIX_LIMIT as int);
                }
                let d2: i128 = (dx as i128) * (dx as i128) + (dy as i128) * (dy as i128);
                if d2 < rad2 {
                    proof {
                        let rad_int = old(self).config.interaction_radius as int;
                        let aa = old(self).agents@[ia as int];
                        let bb = old(self).agents@[jb as int];
                        assert(spec_dist2(aa, bb) == d2 as int);
                        assert((bb.x - aa.x) * (bb.x - aa.x) == (aa.x - bb.x) * (aa.x - bb.x))
                            by (nonlinear_arith);
                        assert((bb.y - aa.y) * (bb.y - aa.y) == (aa.y - bb.y) * (aa.y - bb.y))
                            by (nonlinear_arith);
                        assert(spec_dist2(bb, aa) == d2 as int);
                        assert(!spec_isolated(old(self).agents@, ia as int, rad_int)) by {
                            if spec_isolated(old(self).agents@, ia as int, rad_int) {
                                assert(old(self).agents@[jb as int].alive);
                                assert(spec_dist2(
                                    old(self).agents@[ia as int],
                                    old(self).agents@[jb as int],
                                ) >= rad_int * rad_int);
                            }
                        }
                        assert(!spec_isolated(old(self).agents@, jb as int, rad_int)) by {
                            if spec_isolated(old(self).agents@, jb as int, rad_int) {
                                assert(old(self).agents@[ia as int].alive);
                                assert(spec_dist2(
                                    old(self).agents@[jb as int],
                                    old(self).agents@[ia as int],
                                ) >= rad_int * rad_int);
                            }
                        }
                        if spec_all_pairs_distant(
                            old(self).agents@,
                            old(self).config.interaction_radius as int,
                        ) {
                            assert(ia < jb);
                            assert(spec_dist2(
                                old(self).agents@[ia as int],
                                old(self).agents@[jb as int],
                            ) >= old(self).config.interaction_radius as int * old(self).config.interaction_radius as int);
                            assert(d2 as int == spec_dist2(
                                old(self).agents@[ia as int],
                                old(self).agents@[jb as int],
                            ));
                            assert(false);
                        }
                    }
                    let (w_idx, l_idx) = self.decide_transaction_by_id(ia, jb);
                    let ww = self.agents[w_idx].wealth;
                    let lw = self.agents[l_idx].wealth;
                    let ghost pre_pair = self.agents@;
                    match transact(ww, lw, amount_rate, tax_rate) {
                        Ok(updated) => {
                            let a = agent_at_mut(&mut self.agents, w_idx);
                            a.wealth = updated.0;
                            let b = agent_at_mut(&mut self.agents, l_idx);
                            b.wealth = updated.1;
                            proof {
                                let wa = Agent { wealth: updated.0, ..pre_pair[w_idx as int] };
                                let mid_seq = pre_pair.update(w_idx as int, wa);
                                let wb = Agent { wealth: updated.1, ..pre_pair[l_idx as int] };
                                lemma_wealth_sum_update(pre_pair, w_idx as int, wa);
                                lemma_wealth_sum_update(mid_seq, l_idx as int, wb);
                                assert(self.agents@ =~= mid_seq.update(l_idx as int, wb));
                                if tax_rate == 0 {
                                    assert(spec_transfer_amount(ww as int, lw as int, amount_rate as int) * 0 == 0) by (nonlinear_arith);
                                    assert(spec_tax_cut(ww as int, lw as int, amount_rate as int, 0) == 0);
                                }
                                if forall|j2: int|
                                    0 <= j2 < n ==> (#[trigger] old(self).agents@[j2]).wealth
                                        >= 0 {
                                    let base = if ww < lw {
                                        ww as int
                                    } else {
                                        lw as int
                                    };
                                    let amount = spec_transfer_amount(
                                        ww as int,
                                        lw as int,
                                        amount_rate as int,
                                    );
                                    let cut = spec_tax_cut(
                                        ww as int,
                                        lw as int,
                                        amount_rate as int,
                                        tax_rate as int,
                                    );
                                    assert(ww >= 0 && lw >= 0);
                                    assert(0 <= base * amount_rate as int <= base * SCALE as int)
                                        by (nonlinear_arith)
                                        requires
                                            0 <= base,
                                            0 <= amount_rate as int <= SCALE as int,
                                    ;
                                    assert(0 <= (base * amount_rate as int) / (SCALE as int)
                                        <= base) by (nonlinear_arith)
                                        requires
                                            0 <= base * amount_rate as int <= base
                                                * SCALE as int,
                                            SCALE as int > 0,
                                            0 <= base,
                                    ;
                                    assert(0 <= amount <= base);
                                    assert(0 <= amount * tax_rate as int <= amount
                                        * SCALE as int) by (nonlinear_arith)
                                        requires
                                            0 <= amount,
                                            0 <= tax_rate as int <= SCALE as int,
                                    ;
                                    assert(0 <= (amount * tax_rate as int) / (SCALE as int)
                                        <= amount) by (nonlinear_arith)
                                        requires
                                            0 <= amount * tax_rate as int <= amount
                                                * SCALE as int,
                                            SCALE as int > 0,
                                            0 <= amount,
                                    ;
                                    assert(0 <= cut <= amount);
                                    assert(updated.0 >= 0 && updated.1 >= 0);
                                }
                            }
                        },
                        Err(err) => {
                            return Err(err);
                        },
                    }
                }
                pj = pj + 1;
            }
            pi = pi + 1;
        }
        Ok(())
    }
}

/// Every element of a filtered sequence stands somewhere in the unfiltered sequence.
proof fn lemma_filter_elem<A>(s: Seq<A>, pred: spec_fn(A) -> bool, i: int)
    requires
        0 <= i < s.filter(pred).len(),
    ensures
        exists|j: int| 0 <= j < s.len() && s[j] == s.filter(pred)[i],
    decreases s.len(),
{
    reveal(Seq::filter);
    let sub = s.drop_last().filter(pred);
    if i < sub.len() {
        lemma_filter_elem(s.drop_last(), pred, i);
        let j = choose|j: int| 0 <= j < s.drop_last().len() && s.drop_last()[j] == sub[i];
        assert(s[j] == s.filter(pred)[i]);
    } else {
        assert(s.filter(pred)[i] == s.last());
        assert(s[s.len() - 1] == s.filter(pred)[i]);
    }
}

/// Filtering a sequence of agents with pairwise-distinct ids leaves the
/// ids pairwise distinct.
proof fn lemma_filter_unique_ids(s: Seq<Agent>, pred: spec_fn(Agent) -> bool)
    requires
        forall|p: int, q: int| 0 <= p < q < s.len() ==> s[p].id != s[q].id,
    ensures
        forall|p: int, q: int|
            0 <= p < q < s.filter(pred).len() ==> s.filter(pred)[p].id != s.filter(pred)[q].id,
    decreases s.len(),
{
    reveal(Seq::filter);
    if s.len() > 0 {
        let sub = s.drop_last().filter(pred);
        lemma_filter_unique_ids(s.drop_last(), pred);
        assert forall|p: int, q: int|
            0 <= p < q < s.filter(pred).len() implies s.filter(pred)[p].id != s.filter(
            pred,
        )[q].id by {
            if q < sub.len() {
            } else {
                assert(s.filter(pred)[q] == s.last());
                lemma_filter_elem(s.drop_last(), pred, p);
                let j = choose|j: int|
                    0 <= j < s.drop_last().len() && s.drop_last()[j] == s.filter(pred)[p];
                assert(s[j] == s.filter(pred)[p]);
                assert(s[j].id != s[s.len() - 1].id);
            }
        }
    }
}

/// Filtering distributes over appending one element.
pub(crate) proof fn lemma_filter_push<A>(s: Seq<A>, x: A, pred: spec_fn(A) -> bool)
    ensures
        s.push(x).filter(pred) == if pred(x) {
            s.filter(pred).push(x)
        } else {
            s.filter(pred)
        },
{
    reveal(Seq::filter);
    assert(s.push(x).drop_last() =~= s);
    assert(s.push(x).last() == x);
}

/// Whether an agent can be selected as a parent: alive and strictly
/// between 20 and 60 years of age.
pub open spec fn reproductive_pred() -> spec_fn(Agent) -> bool {
    |a: Agent| a.alive && 240 < a.age < 720
}

/// How many agents are eligible to be selected as parents.
pub open spec fn spec_eligible_parent_count(s: Seq<Agent>) -> nat {
    s.filter(reproductive_pred()).len()
}

/// Whether the first agent of a pair wins for a given drawn fraction:
/// the comparison `draw < score_a / (score_a + score_b)` decided exactly
/// over the integers without a division, and an even chance when both
/// scores are zero.
pub open spec fn spec_first_wins(draw: int, score_a: int, score_b: int) -> bool {
    if score_a + score_b == 0 {
        2 * draw < SCALE as int
    } else {
        draw * (score_a + score_b) < score_a * SCALE as int
    }
}

/// Decides the winner comparison for one drawn fraction; exactly the
/// spec.
pub fn first_wins(draw: i64, score_a: i64, score_b: i64) -> (r: bool)
    requires
        0 <= draw < SCALE,
        0 <= score_a <= 2_000_000_000_000_000_000,
        0 <= score_b <= 2_000_000_000_000_000_000,
    ensures
        r == spec_first_wins(draw as int, score_a as int, score_b as int),
{
    let sum = score_a + score_b;
    if sum == 0 {
        2 * draw < SCALE
    } else {
        proof {
            lemma_abs_mul_le(draw as int, sum as int, SCALE as int, 4_000_000_000_000_000_000);
            lemma_abs_mul_le(score_a as int, SCALE as int, 2_000_000_000_000_000_000, SCALE as int);
        }
        (draw as i128) * (sum as i128) < (score_a as i128) * (SCALE as i128)
    }
}

/// Appending an id to a list leaves membership of every other id as it
/// was.
proof fn lemma_push_contains(s: Seq<usize>, x: usize, c: usize)
    ensures
        c != x ==> (s.push(x).contains(c) == s.contains(c)),
        s.push(x).contains(x),
{
    assert(s.push(x)[s.len() as int] == x);
    if c != x {
        if s.push(x).contains(c) {
            let w = choose|w: int| 0 <= w < s.push(x).len() && s.push(x)[w] == c;
            assert(w < s.len());
            assert(s[w] == c);
        }
        if s.contains(c) {
            let w = choose|w: int| 0 <= w < s.len() && s[w] == c;
            assert(s.push(x)[w] == c);
        }
    }
}

/// How many of the first `k` agents record `c` among their children.
pub open spec fn spec_recorded_parents(s: Seq<Agent>, c: usize, k: int) -> int
    decreases k,
{
    if k <= 0 {
        0
    } else {
        spec_recorded_parents(s, c, k - 1) + if s[k - 1].children@.contains(c) {
            1int
        } else {
            0int
        }
    }
}

/// Appending one child id to one agent's children changes the recorded
/// parent count only for that id, and by at most one.
proof fn lemma_recorded_parents_push(s: Seq<Agent>, p: int, a2: Agent, x: usize, c: usize, k: int)
    requires
        0 <= p < s.len(),
        k <= s.len(),
        a2.children@ == s[p].children@.push(x),
    ensures
        c != x ==> spec_recorded_parents(s.update(p, a2), c, k) == spec_recorded_parents(s, c, k),
        c == x && p >= k ==> spec_recorded_parents(s.update(p, a2), c, k) == spec_recorded_parents(
            s,
            c,
            k,
        ),
        c == x && p < k ==> spec_recorded_parents(s.update(p, a2), c, k) == spec_recorded_parents(
            s,
            c,
            k,
        ) + (if s[p].children@.contains(x) {
            0int
        } else {
            1int
        }),
    decreases k,
{
    lemma_push_contains(s[p].children@, x, c);
    if k > 0 {
        lemma_recorded_parents_push(s, p, a2, x, c, k - 1);
        let t = s.update(p, a2);
        if p == k - 1 {
            assert(t[k - 1] == a2);
        } else {
            assert(t[k - 1] == s[k - 1]);
        }
    }
}

/// A population whose children lists are all empty records no parents.
proof fn lemma_recorded_parents_empty(s: Seq<Agent>, c: usize, k: int)
    requires
        forall|j: int| 0 <= j < k ==> (#[trigger] s[j]).children@.len() == 0,
    ensures
        spec_recorded_parents(s, c, k) == 0,
    decreases k,
{
    if k > 0 {
        lemma_recorded_parents_empty(s, c, k - 1);
        assert(!s[k - 1].children@.contains(c)) by {
            if s[k - 1].children@.contains(c) {
                let w = choose|w: int|
                    0 <= w < s[k - 1].children@.len() && #[trigger] s[k - 1].children@[w] == c;
            }
        }
    }
}

/// A recorded parent-child link between two distinct agents: the parent
/// is between 18 and 45 years older than the child.
pub open spec fn parent_link_ok(s: Seq<Agent>, parent: int, child: int) -> bool {
    &&& 0 <= parent < s.len()
    &&& 0 <= child < s.len()
    &&& parent != child
    &&& s[child].age + 216 <= s[parent].age < s[child].age + 540
}

/// A chain of recorded parent-child links descends by at least 18 years
/// of age from its first agent to its last.
pub proof fn lemma_links_descend(s: Seq<Agent>, path: Seq<int>)
    requires
        path.len() >= 2,
        forall|t: int|
            0 <= t < path.len() - 1 ==> parent_link_ok(s, #[trigger] path[t], path[t + 1]),
    ensures
        s[path[path.len() - 1]].age + 216 <= s[path[0]].age,
    decreases path.len(),
{
    assert(parent_link_ok(s, path[0], path[1]));
    if path.len() > 2 {
        let rest = path.drop_first();
        assert forall|t: int|
            0 <= t < rest.len() - 1 implies parent_link_ok(s, #[trigger] rest[t], rest[t + 1]) by {
            assert(rest[t] == path[t + 1]);
            assert(rest[t + 1] == path[t + 2]);
            assert(parent_link_ok(s, path[t + 1], path[t + 2]));
        }
        lemma_links_descend(s, rest);
        assert(rest[rest.len() - 1] == path[path.len() - 1]);
        assert(rest[0] == path[1]);
    }
}

/// No agent is its own ancestor: a chain of recorded parent-child links
/// never returns to its start, since every link strictly descends in age.
/// The ancestry wiring establishes the link property once, at
/// initialization.
pub proof fn lemma_links_are_acyclic(s: Seq<Agent>, path: Seq<int>)
    requires
        path.len() >= 2,
        forall|t: int|
            0 <= t < path.len() - 1 ==> parent_link_ok(s, #[trigger] path[t], path[t + 1]),
    ensures
        path[0] != path[path.len() - 1],
{
    lemma_links_descend(s, path);
}

/// No living agent can die in the coming lifecycle pass: the next aging
/// step stays under the age cap and the death curve sits at or below its
/// negative saturation.
pub open spec fn spec_no_death_possible(s: Seq<Agent>) -> bool {
    forall|j: int|
        0 <= j < s.len() && (#[trigger] s[j]).alive ==> s[j].age + 1 < AGE_CEIL
            && s[j].steepness * (s[j].age + 1 - s[j].mid_age) <= -EXP_SAT
}

/// The squared Euclidean distance between two agents' positions.
pub open spec fn spec_dist2(a: Agent, b: Agent) -> int {
    (a.x - b.x) * (a.x - b.x) + (a.y - b.y) * (a.y - b.y)
}

/// Every pair of living adults stands at or beyond the interaction
/// radius.
pub open spec fn spec_all_pairs_distant(s: Seq<Agent>, radius: int) -> bool {
    forall|a: int, b: int|
        0 <= a < b < s.len() && s[a].alive && s[a].age >= ADULT_AGE && s[b].alive && s[b].age
            >= ADULT_AGE ==> #[trigger] spec_dist2(s[a], s[b]) >= radius * radius
}

/// Every living adult's income update stays representable, whatever
/// education the learning phase leaves it with.
pub open spec fn spec_income_always_fits(s: Seq<Agent>, c: EnvironmentConfig) -> bool {
    forall|j: int|
        0 <= j < s.len() && (#[trigger] s[j]).alive && s[j].age >= ADULT_AGE ==> s[j].age
            <= AGE_CEIL && (forall|e: int|
            s[j].education <= e <= c.education.max ==> i64::MIN <= #[trigger] spec_wealth_after_income(
                s[j].wealth as int,
                e,
                s[j].age as int,
                c.income_and_consumption,
            ) <= i64::MAX)
}

/// A step no draw can spoil: a valid state with counter headroom, no
/// movement, every income update representable whatever rate is learned,
/// every adult pair beyond the interaction radius, and the death curve
/// saturated low for every living agent.
pub open spec fn spec_step_infallible(e: Environment) -> bool {
    &&& e.wf()
    &&& e.iteration < usize::MAX
    &&& e.config.max_movement == 0
    &&& spec_income_always_fits(e.agents@, e.config)
    &&& spec_all_pairs_distant(e.agents@, e.config.interaction_radius as int)
    &&& spec_adult_ages_ok(e.agents@)
    &&& spec_no_death_possible(e.agents@)
}

/// Every living adult's age sits under the arithmetic age cap.
pub open spec fn spec_adult_ages_ok(s: Seq<Agent>) -> bool {
    forall|j: int|
        0 <= j < s.len() && (#[trigger] s[j]).alive && s[j].age >= ADULT_AGE ==> s[j].age
            <= AGE_CEIL
}

/// The agent at `j` stands at or beyond the radius from every other
/// living adult.
pub open spec fn spec_isolated(s: Seq<Agent>, j: int, radius: int) -> bool {
    forall|m: int|
        0 <= m < s.len() && m != j && (#[trigger] s[m]).alive && s[m].age >= ADULT_AGE
            ==> spec_dist2(s[j], s[m]) >= radius * radius
}

/// The total wealth of a population.
pub open spec fn spec_wealth_sum(s: Seq<Agent>) -> int
    decreases s.len(),
{
    if s.len() == 0 {
        0
    } else {
        spec_wealth_sum(s.drop_last()) + s.last().wealth
    }
}

/// Updating one agent moves the total wealth by the wealth difference.
proof fn lemma_wealth_sum_update(s: Seq<Agent>, i: int, a: Agent)
    requires
        0 <= i < s.len(),
    ensures
        spec_wealth_sum(s.update(i, a)) == spec_wealth_sum(s) - s[i].wealth + a.wealth,
    decreases s.len(),
{
    let t = s.update(i, a);
    if i == s.len() - 1 {
        assert(t.drop_last() =~= s.drop_last());
        assert(t.last() == a);
    } else {
        assert(t.drop_last() =~= s.drop_last().update(i, a));
        lemma_wealth_sum_update(s.drop_last(), i, a);
        assert(t.last() == s.last());
    }
}

/// How many of the first `k` agents are alive.
pub open spec fn spec_alive_count(s: Seq<Agent>, k: int) -> int
    decreases k,
{
    if k <= 0 {
        0
    } else {
        spec_alive_count(s, k - 1) + if s[k - 1].alive {
            1int
        } else {
            0int
        }
    }
}

/// The alive count reads only the alive flags below `k`.
proof fn lemma_alive_count_stable(a: Seq<Agent>, b: Seq<Agent>, k: int)
    requires
        forall|j: int| 0 <= j < k ==> (#[trigger] a[j]).alive == b[j].alive,
    ensures
        spec_alive_count(a, k) == spec_alive_count(b, k),
    decreases k,
{
    if k > 0 {
        lemma_alive_count_stable(a, b, k - 1);
    }
}

/// The agents compaction keeps are exactly the living: the filtered
/// length equals the alive count.
proof fn lemma_alive_count_is_filter_len(s: Seq<Agent>)
    ensures
        s.filter(|a: Agent| a.alive).len() == spec_alive_count(s, s.len() as int),
    decreases s.len(),
{
    reveal(Seq::filter);
    if s.len() > 0 {
        lemma_alive_count_is_filter_len(s.drop_last());
        assert forall|j: int|
            0 <= j < s.len() - 1 implies (#[trigger] s.drop_last()[j]).alive == s[j].alive by {
            assert(s.drop_last()[j] == s[j]);
        }
        lemma_alive_count_stable(s.drop_last(), s, s.len() - 1);
    }
}

/// When no dead agent is revived, the alive count drops by exactly the
/// death count.
proof fn lemma_alive_count_after_deaths(pre: Seq<Agent>, post: Seq<Agent>, k: int)
    requires
        forall|j: int| 0 <= j < k ==> ((#[trigger] post[j]).alive ==> pre[j].alive),
    ensures
        spec_alive_count(post, k) == spec_alive_count(pre, k) - spec_died_count(pre, post, k),
    decreases k,
{
    if k > 0 {
        lemma_alive_count_after_deaths(pre, post, k - 1);
    }
}

/// A stretch of living agents adds its full length to the alive count.
proof fn lemma_alive_count_extend_alive(s: Seq<Agent>, a: int, b: int)
    requires
        0 <= a <= b,
        forall|j: int| a <= j < b ==> (#[trigger] s[j]).alive,
    ensures
        spec_alive_count(s, b) == spec_alive_count(s, a) + (b - a),
    decreases b - a,
{
    if b > a {
        lemma_alive_count_extend_alive(s, a, b - 1);
    }
}

/// How many agents carry an id at or above `bound`: after a step these
/// are exactly the newborns.
pub open spec fn spec_fresh_count(s: Seq<Agent>, bound: usize) -> int
    decreases s.len(),
{
    if s.len() == 0 {
        0
    } else {
        spec_fresh_count(s.drop_last(), bound) + if s.last().id >= bound {
            1int
        } else {
            0int
        }
    }
}

/// When the ids at or above `bound` fill exactly the suffix from `a`, the
/// fresh count is the suffix length.
proof fn lemma_fresh_count_split(s: Seq<Agent>, bound: usize, a: int)
    requires
        0 <= a <= s.len(),
        forall|j: int| 0 <= j < a ==> (#[trigger] s[j]).id < bound,
        forall|j: int| a <= j < s.len() ==> (#[trigger] s[j]).id >= bound,
    ensures
        spec_fresh_count(s, bound) == s.len() - a,
    decreases s.len(),
{
    if s.len() > 0 {
        assert forall|j: int| 0 <= j < s.len() - 1 implies #[trigger] s.drop_last()[j] == s[j] by {}
        if a == s.len() {
            lemma_fresh_count_split(s.drop_last(), bound, a - 1);
        } else {
            lemma_fresh_count_split(s.drop_last(), bound, a);
        }
    }
}

/// When every agent with a fresh id is alive, compaction keeps them all:
/// the fresh count passes through the filter.
proof fn lemma_fresh_count_filter(s: Seq<Agent>, bound: usize)
    requires
        forall|j: int| 0 <= j < s.len() && (#[trigger] s[j]).id >= bound ==> s[j].alive,
    ensures
        spec_fresh_count(s.filter(|a: Agent| a.alive), bound) == spec_fresh_count(s, bound),
    decreases s.len(),
{
    reveal(Seq::filter);
    if s.len() > 0 {
        assert forall|j: int|
            0 <= j < s.len() - 1 && (#[trigger] s.drop_last()[j]).id >= bound implies s.drop_last()[j].alive by {
            assert(s.drop_last()[j] == s[j]);
        }
        lemma_fresh_count_filter(s.drop_last(), bound);
        let pred = |a: Agent| a.alive;
        if pred(s.last()) {
            assert(s.filter(pred) == s.drop_last().filter(pred).push(s.last()));
            assert(s.filter(pred).drop_last() =~= s.drop_last().filter(pred));
            assert(s.filter(pred).last() == s.last());
        } else {
            assert(s.filter(pred) == s.drop_last().filter(pred));
            assert(s[s.len() - 1].id < bound);
        }
    }
}

/// How many of the first `k` agents were alive in the first snapshot
/// and are dead in the second.
pub open spec fn spec_died_count(pre: Seq<Agent>, post: Seq<Agent>, k: int) -> int
    decreases k,
{
    if k <= 0 {
        0
    } else {
        spec_died_count(pre, post, k - 1) + if pre[k - 1].alive && !post[k - 1].alive {
            1int
        } else {
            0int
        }
    }
}

/// The death count reads only the alive flags below `k`.
proof fn lemma_died_count_stable(pre: Seq<Agent>, a: Seq<Agent>, b: Seq<Agent>, k: int)
    requires
        forall|j: int| 0 <= j < k ==> (#[trigger] a[j]).alive == b[j].alive,
    ensures
        spec_died_count(pre, a, k) == spec_died_count(pre, b, k),
    decreases k,
{
    if k > 0 {
        lemma_died_count_stable(pre, a, b, k - 1);
    }
}

/// What happens to a parent at a birth: the new id is appended to its
/// children, its wealth is debited, and nothing else changes.
pub open spec fn parent_updated(pre: Agent, post: Agent, child: usize) -> bool {
    &&& post.children@ == pre.children@.push(child)
    &&& post == (Agent { wealth: post.wealth, children: post.children, ..pre })
}

/// The two agents are the same but for position.
pub open spec fn moved_only(pre: Agent, post: Agent) -> bool {
    post == (Agent { x: post.x, y: post.y, ..pre })
}

/// The two agents are the same but for education.
pub open spec fn learned_only(pre: Agent, post: Agent) -> bool {
    post == (Agent { education: post.education, ..pre })
}

/// The two agents are the same but for wealth.
pub open spec fn wealth_only(pre: Agent, post: Agent) -> bool {
    post == (Agent { wealth: post.wealth, ..pre })
}

/// One learning update: education rises by `rate * (1 - education /
/// ceiling)`, truncated, and is clamped so it never leaves `[0, ceiling]`.
pub open spec fn spec_learn(e: int, rate: int, max: int) -> int {
    let f = (e * SCALE as int) / max;
    let inc = div_trunc(rate * (SCALE as int - f), SCALE as int);
    if e + inc > max {
        max
    } else {
        e + inc
    }
}

/// A learning update never lowers education and never pushes it above the
/// ceiling.
pub proof fn lemma_learn_bounds(e: int, rate: int, max: int)
    requires
        0 <= e <= max,
        0 < max,
        0 <= rate,
    ensures
        e <= spec_learn(e, rate, max) <= max,
{
    let f = (e * SCALE as int) / max;
    assert(0 <= e * SCALE as int <= max * SCALE as int) by (nonlinear_arith)
        requires
            0 <= e <= max,
            SCALE as int > 0,
    ;
    assert(0 <= f <= SCALE as int) by (nonlinear_arith)
        requires
            0 <= e * SCALE as int <= max * SCALE as int,
            f == (e * SCALE as int) / max,
            max > 0,
            SCALE as int > 0,
    ;
    assert(0 <= rate * (SCALE as int - f)) by (nonlinear_arith)
        requires
            0 <= rate,
            f <= SCALE as int,
    ;
    assert(0 <= rate * (SCALE as int - f) / SCALE as int) by (nonlinear_arith)
        requires
            0 <= rate * (SCALE as int - f),
            SCALE as int > 0,
    ;
}

/// Education after a whole sequence of learning updates, applied in order.
pub open spec fn spec_learn_seq(e: int, rates: Seq<int>, max: int) -> int
    decreases rates.len(),
{
    if rates.len() == 0 {
        e
    } else {
        spec_learn_seq(spec_learn(e, rates[0], max), rates.drop_first(), max)
    }
}

/// Education stays within `[0, ceiling]` after any number of learning
/// updates, for any sequence of drawn rates.
pub proof fn lemma_learning_stays_bounded(e: int, rates: Seq<int>, max: int)
    requires
        0 <= e <= max,
        0 < max,
        forall|i: int| 0 <= i < rates.len() ==> 0 <= #[trigger] rates[i],
    ensures
        0 <= spec_learn_seq(e, rates, max) <= max,
    decreases rates.len(),
{
    if rates.len() > 0 {
        lemma_learn_bounds(e, rates[0], max);
        assert(forall|i: int|
            0 <= i < rates.drop_first().len() ==> rates.drop_first()[i] == #[trigger] rates[i + 1]);
        lemma_learning_stays_bounded(spec_learn(e, rates[0], max), rates.drop_first(), max);
    }
}

/// Executes one learning update; exactly the spec, and bounded.
pub fn learn_update(e: i64, rate: i64, max: i64) -> (r: i64)
    requires
        0 <= e <= max,
        0 < max <= FIX_LIMIT,
        0 <= rate <= FIX_LIMIT,
    ensures
        r == spec_learn(e as int, rate as int, max as int),
        e <= r <= max,
{
    proof {
        lemma_learn_bounds(e as int, rate as int, max as int);
        assert(0 <= e as int * SCALE as int <= FIX_LIMIT as int * SCALE as int)
            by (nonlinear_arith)
            requires
                0 <= e as int <= FIX_LIMIT as int,
                SCALE as int > 0,
        ;
        assert(0 <= (e as int * SCALE as int) / (max as int) <= SCALE as int) by (nonlinear_arith)
            requires
                0 <= e as int <= max as int,
                0 < max as int,
                SCALE as int > 0,
        ;
    }
    let f: i64 = ((e as i128 * SCALE as i128) / (max as i128)) as i64;
    let inc: i64 = mul_frac(rate, SCALE - f);
    let sum: i64 = e + inc;
    if sum > max {
        max
    } else {
        sum
    }
}

/// Consumption: baseline plus the marginal rate applied to the wealth
/// surplus above the baseline, never to a deficit.
pub open spec fn spec_consumption(w: int, base: int, rate: int) -> int {
    let surplus = if w - base > 0 {
        w - base
    } else {
        0
    };
    base + div_trunc(rate * surplus, SCALE as int)
}

/// Wealth of an adult after one income and consumption update, both
/// computed on the wealth before either is applied.
pub open spec fn spec_wealth_after_income(
    w: int,
    education: int,
    age: int,
    ic: crate::config::IncomeAndConsumption,
) -> int {
    w + spec_income(
        education,
        age,
        ic.income_education_parameter as int,
        ic.income_age_parameter as int,
    ) - spec_consumption(w, ic.base_consumption as int, ic.aditional_consumption_rate as int)
}

/// Applies one income and consumption update to a wealth value; succeeds
/// exactly when the result stays in the representable range.
pub fn wealth_after_income(
    w: i64,
    education: i64,
    age: u32,
    ic: &crate::config::IncomeAndConsumption,
) -> (r: Result<i64, StepError>)
    requires
        ic.wf(),
        0 <= education <= FIX_LIMIT,
        age <= AGE_CEIL,
    ensures
        i64::MIN <= spec_wealth_after_income(w as int, education as int, age as int, *ic)
            <= i64::MAX ==> r == Ok::<i64, StepError>(
            spec_wealth_after_income(w as int, education as int, age as int, *ic) as i64,
        ),
        !(i64::MIN <= spec_wealth_after_income(w as int, education as int, age as int, *ic)
            <= i64::MAX) ==> r == Err::<i64, StepError>(StepError::RangeExhausted),
{
    let alpha = ic.income_education_parameter;
    let beta = ic.income_age_parameter;
    proof {
        assert(0 <= alpha as int * education as int <= FIX_LIMIT as int * FIX_LIMIT as int)
            by (nonlinear_arith)
            requires
                0 <= alpha as int <= FIX_LIMIT as int,
                0 <= education as int <= FIX_LIMIT as int,
        ;
        assert(0 <= alpha as int * education as int / SCALE as int <= 1_000_000_000_000_000_000)
            by (nonlinear_arith)
            requires
                0 <= alpha as int * education as int <= FIX_LIMIT as int * FIX_LIMIT as int,
                SCALE as int == 1_000_000,
                FIX_LIMIT as int == 1_000_000_000_000,
        ;
        assert(0 <= beta as int * age as int <= FIX_LIMIT as int * AGE_CEIL as int)
            by (nonlinear_arith)
            requires
                0 <= beta as int <= FIX_LIMIT as int,
                0 <= age as int <= AGE_CEIL as int,
        ;
    }
    let income: i128 = (alpha as i128 * education as i128) / (SCALE as i128) + (beta as i128) * (
    age as i128);
    let surplus: i128 = if w as i128 - ic.base_consumption as i128 > 0 {
        w as i128 - ic.base_consumption as i128
    } else {
        0
    };
    proof {
        let rt = ic.aditional_consumption_rate as int;
        let sp = surplus as int;
        assert(0 <= rt * sp <= SCALE as int * sp) by (nonlinear_arith)
            requires
                0 <= rt <= SCALE as int,
                0 <= sp,
        ;
        assert(0 <= rt * sp / SCALE as int <= sp) by (nonlinear_arith)
            requires
                0 <= rt * sp <= SCALE as int * sp,
                SCALE as int > 0,
                0 <= sp,
        ;
    }
    let consumption: i128 = ic.base_consumption as i128 + (ic.aditional_consumption_rate as i128
        * surplus) / (SCALE as i128);
    let updated: i128 = w as i128 + income - consumption;
    if updated >= i64::MIN as i128 && updated <= i64::MAX as i128 {
        Ok(updated as i64)
    } else {
        Err(StepError::RangeExhausted)
    }
}

/// The amount a transaction moves: `amount_rate` times the smaller of the
/// two pre-transaction wealths, truncated toward zero.
pub open spec fn spec_transfer_amount(winner_wealth: int, loser_wealth: int, amount_rate: int)
    -> int {
    let base = if winner_wealth < loser_wealth {
        winner_wealth
    } else {
        loser_wealth
    };
    div_trunc(base * amount_rate, SCALE as int)
}

/// The tax fraction of the transferred amount, removed from circulation.
pub open spec fn spec_tax_cut(
    winner_wealth: int,
    loser_wealth: int,
    amount_rate: int,
    tax_rate: int,
) -> int {
    div_trunc(
        spec_transfer_amount(winner_wealth, loser_wealth, amount_rate) * tax_rate,
        SCALE as int,
    )
}

/// The winner's wealth after the transaction: it gains the amount less the
/// tax cut.
pub open spec fn spec_transact_winner(
    winner_wealth: int,
    loser_wealth: int,
    amount_rate: int,
    tax_rate: int,
) -> int {
    winner_wealth + spec_transfer_amount(winner_wealth, loser_wealth, amount_rate) - spec_tax_cut(
        winner_wealth,
        loser_wealth,
        amount_rate,
        tax_rate,
    )
}

/// The loser's wealth after the transaction: it loses the full amount.
pub open spec fn spec_transact_loser(winner_wealth: int, loser_wealth: int, amount_rate: int)
    -> int {
    loser_wealth - spec_transfer_amount(winner_wealth, loser_wealth, amount_rate)
}

/// When a transaction succeeds: both wealths above the very bottom of the
/// range, and both results representable.
pub open spec fn spec_transact_fits(
    winner_wealth: int,
    loser_wealth: int,
    amount_rate: int,
    tax_rate: int,
) -> bool {
    &&& winner_wealth > i64::MIN
    &&& loser_wealth > i64::MIN
    &&& i64::MIN <= spec_transact_winner(winner_wealth, loser_wealth, amount_rate, tax_rate)
        <= i64::MAX
    &&& i64::MIN <= spec_transact_loser(winner_wealth, loser_wealth, amount_rate) <= i64::MAX
}

/// The sum of wealth immediately before a transaction equals the sum
/// immediately after it, net of the tax fraction removed from circulation.
pub proof fn lemma_transaction_conserves_wealth(
    winner_wealth: int,
    loser_wealth: int,
    amount_rate: int,
    tax_rate: int,
)
    ensures
        spec_transact_winner(winner_wealth, loser_wealth, amount_rate, tax_rate)
            + spec_transact_loser(winner_wealth, loser_wealth, amount_rate) == winner_wealth
            + loser_wealth - spec_tax_cut(winner_wealth, loser_wealth, amount_rate, tax_rate),
{
}

/// Resolves one transaction on the pre-transaction wealths of winner and
/// loser; succeeds exactly when the result is representable, and conserves
/// wealth net of the tax cut.
pub fn transact(winner_wealth: i64, loser_wealth: i64, amount_rate: i64, tax_rate: i64) -> (r:
    Result<(i64, i64), StepError>)
    requires
        0 <= amount_rate <= SCALE,
        0 <= tax_rate <= SCALE,
    ensures
        spec_transact_fits(winner_wealth as int, loser_wealth as int, amount_rate as int,
        tax_rate as int) ==> r == Ok::<(i64, i64), StepError>(
            (
                spec_transact_winner(
                    winner_wealth as int,
                    loser_wealth as int,
                    amount_rate as int,
                    tax_rate as int,
                ) as i64,
                spec_transact_loser(winner_wealth as int, loser_wealth as int, amount_rate as int)
                    as i64,
            ),
        ),
        !spec_transact_fits(winner_wealth as int, loser_wealth as int, amount_rate as int,
        tax_rate as int) ==> r == Err::<(i64, i64), StepError>(StepError::RangeExhausted),
        r matches Ok(pair) ==> pair.0 + pair.1 == winner_wealth + loser_wealth - spec_tax_cut(
            winner_wealth as int,
            loser_wealth as int,
            amount_rate as int,
            tax_rate as int,
        ),
{
    if winner_wealth == i64::MIN || loser_wealth == i64::MIN {
        return Err(StepError::RangeExhausted);
    }
    let base = if winner_wealth < loser_wealth {
        winner_wealth
    } else {
        loser_wealth
    };
    let amount = mul_frac(base, amount_rate);
    let cut = mul_frac(amount, tax_rate);
    let net = amount - cut;
    match (add_checked(winner_wealth, net), sub_checked(loser_wealth, amount)) {
        (Some(nw), Some(nl)) => Ok((nw, nl)),
        _ => Err(StepError::RangeExhausted),
    }
}

/// Mutable access to one agent of the collection; the rest stay as they
/// were.
fn agent_at_mut(agents: &mut Vec<Agent>, i: usize) -> (a: &mut Agent)
    requires
        0 <= i < old(agents).len(),
    ensures
        *a == old(agents)@[i as int],
        final(agents)@ == old(agents)@.update(i as int, *final(a)),
{
    &mut agents[i]
}

/// The two agents are the same but for the children list.
pub open spec fn children_only(pre: Agent, post: Agent) -> bool {
    post == (Agent { children: post.children, ..pre })
}

} // verus!
