//! The configuration schema: a nested set of named parameters, pure data,
//! read-only for the lifetime of a run.
//!
//! Ages are integer months; every other real-valued parameter of the
//! schema is a fixed-point value in micro-units (see [`crate::fixed::SCALE`]).
//! Rates and probabilities lie in `[0, SCALE]`. A configuration is validated
//! once, at load time: the engine requires [`EnvironmentConfig::valid`], and
//! [`EnvironmentConfig::check_valid`] decides it at run time.

use vstd::prelude::*;

use crate::fixed::SCALE;

verus! {

/// Magnitude cap on fixed-point parameters (one million whole units): keeps
/// every intermediate product of the engine within `i128` and every stored
/// value within `i64`.
pub const FIX_LIMIT: i64 = 1_000_000_000_000;

/// Cap on ages in months (five thousand years): far beyond any death curve,
/// it only keeps age arithmetic within `u32`.
pub const AGE_CEIL: u32 = 60_000;

/// Cap on the spatial bounds, in whole units.
pub const MAX_COORD_UNITS: usize = 1_000_000;

/// Cap on the initial population size.
pub const MAX_AGENTS: usize = 100_000_000;

/// Demographic curve parameters. Ages are in months.
#[derive(Clone, Copy, Debug, PartialEq, Eq, Structural)]
pub struct AgeAndDeath {
    pub mean_age: u32,
    pub stddev_age: u32,
    /// Age where the death chance is 50%.
    pub mid_age: u32,
    /// Upper bound (exclusive) on the age an initial agent is sampled with.
    pub max_start_age: u32,
    /// How quickly the death probability rises with age, fixed-point per
    /// month.
    pub steepness: i64,
}

/// Education curve parameters, fixed-point.
#[derive(Clone, Copy, Debug, PartialEq, Eq, Structural)]
pub struct Education {
    pub initial_adult_min: i64,
    pub initial_adult_max: i64,
    pub elemental_education_threshold: i64,
    pub children_education_jitter: i64,
    pub learning_rate_min: i64,
    pub learning_rate_max: i64,
    /// The education ceiling.
    pub max: i64,
}

/// Income and consumption curve parameters, fixed-point.
#[derive(Clone, Copy, Debug, PartialEq, Eq, Structural)]
pub struct IncomeAndConsumption {
    pub income_age_parameter: i64,
    pub income_education_parameter: i64,
    pub base_consumption: i64,
    pub aditional_consumption_rate: i64,
}

/// Pairwise transaction parameters, fixed-point; the rates and the
/// probability lie in `[0, SCALE]`.
#[derive(Clone, Copy, Debug, PartialEq, Eq, Structural)]
pub struct Transaction {
    pub transaction_probability: i64,
    pub education_parameter: i64,
    pub age_parameter: i64,
    pub tax_rate: i64,
    pub amount_rate: i64,
}

/// Initial wealth and inheritance-at-birth parameters, fixed-point.
#[derive(Clone, Copy, Debug, PartialEq, Eq, Structural)]
pub struct Wealth {
    pub min_initial_wealth: i64,
    pub max_initial_wealth: i64,
    pub min_inheritance_at_birth_rate: i64,
    pub max_inheritance_at_birth_rate: i64,
}

/// The full configuration: spatial bounds, iteration count, and the five
/// parameter curves.
#[derive(Clone, Copy, Debug, PartialEq, Eq, Structural)]
pub struct EnvironmentConfig {
    pub num_agents: usize,
    pub num_iterations: usize,
    pub length: usize,
    pub width: usize,
    pub interaction_radius: i64,
    pub max_movement: i64,
    pub age_and_death: AgeAndDeath,
    pub education: Education,
    pub income_and_consumption: IncomeAndConsumption,
    pub transaction: Transaction,
    pub wealth: Wealth,
}

impl AgeAndDeath {
    /// Well-formed demographic parameters.
    pub open spec fn wf(self) -> bool {
        &&& self.mean_age <= AGE_CEIL
        &&& self.stddev_age <= AGE_CEIL
        &&& self.mid_age <= AGE_CEIL
        &&& 361 <= self.max_start_age <= AGE_CEIL
        &&& 0 <= self.steepness <= FIX_LIMIT
    }

    pub fn new(mean_age: u32, stddev_age: u32, mid_age: u32, max_start_age: u32, steepness: i64)
        -> (r: AgeAndDeath)
        ensures
            r == (AgeAndDeath { mean_age, stddev_age, mid_age, max_start_age, steepness }),
    {
        AgeAndDeath { mean_age, stddev_age, mid_age, max_start_age, steepness }
    }
}

impl Education {
    /// Well-formed education parameters: the initial bands stay under the
    /// ceiling, the drawn ranges are non-empty, and the learning rates sit
    /// under the general magnitude cap (the update itself clamps at the
    /// ceiling, whatever the rate).
    pub open spec fn wf(self) -> bool {
        &&& 0 < self.max <= FIX_LIMIT
        &&& 0 <= self.initial_adult_min < self.initial_adult_max
        &&& self.initial_adult_max <= self.max
        &&& 0 <= self.elemental_education_threshold
        &&& 1 <= self.children_education_jitter
        &&& self.elemental_education_threshold + self.children_education_jitter <= self.max
        &&& 0 <= self.learning_rate_min < self.learning_rate_max
        &&& self.learning_rate_max <= FIX_LIMIT
    }

    pub fn new(
        initial_adult_min: i64,
        initial_adult_max: i64,
        elemental_education_threshold: i64,
        children_education_jitter: i64,
        learning_rate_min: i64,
        learning_rate_max: i64,
        max: i64,
    ) -> (r: Education)
        ensures
            r == (Education {
                initial_adult_min,
                initial_adult_max,
                elemental_education_threshold,
                children_education_jitter,
                learning_rate_min,
                learning_rate_max,
                max,
            }),
    {
        Education {
            initial_adult_min,
            initial_adult_max,
            elemental_education_threshold,
            children_education_jitter,
            learning_rate_min,
            learning_rate_max,
            max,
        }
    }
}

impl IncomeAndConsumption {
    /// Well-formed income and consumption parameters. The income
    /// coefficients are kept non-negative: the same formula scores the
    /// interaction pairs, where a score must be usable as a probability
    /// weight.
    pub open spec fn wf(self) -> bool {
        &&& 0 <= self.income_age_parameter <= FIX_LIMIT
        &&& 0 <= self.income_education_parameter <= FIX_LIMIT
        &&& 0 <= self.base_consumption <= FIX_LIMIT
        &&& 0 <= self.aditional_consumption_rate <= SCALE
    }

    pub fn new(
        income_age_parameter: i64,
        income_education_parameter: i64,
        base_consumption: i64,
        aditional_consumption_rate: i64,
    ) -> (r: IncomeAndConsumption)
        ensures
            r == (IncomeAndConsumption {
                income_age_parameter,
                income_education_parameter,
                base_consumption,
                aditional_consumption_rate,
            }),
    {
        IncomeAndConsumption {
            income_age_parameter,
            income_education_parameter,
            base_consumption,
            aditional_consumption_rate,
        }
    }
}

impl Transaction {
    /// Well-formed transaction parameters: the probability and the rates
    /// are fractions, and the score coefficients non-negative so that a
    /// score over the summed scores is a probability.
    pub open spec fn wf(self) -> bool {
        &&& 0 <= self.transaction_probability <= SCALE
        &&& 0 <= self.education_parameter <= FIX_LIMIT
        &&& 0 <= self.age_parameter <= FIX_LIMIT
        &&& 0 <= self.tax_rate <= SCALE
        &&& 0 <= self.amount_rate <= SCALE
    }

    pub fn new(
        transaction_probability: i64,
        education_parameter: i64,
        age_parameter: i64,
        tax_rate: i64,
        amount_rate: i64,
    ) -> (r: Transaction)
        ensures
            r == (Transaction {
                transaction_probability,
                education_parameter,
                age_parameter,
                tax_rate,
                amount_rate,
            }),
    {
        Transaction {
            transaction_probability,
            education_parameter,
            age_parameter,
            tax_rate,
            amount_rate,
        }
    }
}

impl Wealth {
    /// Well-formed wealth parameters: a non-empty initial range within the
    /// magnitude cap, and a non-empty inheritance-rate band of fractions.
    pub open spec fn wf(self) -> bool {
        &&& -FIX_LIMIT <= self.min_initial_wealth < self.max_initial_wealth
        &&& self.max_initial_wealth <= FIX_LIMIT
        &&& 0 <= self.min_inheritance_at_birth_rate < self.max_inheritance_at_birth_rate
        &&& self.max_inheritance_at_birth_rate <= SCALE
    }

    pub fn new(
        min_initial_wealth: i64,
        max_initial_wealth: i64,
        min_inheritance_at_birth_rate: i64,
        max_inheritance_at_birth_rate: i64,
    ) -> (r: Wealth)
        ensures
            r == (Wealth {
                min_initial_wealth,
                max_initial_wealth,
                min_inheritance_at_birth_rate,
                max_inheritance_at_birth_rate,
            }),
    {
        Wealth {
            min_initial_wealth,
            max_initial_wealth,
            min_inheritance_at_birth_rate,
            max_inheritance_at_birth_rate,
        }
    }
}

impl EnvironmentConfig {
    pub fn new(
        num_agents: usize,
        num_iterations: usize,
        length: usize,
        width: usize,
        interaction_radius: i64,
        max_movement: i64,
        age_and_death: AgeAndDeath,
        education: Education,
        income_and_consumption: IncomeAndConsumption,
        transaction: Transaction,
        wealth: Wealth,
    ) -> (r: EnvironmentConfig)
        ensures
            r == (EnvironmentConfig {
                num_agents,
                num_iterations,
                length,
                width,
                interaction_radius,
                max_movement,
                age_and_death,
                education,
                income_and_consumption,
                transaction,
                wealth,
            }),
    {
        EnvironmentConfig {
            num_agents,
            num_iterations,
            length,
            width,
            interaction_radius,
            max_movement,
            age_and_death,
            education,
            income_and_consumption,
            transaction,
            wealth,
        }
    }

    /// What a well-formed configuration satisfies. The strict inequalities
    /// hold exactly where a value is drawn uniformly from a half-open range,
    /// so that no range is empty; `max_start_age` must exceed 30 years so
    /// that the decay denominators of the ancestry wiring stay positive;
    /// the iteration count is bounded only by the signed decimal of the
    /// configuration file format.
    pub open spec fn valid(self) -> bool {
        &&& self.num_agents <= MAX_AGENTS
        &&& self.num_iterations as int <= i64::MAX as int
        &&& 1 <= self.length <= MAX_COORD_UNITS
        &&& 1 <= self.width <= MAX_COORD_UNITS
        &&& 0 <= self.interaction_radius <= 2 * FIX_LIMIT
        &&& 0 <= self.max_movement <= FIX_LIMIT
        &&& self.age_and_death.wf()
        &&& self.education.wf()
        &&& self.income_and_consumption.wf()
        &&& self.transaction.wf()
        &&& self.wealth.wf()
    }

    /// Decides [`Self::valid`] at run time.
    pub fn check_valid(&self) -> (b: bool)
        ensures
            b == self.valid(),
    {
        self.num_agents <= MAX_AGENTS && (self.num_iterations as u64) <= (i64::MAX as u64) && 1
            <= self.length && self.length <= MAX_COORD_UNITS && 1
            <= self.width && self.width <= MAX_COORD_UNITS && 0 <= self.interaction_radius
            && self.interaction_radius <= 2 * FIX_LIMIT && 0 <= self.max_movement
            && self.max_movement <= FIX_LIMIT && self.age_and_death.mean_age <= AGE_CEIL
            && self.age_and_death.stddev_age <= AGE_CEIL && self.age_and_death.mid_age <= AGE_CEIL
            && 361 <= self.age_and_death.max_start_age && self.age_and_death.max_start_age
            <= AGE_CEIL && 0 <= self.age_and_death.steepness && self.age_and_death.steepness
            <= FIX_LIMIT && 0 < self.education.max && self.education.max <= FIX_LIMIT && 0
            <= self.education.initial_adult_min && self.education.initial_adult_min
            < self.education.initial_adult_max && self.education.initial_adult_max
            <= self.education.max && 0 <= self.education.elemental_education_threshold && 1
            <= self.education.children_education_jitter
            && self.education.elemental_education_threshold
            <= self.education.max - self.education.children_education_jitter && 0
            <= self.education.learning_rate_min && self.education.learning_rate_min
            < self.education.learning_rate_max && self.education.learning_rate_max
            <= FIX_LIMIT && 0 <= self.income_and_consumption.income_age_parameter
            && self.income_and_consumption.income_age_parameter <= FIX_LIMIT && 0
            <= self.income_and_consumption.income_education_parameter
            && self.income_and_consumption.income_education_parameter <= FIX_LIMIT && 0
            <= self.income_and_consumption.base_consumption
            && self.income_and_consumption.base_consumption <= FIX_LIMIT && 0
            <= self.income_and_consumption.aditional_consumption_rate
            && self.income_and_consumption.aditional_consumption_rate <= SCALE && 0
            <= self.transaction.transaction_probability && self.transaction.transaction_probability
            <= SCALE && 0 <= self.transaction.education_parameter
            && self.transaction.education_parameter <= FIX_LIMIT && 0
            <= self.transaction.age_parameter && self.transaction.age_parameter <= FIX_LIMIT && 0
            <= self.transaction.tax_rate && self.transaction.tax_rate <= SCALE && 0
            <= self.transaction.amount_rate && self.transaction.amount_rate <= SCALE && -FIX_LIMIT
            <= self.wealth.min_initial_wealth && self.wealth.min_initial_wealth
            < self.wealth.max_initial_wealth && self.wealth.max_initial_wealth <= FIX_LIMIT && 0
            <= self.wealth.min_inheritance_at_birth_rate
            && self.wealth.min_inheritance_at_birth_rate
            < self.wealth.max_inheritance_at_birth_rate
            && self.wealth.max_inheritance_at_birth_rate <= SCALE
    }
}

/// The built-in default configuration, used when no configuration file is
/// supplied: five thousand agents on a thousand-by-thousand plane, run
/// for a thousand iterations, with the stated demographic, education,
/// income, transaction and wealth curves.
pub fn create_default_config() -> (c: EnvironmentConfig)
    ensures
        c.valid(),
        c == (EnvironmentConfig {
            num_agents: 5000,
            num_iterations: 1000,
            length: 1000,
            width: 1000,
            interaction_radius: 50_000_000,
            max_movement: 15_000_000,
            age_and_death: AgeAndDeath {
                mean_age: 360,
                stddev_age: 120,
                mid_age: 960,
                max_start_age: 1080,
                steepness: 20_000,
            },
            education: Education {
                initial_adult_min: 4_000_000,
                initial_adult_max: 10_000_000,
                elemental_education_threshold: 4_000_000,
                children_education_jitter: 2_000_000,
                learning_rate_min: 5_000,
                learning_rate_max: 50_000,
                max: 10_000_000,
            },
            income_and_consumption: IncomeAndConsumption {
                income_age_parameter: 50_000,
                income_education_parameter: 2_000_000,
                base_consumption: 10_000_000,
                aditional_consumption_rate: 200_000,
            },
            transaction: Transaction {
                transaction_probability: 300_000,
                education_parameter: 1_000_000,
                age_parameter: 1_000,
                tax_rate: 50_000,
                amount_rate: 50_000,
            },
            wealth: Wealth {
                min_initial_wealth: 10_000_000,
                max_initial_wealth: 100_000_000,
                min_inheritance_at_birth_rate: 100_000,
                max_inheritance_at_birth_rate: 300_000,
            },
        }),
{
    let age_and_death = AgeAndDeath::new(360, 120, 960, 1080, 20_000);
    let education = Education::new(
        4_000_000,
        10_000_000,
        4_000_000,
        2_000_000,
        5_000,
        50_000,
        10_000_000,
    );
    let income_and_consumption = IncomeAndConsumption::new(50_000, 2_000_000, 10_000_000, 200_000);
    let transaction = Transaction::new(300_000, 1_000_000, 1_000, 50_000, 50_000);
    let wealth = Wealth::new(10_000_000, 100_000_000, 100_000, 300_000);
    EnvironmentConfig::new(
        5000,
        1000,
        1000,
        1000,
        50_000_000,
        15_000_000,
        age_and_death,
        education,
        income_and_consumption,
        transaction,
        wealth,
    )
}

} // verus!
