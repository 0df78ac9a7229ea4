use wealthsim::agent::Agent;
use wealthsim::config::{
    create_default_config, AgeAndDeath, Education, EnvironmentConfig, IncomeAndConsumption,
    Transaction, Wealth,
};
use wealthsim::environment::{
    first_wins, learn_update, transact, wealth_after_income, Environment, StepError,
};
use wealthsim::rng::RandomSource;

fn pair_config() -> EnvironmentConfig {
    EnvironmentConfig::new(
        2,
        1,
        1000,
        1000,
        50_000_000,
        15_000_000,
        AgeAndDeath::new(360, 120, 60_000, 1080, 1_000_000),
        Education::new(4_000_000, 10_000_000, 4_000_000, 2_000_000, 5_000, 50_000, 10_000_000),
        IncomeAndConsumption::new(50_000, 2_000_000, 10_000_000, 200_000),
        Transaction::new(1_000_000, 1_000_000, 1_000, 0, 50_000),
        Wealth::new(10_000_000, 100_000_000, 100_000, 300_000),
    )
}

fn adult(id: usize, x: i64, y: i64, wealth: i64, cfg: &EnvironmentConfig) -> Agent {
    Agent {
        children: vec![],
        id,
        x,
        y,
        wealth,
        education: 5_000_000,
        age: 300,
        alive: true,
        mid_age: cfg.age_and_death.mid_age,
        steepness: cfg.age_and_death.steepness,
    }
}

fn env_with(agents: Vec<Agent>, cfg: EnvironmentConfig, rng: RandomSource) -> Environment {
    let next = agents.len();
    Environment {
        agents,
        iteration: 0,
        min_x: 0,
        max_x: cfg.length,
        min_y: 0,
        max_y: cfg.width,
        next_agent_id: next,
        config: cfg,
        rng,
    }
}

#[test]
fn transaction_moves_exactly_the_configured_fraction() {
    // amount_rate 5%, tax 0: the loser loses 0.5 units, the winner gains 0.5.
    let r = transact(100_000_000, 10_000_000, 50_000, 0).unwrap();
    assert_eq!(r, (100_500_000, 9_500_000));
    assert_eq!(r.0 + r.1, 110_000_000);
}

#[test]
fn transaction_tax_leaves_circulation() {
    // amount 500_000, tax 20%: the winner gains only 400_000.
    let r = transact(100_000_000, 10_000_000, 50_000, 200_000).unwrap();
    assert_eq!(r, (100_400_000, 9_500_000));
    assert_eq!(r.0 + r.1, 110_000_000 - 100_000);
}

#[test]
fn transaction_on_negative_minimum_reverses() {
    // both wealths negative: the transfer amount is negative.
    let r = transact(-10_000_000, -2_000_000, 50_000, 0).unwrap();
    assert_eq!(r, (-10_500_000, -1_500_000));
}

#[test]
fn transaction_range_errors() {
    assert_eq!(
        transact(i64::MIN, 0, 50_000, 0),
        Err(StepError::RangeExhausted)
    );
    assert_eq!(
        transact(i64::MAX, i64::MAX, 1_000_000, 0),
        Err(StepError::RangeExhausted)
    );
}

#[test]
fn interaction_pair_scenario() {
    // Two adults, wealth 100 and 10 units, closer than the radius,
    // transaction probability one, amount rate 5%, no tax: the loser loses
    // exactly 0.5, the winner gains exactly 0.5, total unchanged at 110.
    let cfg = pair_config();
    let agents = vec![
        adult(0, 100_000_000, 100_000_000, 100_000_000, &cfg),
        adult(1, 110_000_000, 100_000_000, 10_000_000, &cfg),
    ];
    // draws: two eligibility rolls, then the winner roll (zero: the first
    // agent wins, both scores being equal).
    let rng = RandomSource::scripted(vec![0, 0, 0], 1);
    let mut env = env_with(agents, cfg, rng);
    assert!(env.check_wf());
    env.handle_interactions().unwrap();
    assert_eq!(env.agents[0].wealth, 100_500_000);
    assert_eq!(env.agents[1].wealth, 9_500_000);
    assert_eq!(env.agents[0].wealth + env.agents[1].wealth, 110_000_000);
}

#[test]
fn income_and_consumption_formula() {
    let ic = IncomeAndConsumption::new(50_000, 2_000_000, 10_000_000, 200_000);
    // income = 2.0 * 10 + 0.05 * 240 = 32; consumption = 10 + 0.2 * 40 = 18.
    let updated = wealth_after_income(50_000_000, 10_000_000, 240, &ic).unwrap();
    assert_eq!(updated, 64_000_000);
    // a deficit pays only the baseline.
    let broke = wealth_after_income(-5_000_000, 0, 240, &ic).unwrap();
    assert_eq!(broke, -5_000_000 + 12_000_000 - 10_000_000);
}

#[test]
fn learning_never_passes_the_ceiling() {
    assert_eq!(learn_update(0, 50_000, 10_000_000), 50_000);
    // half way to the ceiling only half the rate is gained.
    assert_eq!(learn_update(5_000_000, 50_000, 10_000_000), 5_025_000);
    assert_eq!(learn_update(10_000_000, 50_000, 10_000_000), 10_000_000);
    let mut e: i64 = 9_999_990;
    for _ in 0..100 {
        e = learn_update(e, 50_000, 10_000_000);
        assert!(e <= 10_000_000);
    }
}

#[test]
fn death_is_certain_far_beyond_the_midpoint() {
    let cfg = pair_config();
    let mut a = adult(0, 0, 0, 10_000_000, &cfg);
    a.age = 3000;
    a.mid_age = 960;
    a.steepness = 20_000;
    // the draw is as close to one as a draw gets; death must still come.
    let mut rng = RandomSource::scripted(vec![999_999], 1);
    let died = a.age_and_check_death(&mut rng);
    assert!(died);
    assert!(!a.alive);
    assert_eq!(a.age, 3001);
}

#[test]
fn death_cannot_come_far_below_the_midpoint() {
    let cfg = pair_config();
    let mut a = adult(0, 0, 0, 10_000_000, &cfg);
    // midpoint at the age cap with full steepness: the curve is saturated
    // at zero, so even a zero draw spares the agent.
    let mut rng = RandomSource::scripted(vec![0], 1);
    let died = a.age_and_check_death(&mut rng);
    assert!(!died);
    assert!(a.alive);
    assert_eq!(a.age, 301);
}

#[test]
fn dead_agents_are_never_touched_by_the_phases() {
    let cfg = pair_config();
    let mut dead = adult(0, 50_000_000, 50_000_000, 77_000_000, &cfg);
    dead.alive = false;
    dead.age = 500;
    let agents = vec![
        dead,
        adult(1, 100_000_000, 100_000_000, 20_000_000, &cfg),
        adult(2, 110_000_000, 100_000_000, 30_000_000, &cfg),
    ];
    let mut env = env_with(agents, cfg, RandomSource::seeded(11));
    assert!(env.check_wf());
    env.movement_phase();
    env.learning_phase();
    env.income_phase().unwrap();
    env.handle_interactions().unwrap();
    env.update_agents().unwrap();
    let d = &env.agents[0];
    assert!(!d.alive);
    assert_eq!(d.age, 500);
    assert_eq!(d.wealth, 77_000_000);
    assert_eq!(d.x, 50_000_000);
    assert_eq!(d.y, 50_000_000);
    // the living aged exactly one month
    assert_eq!(env.agents[1].age, 301);
    assert_eq!(env.agents[2].age, 301);
}

#[test]
fn reproduction_fails_fatally_without_two_eligible_parents() {
    let cfg = pair_config();
    let mut doomed = adult(0, 0, 0, 10_000_000, &cfg);
    doomed.age = 3000;
    doomed.mid_age = 0;
    doomed.steepness = 1_000_000;
    // the engine invariant wants the curve fields to match the
    // configuration, so configure the certain-death curve instead.
    let mut cfg2 = cfg;
    cfg2.age_and_death.mid_age = 0;
    cfg2.age_and_death.steepness = 1_000_000;
    let mut env = env_with(vec![doomed], cfg2, RandomSource::seeded(3));
    assert!(env.check_wf());
    assert_eq!(env.update_agents(), Err(StepError::PopulationExhausted));
}

#[test]
fn step_refuses_an_invalid_state() {
    let mut cfg = pair_config();
    cfg.length = 0;
    let mut env = env_with(Vec::new(), cfg, RandomSource::seeded(1));
    assert_eq!(env.step(), Err(StepError::InvalidState));
}

#[test]
fn movement_stays_within_bounds() {
    let cfg = pair_config();
    let agents = vec![
        adult(0, 0, 0, 10_000_000, &cfg),
        adult(1, 1_000_000_000, 1_000_000_000, 10_000_000, &cfg),
    ];
    let mut env = env_with(agents, cfg, RandomSource::seeded(5));
    for _ in 0..50 {
        env.movement_phase();
        for a in env.agents.iter() {
            assert!(0 <= a.x && a.x <= 1_000_000_000);
            assert!(0 <= a.y && a.y <= 1_000_000_000);
        }
    }
}

#[test]
fn simulation_runs_reproducibly_from_a_seed() {
    let mut cfg = create_default_config();
    cfg.num_agents = 60;
    cfg.num_iterations = 3;
    let mut env = Environment::new(&cfg, RandomSource::seeded(42));
    assert!(env.check_wf());
    assert_eq!(env.agents.len(), 60);
    for _ in 0..3 {
        // every agent is alive at entry, so each death is matched by one
        // newborn and the population size is invariant.
        let before = env.agents.len();
        env.step().unwrap();
        assert_eq!(env.agents.len(), before);
        assert!(env.check_wf());
        for a in env.agents.iter() {
            assert!(a.alive);
            assert!(0 <= a.education && a.education <= cfg.education.max);
        }
    }
    assert_eq!(env.iteration, 3);
    let mut env2 = Environment::new(&cfg, RandomSource::seeded(42));
    for _ in 0..3 {
        env2.step().unwrap();
    }
    assert_eq!(env.agents.len(), env2.agents.len());
    for (a, b) in env.agents.iter().zip(env2.agents.iter()) {
        assert_eq!(a.wealth, b.wealth);
        assert_eq!(a.id, b.id);
    }
}

#[test]
fn initial_agents_sample_within_their_ranges() {
    let cfg = create_default_config();
    let mut rng = RandomSource::seeded(9);
    for id in 0..50 {
        let a = Agent::new(
            id,
            0,
            1_000_000_000,
            0,
            1_000_000_000,
            &cfg.age_and_death,
            &cfg.education,
            &cfg.wealth,
            &mut rng,
        );
        assert_eq!(a.id, id);
        assert!(a.alive);
        assert!(a.age < cfg.age_and_death.max_start_age);
        assert!(0 <= a.education && a.education <= cfg.education.max);
        assert!(cfg.wealth.min_initial_wealth <= a.wealth);
        assert!(a.wealth < cfg.wealth.max_initial_wealth);
        assert!(a.children.is_empty());
    }
}

#[test]
fn winner_comparison_follows_the_rational_rule() {
    // equal scores: an even chance, split exactly at half the draw range.
    assert!(first_wins(0, 5, 5));
    assert!(first_wins(499_999, 5, 5));
    assert!(!first_wins(500_000, 5, 5));
    // both scores zero: the same even chance.
    assert!(first_wins(499_999, 0, 0));
    assert!(!first_wins(500_000, 0, 0));
    // a zero score against a positive one never wins; the reverse always.
    assert!(!first_wins(0, 0, 7));
    assert!(first_wins(999_999, 7, 0));
}

#[test]
fn distant_adults_exchange_nothing() {
    // the pair stands far beyond the interaction radius: nothing changes.
    let cfg = pair_config();
    let agents = vec![
        adult(0, 0, 0, 10_000_000, &cfg),
        adult(1, 900_000_000, 900_000_000, 20_000_000, &cfg),
    ];
    let mut env = env_with(agents, cfg, RandomSource::seeded(2));
    env.handle_interactions().unwrap();
    assert_eq!(env.agents[0].wealth, 10_000_000);
    assert_eq!(env.agents[1].wealth, 20_000_000);
    assert_eq!(env.agents[0].x, 0);
}

#[test]
fn ancestry_links_point_to_older_parents() {
    let mut cfg = create_default_config();
    cfg.num_agents = 200;
    let env = Environment::new(&cfg, RandomSource::seeded(17));
    let mut parent_counts = vec![0usize; 200];
    let mut any_link = false;
    for (p, a) in env.agents.iter().enumerate() {
        for &c in a.children.iter() {
            any_link = true;
            assert!(c < 200);
            assert_ne!(c, p);
            let child_age = env.agents[c].age;
            assert!(a.age >= child_age + 216);
            assert!(a.age < child_age + 540);
            parent_counts[c] += 1;
        }
    }
    assert!(any_link);
    for &count in parent_counts.iter() {
        assert!(count <= 2);
    }
}

#[test]
fn a_death_spawns_one_funded_newborn_and_credits_the_heir() {
    // one agent far beyond the midpoint dies for certain; the two others
    // sit far below it and cannot die.
    let mut cfg = pair_config();
    cfg.age_and_death.mid_age = 600;
    cfg.age_and_death.steepness = 1_000_000;
    let mut doomed = adult(0, 0, 0, 30_000_000, &cfg);
    doomed.age = 3000;
    doomed.mid_age = 600;
    doomed.steepness = 1_000_000;
    doomed.children = vec![1];
    let mut heir = adult(1, 0, 0, 40_000_000, &cfg);
    heir.mid_age = 600;
    heir.steepness = 1_000_000;
    let mut other = adult(2, 0, 0, 50_000_000, &cfg);
    other.mid_age = 600;
    other.steepness = 1_000_000;
    let mut env = env_with(vec![doomed, heir, other], cfg, RandomSource::seeded(5));
    assert!(env.check_wf());
    let total_before: i64 = env.agents.iter().map(|a| a.wealth).sum();
    env.update_agents().unwrap();
    // exactly one newborn, at the fresh id, funded by the two parents.
    assert_eq!(env.agents.len(), 4);
    assert_eq!(env.next_agent_id, 4);
    let child = env.agents[3].clone();
    assert_eq!(child.id, 3);
    assert_eq!(child.age, 0);
    assert_eq!(child.education, 0);
    assert!(child.alive);
    assert!(child.children.is_empty());
    assert!(env.agents[1].children.contains(&3));
    assert!(env.agents[2].children.contains(&3));
    // the estate was zeroed and credited to the recorded heir; with a
    // single heir nothing is lost to truncation, so the total holds.
    assert!(!env.agents[0].alive);
    assert_eq!(env.agents[0].wealth, 0);
    let total_after: i64 = env.agents.iter().map(|a| a.wealth).sum();
    assert_eq!(total_after, total_before);
}

#[test]
fn an_unrecorded_estate_is_destroyed() {
    // the dying agent records no children, so its estate is zeroed and
    // leaves circulation; the newborn is funded by the parents alone.
    let mut cfg = pair_config();
    cfg.age_and_death.mid_age = 600;
    cfg.age_and_death.steepness = 1_000_000;
    let mut doomed = adult(0, 0, 0, 30_000_000, &cfg);
    doomed.age = 3000;
    doomed.mid_age = 600;
    doomed.steepness = 1_000_000;
    let mut p1 = adult(1, 0, 0, 40_000_000, &cfg);
    p1.mid_age = 600;
    p1.steepness = 1_000_000;
    let mut p2 = adult(2, 0, 0, 50_000_000, &cfg);
    p2.mid_age = 600;
    p2.steepness = 1_000_000;
    let mut env = env_with(vec![doomed, p1, p2], cfg, RandomSource::seeded(9));
    assert!(env.check_wf());
    let total_before: i64 = env.agents.iter().map(|a| a.wealth).sum();
    env.update_agents().unwrap();
    assert!(!env.agents[0].alive);
    assert_eq!(env.agents[0].wealth, 0);
    // the 30-unit estate is gone; parental funding only moved wealth.
    let total_after: i64 = env.agents.iter().map(|a| a.wealth).sum();
    assert_eq!(total_after, total_before - 30_000_000);
}

#[test]
fn a_step_no_draw_can_spoil_succeeds() {
    // no movement, every adult pair far beyond the radius, the death
    // curve saturated low, and incomes comfortably representable: the
    // step is promised to succeed whatever is drawn.
    let mut cfg = pair_config();
    cfg.max_movement = 0;
    let agents = vec![
        adult(0, 0, 0, 10_000_000, &cfg),
        adult(1, 900_000_000, 900_000_000, 20_000_000, &cfg),
    ];
    let mut env = env_with(agents, cfg, RandomSource::seeded(13));
    assert!(env.check_wf());
    env.step().unwrap();
    assert_eq!(env.agents.len(), 2);
    assert_eq!(env.iteration, 1);
    // positions are untouched without movement, and no transaction ran.
    assert_eq!(env.agents[0].x, 0);
    assert_eq!(env.agents[1].x, 900_000_000);
}
