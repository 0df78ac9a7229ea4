use wealthsim::agent::Agent;
use wealthsim::metrics::{gini, percentile, sort_i64, Metrics};

fn living(id: usize, wealth: i64, education: i64, age: u32) -> Agent {
    Agent {
        children: vec![],
        id,
        x: 0,
        y: 0,
        wealth,
        education,
        age,
        alive: true,
        mid_age: 960,
        steepness: 20_000,
    }
}

#[test]
fn gini_of_equal_population_is_exactly_zero() {
    let v: Vec<i64> = vec![50_000_000; 10];
    assert_eq!(gini(&v), 0);
}

#[test]
fn gini_of_single_holder_approaches_one() {
    let mut v: Vec<i64> = vec![0; 9];
    v.push(450_000_000);
    assert_eq!(gini(&v), 900_000);
    let mut w: Vec<i64> = vec![0; 99];
    w.push(1_000_000);
    assert_eq!(gini(&w), 990_000);
}

#[test]
fn gini_of_empty_or_zero_total_is_zero() {
    assert_eq!(gini(&Vec::new()), 0);
    assert_eq!(gini(&vec![0, 0, 0]), 0);
}

#[test]
fn sorting_orders_ascending() {
    let mut v: Vec<i64> = vec![5, -1, 3, 3, 0];
    sort_i64(&mut v);
    assert_eq!(v, vec![-1, 0, 3, 3, 5]);
}

#[test]
fn percentiles_read_the_rank_formula_index() {
    let v: Vec<i64> = vec![10, 20, 30, 40, 50, 60, 70, 80, 90, 100];
    assert_eq!(percentile(&v, 10), 20);
    assert_eq!(percentile(&v, 50), 60);
    assert_eq!(percentile(&v, 90), 100);
    assert_eq!(percentile(&v, 100), 100);
    let single: Vec<i64> = vec![7];
    assert_eq!(percentile(&single, 50), 7);
}

#[test]
fn log_renders_the_expected_row() {
    let metrics = Metrics::new("metrics.csv");
    let agents = vec![living(0, 50_000_000, 5_000_000, 300)];
    let row = metrics.log(0, &agents).unwrap();
    let text = String::from_utf8(row).unwrap();
    assert_eq!(
        text,
        "0,0,50000000,50000000,50000000,50000000,50000000,50000000,50000000,50000000,1,5000000,5000000,5000000,5000000,5000000,5000000,5000000,5000000\n"
    );
}

#[test]
fn log_ignores_the_dead_and_skips_empty_populations() {
    let metrics = Metrics::new("metrics.csv");
    let mut dead = living(1, 999_999_999, 9_000_000, 400);
    dead.alive = false;
    let agents = vec![living(0, 50_000_000, 5_000_000, 300), dead.clone()];
    let row = metrics.log(3, &agents).unwrap();
    let text = String::from_utf8(row).unwrap();
    assert!(text.starts_with("3,0,50000000,"));
    assert_eq!(metrics.log(0, &vec![dead]), None);
    assert_eq!(metrics.log(0, &Vec::new()), None);
}

#[test]
fn header_names_the_columns() {
    let metrics = Metrics::new("metrics.csv");
    let header = String::from_utf8(metrics.header()).unwrap();
    assert_eq!(
        header,
        "iteration,gini,min,p10,p25,p50,p75,p90,max,total_wealth,adult_agents,edu_mean,edu_min,edu_p10,edu_p25,edu_p50,edu_p75,edu_p90,edu_max"
    );
}
