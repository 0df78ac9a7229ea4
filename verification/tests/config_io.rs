use wealthsim::codec::{parse_config, render_config, ConfigError};
use wealthsim::config::{
    create_default_config, AgeAndDeath, Education, EnvironmentConfig, IncomeAndConsumption,
    Transaction, Wealth,
};

fn sample_config() -> EnvironmentConfig {
    EnvironmentConfig::new(
        5000,
        1000,
        1000,
        1000,
        50_000_000,
        15_000_000,
        AgeAndDeath::new(360, 120, 960, 1080, 20_000),
        Education::new(4_000_000, 10_000_000, 4_000_000, 2_000_000, 5_000, 50_000, 10_000_000),
        IncomeAndConsumption::new(50_000, 2_000_000, 10_000_000, 200_000),
        Transaction::new(300_000, 1_000_000, 1_000, 50_000, 50_000),
        Wealth::new(10_000_000, 100_000_000, 100_000, 300_000),
    )
}

#[test]
fn default_configuration_is_valid() {
    let c = create_default_config();
    assert!(c.check_valid());
    assert_eq!(c, sample_config());
}

#[test]
fn configuration_round_trips_field_for_field() {
    let c = create_default_config();
    let text = render_config(&c);
    let reloaded = parse_config(&text);
    assert_eq!(reloaded, Ok(c));
}

#[test]
fn negative_initial_wealth_round_trips() {
    let mut c = create_default_config();
    c.wealth.min_initial_wealth = -25_000_000;
    assert!(c.check_valid());
    let text = render_config(&c);
    assert_eq!(parse_config(&text), Ok(c));
}

#[test]
fn malformed_text_is_rejected() {
    assert_eq!(parse_config(&b"garbage".to_vec()), Err(ConfigError::Malformed));
    assert_eq!(parse_config(&Vec::new()), Err(ConfigError::Malformed));
    let mut truncated = render_config(&create_default_config());
    truncated.pop();
    assert_eq!(parse_config(&truncated), Err(ConfigError::Malformed));
    let mut trailing = render_config(&create_default_config());
    trailing.push(b'x');
    assert_eq!(parse_config(&trailing), Err(ConfigError::Malformed));
}

#[test]
fn invalid_values_are_rejected() {
    let text = render_config(&create_default_config());
    let as_string = String::from_utf8(text).unwrap();
    let zero_length = as_string.replace("length=1000\n", "length=0\n");
    assert_eq!(
        parse_config(&zero_length.into_bytes()),
        Err(ConfigError::Invalid)
    );
}

#[test]
fn labels_are_documentation_order_carries_meaning() {
    let text = render_config(&create_default_config());
    let as_string = String::from_utf8(text).unwrap();
    let relabeled = as_string.replace("num_agents=", "population=");
    assert_eq!(
        parse_config(&relabeled.into_bytes()),
        Ok(create_default_config())
    );
}
