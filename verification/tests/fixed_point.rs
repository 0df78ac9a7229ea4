use wealthsim::curves::{cos_turn, exp_neg, logistic, sin_turn, EXP_SAT, TURN};
use wealthsim::fixed::{add_checked, div_share, mul_frac, sub_checked, SCALE};

#[test]
fn mul_frac_rounds_toward_zero() {
    assert_eq!(mul_frac(10_000_000, 500_000), 5_000_000);
    assert_eq!(mul_frac(-10, 500_000), -5);
    assert_eq!(mul_frac(-3, 500_000), -1);
    assert_eq!(mul_frac(3, 500_000), 1);
    assert_eq!(mul_frac(7, 0), 0);
    assert_eq!(mul_frac(7, SCALE), 7);
}

#[test]
fn checked_sums_detect_overflow() {
    assert_eq!(add_checked(1, 2), Some(3));
    assert_eq!(add_checked(i64::MAX, 1), None);
    assert_eq!(add_checked(i64::MIN, -1), None);
    assert_eq!(sub_checked(5, 7), Some(-2));
    assert_eq!(sub_checked(i64::MIN, 1), None);
}

#[test]
fn estate_shares_round_toward_zero() {
    assert_eq!(div_share(7, 2), 3);
    assert_eq!(div_share(-7, 2), -3);
    assert_eq!(div_share(100, 3), 33);
    assert_eq!(div_share(0, 5), 0);
}

#[test]
fn trigonometry_hits_exact_anchors() {
    assert_eq!(sin_turn(0), 0);
    assert_eq!(cos_turn(0), SCALE);
    let s = sin_turn(TURN / 4);
    assert_eq!(s, SCALE);
    for h in 0..TURN {
        let c = cos_turn(h);
        let s = sin_turn(h);
        assert!(-SCALE <= c && c <= SCALE);
        assert!(-SCALE <= s && s <= SCALE);
    }
}

#[test]
fn exponential_anchors() {
    assert_eq!(exp_neg(0), SCALE);
    let half = exp_neg(693_147);
    assert!((499_000..=501_000).contains(&half));
    assert!(exp_neg(EXP_SAT) <= 3);
}

#[test]
fn logistic_saturates_at_its_limits() {
    assert_eq!(logistic(EXP_SAT), SCALE);
    assert_eq!(logistic(i64::MAX), SCALE);
    assert_eq!(logistic(-EXP_SAT), 0);
    assert_eq!(logistic(i64::MIN), 0);
    let mid = logistic(0);
    assert!((499_000..=500_000).contains(&mid));
    for t in [-30_000_000i64, -1_000_000, -1, 0, 1, 1_000_000, 30_000_000] {
        let p = logistic(t);
        assert!((0..=SCALE).contains(&p));
    }
}
