use ln_manager::{ConfirmationTarget, FeeEstimator, FeeQuery, MIN_FEE_SAT_PER_1000_WEIGHT};

const TIERS: [ConfirmationTarget; 3] =
    [ConfirmationTarget::Background, ConfirmationTarget::Normal, ConfirmationTarget::HighPriority];

#[test]
fn fresh_estimator_reports_the_floor() {
    let fees = FeeEstimator::new();
    for t in TIERS {
        assert_eq!(fees.get_est_sat_per_1000_weight(t), 253);
    }
    assert_eq!(MIN_FEE_SAT_PER_1000_WEIGHT, 253);
}

#[test]
fn rate_is_converted_with_margin() {
    let mut fees = FeeEstimator::new();
    // 0.001 BTC/kB is 100_000 sat/kB: 100_000 / 250 + 3 = 403.
    fees.update_value(ConfirmationTarget::Normal, Some(100_000));
    assert_eq!(fees.get_est_sat_per_1000_weight(ConfirmationTarget::Normal), 403);
    // 0.00500001 BTC/kB: 500_001 / 250 = 2000, plus 3.
    fees.update_value(ConfirmationTarget::HighPriority, Some(500_001));
    assert_eq!(fees.get_est_sat_per_1000_weight(ConfirmationTarget::HighPriority), 2003);
}

#[test]
fn low_rate_is_clamped_to_the_floor() {
    let mut fees = FeeEstimator::new();
    // 10_000 / 250 + 3 = 43, below the floor.
    fees.update_value(ConfirmationTarget::Background, Some(10_000));
    assert_eq!(fees.get_est_sat_per_1000_weight(ConfirmationTarget::Background), 253);
    fees.update_value(ConfirmationTarget::Background, Some(0));
    assert_eq!(fees.get_est_sat_per_1000_weight(ConfirmationTarget::Background), 253);
    // 62_500 / 250 + 3 = 253 exactly.
    fees.update_value(ConfirmationTarget::Background, Some(62_500));
    assert_eq!(fees.get_est_sat_per_1000_weight(ConfirmationTarget::Background), 253);
    fees.update_value(ConfirmationTarget::Background, Some(62_750));
    assert_eq!(fees.get_est_sat_per_1000_weight(ConfirmationTarget::Background), 254);
}

#[test]
fn failed_query_keeps_every_tier() {
    let mut fees = FeeEstimator::new();
    fees.update_values(Some(1_000_000), Some(500_000), Some(250_000));
    assert_eq!(fees.get_est_sat_per_1000_weight(ConfirmationTarget::HighPriority), 4003);
    assert_eq!(fees.get_est_sat_per_1000_weight(ConfirmationTarget::Normal), 2003);
    assert_eq!(fees.get_est_sat_per_1000_weight(ConfirmationTarget::Background), 1003);
    fees.update_values(None, Some(750_000), None);
    assert_eq!(fees.get_est_sat_per_1000_weight(ConfirmationTarget::HighPriority), 4003);
    assert_eq!(fees.get_est_sat_per_1000_weight(ConfirmationTarget::Normal), 3003);
    assert_eq!(fees.get_est_sat_per_1000_weight(ConfirmationTarget::Background), 1003);
    fees.update_value(ConfirmationTarget::Normal, None);
    assert_eq!(fees.get_est_sat_per_1000_weight(ConfirmationTarget::Normal), 3003);
}

#[test]
fn largest_rate_does_not_overflow() {
    let mut fees = FeeEstimator::new();
    fees.update_value(ConfirmationTarget::Normal, Some(u64::MAX));
    assert_eq!(fees.get_est_sat_per_1000_weight(ConfirmationTarget::Normal), u64::MAX / 250 + 3);
}

#[test]
fn refresh_issues_one_query_per_tier() {
    let q = FeeEstimator::queries();
    assert_eq!(
        q,
        vec![
            FeeQuery { tier: ConfirmationTarget::HighPriority, blocks: 6, conservative: true },
            FeeQuery { tier: ConfirmationTarget::Normal, blocks: 18, conservative: false },
            FeeQuery { tier: ConfirmationTarget::Background, blocks: 144, conservative: false },
        ]
    );
}
