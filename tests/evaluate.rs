use ab_conversion::proportion::{
    ab_conversion_test, evaluate, TestConfig, TestOutcome, Variant, VariantSample,
    DEFAULT_MIN_SAMPLE_SIZE, DEFAULT_Z_CRITICAL, SCALE,
};

fn sample(rate: u32, size: u32) -> VariantSample {
    VariantSample::new(rate, size)
}

#[test]
fn large_difference_is_significant_for_b() {
    let r = ab_conversion_test(200_000, 1000, 700_000, 800);
    match r {
        TestOutcome::Significant { winner, low, high } => {
            assert_eq!(winner, Variant::B);
            assert!(low > 0);
            assert!(high > 0);
            assert!(low < high);
        }
        other => panic!("expected a significant outcome, got {:?}", other),
    }
}

#[test]
fn large_difference_has_exact_interval() {
    // diff = 0.5, se = sqrt(p(1-p)(1/1000 + 1/800)) with p = 760/1800,
    // 1.96 * se = 0.0459196..., rounded up to 45920 millionths.
    let r = ab_conversion_test(200_000, 1000, 700_000, 800);
    assert_eq!(
        r,
        TestOutcome::Significant { winner: Variant::B, low: 454_080, high: 545_920 }
    );
}

#[test]
fn tiny_difference_is_not_significant() {
    assert_eq!(ab_conversion_test(200_000, 1000, 210_000, 800), TestOutcome::NotSignificant);
}

#[test]
fn small_sample_a_is_insufficient() {
    assert_eq!(ab_conversion_test(200_000, 3, 700_000, 1000), TestOutcome::InsufficientData);
}

#[test]
fn identical_rates_are_not_significant() {
    assert_eq!(ab_conversion_test(500_000, 100, 500_000, 100), TestOutcome::NotSignificant);
}

#[test]
fn equal_rates_with_unequal_sizes_are_not_significant() {
    assert_eq!(ab_conversion_test(300_000, 5000, 300_000, 7000), TestOutcome::NotSignificant);
    assert_eq!(ab_conversion_test(1, 4_000_000_000, 1, 5), TestOutcome::NotSignificant);
}

#[test]
fn small_sample_b_wins_over_invalid_rates() {
    assert_eq!(ab_conversion_test(2_000_000, 1000, 3_000_000, 4), TestOutcome::InsufficientData);
    assert_eq!(ab_conversion_test(0, 4, 1_000_000, 1000), TestOutcome::InsufficientData);
}

#[test]
fn minimum_size_is_accepted() {
    let r = ab_conversion_test(0, 5, 1_000_000, 5);
    assert!(matches!(r, TestOutcome::Significant { winner: Variant::B, .. }));
}

#[test]
fn rate_above_one_is_invalid() {
    assert_eq!(ab_conversion_test(1_000_001, 100, 500_000, 100), TestOutcome::InvalidInput);
    assert_eq!(ab_conversion_test(500_000, 100, u32::MAX, 100), TestOutcome::InvalidInput);
}

#[test]
fn zero_standard_error_is_not_significant() {
    assert_eq!(ab_conversion_test(0, 1000, 0, 800), TestOutcome::NotSignificant);
    assert_eq!(ab_conversion_test(SCALE, 1000, SCALE, 800), TestOutcome::NotSignificant);
}

#[test]
fn empty_sample_is_insufficient_even_without_minimum() {
    let config = TestConfig::new(0, DEFAULT_Z_CRITICAL);
    assert_eq!(
        evaluate(sample(200_000, 0), sample(700_000, 800), &config),
        TestOutcome::InsufficientData
    );
}

#[test]
fn repeated_evaluation_agrees() {
    let config = TestConfig::default();
    let a = sample(200_000, 1000);
    let b = sample(240_000, 800);
    assert_eq!(evaluate(a, b, &config), evaluate(a, b, &config));
}

#[test]
fn swapping_samples_swaps_winner_only() {
    let config = TestConfig::default();
    let a = sample(200_000, 1000);
    let b = sample(700_000, 800);
    assert_eq!(
        evaluate(b, a, &config),
        TestOutcome::Significant { winner: Variant::A, low: 454_080, high: 545_920 }
    );
    assert_eq!(
        evaluate(sample(210_000, 800), a, &config),
        evaluate(a, sample(210_000, 800), &config)
    );
}

#[test]
fn wider_gap_turns_significant() {
    assert_eq!(ab_conversion_test(200_000, 1000, 210_000, 800), TestOutcome::NotSignificant);
    assert_eq!(
        ab_conversion_test(200_000, 1000, 240_000, 800),
        TestOutcome::Significant { winner: Variant::B, low: 1_627, high: 78_373 }
    );
    assert_eq!(
        ab_conversion_test(200_000, 1000, 300_000, 800),
        TestOutcome::Significant { winner: Variant::B, low: 60_045, high: 139_955 }
    );
}

#[test]
fn stricter_confidence_needs_more_evidence() {
    let strict = TestConfig::new(DEFAULT_MIN_SAMPLE_SIZE, 2_576_000);
    assert_eq!(
        evaluate(sample(200_000, 1000), sample(240_000, 800), &strict),
        TestOutcome::NotSignificant
    );
}

#[test]
fn custom_minimum_size_applies() {
    let config = TestConfig::new(1000, DEFAULT_Z_CRITICAL);
    assert_eq!(
        evaluate(sample(200_000, 1000), sample(700_000, 800), &config),
        TestOutcome::InsufficientData
    );
}

#[test]
fn default_config_values() {
    let config = TestConfig::default();
    assert_eq!(config.min_sample_size, 5);
    assert_eq!(config.z_critical, 1_960_000);
}

#[test]
fn largest_inputs_do_not_overflow() {
    let config = TestConfig::new(1, u32::MAX);
    let r = evaluate(sample(0, u32::MAX), sample(SCALE, u32::MAX), &config);
    assert!(matches!(r, TestOutcome::Significant { winner: Variant::B, .. }));
    let r = ab_conversion_test(400_000, u32::MAX, 410_000, u32::MAX);
    assert!(matches!(r, TestOutcome::Significant { winner: Variant::B, .. }));
}

#[test]
fn sample_from_counts_rounds_to_nearest() {
    assert_eq!(VariantSample::from_counts(200, 1000), Some(sample(200_000, 1000)));
    assert_eq!(VariantSample::from_counts(560, 800), Some(sample(700_000, 800)));
    assert_eq!(VariantSample::from_counts(1, 3), Some(sample(333_333, 3)));
    assert_eq!(VariantSample::from_counts(2, 3), Some(sample(666_667, 3)));
    assert_eq!(VariantSample::from_counts(7, 7), Some(sample(SCALE, 7)));
}

#[test]
fn sample_from_counts_rejects_impossible_counts() {
    assert_eq!(VariantSample::from_counts(0, 0), None);
    assert_eq!(VariantSample::from_counts(5, 4), None);
}
