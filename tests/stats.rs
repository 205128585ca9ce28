use elevator::stats::variable_stats;

fn to_micro(values: &[f64]) -> Vec<i64> {
    values.iter().map(|v| (v * 1_000_000.0).round() as i64).collect()
}

fn stats_of(values: &[f64]) -> (f64, f64) {
    let (mean, dev) = variable_stats(&to_micro(values)).unwrap();
    (mean as f64 / 1_000_000.0, dev as f64 / 1_000_000.0)
}

#[test]
fn should_calculate_variable_stats_correctly() {
    let test_data = vec![
        (vec![1.0, 2.0, 3.0, 4.0, 5.0], 3.0, 1.41),
        (vec![1.0, 3.0, 5.0, 7.0, 9.0], 5.0, 2.83),
        (vec![1.0, 9.0, 1.0, 9.0, 1.0], 4.2, 3.92),
        (vec![1.0, 0.5, 0.7, 0.9, 0.6], 0.74, 0.19),
        (vec![200.0, 3.0, 24.0, 92.0, 111.0], 86.0, 69.84),
    ];
    for (data, avg, dev) in test_data {
        let (cavg, cdev) = stats_of(&data);
        assert!(cavg - avg < 0.1);
        assert!(cdev - dev < 0.1);
    }
}

#[test]
fn stats_are_exact_in_micro_units() {
    assert_eq!(variable_stats(&vec![1_000_000, 2_000_000, 3_000_000, 4_000_000, 5_000_000]), Some((3_000_000, 1_414_214)));
    assert_eq!(variable_stats(&vec![1_000_000, 9_000_000, 1_000_000, 9_000_000, 1_000_000]), Some((4_200_000, 3_919_184)));
    assert_eq!(variable_stats(&vec![1_000_000, 3_000_000, 5_000_000, 7_000_000, 9_000_000]), Some((5_000_000, 2_828_427)));
}

#[test]
fn stats_divide_by_count_not_count_minus_one() {
    // Deviations of 1 and -1 from the mean: population variance 1, sample variance 2.
    assert_eq!(variable_stats(&vec![0, 2]), Some((1, 1)));
}

#[test]
fn stats_of_one_sample() {
    assert_eq!(variable_stats(&vec![-7]), Some((-7, 0)));
}

#[test]
fn stats_round_to_nearest() {
    // Means of -1.5 and 1.5 round half upward; deviations of 0.5 round up.
    assert_eq!(variable_stats(&vec![-1, -2]), Some((-1, 1)));
    assert_eq!(variable_stats(&vec![1, 2]), Some((2, 1)));
    // Deviation 0.433 rounds down to 0.
    assert_eq!(variable_stats(&vec![0, 0, 0, 1]), Some((0, 0)));
}

#[test]
fn stats_match_population_deviation_closely() {
    let (mean, dev) = stats_of(&[1.0, 2.0, 3.0, 4.0, 5.0]);
    assert_eq!(mean, 3.0);
    assert!((dev - 1.414214).abs() < 1e-6);
}

#[test]
fn stats_of_nothing() {
    assert_eq!(variable_stats(&vec![]), None);
}

#[test]
fn stats_of_extreme_samples() {
    let wide = 9_223_372_036_854_775_808u64;
    assert_eq!(variable_stats(&vec![i64::MIN, i64::MAX]), Some((0, wide)));
    assert_eq!(variable_stats(&vec![i64::MIN, i64::MAX, i64::MIN, i64::MAX]), Some((0, wide)));
    assert_eq!(variable_stats(&vec![i64::MAX, i64::MAX, i64::MAX]), Some((i64::MAX as i128, 0)));
    assert_eq!(variable_stats(&vec![i64::MIN]), Some((i64::MIN as i128, 0)));
    assert_eq!(
        variable_stats(&vec![i64::MIN, i64::MIN, i64::MAX]),
        Some((-3_074_457_345_618_258_603, 8_695_878_550_221_854_808))
    );
}

#[test]
fn stats_of_a_long_run() {
    // Voltage samples of a long run: totals and squares far past 64 bits.
    let mut data = vec![1_620_000_000i64; 200_000];
    data.extend(vec![1_320_000_000i64; 200_000]);
    assert_eq!(variable_stats(&data), Some((1_470_000_000, 150_000_000)));
}
