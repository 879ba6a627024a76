use timers::tsc::{calc_tps, round_keeping_top_sigdigs, to_ms, to_ns, to_us, tps_from_samples};

#[test]
fn test_calc_tps() {
    assert_eq!(calc_tps(10_000_000, 1_000_000), 10_000_000_000);
    assert_eq!(calc_tps(12_400_000, 1_000_000), 12_000_000_000);
    assert_eq!(calc_tps(12_600_000, 1_000_000), 13_000_000_000);
}

#[test]
fn rounding_keeps_two_significant_digits() {
    assert_eq!(round_keeping_top_sigdigs(10_000_000, 2), 10_000_000);
    assert_eq!(round_keeping_top_sigdigs(12_400_000, 2), 12_000_000);
    assert_eq!(round_keeping_top_sigdigs(12_600_000, 2), 13_000_000);
    assert_eq!(round_keeping_top_sigdigs(2_487_193_044, 2), 2_500_000_000);
}

#[test]
fn rounding_halves_go_up() {
    assert_eq!(round_keeping_top_sigdigs(12_500_000, 2), 13_000_000);
    assert_eq!(round_keeping_top_sigdigs(1_249, 2), 1_200);
    assert_eq!(round_keeping_top_sigdigs(1_250, 2), 1_300);
}

#[test]
fn rounding_small_values_unchanged() {
    assert_eq!(round_keeping_top_sigdigs(0, 2), 0);
    assert_eq!(round_keeping_top_sigdigs(7, 2), 7);
    assert_eq!(round_keeping_top_sigdigs(99, 2), 99);
    assert_eq!(round_keeping_top_sigdigs(995, 2), 1_000);
}

#[test]
fn rounding_clamps_at_largest_value() {
    assert_eq!(round_keeping_top_sigdigs(u64::MAX, 2), 18_000_000_000_000_000_000);
    assert_eq!(round_keeping_top_sigdigs(u64::MAX, 1), u64::MAX);
    assert_eq!(round_keeping_top_sigdigs(u64::MAX, 20), u64::MAX);
}

#[test]
fn conversions_at_three_gigahertz() {
    let tps = 3_000_000_000;
    assert_eq!(to_ns(3_000_000_000, tps), 1_000_000_000);
    assert_eq!(to_us(3_000_000_000, tps), 1_000_000);
    assert_eq!(to_ms(3_000_000_000, tps), 1_000);
    assert_eq!(to_ns(7, tps), 2);
}

#[test]
fn milliseconds_are_microseconds_over_a_thousand() {
    let tps = 1_000_000_000;
    let x = 123_456_789_000;
    assert_eq!(to_ms(x, tps), to_us(x, tps) / 1000);
    assert_eq!(to_ms(x, tps), 123_456);
    assert_eq!(to_ms(1_009_000_000, tps), 1_009);
}

#[test]
fn conversion_of_long_spans_does_not_overflow() {
    let tps = 2_500_000_000;
    let ticks = 25_000_000_000_000;
    assert_eq!(to_ns(ticks, tps), 10_000_000_000_000);
    assert_eq!(to_ms(ticks, tps), 10_000_000);
}

#[test]
fn calibration_from_readings() {
    assert_eq!(tps_from_samples(1_000, 5_000, 101_000, 255_000), Some(2_500_000_000));
    assert_eq!(tps_from_samples(0, 0, 100_000, 248_719), Some(2_500_000_000));
}

#[test]
fn calibration_rejects_stalled_clock() {
    assert_eq!(tps_from_samples(5_000, 0, 5_000, 100), None);
    assert_eq!(tps_from_samples(6_000, 0, 5_000, 100), None);
}

#[test]
fn calibration_rejects_backward_counter() {
    assert_eq!(tps_from_samples(0, 500, 100_000, 400), None);
}

#[test]
fn calibration_rejects_oversized_estimate() {
    assert_eq!(tps_from_samples(0, 0, 1, u64::MAX), None);
}
