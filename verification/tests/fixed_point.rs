use tube_cutter::fixed::{
    format_milli, mean_of, parse_decimal, saturating_difference, saturating_sum, scaled_by_ratio,
};

#[test]
fn whole_numbers_are_written_without_a_point() {
    assert_eq!(format_milli(40_000), "40");
    assert_eq!(format_milli(0), "0");
    assert_eq!(format_milli(1_000_000), "1000");
    assert_eq!(format_milli(-7_000), "-7");
}

#[test]
fn fractions_are_written_without_trailing_zeros() {
    assert_eq!(format_milli(52_500), "52.5");
    assert_eq!(format_milli(250), "0.25");
    assert_eq!(format_milli(-3_250), "-3.25");
    assert_eq!(format_milli(1), "0.001");
    assert_eq!(format_milli(10), "0.01");
    assert_eq!(format_milli(100), "0.1");
    assert_eq!(format_milli(12_345), "12.345");
    assert_eq!(format_milli(12_040), "12.04");
    assert_eq!(format_milli(-5), "-0.005");
}

#[test]
fn the_ends_of_the_range_are_written_in_full() {
    assert_eq!(format_milli(i64::MAX), "9223372036854775.807");
    assert_eq!(format_milli(i64::MIN), "-9223372036854775.808");
}

#[test]
fn decimals_are_read_as_thousandths() {
    assert_eq!(parse_decimal(b"12.500"), Some(12_500));
    assert_eq!(parse_decimal(b"-3.250"), Some(-3_250));
    assert_eq!(parse_decimal(b"0.000"), Some(0));
    assert_eq!(parse_decimal(b"7"), Some(7_000));
    assert_eq!(parse_decimal(b"0.5"), Some(500));
    assert_eq!(parse_decimal(b"0.05"), Some(50));
    assert_eq!(parse_decimal(b"-0.001"), Some(-1));
    assert_eq!(parse_decimal(b"007.1"), Some(7_100));
}

#[test]
fn digits_past_the_third_are_dropped() {
    assert_eq!(parse_decimal(b"1.23456"), Some(1_234));
    assert_eq!(parse_decimal(b"-1.9999"), Some(-1_999));
    assert_eq!(parse_decimal(b"0.0009"), Some(0));
}

#[test]
fn what_is_no_decimal_is_not_read() {
    assert_eq!(parse_decimal(b""), None);
    assert_eq!(parse_decimal(b"-"), None);
    assert_eq!(parse_decimal(b"."), None);
    assert_eq!(parse_decimal(b"1."), None);
    assert_eq!(parse_decimal(b".5"), None);
    assert_eq!(parse_decimal(b"+1"), None);
    assert_eq!(parse_decimal(b"1e5"), None);
    assert_eq!(parse_decimal(b"1.2.3"), None);
    assert_eq!(parse_decimal(b"--1"), None);
    assert_eq!(parse_decimal(b"1 "), None);
    assert_eq!(parse_decimal(b"12a"), None);
    assert_eq!(parse_decimal(b"1.2x"), None);
}

#[test]
fn values_beyond_the_range_are_brought_to_its_end() {
    assert_eq!(parse_decimal(b"9223372036854775.807"), Some(i64::MAX));
    assert_eq!(parse_decimal(b"9223372036854775.808"), Some(i64::MAX));
    assert_eq!(parse_decimal(b"-9223372036854775.808"), Some(i64::MIN));
    assert_eq!(parse_decimal(b"-9223372036854775.809"), Some(i64::MIN));
    assert_eq!(parse_decimal(b"99999999999999999999999999999999"), Some(i64::MAX));
    assert_eq!(parse_decimal(b"-99999999999999999999999999999999.5"), Some(i64::MIN));
    assert_eq!(parse_decimal(b"9223372036854775.806"), Some(i64::MAX - 1));
}

#[test]
fn what_is_written_is_read_back() {
    for v in [0i64, 1, -1, 999, 1_000, -52_500, 123_456_789, i64::MAX, i64::MIN] {
        assert_eq!(parse_decimal(format_milli(v).as_bytes()), Some(v));
    }
}

#[test]
fn sums_and_differences_saturate() {
    assert_eq!(saturating_sum(40_000, 25_000), 65_000);
    assert_eq!(saturating_sum(i64::MAX, 1), i64::MAX);
    assert_eq!(saturating_sum(i64::MIN, -1), i64::MIN);
    assert_eq!(saturating_difference(10, 25), -15);
    assert_eq!(saturating_difference(i64::MIN, 1), i64::MIN);
    assert_eq!(saturating_difference(i64::MAX, -1), i64::MAX);
}

#[test]
fn the_mean_rounds_toward_zero() {
    assert_eq!(mean_of(40_000, 65_000), 52_500);
    assert_eq!(mean_of(1, 2), 1);
    assert_eq!(mean_of(-1, -2), -1);
    assert_eq!(mean_of(-3, 2), 0);
    assert_eq!(mean_of(i64::MAX, i64::MAX), i64::MAX);
    assert_eq!(mean_of(i64::MIN, i64::MIN), i64::MIN);
    assert_eq!(mean_of(i64::MIN, i64::MAX), 0);
}

#[test]
fn a_ratio_scales_a_count() {
    assert_eq!(scaled_by_ratio(26_000, 1_000_000), 26_000);
    assert_eq!(scaled_by_ratio(26_000, 500_000), 13_000);
    assert_eq!(scaled_by_ratio(26_000, -500_000), -13_000);
    assert_eq!(scaled_by_ratio(26_000, 0), 0);
    assert_eq!(scaled_by_ratio(3, 500_000), 1);
    assert_eq!(scaled_by_ratio(-3, 500_000), -1);
    assert_eq!(scaled_by_ratio(i64::MAX, 2_000_000), i64::MAX);
    assert_eq!(scaled_by_ratio(i64::MIN, 2_000_000), i64::MIN);
    assert_eq!(scaled_by_ratio(i64::MIN, i64::MIN), i64::MAX);
}
