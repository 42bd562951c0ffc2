use backtest::decimal::checked_product;
use backtest::decimal::checked_quotient;
use backtest::decimal::checked_ratio;
use backtest::decimal::floor_div;
use backtest::decimal::isqrt;
use backtest::decimal::relative_change;
use backtest::decimal::SCALE;

#[test]
fn one_is_a_million_units() {
    assert_eq!(SCALE, 1_000_000);
}

#[test]
fn floor_div_rounds_toward_negative_infinity() {
    assert_eq!(floor_div(7, 2), 3);
    assert_eq!(floor_div(-7, 2), -4);
    assert_eq!(floor_div(-8, 2), -4);
    assert_eq!(floor_div(-1, 1_000), -1);
    assert_eq!(floor_div(0, 5), 0);
    assert_eq!(floor_div(i128::MIN, 1), i128::MIN);
    assert_eq!(floor_div(i128::MIN, i128::MAX), -2);
    assert_eq!(floor_div(i128::MAX, i128::MAX), 1);
}

#[test]
fn products_are_rounded_down() {
    assert_eq!(checked_product(1_500_000, 2_000_000), Some(3_000_000));
    assert_eq!(checked_product(333_333, 3_000_000), Some(999_999));
    assert_eq!(checked_product(1, 999_999), Some(0));
    assert_eq!(checked_product(0, u64::MAX), Some(0));
    assert_eq!(checked_product(u64::MAX, 1_000_000), Some(u64::MAX));
}

#[test]
fn products_beyond_the_range_are_none() {
    assert_eq!(checked_product(u64::MAX, 1_000_001), None);
    assert_eq!(checked_product(u64::MAX, u64::MAX), None);
}

#[test]
fn quotients_are_rounded_down() {
    assert_eq!(checked_quotient(10_000_000_000, 100_000_000), Some(100_000_000));
    assert_eq!(checked_quotient(1_000_000, 3_000_000), Some(333_333));
    assert_eq!(checked_quotient(1, 2_000_000), Some(0));
    assert_eq!(checked_quotient(u64::MAX, 1_000_000), Some(u64::MAX));
}

#[test]
fn quotients_by_zero_or_beyond_the_range_are_none() {
    assert_eq!(checked_quotient(5, 0), None);
    assert_eq!(checked_quotient(0, 0), None);
    assert_eq!(checked_quotient(u64::MAX, 999_999), None);
}

#[test]
fn ratios_are_signed_and_rounded_down() {
    assert_eq!(checked_ratio(1, 3), Some(333_333));
    assert_eq!(checked_ratio(-1, 3), Some(-333_334));
    assert_eq!(checked_ratio(-2_000_000_000, 11_000_000_000), Some(-181_819));
    assert_eq!(checked_ratio(0, 7), Some(0));
    assert_eq!(checked_ratio(i64::MAX as i128, 1_000_000), Some(i64::MAX));
    assert_eq!(checked_ratio(i64::MIN as i128, 1_000_000), Some(i64::MIN));
}

#[test]
fn ratios_beyond_the_range_are_none() {
    assert_eq!(checked_ratio(i64::MAX as i128 + 1, 1_000_000), None);
    assert_eq!(checked_ratio(i64::MIN as i128 - 1, 1_000_000), None);
    assert_eq!(checked_ratio(1 << 80, 1), None);
}

#[test]
fn relative_change_is_the_rate_of_return() {
    assert_eq!(relative_change(10_000, 12_000), Some(200_000));
    assert_eq!(relative_change(11_000, 9_000), Some(-181_819));
    assert_eq!(relative_change(5, 5), Some(0));
    assert_eq!(relative_change(5, 0), Some(-1_000_000));
}

#[test]
fn relative_change_from_zero_or_beyond_the_range_is_none() {
    assert_eq!(relative_change(0, 5), None);
    assert_eq!(relative_change(1, u64::MAX), None);
}

#[test]
fn isqrt_rounds_down() {
    assert_eq!(isqrt(0), 0);
    assert_eq!(isqrt(1), 1);
    assert_eq!(isqrt(15), 3);
    assert_eq!(isqrt(16), 4);
    assert_eq!(isqrt(17), 4);
    assert_eq!(isqrt(44_360_868_972), 210_620);
    assert_eq!(isqrt(u128::MAX), u64::MAX);
    let root = u64::MAX as u128;
    assert_eq!(isqrt(root * root), u64::MAX);
    assert_eq!(isqrt(root * root - 1), u64::MAX - 1);
}
