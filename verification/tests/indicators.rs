use backtest::data_loader::MarketData;
use backtest::strategy::indicators::moving_average;
use chrono::NaiveDate;

const UNIT: u64 = 1_000_000;

fn record(day: u32, price: Option<u64>) -> MarketData {
    MarketData {
        date: NaiveDate::from_ymd_opt(2024, 1, day).unwrap(),
        price,
        open: None,
        high: None,
        low: None,
        volume: None,
        change_percent: None,
    }
}

fn series(prices: &[u64]) -> Vec<MarketData> {
    prices
        .iter()
        .enumerate()
        .map(|(i, p)| record(i as u32 + 1, Some(*p)))
        .collect()
}

#[test]
fn moving_average_has_one_value_per_record() {
    let data = series(&[5, 6, 7, 8, 9, 10, 11]);
    for window in 1..10 {
        assert_eq!(moving_average(&data, window).len(), data.len());
    }
}

#[test]
fn moving_average_of_nothing_is_nothing() {
    assert_eq!(moving_average(&[], 3), Vec::<u64>::new());
}

#[test]
fn unit_window_returns_the_prices() {
    let prices = [3 * UNIT, 0, 7 * UNIT + 1, u64::MAX, 12];
    let data = series(&prices);
    assert_eq!(moving_average(&data, 1), prices.to_vec());
}

#[test]
fn unit_window_returns_zero_for_a_missing_price() {
    let data = vec![record(1, Some(4 * UNIT)), record(2, None), record(3, Some(6 * UNIT))];
    assert_eq!(moving_average(&data, 1), vec![4 * UNIT, 0, 6 * UNIT]);
}

#[test]
fn window_of_two_warms_up_then_slides() {
    let data = series(&[UNIT, 2 * UNIT, 4 * UNIT, 8 * UNIT]);
    assert_eq!(
        moving_average(&data, 2),
        vec![UNIT, 1_500_000, 3 * UNIT, 6 * UNIT]
    );
}

#[test]
fn window_of_three_over_twelve_prices() {
    let prices: Vec<u64> = [10, 11, 12, 11, 10, 9, 10, 12, 14, 13, 11, 9]
        .iter()
        .map(|p| p * UNIT)
        .collect();
    assert_eq!(
        moving_average(&series(&prices), 3),
        vec![
            10_000_000, 10_500_000, 11_000_000, 11_333_333, 11_000_000, 10_000_000, 9_666_666,
            10_333_333, 12_000_000, 13_000_000, 12_666_666, 11_000_000
        ]
    );
}

#[test]
fn averages_are_rounded_down() {
    let data = series(&[5, 6, 0, 7]);
    assert_eq!(moving_average(&data, 3), vec![5, 5, 3, 4]);
}

#[test]
fn missing_prices_pull_the_average_down() {
    let data = vec![record(1, Some(4 * UNIT)), record(2, None), record(3, Some(8 * UNIT))];
    assert_eq!(moving_average(&data, 3), vec![4 * UNIT, 2 * UNIT, 4 * UNIT]);
}

#[test]
fn a_window_longer_than_the_series_averages_everything() {
    let data = series(&[2 * UNIT, 4 * UNIT, 9 * UNIT]);
    assert_eq!(moving_average(&data, 50), vec![2 * UNIT, 3 * UNIT, 5 * UNIT]);
}

#[test]
fn the_largest_prices_do_not_overflow() {
    let data = series(&[u64::MAX, u64::MAX, u64::MAX]);
    assert_eq!(moving_average(&data, 2), vec![u64::MAX, u64::MAX, u64::MAX]);
}
