use backtest::backtester::run_backtest;
use backtest::data_loader::MarketData;
use backtest::error::BacktestError;
use backtest::report::calculate_metrics;
use backtest::report::metrics::calculate_max_drawdown;
use backtest::report::metrics::count_active_signals;
use backtest::report::metrics::standard_deviation;
use backtest::report::metrics::SQRT_TRADING_DAYS;
use backtest::report::metrics::TRADING_DAYS;
use backtest::report::value_bounds;
use backtest::strategy::process_strategy;
use backtest::strategy::BuyAndHold;
use backtest::strategy::MovingAverageCrossover;
use backtest::strategy::Signal;
use chrono::NaiveDate;

const UNIT: u64 = 1_000_000;

fn series(prices: &[u64]) -> Vec<MarketData> {
    let first = NaiveDate::from_ymd_opt(2024, 1, 1).unwrap();
    prices
        .iter()
        .enumerate()
        .map(|(i, p)| MarketData {
            date: first + chrono::Duration::days(i as i64),
            price: Some(*p * UNIT),
            open: None,
            high: None,
            low: None,
            volume: None,
            change_percent: None,
        })
        .collect()
}

#[test]
fn metrics_of_buy_and_hold_over_four_days() {
    let data = series(&[100, 110, 90, 120]);
    let (values, signals, _) = run_backtest(&BuyAndHold::new(), &data).unwrap();
    let metrics = calculate_metrics(&values, &signals, &data, 20_000).unwrap();
    assert_eq!(metrics.total_return, 200_000);
    assert_eq!(metrics.annualized_return, 12_600_000);
    assert_eq!(metrics.volatility, 3_343_488);
    assert_eq!(metrics.sharpe_ratio, 3_762_537);
    assert_eq!(metrics.max_drawdown, 181_818);
    assert_eq!(metrics.num_trades, 1);
}

#[test]
fn metrics_of_a_falling_series() {
    let values = [10_000 * UNIT, 8_000 * UNIT, 8_000 * UNIT, 4_000 * UNIT];
    let signals = [Signal::Buy, Signal::Sell, Signal::Hold, Signal::Sell];
    let metrics = calculate_metrics(&values, &signals, &series(&[1, 1, 1]), 20_000).unwrap();
    assert_eq!(metrics.total_return, -600_000);
    assert_eq!(metrics.annualized_return, -50_400_000);
    assert_eq!(metrics.volatility, 3_261_893);
    assert_eq!(metrics.sharpe_ratio, -15_457_283);
    assert_eq!(metrics.max_drawdown, 600_000);
    assert_eq!(metrics.num_trades, 3);
}

#[test]
fn sharpe_ratio_is_zero_without_volatility() {
    let values = [5 * UNIT, 5 * UNIT, 5 * UNIT];
    let metrics = calculate_metrics(&values, &[], &series(&[1, 1, 1]), 20_000).unwrap();
    assert_eq!(metrics.total_return, 0);
    assert_eq!(metrics.volatility, 0);
    assert_eq!(metrics.sharpe_ratio, 0);
    assert_eq!(metrics.max_drawdown, 0);
    assert_eq!(metrics.num_trades, 0);
}

#[test]
fn the_year_has_252_trading_days() {
    assert_eq!(TRADING_DAYS, 252);
    let root = SQRT_TRADING_DAYS as u128;
    assert!(root * root <= 252 * 1_000_000_000_000);
    assert!((root + 1) * (root + 1) > 252 * 1_000_000_000_000);
}

#[test]
fn fewer_than_two_values_are_degenerate() {
    let data = series(&[1, 2]);
    assert_eq!(
        calculate_metrics(&[], &[], &data, 0).err(),
        Some(BacktestError::DegenerateInput)
    );
    assert_eq!(
        calculate_metrics(&[7 * UNIT], &[Signal::Buy], &data, 0).err(),
        Some(BacktestError::DegenerateInput)
    );
}

#[test]
fn metrics_without_periods_are_degenerate() {
    assert_eq!(
        calculate_metrics(&[UNIT, 2 * UNIT], &[], &[], 0).err(),
        Some(BacktestError::DegenerateInput)
    );
}

#[test]
fn no_return_is_taken_from_a_value_of_zero() {
    let data = series(&[1, 2, 3]);
    assert_eq!(
        calculate_metrics(&[0, UNIT, UNIT], &[], &data, 0).err(),
        Some(BacktestError::ZeroValue { period: 0 })
    );
    assert_eq!(
        calculate_metrics(&[UNIT, 3, 0, 0, UNIT], &[], &data, 0).err(),
        Some(BacktestError::ZeroValue { period: 2 })
    );
}

#[test]
fn a_last_value_of_zero_is_a_total_loss() {
    let data = series(&[1, 2]);
    let metrics = calculate_metrics(&[UNIT, 0], &[], &data, 0).unwrap();
    assert_eq!(metrics.total_return, -(UNIT as i64));
    assert_eq!(metrics.max_drawdown, UNIT);
}

#[test]
fn a_return_beyond_the_range_overflows() {
    let data = series(&[1, 2]);
    assert_eq!(
        calculate_metrics(&[1, u64::MAX], &[], &data, 0).err(),
        Some(BacktestError::Overflow)
    );
}

#[test]
fn an_annualized_return_beyond_the_range_overflows() {
    // The total return fits, but 252 times it does not.
    let data = series(&[1]);
    assert_eq!(
        calculate_metrics(&[1, 5_000_000_000_000], &[], &data, 0).err(),
        Some(BacktestError::Overflow)
    );
}

#[test]
fn max_drawdown_is_zero_when_nothing_falls() {
    assert_eq!(calculate_max_drawdown(&[1, 1, 2, 3, 3, 10, u64::MAX]), 0);
    assert_eq!(calculate_max_drawdown(&[0, 0, 0]), 0);
    assert_eq!(calculate_max_drawdown(&[42]), 0);
}

#[test]
fn max_drawdown_is_taken_from_the_running_peak() {
    assert_eq!(calculate_max_drawdown(&[11_000, 9_000]), 181_818);
    assert_eq!(calculate_max_drawdown(&[100, 50, 200, 120, 300, 290]), 500_000);
    assert_eq!(calculate_max_drawdown(&[100, 90, 200, 100, 300, 290]), 500_000);
}

#[test]
fn max_drawdown_is_at_most_one() {
    assert_eq!(calculate_max_drawdown(&[u64::MAX, 0]), UNIT);
    assert_eq!(calculate_max_drawdown(&[5, 0, 9, 0]), UNIT);
    assert!(calculate_max_drawdown(&[u64::MAX, 1, u64::MAX - 1]) <= UNIT);
}

#[test]
fn standard_deviation_of_known_samples() {
    assert_eq!(standard_deviation(&[2, 4, 4, 4, 5, 5, 7, 9]), 2);
    assert_eq!(standard_deviation(&[100_000, -181_819, 333_333]), 210_620);
    assert_eq!(standard_deviation(&[-3, -3, -3]), 0);
    assert_eq!(standard_deviation(&[7]), 0);
}

#[test]
fn standard_deviation_rounds_the_mean_down() {
    // The mean of -1 and 0 is taken as -1, so the variance is one half,
    // which is rounded down to nothing.
    assert_eq!(standard_deviation(&[-1, 0]), 0);
}

#[test]
fn standard_deviation_of_the_extremes_does_not_overflow() {
    assert_eq!(standard_deviation(&[i64::MIN, i64::MAX]), 9_223_372_036_854_775_807);
}

#[test]
fn active_signals_are_those_that_are_not_hold() {
    let signals = [Signal::Buy, Signal::Hold, Signal::Buy, Signal::Sell, Signal::Hold];
    assert_eq!(count_active_signals(&signals), 3);
    assert_eq!(count_active_signals(&[]), 0);
}

#[test]
fn suppressed_signals_still_count_as_trades() {
    let data = series(&[10, 20, 40]);
    let signals = [Signal::Buy, Signal::Buy, Signal::Buy];
    let values = [1_000 * UNIT, 2_000 * UNIT, 4_000 * UNIT];
    let metrics = calculate_metrics(&values, &signals, &data, 0).unwrap();
    assert_eq!(metrics.num_trades, 3);
}

#[test]
fn process_strategy_reports_run_and_metrics() {
    let data = series(&[100, 110, 90, 120]);
    let report = process_strategy(&BuyAndHold::new(), &data, 20_000).unwrap();
    assert_eq!(
        report.portfolio_values,
        vec![10_000 * UNIT, 11_000 * UNIT, 9_000 * UNIT, 12_000 * UNIT]
    );
    assert_eq!(report.signals.len(), 4);
    assert_eq!(report.trades.len(), 1);
    assert_eq!(report.metrics.total_return, 200_000);
    assert_eq!(report.metrics.sharpe_ratio, 3_762_537);
}

#[test]
fn process_strategy_passes_failures_on() {
    assert_eq!(
        process_strategy(&BuyAndHold::new(), &[], 0).err(),
        Some(BacktestError::DegenerateInput)
    );
    // Two prices give a crossover one value, which is too few for a return.
    assert_eq!(
        process_strategy(&MovingAverageCrossover::new(1, 2), &series(&[1, 2]), 0).err(),
        Some(BacktestError::DegenerateInput)
    );
}

#[test]
fn value_bounds_are_lowest_and_highest() {
    assert_eq!(value_bounds(&[5, 3, 9, 3, 7]), Some((3, 9)));
    assert_eq!(value_bounds(&[4]), Some((4, 4)));
    assert_eq!(value_bounds(&[]), None);
}
