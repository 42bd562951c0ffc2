use backtest::backtester::run_backtest;
use backtest::backtester::run_backtest_with_capital;
use backtest::backtester::simulate;
use backtest::backtester::PortfolioState;
use backtest::backtester::INITIAL_CAPITAL;
use backtest::data_loader::MarketData;
use backtest::error::BacktestError;
use backtest::strategy::BuyAndHold;
use backtest::strategy::MovingAverageCrossover;
use backtest::strategy::Signal;
use chrono::NaiveDate;

const UNIT: u64 = 1_000_000;

fn day(i: usize) -> NaiveDate {
    NaiveDate::from_ymd_opt(2024, 1, 1).unwrap() + chrono::Duration::days(i as i64)
}

fn record(i: usize, price: Option<u64>) -> MarketData {
    MarketData {
        date: day(i),
        price,
        open: None,
        high: None,
        low: None,
        volume: None,
        change_percent: None,
    }
}

fn series(prices: &[u64]) -> Vec<MarketData> {
    prices
        .iter()
        .enumerate()
        .map(|(i, p)| record(i, Some(*p * UNIT)))
        .collect()
}

#[test]
fn initial_capital_is_ten_thousand() {
    assert_eq!(INITIAL_CAPITAL, 10_000 * UNIT);
}

#[test]
fn buy_and_hold_follows_the_price() {
    let data = series(&[100, 110, 90, 120]);
    let (values, signals, trades) = run_backtest(&BuyAndHold::new(), &data).unwrap();
    assert_eq!(values, vec![10_000 * UNIT, 11_000 * UNIT, 9_000 * UNIT, 12_000 * UNIT]);
    assert_eq!(signals, vec![Signal::Buy, Signal::Hold, Signal::Hold, Signal::Hold]);
    assert_eq!(trades.len(), 1);
    assert_eq!(trades[0].signal, Signal::Buy);
    assert_eq!(trades[0].price, 100 * UNIT);
    assert_eq!(trades[0].quantity, 100 * UNIT);
    assert_eq!(trades[0].date, day(0));
}

#[test]
fn buy_and_hold_ends_at_capital_times_last_over_first() {
    let data = series(&[80, 95, 60, 100, 140]);
    let (values, _, _) = run_backtest(&BuyAndHold::new(), &data).unwrap();
    assert_eq!(*values.last().unwrap(), 17_500 * UNIT);
}

#[test]
fn buy_and_hold_rounds_only_the_value_down() {
    let data = series(&[3, 5, 7]);
    let (values, _, trades) = run_backtest(&BuyAndHold::new(), &data).unwrap();
    assert_eq!(trades[0].quantity, 3_333_333_333);
    assert_eq!(values, vec![10_000_000_000, 16_666_666_666, 23_333_333_333]);
}

#[test]
fn one_value_per_signal() {
    let data = series(&[10, 11, 12, 11, 10, 9, 10, 12, 14, 13, 11, 9]);
    let (values, signals, _) =
        run_backtest(&MovingAverageCrossover::new(2, 4), &data).unwrap();
    assert_eq!(values.len(), signals.len());
    assert_eq!(values.len(), data.len() - 1);
}

#[test]
fn crossover_run_trades_at_the_price_of_the_signal() {
    let data = series(&[1, 2, 3, 2, 1]);
    let (values, signals, trades) =
        run_backtest(&MovingAverageCrossover::new(1, 2), &data).unwrap();
    assert_eq!(signals, vec![Signal::Buy, Signal::Hold, Signal::Sell, Signal::Hold]);
    assert_eq!(
        values,
        vec![10_000 * UNIT, 20_000 * UNIT, 30_000 * UNIT, 30_000 * UNIT]
    );
    assert_eq!(trades.len(), 2);
    assert_eq!((trades[0].signal, trades[0].price, trades[0].quantity),
        (Signal::Buy, UNIT, 10_000 * UNIT));
    assert_eq!((trades[1].signal, trades[1].price, trades[1].quantity),
        (Signal::Sell, 3 * UNIT, 10_000 * UNIT));
    assert_eq!(trades[0].date, day(0));
    assert_eq!(trades[1].date, day(2));
}

#[test]
fn hold_changes_nothing() {
    let mut state = PortfolioState { cash: 0, invested: 14 * UNIT, entry_price: 2 * UNIT };
    let (value, trade) = state.step(Signal::Hold, &record(0, Some(3 * UNIT)), 0).unwrap();
    assert_eq!((state.cash, state.invested, state.entry_price), (0, 14 * UNIT, 2 * UNIT));
    assert_eq!(value, 21 * UNIT);
    assert!(trade.is_none());

    let mut state = PortfolioState::new(500 * UNIT);
    let (value, trade) = state.step(Signal::Hold, &record(0, Some(3 * UNIT)), 0).unwrap();
    assert_eq!((state.cash, state.invested), (500 * UNIT, 0));
    assert_eq!(value, 500 * UNIT);
    assert!(trade.is_none());
}

#[test]
fn value_is_cash_plus_position_at_the_price() {
    let mut state = PortfolioState { cash: 5 * UNIT, invested: 6 * UNIT, entry_price: 3 * UNIT };
    let (value, _) = state.step(Signal::Hold, &record(0, Some(4 * UNIT)), 0).unwrap();
    assert_eq!(value, 13 * UNIT);
    assert_eq!(state.worth(4 * UNIT), Some(8 * UNIT));
    assert_eq!(PortfolioState::new(5).worth(4 * UNIT), Some(0));
}

#[test]
fn a_second_buy_is_suppressed() {
    let data = series(&[10, 20, 40]);
    let signals = [Signal::Buy, Signal::Buy, Signal::Buy];
    let (values, trades) = simulate(&signals, &data, 1_000 * UNIT).unwrap();
    assert_eq!(trades.len(), 1);
    assert_eq!(trades[0].quantity, 100 * UNIT);
    assert_eq!(values, vec![1_000 * UNIT, 2_000 * UNIT, 4_000 * UNIT]);
}

#[test]
fn a_sale_without_a_position_is_suppressed() {
    let data = series(&[10, 20]);
    let signals = [Signal::Sell, Signal::Sell];
    let (values, trades) = simulate(&signals, &data, 1_000 * UNIT).unwrap();
    assert!(trades.is_empty());
    assert_eq!(values, vec![1_000 * UNIT, 1_000 * UNIT]);
}

#[test]
fn trades_alternate_between_purchase_and_sale() {
    let data = series(&[10, 20, 20, 5, 5, 10, 30]);
    let signals = [
        Signal::Buy,
        Signal::Buy,
        Signal::Sell,
        Signal::Sell,
        Signal::Buy,
        Signal::Hold,
        Signal::Sell,
    ];
    let (values, trades) = simulate(&signals, &data, 1_000 * UNIT).unwrap();
    let kinds: Vec<Signal> = trades.iter().map(|t| t.signal).collect();
    assert_eq!(kinds, vec![Signal::Buy, Signal::Sell, Signal::Buy, Signal::Sell]);
    assert_eq!(
        values,
        vec![
            1_000 * UNIT,
            2_000 * UNIT,
            2_000 * UNIT,
            2_000 * UNIT,
            2_000 * UNIT,
            4_000 * UNIT,
            12_000 * UNIT
        ]
    );
    assert_eq!(trades[2].quantity, 400 * UNIT);
    assert_eq!(trades[3].quantity, 400 * UNIT);
}

#[test]
fn a_small_position_is_held_exactly() {
    // One millionth of capital at a price of two: the quantity rounds to
    // nothing in the record, but the position is held and keeps its worth.
    let data = series(&[2, 2, 4]);
    let signals = [Signal::Buy, Signal::Buy, Signal::Sell];
    let (values, trades) = simulate(&signals, &data, 1).unwrap();
    assert_eq!(values, vec![1, 1, 2]);
    let kinds: Vec<Signal> = trades.iter().map(|t| t.signal).collect();
    assert_eq!(kinds, vec![Signal::Buy, Signal::Sell]);
}

#[test]
fn a_high_price_does_not_eat_the_capital() {
    let data = series(&[20_000_000_000]);
    let (values, _, trades) = run_backtest(&BuyAndHold::new(), &data).unwrap();
    assert_eq!(values, vec![10_000 * UNIT]);
    assert_eq!(trades.len(), 1);

    let data = series(&[3_000_000_000, 3_000_000_000, 6_000_000_000]);
    let (values, _, _) = run_backtest(&BuyAndHold::new(), &data).unwrap();
    assert_eq!(values, vec![10_000 * UNIT, 10_000 * UNIT, 20_000 * UNIT]);
}

#[test]
fn a_crossover_at_high_prices_buys_once() {
    let data = series(&[20_000_000_000, 40_000_000_000, 40_000_000_000, 60_000_000_000]);
    let (values, signals, trades) =
        run_backtest(&MovingAverageCrossover::new(1, 2), &data).unwrap();
    assert_eq!(signals, vec![Signal::Buy, Signal::Hold, Signal::Buy]);
    assert_eq!(values, vec![10_000 * UNIT, 20_000 * UNIT, 20_000 * UNIT]);
    assert_eq!(trades.len(), 1);
    assert_eq!(trades[0].signal, Signal::Buy);
}

#[test]
fn a_purchase_without_cash_is_not_acted_on() {
    // The sale at a missing price leaves no cash, so the next purchase has
    // nothing to buy with: no trade is made and the run goes on.
    let data = vec![
        record(0, Some(10 * UNIT)),
        record(1, None),
        record(2, Some(10 * UNIT)),
        record(3, Some(20 * UNIT)),
    ];
    let signals = [Signal::Buy, Signal::Sell, Signal::Buy, Signal::Buy];
    let (values, trades) = simulate(&signals, &data, 1_000 * UNIT).unwrap();
    assert_eq!(values, vec![1_000 * UNIT, 0, 0, 0]);
    let kinds: Vec<Signal> = trades.iter().map(|t| t.signal).collect();
    assert_eq!(kinds, vec![Signal::Buy, Signal::Sell]);

    let (values, trades) = simulate(&[Signal::Buy, Signal::Buy], &series(&[10, 20]), 0).unwrap();
    assert_eq!(values, vec![0, 0]);
    assert!(trades.is_empty());
}

#[test]
fn a_purchase_at_price_zero_fails_even_without_cash() {
    let data = vec![record(0, None)];
    assert_eq!(
        simulate(&[Signal::Buy], &data, 0).err(),
        Some(BacktestError::MissingPrice { period: 0 })
    );
}

#[test]
fn a_strategy_that_cannot_run_has_invalid_parameters() {
    let data = series(&[1, 2, 3]);
    for (short, long) in [(0, 2), (1, 0), (0, 0)] {
        assert_eq!(
            run_backtest(&MovingAverageCrossover::new(short, long), &data).err(),
            Some(BacktestError::InvalidParameters)
        );
    }
}

#[test]
fn simulate_may_stop_before_the_series_ends() {
    let data = series(&[10, 20, 40]);
    let (values, trades) = simulate(&[Signal::Buy], &data, 1_000 * UNIT).unwrap();
    assert_eq!(values, vec![1_000 * UNIT]);
    assert_eq!(trades.len(), 1);
}

#[test]
fn no_signals_no_values() {
    let (values, trades) = simulate(&[], &series(&[10]), 1_000 * UNIT).unwrap();
    assert!(values.is_empty());
    assert!(trades.is_empty());
}

#[test]
fn a_purchase_at_a_missing_price_fails() {
    let data = vec![record(0, Some(10 * UNIT)), record(1, None)];
    let signals = [Signal::Hold, Signal::Buy];
    assert_eq!(
        simulate(&signals, &data, 1_000 * UNIT).err(),
        Some(BacktestError::MissingPrice { period: 1 })
    );
}

#[test]
fn a_purchase_at_price_zero_fails() {
    let data = vec![record(0, Some(0))];
    assert_eq!(
        run_backtest(&BuyAndHold::new(), &data).err(),
        Some(BacktestError::MissingPrice { period: 0 })
    );
}

#[test]
fn a_missing_price_values_the_position_at_nothing() {
    let data = vec![record(0, Some(10 * UNIT)), record(1, None), record(2, Some(20 * UNIT))];
    let (values, _, _) = run_backtest(&BuyAndHold::new(), &data).unwrap();
    assert_eq!(values, vec![10_000 * UNIT, 0, 20_000 * UNIT]);
}

#[test]
fn a_quantity_beyond_the_range_fails() {
    let data = vec![record(0, Some(1))];
    assert_eq!(
        simulate(&[Signal::Buy], &data, u64::MAX).err(),
        Some(BacktestError::Overflow)
    );
}

#[test]
fn a_value_beyond_the_range_fails() {
    let data = vec![record(0, Some(UNIT)), record(1, Some(4 * UNIT))];
    let signals = [Signal::Buy, Signal::Hold];
    assert_eq!(
        simulate(&signals, &data, u64::MAX / 2).err(),
        Some(BacktestError::Overflow)
    );
}

#[test]
fn the_first_failure_is_reported() {
    let data = vec![record(0, None), record(1, Some(1))];
    let signals = [Signal::Buy, Signal::Buy];
    assert_eq!(
        simulate(&signals, &data, u64::MAX).err(),
        Some(BacktestError::MissingPrice { period: 0 })
    );
}

#[test]
fn a_failed_step_leaves_the_portfolio_alone() {
    let mut state = PortfolioState::new(1_000 * UNIT);
    let failed = state.step(Signal::Buy, &record(0, None), 4);
    assert_eq!(failed.err(), Some(BacktestError::MissingPrice { period: 4 }));
    assert_eq!((state.cash, state.invested), (1_000 * UNIT, 0));
}

#[test]
fn an_empty_series_is_degenerate() {
    assert_eq!(
        run_backtest(&BuyAndHold::new(), &[]).err(),
        Some(BacktestError::DegenerateInput)
    );
    assert_eq!(
        run_backtest(&MovingAverageCrossover::new(1, 2), &[]).err(),
        Some(BacktestError::DegenerateInput)
    );
    assert_eq!(
        run_backtest(&MovingAverageCrossover::new(0, 0), &[]).err(),
        Some(BacktestError::DegenerateInput)
    );
}

#[test]
fn the_capital_can_be_chosen() {
    let data = series(&[100, 110]);
    let (values, _, trades) =
        run_backtest_with_capital(&BuyAndHold::new(), &data, 500 * UNIT).unwrap();
    assert_eq!(values, vec![500 * UNIT, 550 * UNIT]);
    assert_eq!(trades[0].quantity, 5 * UNIT);
}
