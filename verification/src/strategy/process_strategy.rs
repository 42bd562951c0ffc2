//! A strategy's whole report: its backtest and the metrics of it.

use crate::backtester::first_failure;
use crate::backtester::is_backtest;
use crate::backtester::run_backtest;
use crate::backtester::value_series;
use crate::backtester::Trade;
use crate::backtester::INITIAL_CAPITAL;
use crate::data_loader::MarketData;
use crate::error::BacktestError;
use crate::report::metrics::calculate_metrics;
use crate::report::metrics::metrics;
use crate::report::metrics::PerformanceMetrics;
use crate::strategy::Signal;
use crate::strategy::Strategy;
use vstd::prelude::*;

verus! {

/// Everything that one strategy produced over one price series.
#[derive(Debug)]
pub struct StrategyReport {
    pub portfolio_values: Vec<u64>,
    pub signals: Vec<Signal>,
    pub trades: Vec<Trade>,
    pub metrics: PerformanceMetrics,
}

/// The metrics that a run of `signals` over `data` from the initial capital
/// leads to, or why it leads to none: an empty series is degenerate, a
/// strategy that is not `valid` has invalid parameters, a failure of the
/// run is the failure of the report, and the metrics are those of the
/// run's values.
pub open spec fn reported_metrics(
    valid: bool,
    signals: Seq<Signal>,
    data: Seq<MarketData>,
    risk_free_rate: int,
) -> Result<PerformanceMetrics, BacktestError> {
    let failure = first_failure(signals, data, INITIAL_CAPITAL as int, signals.len() as int);
    if data.len() == 0 {
        Err(BacktestError::DegenerateInput)
    } else if !valid {
        Err(BacktestError::InvalidParameters)
    } else if failure is Some {
        Err(failure->Some_0)
    } else {
        metrics(
            value_series(signals, data, INITIAL_CAPITAL as int),
            signals,
            data.len() as int,
            risk_free_rate,
        )
    }
}

/// Backtests the strategy over the series and derives the metrics of the run.
pub fn process_strategy<S: Strategy>(
    strategy: &S,
    market_data: &[MarketData],
    risk_free_rate: i64,
) -> (r: Result<StrategyReport, BacktestError>)
    ensures
        match r {
            Ok(report) => {
                &&& is_backtest(
                    Ok((report.portfolio_values, report.signals, report.trades)),
                    strategy.well_formed(),
                    strategy.signals(market_data@),
                    market_data@,
                    INITIAL_CAPITAL as int,
                )
                &&& reported_metrics(
                    strategy.well_formed(),
                    strategy.signals(market_data@),
                    market_data@,
                    risk_free_rate as int,
                ) == Ok::<PerformanceMetrics, BacktestError>(report.metrics)
            },
            Err(e) => reported_metrics(
                strategy.well_formed(),
                strategy.signals(market_data@),
                market_data@,
                risk_free_rate as int,
            ) == Err::<PerformanceMetrics, BacktestError>(e),
        },
{
    let (portfolio_values, signals, trades) = match run_backtest(strategy, market_data) {
        Ok(run) => run,
        Err(e) => {
            return Err(e);
        },
    };
    match calculate_metrics(
        portfolio_values.as_slice(),
        signals.as_slice(),
        market_data,
        risk_free_rate,
    ) {
        Ok(metrics) => Ok(StrategyReport { portfolio_values, signals, trades, metrics }),
        Err(e) => Err(e),
    }
}

} // verus!
