//! A verified backtesting engine for single-asset trading strategies.
//!
//! A series of dated prices is replayed through a strategy, which emits one
//! signal per period; a portfolio that is either all cash or all invested
//! follows the signals; and the resulting value series is measured.
//!
//! * [`decimal`]: every decimal quantity (price, cash, asset quantity, rate
//!   of return) is a fixed-point number counted in millionths, and every
//!   product and quotient is rounded down.
//! * [`data_loader`]: the price records, and how they are read from text.
//! * [`strategy`]: the signal generators and the trailing average.
//! * [`backtester`]: the simulation of the portfolio.
//! * [`report`]: return, volatility, Sharpe ratio and drawdown.
//! * [`sweep`]: the search over a grid of crossover windows.
//!
//! Signal `k` of a strategy is acted on at the closing price of record `k`.
//! Nothing here panics: what cannot be computed is returned as an error that
//! says why.

pub mod backtester;
pub mod data_loader;
pub mod decimal;
pub mod error;
pub mod report;
pub mod strategy;
pub mod sweep;
