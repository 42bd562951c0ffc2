//! Performance of a finished backtest.

pub mod metrics;
pub mod plots;

pub use metrics::calculate_metrics;
pub use metrics::PerformanceMetrics;
pub use plots::value_bounds;
