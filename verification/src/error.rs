//! Why a run of the engine can fail.

use vstd::prelude::*;

verus! {

/// The ways in which a backtest, its metrics or a sweep can fail.
#[derive(Debug, Clone, Copy, PartialEq, Eq, Structural)]
pub enum BacktestError {
    /// There is too little data: an empty price series, or fewer than two
    /// portfolio values to take a return from.
    DegenerateInput,
    /// A window of zero periods, or a long window that is not longer than
    /// the short one.
    InvalidParameters,
    /// A purchase was signalled in a period whose price is missing or zero.
    MissingPrice { period: usize },
    /// The portfolio was worth nothing in a period from which a return is taken.
    ZeroValue { period: usize },
    /// A quantity left the range of the integer type that holds it.
    Overflow,
}

} // verus!
