//! Signal generators: from a price series to one decision per period.

use crate::data_loader::types::closing_prices;
use crate::data_loader::MarketData;
use crate::error::BacktestError;
use crate::strategy::indicators::average_at;
use crate::strategy::indicators::moving_average;
use vstd::prelude::*;

pub mod indicators;
pub mod process_strategy;

pub use process_strategy::process_strategy;

verus! {

/// The decision for one period.
#[derive(Debug, PartialEq, Eq, Structural, Copy, Clone)]
pub enum Signal {
    Buy,
    Sell,
    Hold,
}

/// What every strategy has in common: it turns a price series into signals.
///
/// Signal `k` is acted on at the price of record `k`, so a strategy never
/// emits more signals than it was given records. Signals are asked only of
/// a strategy whose parameters are valid, and only for a series that is
/// not empty.
pub trait Strategy {
    /// Whether the strategy's parameters allow it to run.
    spec fn well_formed(&self) -> bool;

    /// The signals that the strategy emits for a price series.
    spec fn signals(&self, market_data: Seq<MarketData>) -> Seq<Signal>;

    /// Tells whether the strategy's parameters allow it to run.
    fn is_well_formed(&self) -> (valid: bool)
        ensures
            valid == self.well_formed(),
    ;

    fn generate_signals(&self, market_data: &[MarketData]) -> (signals: Vec<Signal>)
        requires
            self.well_formed(),
            market_data.len() > 0,
        ensures
            signals@ == self.signals(market_data@),
            signals.len() <= market_data.len(),
    ;
}

/// Trades when a short trailing average crosses a long one.
pub struct MovingAverageCrossover {
    pub short_window: usize,
    pub long_window: usize,
}

/// The crossover rule for one pair of neighbouring periods, given the short
/// and the long average in the earlier and in the later one.
///
/// A signal fires only where strict inequality first appears: `Buy` when the
/// short average was at or below the long one and is now above it, `Sell`
/// when it was at or above and is now below, `Hold` in every other case.
pub open spec fn crossover(prev_short: int, prev_long: int, short: int, long: int) -> Signal {
    if prev_short <= prev_long && short > long {
        Signal::Buy
    } else if prev_short >= prev_long && short < long {
        Signal::Sell
    } else {
        Signal::Hold
    }
}

/// Executable form of [`crossover`].
pub fn crossover_signal(prev_short: u64, prev_long: u64, short: u64, long: u64) -> (signal: Signal)
    ensures
        signal == crossover(prev_short as int, prev_long as int, short as int, long as int),
{
    if prev_short <= prev_long && short > long {
        Signal::Buy
    } else if prev_short >= prev_long && short < long {
        Signal::Sell
    } else {
        Signal::Hold
    }
}

/// The crossover signals of a price series: one fewer than there are prices.
/// Signal `k` compares the averages of periods `k` and `k + 1`.
pub open spec fn crossover_signals(prices: Seq<u64>, short_window: int, long_window: int) -> Seq<
    Signal,
> {
    Seq::new(
        if prices.len() == 0 {
            0
        } else {
            (prices.len() - 1) as nat
        },
        |k: int|
            crossover(
                average_at(prices, short_window, k),
                average_at(prices, long_window, k),
                average_at(prices, short_window, k + 1),
                average_at(prices, long_window, k + 1),
            ),
    )
}

impl MovingAverageCrossover {
    /// A crossover strategy with the given windows, taken as they are.
    pub fn new(short_window: usize, long_window: usize) -> (strategy: Self)
        ensures
            strategy.short_window == short_window,
            strategy.long_window == long_window,
    {
        Self { short_window, long_window }
    }

    /// Whether the windows make a meaningful crossover: the short one is
    /// positive and the long one is longer.
    pub open spec fn valid_windows(short_window: usize, long_window: usize) -> bool {
        0 < short_window < long_window
    }

    /// A crossover strategy with the given windows, or `InvalidParameters`
    /// where they make no meaningful crossover.
    pub fn try_new(short_window: usize, long_window: usize) -> (r: Result<Self, BacktestError>)
        ensures
            match r {
                Ok(strategy) => {
                    &&& Self::valid_windows(short_window, long_window)
                    &&& strategy.short_window == short_window
                    &&& strategy.long_window == long_window
                },
                Err(e) => {
                    &&& !Self::valid_windows(short_window, long_window)
                    &&& e == BacktestError::InvalidParameters
                },
            },
    {
        if 0 < short_window && short_window < long_window {
            Ok(Self { short_window, long_window })
        } else {
            Err(BacktestError::InvalidParameters)
        }
    }
}

impl Strategy for MovingAverageCrossover {
    /// A window spans at least one period. That the long window be the
    /// longer one is for `try_new` to ask: without it the crossover runs,
    /// though to little purpose.
    open spec fn well_formed(&self) -> bool {
        self.short_window > 0 && self.long_window > 0
    }

    fn is_well_formed(&self) -> (valid: bool) {
        self.short_window > 0 && self.long_window > 0
    }

    open spec fn signals(&self, market_data: Seq<MarketData>) -> Seq<Signal> {
        crossover_signals(
            closing_prices(market_data),
            self.short_window as int,
            self.long_window as int,
        )
    }

    fn generate_signals(&self, market_data: &[MarketData]) -> (signals: Vec<Signal>) {
        let short_ma = moving_average(market_data, self.short_window);
        let long_ma = moving_average(market_data, self.long_window);
        let ghost prices = closing_prices(market_data@);
        let ghost expected = self.signals(market_data@);
        let mut signals: Vec<Signal> = Vec::new();
        let mut i: usize = 1;
        while i < market_data.len()
            invariant
                1 <= i <= market_data.len(),
                self.short_window > 0,
                self.long_window > 0,
                short_ma.len() == market_data.len(),
                long_ma.len() == market_data.len(),
                prices == closing_prices(market_data@),
                expected == self.signals(market_data@),
                forall|j: int|
                    0 <= j < short_ma.len() ==> short_ma[j] == #[trigger] average_at(
                        prices,
                        self.short_window as int,
                        j,
                    ),
                forall|j: int|
                    0 <= j < long_ma.len() ==> long_ma[j] == #[trigger] average_at(
                        prices,
                        self.long_window as int,
                        j,
                    ),
                signals.len() == i - 1,
                forall|k: int| 0 <= k < signals.len() ==> signals[k] == expected[k],
            decreases market_data.len() - i,
        {
            let signal = crossover_signal(short_ma[i - 1], long_ma[i - 1], short_ma[i], long_ma[i]);
            signals.push(signal);
            i += 1;
        }
        assert(signals@ =~= expected);
        signals
    }
}

/// Buys in the first period and holds from then on.
pub struct BuyAndHold;

impl BuyAndHold {
    /// The strategy has no parameters.
    pub fn new() -> (strategy: Self) {
        BuyAndHold
    }
}

/// One signal per price: `Buy` for the first, `Hold` for every other.
pub open spec fn buy_and_hold_signals(periods: nat) -> Seq<Signal> {
    Seq::new(
        periods,
        |i: int|
            if i == 0 {
                Signal::Buy
            } else {
                Signal::Hold
            },
    )
}

impl Strategy for BuyAndHold {
    /// There is no parameter that could be wrong.
    open spec fn well_formed(&self) -> bool {
        true
    }

    fn is_well_formed(&self) -> (valid: bool) {
        true
    }

    open spec fn signals(&self, market_data: Seq<MarketData>) -> Seq<Signal> {
        buy_and_hold_signals(market_data.len())
    }

    fn generate_signals(&self, market_data: &[MarketData]) -> (signals: Vec<Signal>) {
        let mut signals: Vec<Signal> = Vec::new();
        let mut i: usize = 0;
        while i < market_data.len()
            invariant
                i <= market_data.len(),
                signals.len() == i,
                forall|k: int|
                    0 <= k < i ==> signals[k] == buy_and_hold_signals(market_data@.len())[k],
            decreases market_data.len() - i,
        {
            if i == 0 {
                signals.push(Signal::Buy);
            } else {
                signals.push(Signal::Hold);
            }
            i += 1;
        }
        assert(signals@ =~= self.signals(market_data@));
        signals
    }
}

} // verus!
