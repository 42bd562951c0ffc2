//! The simulation engine: replays signals against prices.
//!
//! The portfolio is either fully in cash or fully invested. Signal `k` is
//! acted on at the closing price of record `k`; a missing price counts as
//! zero. A purchase is acted on while nothing is held and there is cash, a
//! sale while something is held; any other signal changes nothing and logs
//! no trade.
//!
//! A position is held exactly: as the cash that bought it and the price it
//! was bought at. What it is worth at another price is that cash times the
//! new price over the old, rounded down to the millionth, so no quantity is
//! ever rounded away and a position is never worth nothing for being small.
//!
//! The mathematical model of a run is [`Holdings`], over unbounded integers;
//! the executable engine follows it for as long as every amount fits `u64`,
//! and reports the first period in which it cannot.

use crate::data_loader::MarketData;
use crate::decimal::checked_quotient;
use crate::decimal::quotient;
use crate::error::BacktestError;
use crate::strategy::buy_and_hold_signals;
use crate::strategy::Signal;
use crate::strategy::Strategy;
use chrono::NaiveDate;
use vstd::arithmetic::div_mod::lemma_div_by_multiple;
use vstd::arithmetic::div_mod::lemma_fundamental_div_mod;
use vstd::prelude::*;

verus! {

/// The cash that a backtest starts with: 10,000.
pub const INITIAL_CAPITAL: u64 = 10_000_000_000;

/// One change of the portfolio: a purchase or a sale of the whole position.
/// The quantity is for the record: it is rounded down to the millionth of a
/// unit, while the portfolio holds the position exactly.
#[derive(Debug, Clone, Copy)]
pub struct Trade {
    pub date: NaiveDate,
    pub signal: Signal,
    pub price: u64,
    pub quantity: u64,
}

/// What a portfolio holds, as mathematical integers counting millionths:
/// cash, and a position given by the cash that was invested in it and the
/// price at which it was bought.
pub struct Holdings {
    pub cash: int,
    pub invested: int,
    pub entry_price: int,
}

impl Holdings {
    /// The holdings at the start of a run: all cash, no position.
    pub open spec fn opening(capital: int) -> Holdings {
        Holdings { cash: capital, invested: 0, entry_price: 0 }
    }

    /// A buy signal is acted on only when nothing is held and there is cash
    /// to buy with: without cash there is nothing to turn into a position.
    pub open spec fn buys(self, signal: Signal) -> bool {
        signal == Signal::Buy && self.invested == 0 && self.cash > 0
    }

    /// A sell signal is acted on only when something is held.
    pub open spec fn sells(self, signal: Signal) -> bool {
        signal == Signal::Sell && self.invested > 0
    }

    /// What the position is worth at `price`: the invested cash times the
    /// price over the price it was bought at, rounded down.
    pub open spec fn worth(self, price: int) -> int {
        if self.invested > 0 {
            self.invested * price / self.entry_price
        } else {
            0
        }
    }

    /// How many units the position holds, rounded down to the millionth.
    pub open spec fn quantity(self) -> int {
        quotient(self.invested, self.entry_price)
    }

    /// The holdings after acting on `signal` at `price`: a purchase turns all
    /// cash into position, a sale turns the whole position into cash, and
    /// anything else changes nothing.
    pub open spec fn after(self, signal: Signal, price: int) -> Holdings {
        if self.buys(signal) {
            Holdings { cash: 0, invested: self.cash, entry_price: price }
        } else if self.sells(signal) {
            Holdings { cash: self.worth(price), invested: 0, entry_price: 0 }
        } else {
            self
        }
    }

    /// The total value at `price`: cash plus what the position is worth.
    pub open spec fn value(self, price: int) -> int {
        self.cash + self.worth(price)
    }

    /// Whether every amount fits `u64`.
    pub open spec fn fits(self) -> bool {
        &&& 0 <= self.cash <= u64::MAX
        &&& 0 <= self.invested <= u64::MAX
        &&& 0 <= self.entry_price <= u64::MAX
    }

    /// Whether a position, if there is one, was bought at a price.
    pub open spec fn well_formed(self) -> bool {
        self.invested > 0 ==> self.entry_price > 0
    }

    /// The quantity that a trade on `signal` at `price` moves: what the cash
    /// buys, or what the position holds.
    pub open spec fn traded_quantity(self, signal: Signal, price: int) -> int {
        if self.buys(signal) {
            quotient(self.cash, price)
        } else {
            self.quantity()
        }
    }

    /// The trade, if any, that acting on `signal` at `record` makes.
    pub open spec fn trade(self, signal: Signal, record: MarketData) -> Option<Trade> {
        if self.buys(signal) || self.sells(signal) {
            Some(
                Trade {
                    date: record.date,
                    signal,
                    price: record.closing_price(),
                    quantity: self.traded_quantity(signal, record.closing_price() as int) as u64,
                },
            )
        } else {
            None
        }
    }

    /// Why the engine cannot act on `signal` at `price`, if it cannot: a
    /// purchase at price zero has no quantity, whether or not there is cash,
    /// and an amount beyond `u64` cannot be held or recorded.
    pub open spec fn failure(self, signal: Signal, price: int, period: int) -> Option<
        BacktestError,
    > {
        if signal == Signal::Buy && self.invested == 0 && price == 0 {
            Some(BacktestError::MissingPrice { period: period as usize })
        } else if (self.buys(signal) || self.sells(signal)) && self.traded_quantity(signal, price)
            > u64::MAX {
            Some(BacktestError::Overflow)
        } else if !self.after(signal, price).fits() || self.after(signal, price).value(price)
            > u64::MAX {
            Some(BacktestError::Overflow)
        } else {
            None
        }
    }
}

/// The holdings after the first `k` periods of a run.
pub open spec fn holdings_after(
    signals: Seq<Signal>,
    data: Seq<MarketData>,
    capital: int,
    k: int,
) -> Holdings
    decreases k,
{
    if k <= 0 {
        Holdings::opening(capital)
    } else {
        holdings_after(signals, data, capital, k - 1).after(
            signals[k - 1],
            data[k - 1].closing_price() as int,
        )
    }
}

/// The first failure among the first `k` periods of a run, if there is one.
pub open spec fn first_failure(
    signals: Seq<Signal>,
    data: Seq<MarketData>,
    capital: int,
    k: int,
) -> Option<BacktestError>
    decreases k,
{
    if k <= 0 {
        None
    } else {
        match first_failure(signals, data, capital, k - 1) {
            Some(e) => Some(e),
            None => holdings_after(signals, data, capital, k - 1).failure(
                signals[k - 1],
                data[k - 1].closing_price() as int,
                k - 1,
            ),
        }
    }
}

/// The portfolio's total value at the end of period `i`.
pub open spec fn value_at(signals: Seq<Signal>, data: Seq<MarketData>, capital: int, i: int) -> int {
    holdings_after(signals, data, capital, i + 1).value(data[i].closing_price() as int)
}

/// The portfolio's total value at the end of each period of a run.
pub open spec fn value_series(signals: Seq<Signal>, data: Seq<MarketData>, capital: int) -> Seq<u64> {
    Seq::new(signals.len(), |i: int| value_at(signals, data, capital, i) as u64)
}

/// The trades made in the first `k` periods of a run, in order.
pub open spec fn trade_log(
    signals: Seq<Signal>,
    data: Seq<MarketData>,
    capital: int,
    k: int,
) -> Seq<Trade>
    decreases k,
{
    if k <= 0 {
        Seq::empty()
    } else {
        let earlier = trade_log(signals, data, capital, k - 1);
        match holdings_after(signals, data, capital, k - 1).trade(signals[k - 1], data[k - 1]) {
            Some(t) => earlier.push(t),
            None => earlier,
        }
    }
}

/// A failure, once met, stays the first failure of every longer run.
pub proof fn lemma_failure_persists(
    signals: Seq<Signal>,
    data: Seq<MarketData>,
    capital: int,
    k: int,
    n: int,
)
    requires
        0 <= k <= n,
        first_failure(signals, data, capital, k) is Some,
    ensures
        first_failure(signals, data, capital, n) == first_failure(signals, data, capital, k),
    decreases n - k,
{
    if k < n {
        lemma_failure_persists(signals, data, capital, k, n - 1);
    }
}

/// The cash and the position of a running simulation. The position is the
/// cash that was invested in it together with the price it was bought at;
/// `invested` is zero while nothing is held.
#[derive(Debug, Clone, Copy)]
pub struct PortfolioState {
    pub cash: u64,
    pub invested: u64,
    pub entry_price: u64,
}

impl View for PortfolioState {
    type V = Holdings;

    open spec fn view(&self) -> Holdings {
        Holdings {
            cash: self.cash as int,
            invested: self.invested as int,
            entry_price: self.entry_price as int,
        }
    }
}

impl PortfolioState {
    /// A portfolio that holds `initial_capital` in cash and no position.
    pub fn new(initial_capital: u64) -> (state: Self)
        ensures
            state@ == Holdings::opening(initial_capital as int),
            state@.well_formed(),
    {
        PortfolioState { cash: initial_capital, invested: 0, entry_price: 0 }
    }

    /// What the position is worth at `price`, or `None` where that exceeds
    /// `u64`.
    pub fn worth(&self, price: u64) -> (r: Option<u64>)
        requires
            self@.well_formed(),
        ensures
            r == (if self@.worth(price as int) <= u64::MAX {
                Some(self@.worth(price as int) as u64)
            } else {
                None::<u64>
            }),
    {
        if self.invested == 0 {
            return Some(0);
        }
        assert(0 <= self.invested * price <= u64::MAX * u64::MAX) by (nonlinear_arith);
        let wide: u128 = self.invested as u128 * price as u128;
        let worth: u128 = wide / self.entry_price as u128;
        if worth <= u64::MAX as u128 {
            Some(worth as u64)
        } else {
            None
        }
    }

    /// Acts on `signal` at the price of `record`, and returns the total value
    /// after it together with the trade that was made, if any. On failure the
    /// portfolio is left as it was.
    pub fn step(&mut self, signal: Signal, record: &MarketData, period: usize) -> (r: Result<
        (u64, Option<Trade>),
        BacktestError,
    >)
        requires
            old(self)@.well_formed(),
        ensures
            final(self)@.well_formed(),
            match r {
                Ok((value, trade)) => {
                    &&& old(self)@.failure(signal, record.closing_price() as int, period as int)
                        is None
                    &&& final(self)@ == old(self)@.after(signal, record.closing_price() as int)
                    &&& value == final(self)@.value(record.closing_price() as int)
                    &&& trade == old(self)@.trade(signal, *record)
                },
                Err(e) => {
                    &&& old(self)@.failure(signal, record.closing_price() as int, period as int)
                        == Some(e)
                    &&& *final(self) == *old(self)
                },
            },
    {
        let price: u64 = record.price_or_zero();
        let mut next = *self;
        let mut trade: Option<Trade> = None;
        match signal {
            Signal::Buy => {
                if self.invested == 0 {
                    if price == 0 {
                        return Err(BacktestError::MissingPrice { period });
                    }
                    if self.cash > 0 {
                        let quantity: u64 = match checked_quotient(self.cash, price) {
                            Some(quantity) => quantity,
                            None => {
                                return Err(BacktestError::Overflow);
                            },
                        };
                        trade = Some(
                            Trade { date: record.date, signal: Signal::Buy, price, quantity },
                        );
                        next = PortfolioState { cash: 0, invested: self.cash, entry_price: price };
                    }
                }
            },
            Signal::Sell => {
                if self.invested > 0 {
                    let quantity: u64 = match checked_quotient(self.invested, self.entry_price) {
                        Some(quantity) => quantity,
                        None => {
                            return Err(BacktestError::Overflow);
                        },
                    };
                    let proceeds: u64 = match self.worth(price) {
                        Some(proceeds) => proceeds,
                        None => {
                            return Err(BacktestError::Overflow);
                        },
                    };
                    trade = Some(Trade { date: record.date, signal: Signal::Sell, price, quantity });
                    next = PortfolioState { cash: proceeds, invested: 0, entry_price: 0 };
                }
            },
            Signal::Hold => {},
        }
        let worth: u64 = match next.worth(price) {
            Some(worth) => worth,
            None => {
                return Err(BacktestError::Overflow);
            },
        };
        if worth > u64::MAX - next.cash {
            return Err(BacktestError::Overflow);
        }
        *self = next;
        Ok((next.cash + worth, trade))
    }
}

/// Whether `values` and `trades` are what a run of `signals` over `data`
/// yields: the run never fails, the values are those of its periods, and
/// the log holds every trade in order.
pub open spec fn replays(
    values: Seq<u64>,
    trades: Seq<Trade>,
    signals: Seq<Signal>,
    data: Seq<MarketData>,
    capital: int,
) -> bool {
    &&& first_failure(signals, data, capital, signals.len() as int) is None
    &&& values == value_series(signals, data, capital)
    &&& trades == trade_log(signals, data, capital, signals.len() as int)
}

/// Replays `signals` against `market_data`, starting from `initial_capital`
/// in cash. Returns the total value after each period and the trades made,
/// or the first failure of the run.
pub fn simulate(signals: &[Signal], market_data: &[MarketData], initial_capital: u64) -> (r: Result<
    (Vec<u64>, Vec<Trade>),
    BacktestError,
>)
    requires
        signals.len() <= market_data.len(),
    ensures
        match r {
            Ok((values, trades)) => replays(
                values@,
                trades@,
                signals@,
                market_data@,
                initial_capital as int,
            ),
            Err(e) => first_failure(
                signals@,
                market_data@,
                initial_capital as int,
                signals.len() as int,
            ) == Some(e),
        },
{
    let ghost capital = initial_capital as int;
    let mut state = PortfolioState::new(initial_capital);
    let mut values: Vec<u64> = Vec::new();
    let mut trades: Vec<Trade> = Vec::new();
    let mut i: usize = 0;
    while i < signals.len()
        invariant
            i <= signals.len() <= market_data.len(),
            capital == initial_capital as int,
            first_failure(signals@, market_data@, capital, i as int) is None,
            state@ == holdings_after(signals@, market_data@, capital, i as int),
            state@.well_formed(),
            values.len() == i,
            forall|j: int|
                0 <= j < i ==> values[j] == #[trigger] value_at(signals@, market_data@, capital, j),
            trades@ == trade_log(signals@, market_data@, capital, i as int),
        decreases signals.len() - i,
    {
        match state.step(signals[i], &market_data[i], i) {
            Ok((value, trade)) => {
                values.push(value);
                if let Some(t) = trade {
                    trades.push(t);
                }
            },
            Err(e) => {
                proof {
                    lemma_failure_persists(
                        signals@,
                        market_data@,
                        capital,
                        i + 1,
                        signals.len() as int,
                    );
                }
                return Err(e);
            },
        }
        i += 1;
    }
    assert(values@ =~= value_series(signals@, market_data@, capital));
    Ok((values, trades))
}

/// What `run_backtest_with_capital` returns for a strategy whose
/// parameters are `valid` and which emits `signals`: `DegenerateInput` for
/// an empty series, else `InvalidParameters` for a strategy that cannot run,
/// else the run's first failure, else its signals, values and trades.
pub open spec fn is_backtest(
    r: Result<(Vec<u64>, Vec<Signal>, Vec<Trade>), BacktestError>,
    valid: bool,
    signals: Seq<Signal>,
    data: Seq<MarketData>,
    capital: int,
) -> bool {
    match r {
        Ok((values, emitted, trades)) => {
            &&& data.len() > 0
            &&& valid
            &&& emitted@ == signals
            &&& signals.len() <= data.len()
            &&& replays(values@, trades@, signals, data, capital)
        },
        Err(e) => if data.len() == 0 {
            e == BacktestError::DegenerateInput
        } else if !valid {
            e == BacktestError::InvalidParameters
        } else {
            &&& signals.len() <= data.len()
            &&& first_failure(signals, data, capital, signals.len() as int) == Some(e)
        },
    }
}

/// Lets the strategy emit its signals and replays them against the series,
/// starting from `initial_capital` in cash.
pub fn run_backtest_with_capital<S: Strategy>(
    strategy: &S,
    market_data: &[MarketData],
    initial_capital: u64,
) -> (r: Result<(Vec<u64>, Vec<Signal>, Vec<Trade>), BacktestError>)
    ensures
        is_backtest(
            r,
            strategy.well_formed(),
            strategy.signals(market_data@),
            market_data@,
            initial_capital as int,
        ),
{
    if market_data.len() == 0 {
        return Err(BacktestError::DegenerateInput);
    }
    if !strategy.is_well_formed() {
        return Err(BacktestError::InvalidParameters);
    }
    let signals = strategy.generate_signals(market_data);
    match simulate(signals.as_slice(), market_data, initial_capital) {
        Ok((values, trades)) => Ok((values, signals, trades)),
        Err(e) => Err(e),
    }
}

/// Lets the strategy emit its signals and replays them against the series,
/// starting from [`INITIAL_CAPITAL`].
pub fn run_backtest<S: Strategy>(strategy: &S, market_data: &[MarketData]) -> (r: Result<
    (Vec<u64>, Vec<Signal>, Vec<Trade>),
    BacktestError,
>)
    ensures
        is_backtest(
            r,
            strategy.well_formed(),
            strategy.signals(market_data@),
            market_data@,
            INITIAL_CAPITAL as int,
        ),
{
    run_backtest_with_capital(strategy, market_data, INITIAL_CAPITAL)
}

/// Nothing changes across a `Hold`: the holdings stay what they were, no
/// trade is logged, and the value of the period is the unchanged cash plus
/// what the unchanged position is worth at the period's price.
pub proof fn lemma_hold_conserves(
    signals: Seq<Signal>,
    data: Seq<MarketData>,
    capital: int,
    i: int,
)
    requires
        0 <= i < signals.len(),
        signals[i] == Signal::Hold,
    ensures
        holdings_after(signals, data, capital, i + 1) == holdings_after(signals, data, capital, i),
        trade_log(signals, data, capital, i + 1) == trade_log(signals, data, capital, i),
        value_at(signals, data, capital, i) == holdings_after(signals, data, capital, i).cash
            + holdings_after(signals, data, capital, i).worth(data[i].closing_price() as int),
{
}

/// A signal that is not acted on changes nothing either: a purchase while
/// something is held and a sale while nothing is held leave the holdings
/// and the log as they were.
pub proof fn lemma_suppressed_signal_conserves(
    signals: Seq<Signal>,
    data: Seq<MarketData>,
    capital: int,
    i: int,
)
    requires
        0 <= i < signals.len(),
        !holdings_after(signals, data, capital, i).buys(signals[i]),
        !holdings_after(signals, data, capital, i).sells(signals[i]),
    ensures
        holdings_after(signals, data, capital, i + 1) == holdings_after(signals, data, capital, i),
        trade_log(signals, data, capital, i + 1) == trade_log(signals, data, capital, i),
{
}

/// Whether a trade may follow another in the log: a purchase follows a
/// sale, and a sale follows a purchase.
pub open spec fn may_follow(earlier: Trade, later: Trade) -> bool {
    &&& earlier.signal == Signal::Sell ==> later.signal == Signal::Buy
    &&& earlier.signal == Signal::Buy ==> later.signal == Signal::Sell
}

/// How the log of a run that has not failed relates to what is held: every
/// amount fits, a position is held exactly after a purchase and until the
/// next sale, cash and position are never held together, the log starts
/// with a purchase, and purchases and sales take turns.
pub proof fn lemma_log_matches_holdings(
    signals: Seq<Signal>,
    data: Seq<MarketData>,
    capital: int,
    k: int,
)
    requires
        0 <= k,
        0 <= capital <= u64::MAX,
        first_failure(signals, data, capital, k) is None,
    ensures
        ({
            let log = trade_log(signals, data, capital, k);
            let held = holdings_after(signals, data, capital, k);
            &&& held.fits()
            &&& held.well_formed()
            &&& held.cash == 0 || held.invested == 0
            &&& log.len() == 0 ==> held.invested == 0
            &&& log.len() > 0 ==> log[0].signal == Signal::Buy
            &&& log.len() > 0 && log.last().signal == Signal::Buy ==> held.invested > 0
            &&& log.len() > 0 && log.last().signal == Signal::Sell ==> held.invested == 0
            &&& forall|j: int| 0 <= j < log.len() ==> (#[trigger] log[j]).signal != Signal::Hold
            &&& forall|j: int|
                0 <= j && j + 1 < log.len() ==> may_follow(#[trigger] log[j], log[j + 1])
        }),
    decreases k,
{
    if k > 0 {
        lemma_log_matches_holdings(signals, data, capital, k - 1);
        let earlier = trade_log(signals, data, capital, k - 1);
        let log = trade_log(signals, data, capital, k);
        let before = holdings_after(signals, data, capital, k - 1);
        let made = before.trade(signals[k - 1], data[k - 1]);
        if made is Some {
            assert(log == earlier.push(made->Some_0));
            assert forall|j: int| 0 <= j && j + 1 < log.len() implies may_follow(
                #[trigger] log[j],
                log[j + 1],
            ) by {
                if j + 1 < earlier.len() {
                    assert(log[j] == earlier[j] && log[j + 1] == earlier[j + 1]);
                } else {
                    assert(log[j] == earlier.last());
                }
            }
            if earlier.len() > 0 {
                assert(log[0] == earlier[0]);
            }
        }
    }
}

/// The portfolio is fully in cash or fully invested: in a run that does not
/// fail, cash and position are never both held.
pub proof fn lemma_fully_in_or_out(
    signals: Seq<Signal>,
    data: Seq<MarketData>,
    capital: int,
    k: int,
)
    requires
        0 <= k,
        0 <= capital <= u64::MAX,
        first_failure(signals, data, capital, k) is None,
    ensures
        holdings_after(signals, data, capital, k).cash == 0 || holdings_after(
            signals,
            data,
            capital,
            k,
        ).invested == 0,
{
    lemma_log_matches_holdings(signals, data, capital, k);
}

/// Only purchases and sales are logged: no trade of a run that does not
/// fail carries a `Hold`.
pub proof fn lemma_trades_are_purchases_and_sales(
    signals: Seq<Signal>,
    data: Seq<MarketData>,
    capital: int,
    k: int,
    j: int,
)
    requires
        0 <= k,
        0 <= capital <= u64::MAX,
        first_failure(signals, data, capital, k) is None,
        0 <= j < trade_log(signals, data, capital, k).len(),
    ensures
        trade_log(signals, data, capital, k)[j].signal != Signal::Hold,
{
    lemma_log_matches_holdings(signals, data, capital, k);
}

/// Two purchases never follow each other without a sale between them, and
/// two sales never without a purchase: in the log of a run that does not
/// fail, the first trade is a purchase, a sale follows each purchase, and a
/// purchase follows each sale.
pub proof fn lemma_trades_alternate(
    signals: Seq<Signal>,
    data: Seq<MarketData>,
    capital: int,
    k: int,
    j: int,
)
    requires
        0 <= k,
        0 <= capital <= u64::MAX,
        first_failure(signals, data, capital, k) is None,
        0 <= j < trade_log(signals, data, capital, k).len(),
    ensures
        trade_log(signals, data, capital, k)[0].signal == Signal::Buy,
        j + 1 < trade_log(signals, data, capital, k).len() ==> may_follow(
            trade_log(signals, data, capital, k)[j],
            trade_log(signals, data, capital, k)[j + 1],
        ),
{
    lemma_log_matches_holdings(signals, data, capital, k);
}

/// What buying and holding leaves after the first period: no cash, and the
/// whole capital invested at the first price. Without capital there is
/// nothing to invest, and nothing changes.
pub proof fn lemma_buy_and_hold_holdings(data: Seq<MarketData>, capital: int, k: int)
    requires
        1 <= k <= data.len(),
        0 <= capital,
    ensures
        holdings_after(buy_and_hold_signals(data.len()), data, capital, k) == (if capital > 0 {
            Holdings { cash: 0, invested: capital, entry_price: data[0].closing_price() as int }
        } else {
            Holdings::opening(0)
        }),
    decreases k,
{
    let signals = buy_and_hold_signals(data.len());
    if k > 1 {
        lemma_buy_and_hold_holdings(data, capital, k - 1);
        assert(signals[k - 1] == Signal::Hold);
    } else {
        assert(signals[0] == Signal::Buy);
        assert(holdings_after(signals, data, capital, 0) == Holdings::opening(capital));
    }
}

/// Buying and holding ends at the capital times the last price over the
/// first: in every period the portfolio is worth `capital * price / first`,
/// rounded down to the millionth. It starts at the capital itself, and it
/// never differs from the exact quotient by a millionth or more.
pub proof fn lemma_buy_and_hold_round_trip(data: Seq<MarketData>, capital: int, i: int)
    requires
        0 <= i < data.len(),
        0 <= capital,
        data[0].closing_price() > 0,
    ensures
        ({
            let first = data[0].closing_price() as int;
            let price = data[i].closing_price() as int;
            let value = value_at(buy_and_hold_signals(data.len()), data, capital, i);
            &&& value == capital * price / first
            &&& value * first <= capital * price < (value + 1) * first
            &&& i == 0 ==> value == capital
        }),
{
    lemma_buy_and_hold_holdings(data, capital, i + 1);
    let first = data[0].closing_price() as int;
    let price = data[i].closing_price() as int;
    let total = capital * price;
    if capital == 0 {
        assert(total == 0) by (nonlinear_arith)
            requires
                total == capital * price,
                capital == 0,
        ;
        assert(0int / first == 0) by (nonlinear_arith)
            requires
                first > 0,
        ;
    }
    lemma_fundamental_div_mod(total, first);
    assert((total / first) * first <= total < (total / first + 1) * first) by (nonlinear_arith)
        requires
            total == first * (total / first) + total % first,
            0 <= total % first < first,
    ;
    if i == 0 {
        lemma_div_by_multiple(capital, first);
        assert(capital * first == total);
    }
}

} // verus!
