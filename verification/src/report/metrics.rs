//! Return, risk and activity statistics of a portfolio-value series.
//!
//! All rates are fractions counted in millionths (`0.2` is `200_000`), and
//! every quotient is rounded down.

use crate::data_loader::MarketData;
use crate::decimal::checked_product;
use crate::decimal::checked_ratio;
use crate::decimal::floor_div;
use crate::decimal::integer_sqrt;
use crate::decimal::is_integer_sqrt;
use crate::decimal::lemma_integer_sqrt_exists;
use crate::decimal::isqrt;
use crate::decimal::product;
use crate::decimal::quotient;
use crate::decimal::relative_change;
use crate::decimal::SCALE;
use crate::error::BacktestError;
use crate::strategy::Signal;
use vstd::arithmetic::div_mod::lemma_fundamental_div_mod;
use vstd::arithmetic::div_mod::lemma_fundamental_div_mod_converse;
use vstd::prelude::*;

verus! {

/// How many trading days make a year.
pub const TRADING_DAYS: u64 = 252;

/// The square root of `TRADING_DAYS` as a decimal, rounded down: 15.874507.
pub const SQRT_TRADING_DAYS: u64 = 15_874_507;

/// `SQRT_TRADING_DAYS` is the square root of 252, rounded down to a millionth.
pub proof fn lemma_sqrt_trading_days()
    ensures
        SQRT_TRADING_DAYS * SQRT_TRADING_DAYS <= TRADING_DAYS * SCALE * SCALE,
        TRADING_DAYS * SCALE * SCALE < (SQRT_TRADING_DAYS + 1) * (SQRT_TRADING_DAYS + 1),
{
    assert(15_874_507int * 15_874_507 == 251_999_972_493_049);
    assert(15_874_508int * 15_874_508 == 252_000_004_242_064);
    assert(252int * 1_000_000 * 1_000_000 == 252_000_000_000_000);
}

/// What a backtest achieved. The rates are fractions, not percentages.
#[derive(Debug, Clone, Copy, PartialEq, Eq, Structural)]
pub struct PerformanceMetrics {
    pub total_return: i64,
    pub annualized_return: i64,
    pub volatility: u64,
    pub sharpe_ratio: i64,
    pub max_drawdown: u64,
    pub num_trades: usize,
}

/// The sum of the first `k` numbers of `data`.
pub open spec fn sum_of(data: Seq<i64>, k: int) -> int
    decreases k,
{
    if k <= 0 {
        0
    } else {
        sum_of(data, k - 1) + data[k - 1]
    }
}

/// The mean of `data`, rounded down.
pub open spec fn mean(data: Seq<i64>) -> int {
    sum_of(data, data.len() as int) / (data.len() as int)
}

/// The sum of the squared distances from `center` of the first `k` numbers
/// of `data`.
pub open spec fn squared_deviations(data: Seq<i64>, center: int, k: int) -> int
    decreases k,
{
    if k <= 0 {
        0
    } else {
        squared_deviations(data, center, k - 1) + (center - data[k - 1]) * (center - data[k - 1])
    }
}

/// The population variance of `data`, rounded down.
pub open spec fn variance(data: Seq<i64>) -> int {
    squared_deviations(data, mean(data), data.len() as int) / (data.len() as int)
}

/// The population standard deviation of `data`, rounded down.
pub open spec fn deviation(data: Seq<i64>) -> int {
    integer_sqrt(variance(data))
}

/// The highest of the values up to and including period `i`.
pub open spec fn running_peak(values: Seq<u64>, i: int) -> int
    decreases i,
{
    if i <= 0 {
        values[0] as int
    } else if running_peak(values, i - 1) >= values[i] {
        running_peak(values, i - 1)
    } else {
        values[i] as int
    }
}

/// The fraction by which the value of period `i` lies below the running
/// peak. Below a peak of zero there is nothing to lose.
pub open spec fn drawdown_at(values: Seq<u64>, i: int) -> int {
    let peak = running_peak(values, i);
    if peak == 0 {
        0
    } else {
        quotient(peak - values[i], peak)
    }
}

/// The largest drawdown among the first `k` periods.
pub open spec fn max_drawdown(values: Seq<u64>, k: int) -> int
    decreases k,
{
    if k <= 0 {
        0
    } else if max_drawdown(values, k - 1) >= drawdown_at(values, k - 1) {
        max_drawdown(values, k - 1)
    } else {
        drawdown_at(values, k - 1)
    }
}

/// The running peak is a value of the series, so it fits `u64`, and it is
/// no lower than the value of its own period.
pub proof fn lemma_running_peak_bounds(values: Seq<u64>, i: int)
    requires
        0 <= i < values.len(),
    ensures
        values[i] <= running_peak(values, i) <= u64::MAX,
        values[0] <= running_peak(values, i),
    decreases i,
{
    if i > 0 {
        lemma_running_peak_bounds(values, i - 1);
    }
}

/// A drawdown is a fraction between zero and one.
pub proof fn lemma_drawdown_bounds(values: Seq<u64>, i: int)
    requires
        0 <= i < values.len(),
    ensures
        0 <= drawdown_at(values, i) <= SCALE,
{
    lemma_running_peak_bounds(values, i);
    let peak = running_peak(values, i);
    let below = peak - values[i];
    if peak != 0 {
        assert(0 <= below * (SCALE as int) / peak <= SCALE) by (nonlinear_arith)
            requires
                0 <= below <= peak,
                peak > 0,
                SCALE == 1_000_000,
        ;
    }
}

/// The largest drawdown is a fraction between zero and one.
pub proof fn lemma_max_drawdown_bounds(values: Seq<u64>, k: int)
    requires
        0 <= k <= values.len(),
    ensures
        0 <= max_drawdown(values, k) <= SCALE,
    decreases k,
{
    if k > 0 {
        lemma_max_drawdown_bounds(values, k - 1);
        lemma_drawdown_bounds(values, k - 1);
    }
}

/// A series that never falls has no drawdown.
pub proof fn lemma_no_drawdown_without_fall(values: Seq<u64>, k: int)
    requires
        0 <= k <= values.len(),
        forall|i: int, j: int| 0 <= i <= j < values.len() ==> values[i] <= values[j],
    ensures
        max_drawdown(values, k) == 0,
    decreases k,
{
    if k > 0 {
        lemma_no_drawdown_without_fall(values, k - 1);
        lemma_peak_of_rising_series(values, k - 1);
    }
}

/// In a series that never falls, the running peak is the current value.
pub proof fn lemma_peak_of_rising_series(values: Seq<u64>, i: int)
    requires
        0 <= i < values.len(),
        forall|a: int, b: int| 0 <= a <= b < values.len() ==> values[a] <= values[b],
    ensures
        running_peak(values, i) == values[i],
        drawdown_at(values, i) == 0,
    decreases i,
{
    if i > 0 {
        lemma_peak_of_rising_series(values, i - 1);
    }
    let peak = running_peak(values, i);
    if peak != 0 {
        assert(0 * (SCALE as int) / peak == 0) by (nonlinear_arith)
            requires
                peak > 0,
        ;
    }
}

/// The largest fraction by which the series ever lies below its running
/// peak. The peak starts at the first value.
pub fn calculate_max_drawdown(portfolio_values: &[u64]) -> (deepest: u64)
    requires
        portfolio_values.len() > 0,
    ensures
        deepest == max_drawdown(portfolio_values@, portfolio_values.len() as int),
        deepest <= SCALE,
{
    let mut peak: u64 = portfolio_values[0];
    let mut deepest: u64 = 0;
    let mut i: usize = 0;
    while i < portfolio_values.len()
        invariant
            i <= portfolio_values.len(),
            portfolio_values.len() > 0,
            peak == running_peak(portfolio_values@, i - 1),
            deepest == max_drawdown(portfolio_values@, i as int),
            deepest <= SCALE,
        decreases portfolio_values.len() - i,
    {
        let value: u64 = portfolio_values[i];
        if value > peak {
            peak = value;
        }
        assert(peak == running_peak(portfolio_values@, i as int));
        proof {
            lemma_drawdown_bounds(portfolio_values@, i as int);
        }
        if peak != 0 {
            assert((peak - value) * SCALE <= u64::MAX * 1_000_000) by (nonlinear_arith)
                requires
                    0 <= peak - value <= u64::MAX,
                    SCALE == 1_000_000,
            ;
            let drawdown: u128 = ((peak - value) as u128 * SCALE as u128) / peak as u128;
            if drawdown > deepest as u128 {
                deepest = drawdown as u64;
            }
        }
        i += 1;
    }
    deepest
}

/// A sum of `k` numbers of type `i64` is at most `k` times as far from zero
/// as an `i64` can be.
pub proof fn lemma_sum_bounds(data: Seq<i64>, k: int)
    requires
        0 <= k <= data.len(),
    ensures
        k * i64::MIN <= sum_of(data, k) <= k * i64::MAX,
    decreases k,
{
    if k > 0 {
        lemma_sum_bounds(data, k - 1);
    }
}

/// The mean of numbers of type `i64` is in the range of `i64`.
pub proof fn lemma_mean_bounds(data: Seq<i64>)
    requires
        data.len() > 0,
    ensures
        i64::MIN <= mean(data) <= i64::MAX,
{
    let n = data.len() as int;
    let total = sum_of(data, n);
    lemma_sum_bounds(data, n);
    assert(i64::MIN <= total / n <= i64::MAX) by (nonlinear_arith)
        requires
            n > 0,
            n * i64::MIN <= total <= n * i64::MAX,
    ;
}

/// The largest square that the distance between two `i64` numbers can have.
pub open spec fn square_limit() -> int {
    0xffff_ffff_ffff_ffff_int * 0xffff_ffff_ffff_ffff_int
}

/// A sum of `k` squared deviations from a center within `i64` is at most
/// `k` times the largest such square.
pub proof fn lemma_squared_deviations_bounds(data: Seq<i64>, center: int, k: int)
    requires
        0 <= k <= data.len(),
        i64::MIN <= center <= i64::MAX,
    ensures
        0 <= squared_deviations(data, center, k) <= k * square_limit(),
    decreases k,
{
    if k > 0 {
        lemma_squared_deviations_bounds(data, center, k - 1);
        let d = center - data[k - 1];
        assert(0 <= d * d <= square_limit()) by (nonlinear_arith)
            requires
                -0xffff_ffff_ffff_ffff <= d <= 0xffff_ffff_ffff_ffff,
                square_limit() == 0xffff_ffff_ffff_ffff * 0xffff_ffff_ffff_ffff,
        ;
        assert((k - 1) * square_limit() + square_limit() == k * square_limit())
            by (nonlinear_arith);
    }
}

/// The population standard deviation of `data`, rounded down: the square
/// root of the mean squared distance from the mean.
///
/// The squares are summed as a quotient and a remainder by the number of
/// items, so the sum never leaves `u128` however long the series is.
pub fn standard_deviation(data: &[i64]) -> (spread: u64)
    requires
        data.len() > 0,
    ensures
        spread == deviation(data@),
{
    let n: usize = data.len();
    let mut total: i128 = 0;
    let mut i: usize = 0;
    while i < n
        invariant
            n == data.len(),
            i <= n,
            total == sum_of(data@, i as int),
            i * i64::MIN <= total <= i * i64::MAX,
        decreases n - i,
    {
        total = total + data[i] as i128;
        i += 1;
    }
    let center: i128 = floor_div(total, n as i128);
    proof {
        lemma_mean_bounds(data@);
    }
    let count: u128 = n as u128;
    let mut whole: u128 = 0;
    let mut rest: u128 = 0;
    let mut j: usize = 0;
    while j < n
        invariant
            n == data.len(),
            count == n,
            n > 0,
            j <= n,
            center == mean(data@),
            i64::MIN <= center <= i64::MAX,
            rest < count,
            whole * count + rest == squared_deviations(data@, center as int, j as int),
        decreases n - j,
    {
        let d: i128 = center - data[j] as i128;
        let m: u128 = if d >= 0 {
            d as u128
        } else {
            (-d) as u128
        };
        assert(m * m == d * d && m * m <= square_limit()) by (nonlinear_arith)
            requires
                m == d || m == -d,
                0 <= m <= 0xffff_ffff_ffff_ffff,
                square_limit() == 0xffff_ffff_ffff_ffff * 0xffff_ffff_ffff_ffff,
        ;
        let square: u128 = m * m;
        let a: u128 = square / count;
        let b: u128 = square % count;
        proof {
            let before = squared_deviations(data@, center as int, j as int);
            let next = squared_deviations(data@, center as int, j + 1);
            lemma_squared_deviations_bounds(data@, center as int, j + 1);
            lemma_fundamental_div_mod(square as int, count as int);
            assert(next == before + square);
            assert((whole + a) * count + (rest + b) == next) by (nonlinear_arith)
                requires
                    whole * count + rest == before,
                    square == count * a + b,
                    next == before + square,
            ;
            assert(whole + a + 1 <= square_limit() + 1 && (rest + b >= count ==> whole + a + 1
                <= square_limit())) by (nonlinear_arith)
                requires
                    (whole + a) * count + (rest + b) == next,
                    0 <= next <= (j + 1) * square_limit(),
                    j + 1 <= count,
                    0 <= rest + b,
                    0 <= whole + a,
                    0 <= square_limit(),
            ;
            assert((whole + a + 1) * count + (rest + b - count) == next) by (nonlinear_arith)
                requires
                    (whole + a) * count + (rest + b) == next,
            ;
        }
        whole = whole + a;
        rest = rest + b;
        if rest >= count {
            whole = whole + 1;
            rest = rest - count;
        }
        j += 1;
    }
    proof {
        lemma_fundamental_div_mod_converse(
            squared_deviations(data@, center as int, n as int),
            count as int,
            whole as int,
            rest as int,
        );
    }
    isqrt(whole)
}

/// The return over the whole series: from the first value to the last.
pub open spec fn total_return(values: Seq<u64>) -> int {
    quotient(values.last() - values[0], values[0] as int)
}

/// A return over `periods` trading days, scaled linearly to one year.
pub open spec fn annualized(total: int, periods: int) -> int {
    total * (TRADING_DAYS as int) / periods
}

/// The return from period `i` to the next.
pub open spec fn daily_return(values: Seq<u64>, i: int) -> int {
    quotient(values[i + 1] - values[i], values[i] as int)
}

/// The returns between neighbouring periods: one fewer than there are values.
pub open spec fn daily_returns(values: Seq<u64>) -> Seq<i64> {
    Seq::new((values.len() - 1) as nat, |i: int| daily_return(values, i) as i64)
}

/// The standard deviation of the daily returns, scaled to one year by the
/// square root of the number of trading days.
pub open spec fn volatility(values: Seq<u64>) -> int {
    product(deviation(daily_returns(values)), SQRT_TRADING_DAYS as int)
}

/// The return above the risk-free rate per unit of volatility, and zero
/// where there is no volatility.
pub open spec fn sharpe_ratio(annualized_return: int, risk_free_rate: int, volatility: int) -> int {
    if volatility == 0 {
        0
    } else {
        quotient(annualized_return - risk_free_rate, volatility)
    }
}

/// How many of the first `k` signals are not `Hold`.
pub open spec fn active_signals(signals: Seq<Signal>, k: int) -> int
    decreases k,
{
    if k <= 0 {
        0
    } else if signals[k - 1] == Signal::Hold {
        active_signals(signals, k - 1)
    } else {
        active_signals(signals, k - 1) + 1
    }
}

/// The first period among the first `k` whose value is zero, or `k` itself
/// where there is none.
pub open spec fn first_zero(values: Seq<u64>, k: int) -> int
    decreases k,
{
    if k <= 0 {
        0
    } else if first_zero(values, k - 1) < k - 1 {
        first_zero(values, k - 1)
    } else if values[k - 1] == 0 {
        k - 1
    } else {
        k
    }
}

/// Whether `x` is in the range of `i64`.
pub open spec fn fits_i64(x: int) -> bool {
    i64::MIN <= x <= i64::MAX
}

/// Whether every statistic of the series, and every daily return on the way
/// to them, is in the range of the type that holds it.
pub open spec fn metrics_fit(values: Seq<u64>, periods: int, risk_free_rate: int) -> bool {
    &&& fits_i64(total_return(values))
    &&& fits_i64(annualized(total_return(values), periods))
    &&& forall|i: int| 0 <= i < values.len() - 1 ==> fits_i64(#[trigger] daily_return(values, i))
    &&& volatility(values) <= u64::MAX
    &&& fits_i64(
        sharpe_ratio(
            annualized(total_return(values), periods),
            risk_free_rate,
            volatility(values),
        ),
    )
}

/// The metrics of a backtest, or why there are none.
///
/// A return needs two values and a year needs a period, else the input is
/// degenerate; no return can be taken from a value of zero; and every
/// statistic must fit its type.
pub open spec fn metrics(
    values: Seq<u64>,
    signals: Seq<Signal>,
    periods: int,
    risk_free_rate: int,
) -> Result<PerformanceMetrics, BacktestError> {
    if values.len() < 2 || periods <= 0 {
        Err(BacktestError::DegenerateInput)
    } else if first_zero(values, values.len() - 1) < values.len() - 1 {
        Err(BacktestError::ZeroValue { period: first_zero(values, values.len() - 1) as usize })
    } else if !metrics_fit(values, periods, risk_free_rate) {
        Err(BacktestError::Overflow)
    } else {
        Ok(
            PerformanceMetrics {
                total_return: total_return(values) as i64,
                annualized_return: annualized(total_return(values), periods) as i64,
                volatility: volatility(values) as u64,
                sharpe_ratio: sharpe_ratio(
                    annualized(total_return(values), periods),
                    risk_free_rate,
                    volatility(values),
                ) as i64,
                max_drawdown: max_drawdown(values, values.len() as int) as u64,
                num_trades: active_signals(signals, signals.len() as int) as usize,
            },
        )
    }
}

/// No more signals are active than there are signals.
pub proof fn lemma_active_signals_bounds(signals: Seq<Signal>, k: int)
    requires
        0 <= k,
    ensures
        0 <= active_signals(signals, k) <= k,
    decreases k,
{
    if k > 0 {
        lemma_active_signals_bounds(signals, k - 1);
    }
}

/// The variance and the standard deviation of a sample are not negative.
pub proof fn lemma_deviation_nonnegative(data: Seq<i64>)
    requires
        data.len() > 0,
    ensures
        variance(data) >= 0,
        deviation(data) >= 0,
        is_integer_sqrt(deviation(data), variance(data)),
{
    lemma_mean_bounds(data);
    lemma_squared_deviations_bounds(data, mean(data), data.len() as int);
    let total = squared_deviations(data, mean(data), data.len() as int);
    let count = data.len() as int;
    assert(total / count >= 0) by (nonlinear_arith)
        requires
            total >= 0,
            count > 0,
    ;
    lemma_integer_sqrt_exists(variance(data));
}

/// The volatility of a series of at least two values is not negative.
pub proof fn lemma_volatility_nonnegative(values: Seq<u64>)
    requires
        values.len() >= 2,
    ensures
        volatility(values) >= 0,
{
    lemma_deviation_nonnegative(daily_returns(values));
    let spread = deviation(daily_returns(values));
    assert(spread * (SQRT_TRADING_DAYS as int) / (SCALE as int) >= 0) by (nonlinear_arith)
        requires
            spread >= 0,
            SQRT_TRADING_DAYS == 15_874_507,
            SCALE == 1_000_000,
    ;
}

/// The fields of the metrics are the statistics themselves: where there are
/// metrics, every statistic is in the range of its field, so nothing is
/// lost where a field is read back as a number.
pub proof fn lemma_metrics_hold_the_statistics(
    values: Seq<u64>,
    signals: Seq<Signal>,
    periods: int,
    risk_free_rate: int,
)
    requires
        metrics(values, signals, periods, risk_free_rate) is Ok,
        signals.len() <= usize::MAX,
    ensures
        ({
            let m = metrics(values, signals, periods, risk_free_rate)->Ok_0;
            let yearly = annualized(total_return(values), periods);
            &&& m.total_return == total_return(values)
            &&& m.annualized_return == yearly
            &&& m.volatility == volatility(values)
            &&& m.sharpe_ratio == sharpe_ratio(yearly, risk_free_rate, volatility(values))
            &&& m.max_drawdown == max_drawdown(values, values.len() as int)
            &&& m.max_drawdown <= SCALE
            &&& m.num_trades == active_signals(signals, signals.len() as int)
            &&& m.num_trades <= signals.len()
        }),
{
    lemma_volatility_nonnegative(values);
    lemma_max_drawdown_bounds(values, values.len() as int);
    lemma_active_signals_bounds(signals, signals.len() as int);
}

/// A zero, once met, stays the first zero of every longer stretch.
pub proof fn lemma_first_zero_persists(values: Seq<u64>, k: int, n: int)
    requires
        0 <= k <= n,
        first_zero(values, k) < k,
    ensures
        first_zero(values, n) == first_zero(values, k),
    decreases n - k,
{
    if k < n {
        lemma_first_zero_persists(values, k, n - 1);
    }
}

/// Where no zero is found among the first `k` values, none of them is zero.
pub proof fn lemma_first_zero_none(values: Seq<u64>, k: int, i: int)
    requires
        0 <= i < k,
        first_zero(values, k) == k,
    ensures
        values[i] != 0,
    decreases k,
{
    if i < k - 1 {
        lemma_first_zero_none(values, k - 1, i);
    }
}

/// How many signals are not `Hold`, whether or not a trade followed.
pub fn count_active_signals(signals: &[Signal]) -> (count: usize)
    ensures
        count == active_signals(signals@, signals.len() as int),
{
    let mut count: usize = 0;
    let mut i: usize = 0;
    while i < signals.len()
        invariant
            i <= signals.len(),
            count == active_signals(signals@, i as int),
            count <= i,
        decreases signals.len() - i,
    {
        match signals[i] {
            Signal::Hold => {},
            _ => {
                count = count + 1;
            },
        }
        i += 1;
    }
    count
}

/// Derives the performance metrics of a backtest from its value series, its
/// signals and the number of periods in `market_data`.
pub fn calculate_metrics(
    portfolio_values: &[u64],
    signals: &[Signal],
    market_data: &[MarketData],
    risk_free_rate: i64,
) -> (r: Result<PerformanceMetrics, BacktestError>)
    ensures
        r == metrics(
            portfolio_values@,
            signals@,
            market_data.len() as int,
            risk_free_rate as int,
        ),
        r is Ok ==> r->Ok_0.max_drawdown <= SCALE,
{
    let n: usize = portfolio_values.len();
    let periods: usize = market_data.len();
    if n < 2 || periods == 0 {
        return Err(BacktestError::DegenerateInput);
    }
    let ghost values = portfolio_values@;
    let mut z: usize = 0;
    while z < n - 1
        invariant
            n == portfolio_values.len(),
            values == portfolio_values@,
            n >= 2,
            z <= n - 1,
            periods == market_data.len(),
            periods > 0,
            first_zero(values, z as int) == z,
        decreases n - z,
    {
        if portfolio_values[z] == 0 {
            proof {
                assert(first_zero(values, z + 1) == z);
                lemma_first_zero_persists(values, z + 1, n - 1);
            }
            return Err(BacktestError::ZeroValue { period: z });
        }
        z += 1;
    }
    proof {
        lemma_first_zero_none(values, n - 1, 0);
    }
    let total: i64 = match relative_change(portfolio_values[0], portfolio_values[n - 1]) {
        Some(t) => t,
        None => {
            return Err(BacktestError::Overflow);
        },
    };
    let yearly: i128 = floor_div(total as i128 * TRADING_DAYS as i128, periods as i128);
    if yearly < i64::MIN as i128 || yearly > i64::MAX as i128 {
        return Err(BacktestError::Overflow);
    }
    let mut changes: Vec<i64> = Vec::new();
    let mut i: usize = 0;
    while i < n - 1
        invariant
            n == portfolio_values.len(),
            values == portfolio_values@,
            n >= 2,
            i <= n - 1,
            periods == market_data.len(),
            periods > 0,
            first_zero(values, n - 1) == n - 1,
            changes.len() == i,
            forall|j: int| 0 <= j < i ==> fits_i64(#[trigger] daily_return(values, j)),
            forall|j: int| 0 <= j < i ==> changes[j] == daily_return(values, j),
        decreases n - i,
    {
        proof {
            lemma_first_zero_none(values, n - 1, i as int);
        }
        match relative_change(portfolio_values[i], portfolio_values[i + 1]) {
            Some(change) => {
                changes.push(change);
            },
            None => {
                assert(!fits_i64(daily_return(values, i as int)));
                return Err(BacktestError::Overflow);
            },
        }
        i += 1;
    }
    assert(changes@ =~= daily_returns(values));
    let spread: u64 = standard_deviation(changes.as_slice());
    let yearly_spread: u64 = match checked_product(spread, SQRT_TRADING_DAYS) {
        Some(v) => v,
        None => {
            return Err(BacktestError::Overflow);
        },
    };
    let sharpe: i64 = if yearly_spread != 0 {
        match checked_ratio(yearly - risk_free_rate as i128, yearly_spread) {
            Some(s) => s,
            None => {
                return Err(BacktestError::Overflow);
            },
        }
    } else {
        0
    };
    let deepest: u64 = calculate_max_drawdown(portfolio_values);
    let active: usize = count_active_signals(signals);
    Ok(
        PerformanceMetrics {
            total_return: total,
            annualized_return: yearly as i64,
            volatility: yearly_spread,
            sharpe_ratio: sharpe,
            max_drawdown: deepest,
            num_trades: active,
        },
    )
}

} // verus!
