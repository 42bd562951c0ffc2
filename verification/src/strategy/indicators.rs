//! Trailing averages of a price series.

use crate::data_loader::types::closing_prices;
use crate::data_loader::MarketData;
use vstd::prelude::*;

verus! {

/// The sum of `prices[lo..hi]`.
pub open spec fn range_sum(prices: Seq<u64>, lo: int, hi: int) -> int
    decreases hi - lo,
{
    if hi <= lo {
        0
    } else {
        range_sum(prices, lo, hi - 1) + prices[hi - 1]
    }
}

/// Where the window that ends at period `i` begins: the window reaches back
/// `window` periods, or to the start of the series while that is nearer.
pub open spec fn window_start(i: int, window: int) -> int {
    if i < window {
        0
    } else {
        i - window + 1
    }
}

/// The trailing average at period `i`: the mean of the prices in the window
/// that ends there, rounded down.
pub open spec fn average_at(prices: Seq<u64>, window: int, i: int) -> int {
    range_sum(prices, window_start(i, window), i + 1) / (i + 1 - window_start(i, window))
}

/// A sum loses its first term when the range starts one later.
pub proof fn lemma_range_sum_drop_first(prices: Seq<u64>, lo: int, hi: int)
    requires
        lo < hi,
    ensures
        range_sum(prices, lo, hi) == prices[lo] + range_sum(prices, lo + 1, hi),
    decreases hi - lo,
{
    if lo + 1 < hi {
        lemma_range_sum_drop_first(prices, lo, hi - 1);
    } else {
        assert(range_sum(prices, lo, hi - 1) == 0);
        assert(range_sum(prices, lo + 1, hi) == 0);
    }
}

/// A sum of `u64` prices is at most as many times the largest `u64`.
pub proof fn lemma_range_sum_bounds(prices: Seq<u64>, lo: int, hi: int)
    requires
        lo <= hi,
    ensures
        0 <= range_sum(prices, lo, hi) <= (hi - lo) * u64::MAX,
    decreases hi - lo,
{
    if lo < hi {
        lemma_range_sum_bounds(prices, lo, hi - 1);
    }
}

/// With a window of one period the trailing average is the price itself.
pub proof fn lemma_unit_window_is_identity(prices: Seq<u64>, i: int)
    requires
        0 <= i < prices.len(),
    ensures
        average_at(prices, 1, i) == prices[i],
{
    assert(window_start(i, 1) == i);
    assert(range_sum(prices, i, i) == 0);
    assert(range_sum(prices, i, i + 1) == prices[i]);
    assert((prices[i] as int) / 1 == prices[i]);
}

/// The mean of `count` prices is itself no larger than a price can be.
proof fn lemma_mean_fits(sum: int, count: int)
    requires
        count > 0,
        0 <= sum <= count * u64::MAX,
    ensures
        0 <= sum / count <= u64::MAX,
{
    assert(0 <= sum / count <= u64::MAX) by (nonlinear_arith)
        requires
            count > 0,
            0 <= sum <= count * u64::MAX,
    ;
}

/// The trailing average of the closing prices, one value per record.
///
/// While fewer than `window_size` periods have passed, the average is taken
/// over all of them; after that over the last `window_size`. A running sum is
/// kept, so each period costs one addition, one subtraction and one division.
pub fn moving_average(market_data: &[MarketData], window_size: usize) -> (ma: Vec<u64>)
    requires
        window_size > 0,
    ensures
        ma.len() == market_data.len(),
        forall|i: int|
            0 <= i < ma.len() ==> ma[i] == #[trigger] average_at(
                closing_prices(market_data@),
                window_size as int,
                i,
            ),
{
    let n: usize = market_data.len();
    let ghost prices = closing_prices(market_data@);
    let mut ma: Vec<u64> = Vec::with_capacity(n);
    let mut sum: u128 = 0;
    let mut i: usize = 0;
    while i < n
        invariant
            n == market_data.len(),
            prices == closing_prices(market_data@),
            window_size > 0,
            i <= n,
            ma.len() == i,
            sum == range_sum(prices, window_start(i - 1, window_size as int), i as int),
            forall|j: int|
                0 <= j < i ==> ma[j] == #[trigger] average_at(prices, window_size as int, j),
        decreases n - i,
    {
        let ghost lo = window_start(i - 1, window_size as int);
        let close_price: u64 = market_data[i].price_or_zero();
        proof {
            lemma_range_sum_bounds(prices, lo, i as int);
            assert((i - lo) * u64::MAX + u64::MAX <= u64::MAX * u64::MAX) by (nonlinear_arith)
                requires
                    0 <= i - lo < u64::MAX,
            ;
        }
        sum = sum + close_price as u128;
        assert(sum == range_sum(prices, lo, i + 1));
        if i >= window_size {
            let old_price: u64 = market_data[i - window_size].price_or_zero();
            proof {
                lemma_range_sum_drop_first(prices, lo, i + 1);
                lemma_range_sum_bounds(prices, lo + 1, i + 1);
                lemma_mean_fits(range_sum(prices, lo + 1, i + 1), window_size as int);
            }
            sum = sum - old_price as u128;
            ma.push((sum / window_size as u128) as u64);
        } else {
            proof {
                lemma_range_sum_bounds(prices, 0, i + 1);
                lemma_mean_fits(range_sum(prices, 0, i + 1), i + 1);
            }
            ma.push((sum / (i as u128 + 1)) as u64);
        }
        i += 1;
    }
    ma
}

} // verus!
