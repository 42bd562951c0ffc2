//! What a chart of the portfolio value needs to know of the series.

use vstd::prelude::*;

verus! {

/// Whether `low` and `high` are the lowest and the highest value of the series.
pub open spec fn spans(values: Seq<u64>, low: u64, high: u64) -> bool {
    &&& exists|i: int| 0 <= i < values.len() && values[i] == low
    &&& exists|i: int| 0 <= i < values.len() && values[i] == high
    &&& forall|i: int| 0 <= i < values.len() ==> low <= #[trigger] values[i] <= high
}

/// The lowest and the highest value of the series, for the value axis of a
/// chart; `None` for an empty series, which has nothing to draw.
pub fn value_bounds(portfolio_values: &[u64]) -> (bounds: Option<(u64, u64)>)
    ensures
        match bounds {
            Some((low, high)) => spans(portfolio_values@, low, high),
            None => portfolio_values.len() == 0,
        },
{
    if portfolio_values.len() == 0 {
        return None;
    }
    let mut low: u64 = portfolio_values[0];
    let mut high: u64 = portfolio_values[0];
    let mut i: usize = 1;
    while i < portfolio_values.len()
        invariant
            1 <= i <= portfolio_values.len(),
            exists|j: int| 0 <= j < i && portfolio_values[j] == low,
            exists|j: int| 0 <= j < i && portfolio_values[j] == high,
            forall|j: int| 0 <= j < i ==> low <= #[trigger] portfolio_values[j] <= high,
        decreases portfolio_values.len() - i,
    {
        let value: u64 = portfolio_values[i];
        if value < low {
            low = value;
        }
        if value > high {
            high = value;
        }
        assert(portfolio_values[i as int] == value);
        i += 1;
    }
    Some((low, high))
}

} // verus!
