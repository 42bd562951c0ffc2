//! The parameter sweep: every crossover on a grid of windows, ranked by return.

use crate::backtester::first_failure;
use crate::backtester::run_backtest_with_capital;
use crate::backtester::value_series;
use crate::data_loader::types::closing_prices;
use crate::data_loader::MarketData;
use crate::decimal::quotient;
use crate::decimal::relative_change;
use crate::error::BacktestError;
use crate::strategy::crossover_signals;
use crate::strategy::MovingAverageCrossover;
use vstd::prelude::*;
use vstd::seq_lib::to_multiset_build;
use vstd::seq_lib::to_multiset_remove;

verus! {

/// What one pair of windows achieved.
#[derive(Debug, Clone, Copy, PartialEq, Eq, Structural)]
pub struct SweepResult {
    pub short_window: usize,
    pub long_window: usize,
    pub total_return: i64,
}

/// A pair of windows that yielded no result, and why.
#[derive(Debug, Clone, Copy, PartialEq, Eq, Structural)]
pub struct SkippedPoint {
    pub short_window: usize,
    pub long_window: usize,
    pub reason: BacktestError,
}

/// What a sweep found: the results, best first, and the pairs it had to skip,
/// in the order of the grid.
#[derive(Debug)]
pub struct SweepOutcome {
    pub ranked: Vec<SweepResult>,
    pub skipped: Vec<SkippedPoint>,
}

/// A grid of crossover windows: every short window from `short_min` to
/// `short_max` with every long window from `long_min` to `long_max`, both
/// ends included.
#[derive(Debug, Clone, Copy)]
pub struct SweepGrid {
    pub short_min: usize,
    pub short_max: usize,
    pub long_min: usize,
    pub long_max: usize,
}

impl SweepGrid {
    /// Whether the grid evaluates the pair: both windows are in their range,
    /// and the long one is longer than the short one.
    pub open spec fn admits(self, short: int, long: int) -> bool {
        &&& self.short_min <= short <= self.short_max
        &&& self.long_min <= long <= self.long_max
        &&& short < long
    }

    /// The shortest long window that is evaluated with `short`.
    pub open spec fn first_long(self, short: int) -> int {
        if self.long_min > short {
            self.long_min as int
        } else {
            short + 1
        }
    }

    /// How many long windows are evaluated with `short`.
    pub open spec fn row_len(self, short: int) -> nat {
        if self.first_long(short) <= self.long_max {
            (self.long_max - self.first_long(short) + 1) as nat
        } else {
            0
        }
    }

    /// The pairs evaluated with `short`, by rising long window.
    pub open spec fn row(self, short: int) -> Seq<(usize, usize)> {
        Seq::new(
            self.row_len(short),
            |k: int| (short as usize, (self.first_long(short) + k) as usize),
        )
    }

    /// The pairs evaluated with the first `count` short windows.
    pub open spec fn rows(self, count: int) -> Seq<(usize, usize)>
        decreases count,
    {
        if count <= 0 {
            Seq::empty()
        } else {
            self.rows(count - 1) + self.row(self.short_min + count - 1)
        }
    }

    /// How many short windows the grid has.
    pub open spec fn short_count(self) -> int {
        if self.short_min <= self.short_max {
            self.short_max - self.short_min + 1
        } else {
            0
        }
    }

    /// Every pair that the grid evaluates, by rising short window and, for
    /// one short window, by rising long window.
    pub open spec fn points(self) -> Seq<(usize, usize)> {
        self.rows(self.short_count())
    }

    /// Lists the pairs that the grid evaluates, in the order of `points`.
    pub fn grid_points(&self) -> (points: Vec<(usize, usize)>)
        ensures
            points@ == self.points(),
    {
        let mut points: Vec<(usize, usize)> = Vec::new();
        if self.short_min > self.short_max {
            return points;
        }
        let mut short: usize = self.short_min;
        let mut done: bool = false;
        while !done
            invariant
                self.short_min <= short <= self.short_max,
                !done ==> points@ == self.rows(short - self.short_min),
                done ==> points@ == self.points(),
            decreases self.short_max - short + (if done { 0int } else { 1int }),
        {
            let ghost before = points@;
            if short < self.long_max {
                let first: usize = if self.long_min > short {
                    self.long_min
                } else {
                    short + 1
                };
                let mut long: usize = first;
                let mut row_done: bool = first > self.long_max;
                while !row_done
                    invariant
                        first == self.first_long(short as int),
                        first <= long,
                        !row_done ==> long <= self.long_max,
                        !row_done ==> points@ == before + self.row(short as int).take(long - first),
                        row_done ==> points@ == before + self.row(short as int),
                    decreases self.long_max - long + (if row_done { 0int } else { 1int }),
                {
                    points.push((short, long));
                    assert(points@ =~= before + self.row(short as int).take(long - first + 1));
                    if long == self.long_max {
                        assert(self.row(short as int).take(long - first + 1) =~= self.row(
                            short as int,
                        ));
                        row_done = true;
                    } else {
                        long = long + 1;
                    }
                }
            } else {
                assert(self.row(short as int) =~= Seq::empty());
                assert(points@ =~= before + self.row(short as int));
            }
            assert(points@ == self.rows(short - self.short_min + 1));
            if short == self.short_max {
                done = true;
            } else {
                short = short + 1;
            }
        }
        points
    }
}

/// The return of a run that started with `capital` and ended at `final_value`.
pub open spec fn return_on_capital(final_value: int, capital: int) -> int {
    quotient(final_value - capital, capital)
}

/// The record of a pair that was skipped for `reason`.
pub open spec fn skipped(short: usize, long: usize, reason: BacktestError) -> SkippedPoint {
    SkippedPoint { short_window: short, long_window: long, reason }
}

/// What evaluating one pair of windows yields: the return of the crossover
/// run from `capital` to its final value, or why there is none.
///
/// The windows must make a meaningful crossover; a return needs capital and
/// a final value, so at least two records; the run must not fail; and the
/// return must fit `i64`.
pub open spec fn evaluation(short: usize, long: usize, data: Seq<MarketData>, capital: u64) -> Result<
    SweepResult,
    SkippedPoint,
> {
    let signals = crossover_signals(closing_prices(data), short as int, long as int);
    let failure = first_failure(signals, data, capital as int, signals.len() as int);
    let gain = return_on_capital(
        value_series(signals, data, capital as int).last() as int,
        capital as int,
    );
    if !MovingAverageCrossover::valid_windows(short, long) {
        Err(skipped(short, long, BacktestError::InvalidParameters))
    } else if data.len() < 2 || capital == 0 {
        Err(skipped(short, long, BacktestError::DegenerateInput))
    } else if failure is Some {
        Err(skipped(short, long, failure->Some_0))
    } else if !(i64::MIN <= gain <= i64::MAX) {
        Err(skipped(short, long, BacktestError::Overflow))
    } else {
        Ok(SweepResult { short_window: short, long_window: long, total_return: gain as i64 })
    }
}

/// Runs the crossover with the given windows over the series, starting from
/// `initial_capital`, and takes the return from the final portfolio value.
pub fn evaluate(
    short_window: usize,
    long_window: usize,
    market_data: &[MarketData],
    initial_capital: u64,
) -> (r: Result<SweepResult, SkippedPoint>)
    ensures
        r == evaluation(short_window, long_window, market_data@, initial_capital),
{
    let strategy = match MovingAverageCrossover::try_new(short_window, long_window) {
        Ok(strategy) => strategy,
        Err(reason) => {
            return Err(SkippedPoint { short_window, long_window, reason });
        },
    };
    if market_data.len() < 2 || initial_capital == 0 {
        return Err(
            SkippedPoint { short_window, long_window, reason: BacktestError::DegenerateInput },
        );
    }
    match run_backtest_with_capital(&strategy, market_data, initial_capital) {
        Ok((values, _, _)) => {
            let final_value: u64 = values[values.len() - 1];
            match relative_change(initial_capital, final_value) {
                Some(gain) => Ok(
                    SweepResult { short_window, long_window, total_return: gain },
                ),
                None => Err(
                    SkippedPoint { short_window, long_window, reason: BacktestError::Overflow },
                ),
            }
        },
        Err(reason) => Err(SkippedPoint { short_window, long_window, reason }),
    }
}

/// Whether `a` is ranked before `b`, or is `b` itself: by higher return, and
/// among equal returns by shorter short window, then by shorter long window.
pub open spec fn outranks(a: SweepResult, b: SweepResult) -> bool {
    ||| a.total_return > b.total_return
    ||| a.total_return == b.total_return && a.short_window < b.short_window
    ||| a.total_return == b.total_return && a.short_window == b.short_window && a.long_window
        <= b.long_window
}

/// Whether the results stand best first.
pub open spec fn is_ranked(results: Seq<SweepResult>) -> bool {
    forall|i: int, j: int|
        0 <= i < j < results.len() ==> outranks(#[trigger] results[i], #[trigger] results[j])
}

/// Executable form of [`outranks`].
pub fn ranks_before(a: &SweepResult, b: &SweepResult) -> (before: bool)
    ensures
        before == outranks(*a, *b),
{
    if a.total_return != b.total_return {
        a.total_return > b.total_return
    } else if a.short_window != b.short_window {
        a.short_window < b.short_window
    } else {
        a.long_window <= b.long_window
    }
}

/// Inserting an item into a sequence adds it to the items that it holds.
pub proof fn lemma_insert_to_multiset(s: Seq<SweepResult>, i: int, x: SweepResult)
    requires
        0 <= i <= s.len(),
    ensures
        s.insert(i, x).to_multiset() == s.to_multiset().insert(x),
{
    let t = s.insert(i, x);
    to_multiset_remove(t, i);
    assert(t.remove(i) =~= s);
    t.to_multiset_ensures();
    assert(t.contains(x)) by {
        assert(t[i] == x);
    }
    assert(t.to_multiset() =~= s.to_multiset().insert(x));
}

/// Orders the results best first. Equal returns go by shorter short window,
/// then by shorter long window, so the order does not depend on the order
/// in which the results came.
pub fn rank(results: &[SweepResult]) -> (ranked: Vec<SweepResult>)
    ensures
        is_ranked(ranked@),
        ranked@.to_multiset() == results@.to_multiset(),
{
    let mut ranked: Vec<SweepResult> = Vec::new();
    let mut i: usize = 0;
    assert(results@.take(0) =~= Seq::empty());
    while i < results.len()
        invariant
            i <= results.len(),
            is_ranked(ranked@),
            ranked.len() == i,
            ranked@.to_multiset() == results@.take(i as int).to_multiset(),
        decreases results.len() - i,
    {
        let item: SweepResult = results[i];
        let mut at: usize = 0;
        while at < ranked.len() && ranks_before(&ranked[at], &item)
            invariant
                at <= ranked.len(),
                forall|k: int| 0 <= k < at ==> outranks(#[trigger] ranked[k], item),
            decreases ranked.len() - at,
        {
            at += 1;
        }
        proof {
            lemma_insert_to_multiset(ranked@, at as int, item);
            to_multiset_build(results@.take(i as int), item);
            assert(results@.take(i + 1) =~= results@.take(i as int).push(item));
            let ghost before = ranked@;
            let ghost after = before.insert(at as int, item);
            assert forall|a: int, b: int| 0 <= a < b < after.len() implies outranks(
                #[trigger] after[a],
                #[trigger] after[b],
            ) by {
                if b < at {
                    assert(after[a] == before[a] && after[b] == before[b]);
                } else if b == at {
                    assert(after[a] == before[a]);
                } else if a < at {
                    assert(after[a] == before[a] && after[b] == before[b - 1]);
                } else if a == at {
                    assert(after[b] == before[b - 1]);
                    assert(!outranks(before[at as int], item));
                    if b - 1 > at {
                        assert(outranks(before[at as int], before[b - 1]));
                    }
                } else {
                    assert(after[a] == before[a - 1] && after[b] == before[b - 1]);
                }
            }
        }
        ranked.insert(at, item);
        i += 1;
    }
    assert(results@.take(results.len() as int) =~= results@);
    ranked
}

/// The first `k` of the results, or all of them where there are fewer.
pub fn select_top(ranked: &[SweepResult], k: usize) -> (top: Vec<SweepResult>)
    ensures
        top@ == ranked@.take(
            if k <= ranked.len() {
                k as int
            } else {
                ranked.len() as int
            },
        ),
{
    let count: usize = if k <= ranked.len() {
        k
    } else {
        ranked.len()
    };
    let mut top: Vec<SweepResult> = Vec::new();
    let mut i: usize = 0;
    while i < count
        invariant
            i <= count <= ranked.len(),
            top@ == ranked@.take(i as int),
        decreases count - i,
    {
        top.push(ranked[i]);
        assert(ranked@.take(i + 1) =~= ranked@.take(i as int).push(ranked[i as int]));
        i += 1;
    }
    top
}

/// The results among the first `k` outcomes, in order.
pub open spec fn successes(outcomes: Seq<Result<SweepResult, SkippedPoint>>, k: int) -> Seq<
    SweepResult,
>
    decreases k,
{
    if k <= 0 {
        Seq::empty()
    } else {
        match outcomes[k - 1] {
            Ok(result) => successes(outcomes, k - 1).push(result),
            Err(_) => successes(outcomes, k - 1),
        }
    }
}

/// The skipped pairs among the first `k` outcomes, in order.
pub open spec fn failures(outcomes: Seq<Result<SweepResult, SkippedPoint>>, k: int) -> Seq<
    SkippedPoint,
>
    decreases k,
{
    if k <= 0 {
        Seq::empty()
    } else {
        match outcomes[k - 1] {
            Ok(_) => failures(outcomes, k - 1),
            Err(point) => failures(outcomes, k - 1).push(point),
        }
    }
}

/// Whether `outcome` is the summary of `outcomes`: the results stand best
/// first and are those of `outcomes`, each as often as there; the skipped
/// pairs stand in the order in which they came.
pub open spec fn summarizes(
    outcome: SweepOutcome,
    outcomes: Seq<Result<SweepResult, SkippedPoint>>,
) -> bool {
    &&& is_ranked(outcome.ranked@)
    &&& outcome.ranked@.to_multiset() == successes(outcomes, outcomes.len() as int).to_multiset()
    &&& outcome.skipped@ == failures(outcomes, outcomes.len() as int)
}

/// Parts the outcomes of the evaluations into results and skipped pairs, and
/// ranks the results.
pub fn tally(outcomes: &[Result<SweepResult, SkippedPoint>]) -> (outcome: SweepOutcome)
    ensures
        summarizes(outcome, outcomes@),
{
    let mut results: Vec<SweepResult> = Vec::new();
    let mut skipped: Vec<SkippedPoint> = Vec::new();
    let mut i: usize = 0;
    while i < outcomes.len()
        invariant
            i <= outcomes.len(),
            results@ == successes(outcomes@, i as int),
            skipped@ == failures(outcomes@, i as int),
        decreases outcomes.len() - i,
    {
        match outcomes[i] {
            Ok(result) => {
                results.push(result);
            },
            Err(point) => {
                skipped.push(point);
            },
        }
        i += 1;
    }
    let ranked = rank(results.as_slice());
    SweepOutcome { ranked, skipped }
}

/// The evaluation of each pair, in the order of the pairs.
pub open spec fn evaluations(points: Seq<(usize, usize)>, data: Seq<MarketData>, capital: u64) -> Seq<
    Result<SweepResult, SkippedPoint>,
> {
    Seq::new(points.len(), |i: int| evaluation(points[i].0, points[i].1, data, capital))
}

/// Evaluates the pairs one after the other.
pub fn evaluate_all(points: &[(usize, usize)], market_data: &[MarketData], initial_capital: u64) -> (outcomes:
    Vec<Result<SweepResult, SkippedPoint>>)
    ensures
        outcomes@ == evaluations(points@, market_data@, initial_capital),
{
    let mut outcomes: Vec<Result<SweepResult, SkippedPoint>> = Vec::new();
    let mut i: usize = 0;
    while i < points.len()
        invariant
            i <= points.len(),
            outcomes.len() == i,
            forall|k: int|
                0 <= k < i ==> outcomes[k] == evaluation(
                    points[k].0,
                    points[k].1,
                    market_data@,
                    initial_capital,
                ),
        decreases points.len() - i,
    {
        let point: (usize, usize) = points[i];
        outcomes.push(evaluate(point.0, point.1, market_data, initial_capital));
        i += 1;
    }
    assert(outcomes@ =~= evaluations(points@, market_data@, initial_capital));
    outcomes
}

/// Evaluates every pair of the grid over the series, each run on its own
/// from `initial_capital`, and ranks what they achieved.
pub fn sweep(market_data: &[MarketData], grid: &SweepGrid, initial_capital: u64) -> (outcome:
    SweepOutcome)
    ensures
        summarizes(outcome, evaluations(grid.points(), market_data@, initial_capital)),
{
    let points = grid.grid_points();
    let outcomes = evaluate_all(points.as_slice(), market_data, initial_capital);
    tally(outcomes.as_slice())
}

/// The first `count` rows hold only pairs that the grid admits, each with
/// one of the first `count` short windows.
pub proof fn lemma_rows_admitted(grid: SweepGrid, count: int, i: int)
    requires
        0 <= count <= grid.short_count(),
        0 <= i < grid.rows(count).len(),
    ensures
        grid.admits(grid.rows(count)[i].0 as int, grid.rows(count)[i].1 as int),
        grid.rows(count)[i].0 < grid.short_min + count,
    decreases count,
{
    let earlier = grid.rows(count - 1);
    if i < earlier.len() {
        lemma_rows_admitted(grid, count - 1, i);
    } else {
        let short = grid.short_min + count - 1;
        assert(grid.rows(count)[i] == grid.row(short)[i - earlier.len()]);
    }
}

/// The first `count` rows hold every pair that the grid admits with one of
/// the first `count` short windows.
pub proof fn lemma_rows_complete(grid: SweepGrid, count: int, short: int, long: int)
    requires
        0 <= count <= grid.short_count(),
        grid.admits(short, long),
        short < grid.short_min + count,
    ensures
        grid.rows(count).contains((short as usize, long as usize)),
    decreases count,
{
    let earlier = grid.rows(count - 1);
    if short < grid.short_min + count - 1 {
        lemma_rows_complete(grid, count - 1, short, long);
        let i = choose|i: int| 0 <= i < earlier.len() && earlier[i] == (short as usize, long as usize);
        assert(grid.rows(count)[i] == earlier[i]);
    } else {
        let k = long - grid.first_long(short);
        assert(grid.row(short)[k] == (short as usize, long as usize));
        assert(grid.rows(count)[earlier.len() + k] == grid.row(short)[k]);
    }
}

/// Whether pair `a` comes before pair `b` in the grid.
pub open spec fn precedes(a: (usize, usize), b: (usize, usize)) -> bool {
    a.0 < b.0 || (a.0 == b.0 && a.1 < b.1)
}

/// The first `count` rows stand by rising short window and, for one short
/// window, by rising long window.
pub proof fn lemma_rows_ordered(grid: SweepGrid, count: int, i: int, j: int)
    requires
        0 <= count <= grid.short_count(),
        0 <= i < j < grid.rows(count).len(),
    ensures
        precedes(grid.rows(count)[i], grid.rows(count)[j]),
    decreases count,
{
    let earlier = grid.rows(count - 1);
    let short = grid.short_min + count - 1;
    if j < earlier.len() {
        lemma_rows_ordered(grid, count - 1, i, j);
    } else if i < earlier.len() {
        lemma_rows_admitted(grid, count - 1, i);
        assert(grid.rows(count)[i] == earlier[i]);
        assert(grid.rows(count)[j] == grid.row(short)[j - earlier.len()]);
    } else {
        assert(grid.rows(count)[i] == grid.row(short)[i - earlier.len()]);
        assert(grid.rows(count)[j] == grid.row(short)[j - earlier.len()]);
    }
}

/// A sweep evaluates the pairs of its grid whose long window is longer than
/// the short one, and no others: every pair that it lists is admitted,
/// every admitted pair is listed, and the list runs in grid order, so no
/// pair is listed twice.
pub proof fn lemma_grid_is_exact(grid: SweepGrid)
    ensures
        forall|i: int|
            0 <= i < grid.points().len() ==> grid.admits(
                (#[trigger] grid.points()[i]).0 as int,
                grid.points()[i].1 as int,
            ),
        forall|short: usize, long: usize|
            grid.admits(short as int, long as int) ==> grid.points().contains((short, long)),
        forall|i: int, j: int|
            0 <= i < j < grid.points().len() ==> precedes(
                #[trigger] grid.points()[i],
                #[trigger] grid.points()[j],
            ),
{
    assert forall|i: int| 0 <= i < grid.points().len() implies grid.admits(
        (#[trigger] grid.points()[i]).0 as int,
        grid.points()[i].1 as int,
    ) by {
        lemma_rows_admitted(grid, grid.short_count(), i);
    }
    assert forall|short: usize, long: usize|
        grid.admits(short as int, long as int) implies grid.points().contains((short, long)) by {
        lemma_rows_complete(grid, grid.short_count(), short as int, long as int);
    }
    assert forall|i: int, j: int| 0 <= i < j < grid.points().len() implies precedes(
        #[trigger] grid.points()[i],
        #[trigger] grid.points()[j],
    ) by {
        lemma_rows_ordered(grid, grid.short_count(), i, j);
    }
}

/// Whatever is among the first `k` outcomes as a result is among their
/// successes.
pub proof fn lemma_successes_hold(
    outcomes: Seq<Result<SweepResult, SkippedPoint>>,
    k: int,
    p: int,
)
    requires
        0 <= p < k <= outcomes.len(),
        outcomes[p] is Ok,
    ensures
        successes(outcomes, k).contains(outcomes[p]->Ok_0),
    decreases k,
{
    let earlier = successes(outcomes, k - 1);
    if p < k - 1 {
        lemma_successes_hold(outcomes, k - 1, p);
        if outcomes[k - 1] is Ok {
            let i = choose|i: int| 0 <= i < earlier.len() && earlier[i] == outcomes[p]->Ok_0;
            assert(successes(outcomes, k)[i] == earlier[i]);
        }
    } else {
        assert(successes(outcomes, k)[earlier.len() as int] == outcomes[p]->Ok_0);
    }
}

/// The sweep selects the pair with the highest return: the first of the
/// ranking is ranked before every result of the sweep, so none has a higher
/// return, and among equal returns it has the shortest windows.
pub proof fn lemma_first_is_best(
    outcome: SweepOutcome,
    outcomes: Seq<Result<SweepResult, SkippedPoint>>,
    p: int,
)
    requires
        summarizes(outcome, outcomes),
        0 <= p < outcomes.len(),
        outcomes[p] is Ok,
    ensures
        outcome.ranked.len() > 0,
        outranks(outcome.ranked[0], outcomes[p]->Ok_0),
        outcome.ranked[0].total_return >= (outcomes[p]->Ok_0).total_return,
{
    let result = outcomes[p]->Ok_0;
    let all = successes(outcomes, outcomes.len() as int);
    lemma_successes_hold(outcomes, outcomes.len() as int, p);
    all.to_multiset_ensures();
    outcome.ranked@.to_multiset_ensures();
    assert(all.to_multiset().count(result) > 0);
    assert(outcome.ranked@.to_multiset().count(result) > 0);
    assert(outcome.ranked@.contains(result));
    let i = choose|i: int| 0 <= i < outcome.ranked@.len() && outcome.ranked@[i] == result;
    if i > 0 {
        assert(outranks(outcome.ranked@[0], outcome.ranked@[i]));
    }
}

/// Ties are resolved the same way every time: two rankings of the same
/// results are the same ranking.
pub proof fn lemma_ranking_is_unique(a: Seq<SweepResult>, b: Seq<SweepResult>)
    requires
        is_ranked(a),
        is_ranked(b),
        a.to_multiset() == b.to_multiset(),
    ensures
        a == b,
    decreases a.len(),
{
    a.to_multiset_ensures();
    b.to_multiset_ensures();
    if a.len() > 0 {
        assert(a.contains(a[0]));
        assert(b.contains(b[0]));
        assert(a.to_multiset().count(a[0]) > 0);
        assert(b.to_multiset().count(b[0]) > 0);
        assert(b.to_multiset().count(a[0]) > 0);
        assert(a.to_multiset().count(b[0]) > 0);
        assert(b.contains(a[0]));
        assert(a.contains(b[0]));
        let i = choose|i: int| 0 <= i < b.len() && b[i] == a[0];
        let j = choose|j: int| 0 <= j < a.len() && a[j] == b[0];
        if i > 0 {
            assert(outranks(b[0], b[i]));
        }
        if j > 0 {
            assert(outranks(a[0], a[j]));
        }
        assert(a[0] == b[0]);
        to_multiset_remove(a, 0);
        to_multiset_remove(b, 0);
        let rest_a = a.remove(0);
        let rest_b = b.remove(0);
        assert forall|x: int, y: int| 0 <= x < y < rest_a.len() implies outranks(
            #[trigger] rest_a[x],
            #[trigger] rest_a[y],
        ) by {
            assert(rest_a[x] == a[x + 1] && rest_a[y] == a[y + 1]);
        }
        assert forall|x: int, y: int| 0 <= x < y < rest_b.len() implies outranks(
            #[trigger] rest_b[x],
            #[trigger] rest_b[y],
        ) by {
            assert(rest_b[x] == b[x + 1] && rest_b[y] == b[y + 1]);
        }
        lemma_ranking_is_unique(rest_a, rest_b);
        assert(a =~= seq![a[0]] + rest_a);
        assert(b =~= seq![b[0]] + rest_b);
    } else {
        assert(a =~= b);
    }
}

} // verus!
