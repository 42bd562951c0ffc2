//! The price series that every other component consumes.

use crate::data_loader::number::ParseError;
use crate::data_loader::types::parse_record;
use crate::data_loader::types::record_of;
use crate::data_loader::types::RawRecord;
use vstd::prelude::*;

pub mod number;
pub mod types;

pub use types::MarketData;

verus! {

/// The row that stopped the loading of a source, counted from zero, and why.
#[derive(Debug, Clone, Copy, PartialEq, Eq, Structural)]
pub struct LoadError {
    pub row: usize,
    pub reason: ParseError,
}

/// The first of the first `k` rows that cannot be read, or `k` where all can.
pub open spec fn first_bad_row(rows: Seq<RawRecord>, k: int) -> int
    decreases k,
{
    if k <= 0 {
        0
    } else if first_bad_row(rows, k - 1) < k - 1 {
        first_bad_row(rows, k - 1)
    } else if record_of(rows[k - 1]) is Err {
        k - 1
    } else {
        k
    }
}

/// A bad row, once met, stays the first bad row of every longer stretch.
pub proof fn lemma_first_bad_row_persists(rows: Seq<RawRecord>, k: int, n: int)
    requires
        0 <= k <= n,
        first_bad_row(rows, k) < k,
    ensures
        first_bad_row(rows, n) == first_bad_row(rows, k),
    decreases n - k,
{
    if k < n {
        lemma_first_bad_row_persists(rows, k, n - 1);
    }
}

/// Reads the rows of a source that lists the latest day first, and returns
/// the records with the earliest day first. The first row that cannot be
/// read stops the loading.
pub fn load_csv_rows(rows: &[RawRecord]) -> (r: Result<Vec<MarketData>, LoadError>)
    ensures
        match r {
            Ok(records) => {
                &&& first_bad_row(rows@, rows.len() as int) == rows.len()
                &&& records.len() == rows.len()
                &&& forall|i: int|
                    0 <= i < records.len() ==> record_of(#[trigger] rows[rows.len() - 1 - i])
                        == Ok::<MarketData, ParseError>(records[i])
            },
            Err(e) => {
                &&& e.row == first_bad_row(rows@, rows.len() as int)
                &&& e.row < rows.len()
                &&& record_of(rows[e.row as int]) == Err::<MarketData, ParseError>(e.reason)
            },
        },
{
    let n: usize = rows.len();
    let mut read: Vec<MarketData> = Vec::new();
    let mut i: usize = 0;
    while i < n
        invariant
            n == rows.len(),
            i <= n,
            first_bad_row(rows@, i as int) == i,
            read.len() == i,
            forall|j: int|
                0 <= j < i ==> record_of(#[trigger] rows[j]) == Ok::<MarketData, ParseError>(
                    read[j],
                ),
        decreases n - i,
    {
        match parse_record(&rows[i]) {
            Ok(record) => {
                read.push(record);
            },
            Err(reason) => {
                proof {
                    assert(first_bad_row(rows@, i + 1) == i);
                    lemma_first_bad_row_persists(rows@, i + 1, n as int);
                }
                return Err(LoadError { row: i, reason });
            },
        }
        i += 1;
    }
    let mut records: Vec<MarketData> = Vec::new();
    let mut k: usize = 0;
    while k < n
        invariant
            n == rows.len(),
            read.len() == n,
            k <= n,
            records.len() == k,
            forall|j: int| 0 <= j < k ==> records[j] == read[n - 1 - j],
        decreases n - k,
    {
        records.push(read[n - 1 - k]);
        k += 1;
    }
    assert forall|i: int| 0 <= i < records.len() implies record_of(
        #[trigger] rows[rows.len() - 1 - i],
    ) == Ok::<MarketData, ParseError>(records[i]) by {
        assert(records[i] == read[n - 1 - i]);
    }
    Ok(records)
}

} // verus!
