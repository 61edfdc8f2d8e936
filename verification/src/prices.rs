//! Open, high, low and close prices per period, in whole units (cents or
//! satoshis).

use vstd::prelude::*;

use crate::column::Column;

verus! {

/// The prices of one period.
#[derive(Clone, Copy, PartialEq, Eq, Structural, Debug)]
pub struct Ohlc {
    pub open: u64,
    pub high: u64,
    pub low: u64,
    pub close: u64,
}

/// Where the prices of a day come from while the daily series is rebuilt.
#[derive(Clone, Copy, PartialEq, Eq, Structural, Debug)]
pub enum DaySource {
    /// Ask the price source; fall back on the stored prices of the day.
    Fetch,
    /// Keep the stored prices of the day.
    Stored,
}

/// Where the prices of day `dateindex` come from when the daily series
/// holds `len` days: the last stored day and any later one are fetched.
pub fn day_source(dateindex: usize, len: usize) -> (r: DaySource)
    ensures
        r == if dateindex + 1 >= len {
            DaySource::Fetch
        } else {
            DaySource::Stored
        },
{
    if dateindex >= len || len - dateindex <= 1 {
        DaySource::Fetch
    } else {
        DaySource::Stored
    }
}

pub open spec fn max_u64(a: u64, b: u64) -> u64 {
    if a >= b {
        a
    } else {
        b
    }
}

pub open spec fn min_u64(a: u64, b: u64) -> u64 {
    if a <= b {
        a
    } else {
        b
    }
}

/// The prices of a day joined to the day before: the day opens at the
/// previous close, and its high and low take that open into account.
pub open spec fn stitched(day: Ohlc, prev_close: Option<u64>) -> Ohlc {
    match prev_close {
        Some(p) => Ohlc { open: p, high: max_u64(day.high, p), low: min_u64(day.low, p), close: day.close },
        None => day,
    }
}

/// Joins the prices of a day to the close of the day before, if there is one.
pub fn stitch_day(day: Ohlc, prev_close: Option<u64>) -> (r: Ohlc)
    ensures
        r == stitched(day, prev_close),
{
    match prev_close {
        Some(p) => Ohlc {
            open: p,
            high: if day.high >= p {
                day.high
            } else {
                p
            },
            low: if day.low <= p {
                day.low
            } else {
                p
            },
            close: day.close,
        },
        None => day,
    }
}

/// The prices of the periods from `start` up to the end of `close`: the
/// open from the first values, the high from the maxima, the low from the
/// minima and the close from the last values of the period.
pub fn assemble_ohlc(
    start: usize,
    open: &Column<u64>,
    high: &Column<u64>,
    low: &Column<u64>,
    close: &Column<u64>,
) -> (r: Vec<Ohlc>)
    requires
        open.values@.len() >= close.values@.len(),
        high.values@.len() >= close.values@.len(),
        low.values@.len() >= close.values@.len(),
    ensures
        start >= close.values@.len() ==> r@.len() == 0,
        start < close.values@.len() ==> r@.len() == close.values@.len() - start,
        forall|j: int|
            0 <= j < r@.len() ==> #[trigger] r@[j] == (Ohlc {
                open: open.values@[start + j],
                high: high.values@[start + j],
                low: low.values@[start + j],
                close: close.values@[start + j],
            }),
{
    let mut out: Vec<Ohlc> = Vec::new();
    let n = close.values.len();
    let mut i = start;
    while i < n
        invariant
            start <= i,
            i >= n ==> out@.len() == if start < n { n - start } else { 0 },
            i < n ==> out@.len() == i - start,
            n == close.values@.len(),
            open.values@.len() >= n,
            high.values@.len() >= n,
            low.values@.len() >= n,
            forall|j: int|
                0 <= j < out@.len() ==> #[trigger] out@[j] == (Ohlc {
                    open: open.values@[start + j],
                    high: high.values@[start + j],
                    low: low.values@[start + j],
                    close: close.values@[start + j],
                }),
        decreases n - i,
    {
        out.push(
            Ohlc {
                open: open.values[i],
                high: high.values[i],
                low: low.values[i],
                close: close.values[i],
            },
        );
        i = i + 1;
    }
    out
}

/// Whether prices are consistent: the low is at most the open and the
/// close, which are at most the high.
pub open spec fn well_ordered(o: Ohlc) -> bool {
    o.low <= o.open <= o.high && o.low <= o.close <= o.high
}

/// Joining a consistent day to the day before keeps it consistent, opens it
/// at the previous close, and never raises its low nor lowers its high.
pub proof fn lemma_stitched_well_ordered(day: Ohlc, prev_close: Option<u64>)
    requires
        well_ordered(day),
    ensures
        well_ordered(stitched(day, prev_close)),
        prev_close matches Some(p) ==> stitched(day, prev_close).open == p,
        stitched(day, prev_close).low <= day.low,
        stitched(day, prev_close).high >= day.high,
        stitched(day, prev_close).close == day.close,
{
}

} // verus!
