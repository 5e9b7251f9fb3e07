//! Which days an occurrence covers.

use crate::dates::Date;
use crate::model::EventOccurrence;
use vstd::prelude::*;

verus! {

/// The last day that an occurrence covers: the day it ends on, or the day before if it ends at
/// that day's midnight and began on an earlier or later day.
pub open spec fn last_day(occ: EventOccurrence) -> int {
    let start = occ.start.local.date.number as int;
    let end = occ.end.local.date.number as int;
    if end != start && occ.end.local.secs == 0 {
        end - 1
    } else {
        end
    }
}

/// An occurrence covers a day.
pub open spec fn covers(occ: EventOccurrence, day: int) -> bool {
    occ.start.local.date.number <= day <= last_day(occ)
}

/// The first and the last column that an occurrence covers among `n` columns, of which the first
/// is the day `first`; the last one not included.
pub open spec fn day_columns(occ: EventOccurrence, first: int, n: int) -> Option<(int, int)> {
    let from = occ.start.local.date.number - first;
    let to = last_day(occ) - first;
    let low = if from < 0 {
        0
    } else {
        from
    };
    let high = if to > n - 1 {
        n - 1
    } else {
        to
    };
    if n > 0 && low <= high {
        Some((low, high + 1))
    } else {
        None
    }
}

/// The columns of a window of `n` days that an occurrence covers, as a half-open range; nothing if
/// it does not touch the window. An occurrence that starts before the window or ends after it is
/// cut to the window.
pub fn occurrence_day_range(occ: &EventOccurrence, first: Date, n: usize) -> (r: Option<(usize, usize)>)
    ensures
        match r {
            Some((a, b)) => {
                &&& day_columns(*occ, first.number as int, n as int) == Some((a as int, b as int))
                &&& a < b <= n
                &&& forall|k: int| a <= k < b <==> 0 <= k < n && #[trigger] covers(*occ, first.number + k)
            },
            None => {
                &&& day_columns(*occ, first.number as int, n as int) is None
                &&& forall|k: int| 0 <= k < n ==> !#[trigger] covers(*occ, first.number + k)
            },
        },
{
    if n == 0 {
        return None;
    }
    let start_col: i128 = occ.start.local.date.number as i128 - first.number as i128;
    let mut end_col: i128 = occ.end.local.date.number as i128 - first.number as i128;
    if occ.end.local.date.number != occ.start.local.date.number && occ.end.local.secs == 0 {
        end_col -= 1;
    }
    let last: i128 = n as i128 - 1;
    let low: i128 = if start_col < 0 {
        0
    } else {
        start_col
    };
    let high: i128 = if end_col > last {
        last
    } else {
        end_col
    };
    if low <= high {
        Some((low as usize, high as usize + 1))
    } else {
        None
    }
}

/// The days from `from` to `to` that an occurrence covers, in order.
pub open spec fn covered_days(occ: EventOccurrence, from: int, to: int) -> Seq<int> {
    let low = if occ.start.local.date.number < from {
        from
    } else {
        occ.start.local.date.number as int
    };
    let high = if last_day(occ) > to {
        to
    } else {
        last_day(occ)
    };
    Seq::new(
        (if low <= high {
            high - low + 1
        } else {
            0
        }) as nat,
        |k: int| low + k,
    )
}

/// The day numbers of dates.
pub open spec fn numbers_of(dates: Seq<Date>) -> Seq<int> {
    dates.map_values(|d: Date| d.number as int)
}

/// The dates from `window_start` to `window_end`, both included, that an occurrence covers.
pub fn covered_local_dates(occ: &EventOccurrence, window_start: Date, window_end: Date) -> (r: Vec<Date>)
    requires
        window_start.valid(),
        window_end.valid(),
    ensures
        numbers_of(r@) == covered_days(*occ, window_start.number as int, window_end.number as int),
        forall|d: Date|
            r@.contains(d) <==> window_start.number <= d.number <= window_end.number && #[trigger] covers(
                *occ,
                d.number as int,
            ),
{
    let mut dates: Vec<Date> = Vec::new();
    let ghost want = covered_days(*occ, window_start.number as int, window_end.number as int);
    let days = window_end.days_since(window_start);
    if days < 0 {
        assert(numbers_of(dates@) =~= want);
        return dates;
    }
    match occurrence_day_range(occ, window_start, days as usize + 1) {
        None => {
            assert(numbers_of(dates@) =~= want);
            proof {
                lemma_covered_members(*occ, window_start, window_end, dates@);
            }
        },
        Some((from, to)) => {
            let mut col: usize = from;
            while col < to
                invariant
                    from <= col <= to,
                    to <= days + 1,
                    days == window_end.number - window_start.number,
                    window_start.valid(),
                    window_end.valid(),
                    dates@.len() == col - from,
                    forall|k: int|
                        0 <= k < dates@.len() ==> (#[trigger] dates@[k]).number == window_start.number + from
                            + k,
                decreases to - col,
            {
                dates.push(window_start.plus_days(col as i64));
                col += 1;
            }
            assert(numbers_of(dates@) =~= want);
            proof {
                lemma_covered_members(*occ, window_start, window_end, dates@);
            }
        },
    }
    dates
}

proof fn lemma_covered_members(occ: EventOccurrence, from: Date, to: Date, dates: Seq<Date>)
    requires
        numbers_of(dates) == covered_days(occ, from.number as int, to.number as int),
    ensures
        forall|d: Date|
            dates.contains(d) <==> from.number <= d.number <= to.number && #[trigger] covers(
                occ,
                d.number as int,
            ),
{
    let want = covered_days(occ, from.number as int, to.number as int);
    assert(dates.len() == want.len());
    assert forall|k: int| 0 <= k < dates.len() implies (#[trigger] dates[k]).number == want[k] by {
        assert(numbers_of(dates)[k] == dates[k].number);
    }
    assert forall|d: Date|
        dates.contains(d) <==> from.number <= d.number <= to.number && #[trigger] covers(
            occ,
            d.number as int,
        ) by {
        if from.number <= d.number <= to.number && covers(occ, d.number as int) {
            let low = want[0];
            let k = d.number - low;
            assert(want[k] == d.number);
            assert(dates[k].number == d.number);
            assert(dates[k] == d);
        }
    }
}

/// An occurrence covers a day exactly if some of its time lies within that day; one that takes no
/// time covers the day on which it is.
pub proof fn lemma_covers_is_overlap(occ: EventOccurrence, day: int)
    requires
        occ.start.local.secs < 86400,
        occ.end.local.secs < 86400,
        occ.start.local.stamp() <= occ.end.local.stamp(),
    ensures
        occ.start.local.stamp() < occ.end.local.stamp() ==> (covers(occ, day) <==> occ.start.local.date.number
            * 86400 + occ.start.local.secs < (day + 1) * 86400 && occ.end.local.date.number * 86400
            + occ.end.local.secs > day * 86400),
        occ.start.local.stamp() == occ.end.local.stamp() ==> (covers(occ, day) <==> day
            == occ.start.local.date.number),
{
}

/// The columns of a window are those of the days that lie within it: whether a day is among them
/// does not depend on where the window starts or how long it is.
pub proof fn lemma_columns_by_day(occ: EventOccurrence, first: int, n: int, day: int)
    requires
        first <= day < first + n,
    ensures
        (day_columns(occ, first, n) matches Some((a, b)) && a <= day - first < b) <==> covers(occ, day),
        day_columns(occ, first, n) matches Some((a, b)) ==> 0 <= a < b <= n,
{
}

} // verus!
