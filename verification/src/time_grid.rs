//! The day, week and work week grids: where event chips go, which slots are
//! selected, and what dragging a chip does.

use crate::calendar_days::{covers, day_columns, lemma_columns_by_day};
use crate::dates::Date;
use crate::lanes::{as_lanes, assign_lanes, greedy_lanes, lemma_lanes_bounded, lemma_lanes_disjoint};
use crate::lanes::{lemma_lower_lanes_busy, starts_sorted};
use crate::model::EventOccurrence;
use crate::sorting::{as_rows, in_key_order, is_arrangement, key_order, ordered_keys, sort_rows};
use crate::sorting::{Ranked, SortKey};
use crate::sorting::{lemma_key_order_arranges, lemma_key_order_sorts};
use vstd::prelude::*;

verus! {

/// One event on a grid: the columns it covers, the lane it has within them, and the part of the
/// day it takes up.
#[derive(Clone, Copy, PartialEq, Eq, Structural, Debug)]
pub struct TimeChip {
    /// The first column.
    pub column: usize,
    /// How many columns it covers.
    pub span: usize,
    /// Its lane within the column.
    pub lane: usize,
    /// How many lanes share the column.
    pub lanes: usize,
    pub all_day: bool,
    /// The minutes since midnight of the first column.
    pub start_minutes: i64,
    /// The minutes since midnight of the last column, not included; 1440 is the next midnight.
    pub end_minutes: i64,
    /// Which of the occurrences it shows.
    pub occurrence: usize,
}

/// A range that wants a lane, and the occurrence it belongs to. Ranges go by start, then by end.
#[derive(Clone, Copy, PartialEq, Eq, Structural, Debug)]
pub struct Span {
    pub from: i64,
    pub to: i64,
    pub occurrence: usize,
}

impl Ranked for Span {
    open spec fn goes_before(self, other: Span) -> bool {
        self.from < other.from || (self.from == other.from && self.to <= other.to)
    }
}

impl SortKey for Span {
    fn ahead_of(&self, other: &Span) -> (r: bool) {
        self.from < other.from || (self.from == other.from && self.to <= other.to)
    }
}

/// The column that an occurrence starts in, counted from the day `first`.
pub open spec fn start_column(occ: EventOccurrence, first: int) -> int {
    occ.start.local.date.number - first
}

/// An occurrence ends at midnight of another day than it starts on.
pub open spec fn ends_at_midnight(occ: EventOccurrence) -> bool {
    occ.end.local.date.number != occ.start.local.date.number && occ.end.local.secs == 0
}

/// The last column that an occurrence takes up.
pub open spec fn end_column(occ: EventOccurrence, first: int) -> int {
    let col = occ.end.local.date.number - first;
    if ends_at_midnight(occ) {
        col - 1
    } else {
        col
    }
}

/// The minute of its last column at which an occurrence ends.
pub open spec fn end_minute(occ: EventOccurrence) -> int {
    if ends_at_midnight(occ) {
        1440
    } else {
        occ.end.local.secs as int / 60
    }
}

/// The first column of an occurrence within a grid.
pub open spec fn low_column(occ: EventOccurrence, first: int) -> int {
    if start_column(occ, first) < 0 {
        0
    } else {
        start_column(occ, first)
    }
}

/// The last column of an occurrence within a grid of `n` columns.
pub open spec fn high_column(occ: EventOccurrence, first: int, n: int) -> int {
    if end_column(occ, first) > n - 1 {
        n - 1
    } else {
        end_column(occ, first)
    }
}

/// An occurrence takes up part of a grid.
pub open spec fn on_grid(occ: EventOccurrence, first: int, n: int) -> bool {
    low_column(occ, first) <= high_column(occ, first, n)
}

/// The minute of its first column at which an occurrence starts; midnight if it starts before the
/// grid.
pub open spec fn shown_start(occ: EventOccurrence, first: int) -> int {
    if start_column(occ, first) < 0 {
        0
    } else {
        occ.start.local.secs as int / 60
    }
}

/// The minute of its last column at which an occurrence ends; midnight if it ends after the grid.
pub open spec fn shown_end(occ: EventOccurrence, first: int, n: int) -> int {
    if end_column(occ, first) > n - 1 {
        1440
    } else {
        end_minute(occ)
    }
}

/// The column ranges of the all-day occurrences among the first `m`.
pub open spec fn all_day_spans(occs: Seq<EventOccurrence>, first: int, n: int, m: int) -> Seq<Span>
    decreases m,
{
    if m <= 0 {
        Seq::empty()
    } else {
        let rest = all_day_spans(occs, first, n, m - 1);
        let occ = occs[m - 1];
        if occ.all_day && on_grid(occ, first, n) {
            rest.push(
                Span {
                    from: low_column(occ, first) as i64,
                    to: (high_column(occ, first, n) + 1) as i64,
                    occurrence: (m - 1) as usize,
                },
            )
        } else {
            rest
        }
    }
}

/// The occurrences among the first `m` that have a time and stay within the column `c`, with the
/// minutes they take up.
pub open spec fn column_spans(occs: Seq<EventOccurrence>, first: int, n: int, c: int, m: int) -> Seq<Span>
    decreases m,
{
    if m <= 0 {
        Seq::empty()
    } else {
        let rest = column_spans(occs, first, n, c, m - 1);
        let occ = occs[m - 1];
        if !occ.all_day && low_column(occ, first) == c && high_column(occ, first, n) == c {
            rest.push(
                Span {
                    from: shown_start(occ, first) as i64,
                    to: shown_end(occ, first, n) as i64,
                    occurrence: (m - 1) as usize,
                },
            )
        } else {
            rest
        }
    }
}

/// The chips of the occurrences among the first `m` that have a time and cross midnight: as wide as
/// the columns they cover.
pub open spec fn crossing_chips(occs: Seq<EventOccurrence>, first: int, n: int, m: int) -> Seq<TimeChip>
    decreases m,
{
    if m <= 0 {
        Seq::empty()
    } else {
        let rest = crossing_chips(occs, first, n, m - 1);
        let occ = occs[m - 1];
        let low = low_column(occ, first);
        let high = high_column(occ, first, n);
        if !occ.all_day && low < high {
            rest.push(
                TimeChip {
                    column: low as usize,
                    span: (high - low + 1) as usize,
                    lane: 0,
                    lanes: 1,
                    all_day: false,
                    start_minutes: shown_start(occ, first) as i64,
                    end_minutes: shown_end(occ, first, n) as i64,
                    occurrence: (m - 1) as usize,
                },
            )
        } else {
            rest
        }
    }
}

/// The spans in the order of their ranges.
pub open spec fn arranged(spans: Seq<Span>) -> Seq<Span> {
    key_order(spans).map_values(|i: int| spans[i])
}

/// The ranges of spans.
pub open spec fn ranges_of(spans: Seq<Span>) -> Seq<(i64, i64)> {
    spans.map_values(|s: Span| (s.from, s.to))
}

/// The number of lanes that an assignment uses, at least one.
pub open spec fn lane_count(lanes: Seq<int>) -> int
    decreases lanes.len(),
{
    if lanes.len() == 0 {
        1
    } else {
        let rest = lane_count(lanes.drop_last());
        if lanes.last() + 1 > rest {
            lanes.last() + 1
        } else {
            rest
        }
    }
}

/// The chip of an all-day occurrence that covers the columns of a span.
pub open spec fn all_day_chip(span: Span, lane: int, lanes: int) -> TimeChip {
    TimeChip {
        column: span.from as usize,
        span: (span.to - span.from) as usize,
        lane: lane as usize,
        lanes: lanes as usize,
        all_day: true,
        start_minutes: 0,
        end_minutes: 1440,
        occurrence: span.occurrence,
    }
}

/// The chip of an occurrence that takes up the minutes of a span in one column.
pub open spec fn timed_chip(column: int, span: Span, lane: int, lanes: int) -> TimeChip {
    TimeChip {
        column: column as usize,
        span: 1,
        lane: lane as usize,
        lanes: lanes as usize,
        all_day: false,
        start_minutes: span.from,
        end_minutes: span.to,
        occurrence: span.occurrence,
    }
}

/// The chips of the all-day band.
pub open spec fn band_chips(spans: Seq<Span>) -> Seq<TimeChip> {
    let rows = arranged(spans);
    let lanes = greedy_lanes(ranges_of(rows));
    Seq::new(spans.len(), |i: int| all_day_chip(rows[i], lanes[i], lane_count(lanes)))
}

/// The chips of one column.
pub open spec fn column_chips(column: int, spans: Seq<Span>) -> Seq<TimeChip> {
    let rows = arranged(spans);
    let lanes = greedy_lanes(ranges_of(rows));
    Seq::new(spans.len(), |i: int| timed_chip(column, rows[i], lanes[i], lane_count(lanes)))
}

/// The chips of the first `c` columns, column after column.
pub open spec fn columns_chips(occs: Seq<EventOccurrence>, first: int, n: int, c: int) -> Seq<TimeChip>
    decreases c,
{
    if c <= 0 {
        Seq::empty()
    } else {
        columns_chips(occs, first, n, c - 1) + column_chips(
            c - 1,
            column_spans(occs, first, n, c - 1, occs.len() as int),
        )
    }
}

/// All the chips of a grid of `n` columns that starts at the day `first`: the all-day band, then
/// the occurrences that cross midnight, then those within one column.
pub open spec fn grid_chips(occs: Seq<EventOccurrence>, first: int, n: int) -> Seq<TimeChip> {
    band_chips(all_day_spans(occs, first, n, occs.len() as int)) + crossing_chips(
        occs,
        first,
        n,
        occs.len() as int,
    ) + columns_chips(occs, first, n, n)
}

/// Where an occurrence is on a grid, in numbers that the grid can use.
struct Place {
    low: i64,
    high: i64,
    start: i64,
    end: i64,
}

fn place_of(occ: &EventOccurrence, first: Date, n: usize) -> (r: Option<Place>)
    ensures
        match r {
            Some(p) => {
                &&& on_grid(*occ, first.number as int, n as int)
                &&& p.low == low_column(*occ, first.number as int)
                &&& p.high == high_column(*occ, first.number as int, n as int)
                &&& p.start == shown_start(*occ, first.number as int)
                &&& p.end == shown_end(*occ, first.number as int, n as int)
                &&& 0 <= p.low <= p.high < n
                &&& p.high <= u32::MAX
            },
            None => !on_grid(*occ, first.number as int, n as int),
        },
{
    let start_col: i128 = occ.start.local.date.number as i128 - first.number as i128;
    let mut end_col: i128 = occ.end.local.date.number as i128 - first.number as i128;
    let mut end: i64 = occ.end.local.minutes();
    if occ.end.local.date.number != occ.start.local.date.number && occ.end.local.secs == 0 {
        end_col -= 1;
        end = 1440;
    }
    let last: i128 = n as i128 - 1;
    let mut low: i128 = start_col;
    let mut start: i64 = occ.start.local.minutes();
    if start_col < 0 {
        low = 0;
        start = 0;
    }
    let mut high: i128 = end_col;
    if end_col > last {
        high = last;
        end = 1440;
    }
    if low <= high {
        Some(Place { low: low as i64, high: high as i64, start, end })
    } else {
        None
    }
}

fn lane_count_of(lanes: &Vec<usize>) -> (r: usize)
    requires
        forall|i: int| 0 <= i < lanes@.len() ==> #[trigger] lanes@[i] < lanes@.len(),
    ensures
        r == lane_count(as_lanes(lanes@)),
{
    let mut r: usize = 1;
    let mut i: usize = 0;
    assert(as_lanes(lanes@).take(0) =~= Seq::<int>::empty());
    while i < lanes.len()
        invariant
            i <= lanes.len(),
            r == lane_count(as_lanes(lanes@).take(i as int)),
            forall|i: int| 0 <= i < lanes@.len() ==> #[trigger] lanes@[i] < lanes@.len(),
        decreases lanes.len() - i,
    {
        assert(as_lanes(lanes@).take(i + 1).drop_last() =~= as_lanes(lanes@).take(i as int));
        assert(as_lanes(lanes@)[i as int] == lanes@[i as int]);
        assert(lanes@[i as int] < lanes@.len());
        if lanes[i] + 1 > r {
            r = lanes[i] + 1;
        }
        i += 1;
    }
    assert(as_lanes(lanes@).take(i as int) =~= as_lanes(lanes@));
    r
}

/// The spans in the order of their ranges, the lane of each, and how many lanes there are.
fn lay_out(spans: &Vec<Span>) -> (r: (Vec<Span>, Vec<usize>, usize))
    ensures
        r.0@ == arranged(spans@),
        r.0@.len() == spans@.len(),
        as_lanes(r.1@) == greedy_lanes(ranges_of(arranged(spans@))),
        r.1@.len() == spans@.len(),
        r.2 == lane_count(greedy_lanes(ranges_of(arranged(spans@)))),
{
    let order = sort_rows(spans);
    let mut rows: Vec<Span> = Vec::new();
    let mut ranges: Vec<(i64, i64)> = Vec::new();
    let mut i: usize = 0;
    while i < order.len()
        invariant
            i <= order.len(),
            as_rows(order@) == key_order(spans@),
            is_arrangement(as_rows(order@), spans@.len() as int),
            rows@ == arranged(spans@).take(i as int),
            ranges@ == ranges_of(arranged(spans@)).take(i as int),
        decreases order.len() - i,
    {
        assert(as_rows(order@)[i as int] == order@[i as int]);
        assert(0 <= as_rows(order@)[i as int] < spans@.len());
        let span = spans[order[i]];
        assert(arranged(spans@)[i as int] == span);
        rows.push(span);
        ranges.push((span.from, span.to));
        assert(rows@ =~= arranged(spans@).take(i + 1));
        assert(ranges@ =~= ranges_of(arranged(spans@)).take(i + 1));
        i += 1;
    }
    assert(arranged(spans@).len() == order@.len());
    assert(rows@ =~= arranged(spans@));
    assert(ranges@ =~= ranges_of(arranged(spans@)));
    let lanes = assign_lanes(&ranges);
    let count = lane_count_of(&lanes);
    (rows, lanes, count)
}

/// Places every occurrence on the grid of the given dates: all-day ones in the band above, those
/// that cross midnight as wide as the days they cover, and the others side by side within their
/// day. Occurrences that do not touch the grid get no chip. The dates are consecutive.
pub fn compute_time_grid_chips(dates: &[Date], occurrences: &[EventOccurrence]) -> (r: Vec<TimeChip>)
    ensures
        dates@.len() == 0 ==> r@.len() == 0,
        dates@.len() > 0 ==> r@ == grid_chips(
            occurrences@,
            dates@[0].number as int,
            dates@.len() as int,
        ),
        dates@.len() > 0 ==> follow_days(
            r@,
            occurrences@,
            dates@[0].number as int,
            dates@.len() as int,
        ),
{
    let mut chips: Vec<TimeChip> = Vec::new();
    let n: usize = dates.len();
    if n == 0 {
        return chips;
    }
    let first = dates[0];
    let ghost day = first.number as int;
    let ghost cols = n as int;
    let ghost occs = occurrences@;
    let ghost total = occs.len() as int;

    let mut band: Vec<Span> = Vec::new();
    let mut crossing: Vec<TimeChip> = Vec::new();
    let mut i: usize = 0;
    while i < occurrences.len()
        invariant
            i <= occurrences.len(),
            occs == occurrences@,
            day == first.number,
            cols == n,
            band@ == all_day_spans(occs, day, cols, i as int),
            crossing@ == crossing_chips(occs, day, cols, i as int),
            forall|k: int| 0 <= k < band@.len() ==> 0 <= (#[trigger] band@[k]).from < band@[k].to,
        decreases occurrences.len() - i,
    {
        let occ = &occurrences[i];
        match place_of(occ, first, n) {
            None => {},
            Some(p) => {
                if occ.all_day {
                    band.push(Span { from: p.low, to: p.high + 1, occurrence: i });
                } else if p.low < p.high {
                    crossing.push(
                        TimeChip {
                            column: p.low as usize,
                            span: (p.high - p.low + 1) as usize,
                            lane: 0,
                            lanes: 1,
                            all_day: false,
                            start_minutes: p.start,
                            end_minutes: p.end,
                            occurrence: i,
                        },
                    );
                }
            },
        }
        i += 1;
    }

    let (rows, lanes, count) = lay_out(&band);
    proof {
        lemma_key_order_arranges(band@);
        assert forall|j: int| 0 <= j < rows@.len() implies 0 <= (#[trigger] rows@[j]).from
            < rows@[j].to by {
            assert(rows@[j] == band@[key_order(band@)[j]]);
        }
    }
    let mut k: usize = 0;
    while k < rows.len()
        invariant
            k <= rows.len(),
            rows@ == arranged(band@),
            rows@.len() == band@.len(),
            lanes@.len() == rows@.len(),
            as_lanes(lanes@) == greedy_lanes(ranges_of(arranged(band@))),
            count == lane_count(greedy_lanes(ranges_of(arranged(band@)))),
            chips@ == band_chips(band@).take(k as int),
            forall|j: int| 0 <= j < rows@.len() ==> 0 <= (#[trigger] rows@[j]).from < rows@[j].to,
        decreases rows.len() - k,
    {
        let span = rows[k];
        assert(rows@[k as int] == span);
        assert(as_lanes(lanes@)[k as int] == lanes@[k as int]);
        chips.push(
            TimeChip {
                column: span.from as usize,
                span: (span.to - span.from) as usize,
                lane: lanes[k],
                lanes: count,
                all_day: true,
                start_minutes: 0,
                end_minutes: 1440,
                occurrence: span.occurrence,
            },
        );
        assert(chips@ =~= band_chips(band@).take(k + 1));
        k += 1;
    }
    assert(chips@ =~= band_chips(band@));
    let ghost above = chips@;
    chips.append(&mut crossing);
    let ghost before = above + crossing_chips(occs, day, cols, total);
    assert(chips@ =~= before);

    let mut c: usize = 0;
    assert(chips@ =~= before + columns_chips(occs, day, cols, 0));
    while c < n
        invariant
            c <= n,
            occs == occurrences@,
            total == occs.len(),
            day == first.number,
            cols == n,
            chips@ == before + columns_chips(occs, day, cols, c as int),
        decreases n - c,
    {
        let mut spans: Vec<Span> = Vec::new();
        let mut i: usize = 0;
        while i < occurrences.len()
            invariant
                i <= occurrences.len(),
                c < n,
                occs == occurrences@,
                day == first.number,
                cols == n,
                spans@ == column_spans(occs, day, cols, c as int, i as int),
            decreases occurrences.len() - i,
        {
            let occ = &occurrences[i];
            if !occ.all_day {
                match place_of(occ, first, n) {
                    None => {},
                    Some(p) => {
                        if p.low == p.high && p.low as usize == c {
                            spans.push(Span { from: p.start, to: p.end, occurrence: i });
                        }
                    },
                }
            }
            i += 1;
        }
        let (rows, lanes, count) = lay_out(&spans);
        let ghost so_far = chips@;
        let mut k: usize = 0;
        assert(so_far + column_chips(c as int, spans@).take(0) =~= so_far);
        while k < rows.len()
            invariant
                k <= rows.len(),
                rows@ == arranged(spans@),
                rows@.len() == spans@.len(),
                lanes@.len() == rows@.len(),
                as_lanes(lanes@) == greedy_lanes(ranges_of(arranged(spans@))),
                count == lane_count(greedy_lanes(ranges_of(arranged(spans@)))),
                chips@ == so_far + column_chips(c as int, spans@).take(k as int),
            decreases rows.len() - k,
        {
            let span = rows[k];
            assert(rows@[k as int] == span);
            assert(as_lanes(lanes@)[k as int] == lanes@[k as int]);
            chips.push(
                TimeChip {
                    column: c,
                    span: 1,
                    lane: lanes[k],
                    lanes: count,
                    all_day: false,
                    start_minutes: span.from,
                    end_minutes: span.to,
                    occurrence: span.occurrence,
                },
            );
            assert(chips@ =~= so_far + column_chips(c as int, spans@).take(k + 1));
            k += 1;
        }
        assert(column_chips(c as int, spans@).take(k as int) =~= column_chips(c as int, spans@));
        assert(chips@ =~= before + columns_chips(occs, day, cols, c + 1));
        c += 1;
    }
    proof {
        lemma_chips_follow_days(occs, day, cols);
    }
    chips
}

proof fn lemma_spans_ordered()
    ensures
        ordered_keys::<Span>(),
{
}

/// Putting spans in order keeps them: row `i` is the span with the number `key_order(spans)[i]`,
/// and each span is a row once.
proof fn lemma_arranged(spans: Seq<Span>)
    ensures
        arranged(spans).len() == spans.len(),
        is_arrangement(key_order(spans), spans.len() as int),
        forall|i: int| 0 <= i < spans.len() ==> #[trigger] arranged(spans)[i] == spans[key_order(spans)[i]],
        forall|x: int| #[trigger] key_order(spans).contains(x) <==> 0 <= x < spans.len(),
        starts_sorted(ranges_of(arranged(spans))),
{
    lemma_key_order_arranges(spans);
    lemma_spans_ordered();
    lemma_key_order_sorts(spans);
    let r = ranges_of(arranged(spans));
    assert forall|i: int, j: int| 0 <= i <= j < r.len() implies (#[trigger] r[i]).0 <= (#[trigger] r[j]).0 by {
        if i < j {
            assert(in_key_order(spans, key_order(spans)[i], key_order(spans)[j]));
        }
    }
}

/// The chips of one column that share a lane do not overlap: the one that comes first ends before
/// the other starts.
pub proof fn lemma_column_chips_disjoint(column: int, spans: Seq<Span>, i: int, j: int)
    requires
        spans.len() <= usize::MAX,
        0 <= i < j < spans.len(),
        column_chips(column, spans)[i].lane == column_chips(column, spans)[j].lane,
    ensures
        column_chips(column, spans)[i].end_minutes <= column_chips(column, spans)[j].start_minutes,
{
    let rows = arranged(spans);
    let lanes = greedy_lanes(ranges_of(rows));
    lemma_arranged(spans);
    lemma_lanes_disjoint(ranges_of(rows));
    lemma_lanes_bounded(ranges_of(rows));
    assert(0 <= lanes[i] < spans.len() && 0 <= lanes[j] < spans.len());
    assert(ranges_of(rows)[i].1 <= ranges_of(rows)[j].0);
}

/// The chips of the all-day band that share a lane do not overlap: the one that comes first ends
/// before the column in which the other starts.
pub proof fn lemma_band_chips_disjoint(spans: Seq<Span>, i: int, j: int)
    requires
        spans.len() <= usize::MAX,
        forall|k: int| 0 <= k < spans.len() ==> 0 <= (#[trigger] spans[k]).from < spans[k].to <= usize::MAX,
        0 <= i < j < spans.len(),
        band_chips(spans)[i].lane == band_chips(spans)[j].lane,
    ensures
        band_chips(spans)[i].column + band_chips(spans)[i].span <= band_chips(spans)[j].column,
{
    let rows = arranged(spans);
    let lanes = greedy_lanes(ranges_of(rows));
    lemma_arranged(spans);
    lemma_lanes_disjoint(ranges_of(rows));
    lemma_lanes_bounded(ranges_of(rows));
    assert(0 <= lanes[i] < spans.len() && 0 <= lanes[j] < spans.len());
    assert(ranges_of(rows)[i].1 <= ranges_of(rows)[j].0);
    assert(rows[i] == spans[key_order(spans)[i]]);
    assert(rows[j] == spans[key_order(spans)[j]]);
}

/// A chip shows the occurrence with the number `k`.
pub open spec fn shown(chips: Seq<TimeChip>, k: int) -> bool {
    exists|i: int| 0 <= i < chips.len() && (#[trigger] chips[i]).occurrence == k
}

/// No two chips show the same occurrence.
pub open spec fn shown_once(chips: Seq<TimeChip>) -> bool {
    forall|i: int, j: int|
        0 <= i < j < chips.len() ==> (#[trigger] chips[i]).occurrence != (#[trigger] chips[j]).occurrence
}

/// The occurrences of spans, in the order of the occurrences.
spec fn increasing(spans: Seq<Span>, m: int) -> bool {
    &&& forall|i: int| 0 <= i < spans.len() ==> (#[trigger] spans[i]).occurrence < m
    &&& forall|i: int, j: int|
        0 <= i < j < spans.len() ==> (#[trigger] spans[i]).occurrence < (#[trigger] spans[j]).occurrence
}

/// One of the spans belongs to the occurrence `k`.
spec fn spanned(spans: Seq<Span>, k: int) -> bool {
    exists|i: int| 0 <= i < spans.len() && (#[trigger] spans[i]).occurrence == k
}

proof fn lemma_spanned_push(spans: Seq<Span>, s: Span, k: int)
    ensures
        spanned(spans.push(s), k) <==> spanned(spans, k) || s.occurrence == k,
{
    let r = spans.push(s);
    if spanned(spans, k) {
        let i = choose|i: int| 0 <= i < spans.len() && (#[trigger] spans[i]).occurrence == k;
        assert(r[i].occurrence == k);
    }
    if s.occurrence == k {
        assert(r[spans.len() as int].occurrence == k);
    }
    if spanned(r, k) {
        let i = choose|i: int| 0 <= i < r.len() && (#[trigger] r[i]).occurrence == k;
        if i < spans.len() {
            assert(spans[i].occurrence == k);
        }
    }
}

proof fn lemma_all_day_spans(occs: Seq<EventOccurrence>, first: int, n: int, m: int)
    requires
        0 <= m <= occs.len() <= usize::MAX,
    ensures
        increasing(all_day_spans(occs, first, n, m), m),
        forall|k: int| #[trigger]
            spanned(all_day_spans(occs, first, n, m), k) <==> 0 <= k < m && occs[k].all_day && on_grid(
                occs[k],
                first,
                n,
            ),
    decreases m,
{
    if m > 0 {
        lemma_all_day_spans(occs, first, n, m - 1);
        let rest = all_day_spans(occs, first, n, m - 1);
        let now = all_day_spans(occs, first, n, m);
        assert forall|k: int| #[trigger] spanned(now, k) <==> 0 <= k < m && occs[k].all_day && on_grid(
            occs[k],
            first,
            n,
        ) by {
            if now.len() > rest.len() {
                lemma_spanned_push(rest, now.last(), k);
                assert(now =~= rest.push(now.last()));
            }
            assert(spanned(rest, k) <==> 0 <= k < m - 1 && occs[k].all_day && on_grid(occs[k], first, n));
        }
    }
}

proof fn lemma_column_spans(occs: Seq<EventOccurrence>, first: int, n: int, c: int, m: int)
    requires
        0 <= m <= occs.len() <= usize::MAX,
    ensures
        increasing(column_spans(occs, first, n, c, m), m),
        forall|k: int| #[trigger]
            spanned(column_spans(occs, first, n, c, m), k) <==> 0 <= k < m && !occs[k].all_day && low_column(
                occs[k],
                first,
            ) == c && high_column(occs[k], first, n) == c,
    decreases m,
{
    if m > 0 {
        lemma_column_spans(occs, first, n, c, m - 1);
        let rest = column_spans(occs, first, n, c, m - 1);
        let now = column_spans(occs, first, n, c, m);
        assert forall|k: int| #[trigger] spanned(now, k) <==> 0 <= k < m && !occs[k].all_day && low_column(
            occs[k],
            first,
        ) == c && high_column(occs[k], first, n) == c by {
            if now.len() > rest.len() {
                lemma_spanned_push(rest, now.last(), k);
                assert(now =~= rest.push(now.last()));
            }
            assert(spanned(rest, k) <==> 0 <= k < m - 1 && !occs[k].all_day && low_column(occs[k], first)
                == c && high_column(occs[k], first, n) == c);
        }
    }
}

/// Chips that take the place of arranged spans show the occurrences of the spans, each once.
proof fn lemma_chips_of_spans(spans: Seq<Span>, chips: Seq<TimeChip>, m: int)
    requires
        increasing(spans, m),
        chips.len() == spans.len(),
        forall|i: int|
            0 <= i < chips.len() ==> (#[trigger] chips[i]).occurrence == arranged(spans)[i].occurrence,
    ensures
        shown_once(chips),
        forall|k: int| #[trigger] shown(chips, k) <==> spanned(spans, k),
{
    lemma_arranged(spans);
    let order = key_order(spans);
    assert forall|i: int, j: int| 0 <= i < j < chips.len() implies (#[trigger] chips[i]).occurrence != (
    #[trigger] chips[j]).occurrence by {
        assert(arranged(spans)[i] == spans[order[i]]);
        assert(arranged(spans)[j] == spans[order[j]]);
        assert(order[i] != order[j]);
        if order[i] < order[j] {
            assert(spans[order[i]].occurrence < spans[order[j]].occurrence);
        } else {
            assert(spans[order[j]].occurrence < spans[order[i]].occurrence);
        }
    }
    assert forall|k: int| #[trigger] shown(chips, k) <==> spanned(spans, k) by {
        if shown(chips, k) {
            let i = choose|i: int| 0 <= i < chips.len() && (#[trigger] chips[i]).occurrence == k;
            assert(arranged(spans)[i] == spans[order[i]]);
            assert(spans[order[i]].occurrence == k);
        }
        if spanned(spans, k) {
            let x = choose|x: int| 0 <= x < spans.len() && (#[trigger] spans[x]).occurrence == k;
            assert(order.contains(x));
            let i = choose|i: int| 0 <= i < order.len() && order[i] == x;
            assert(arranged(spans)[i] == spans[order[i]]);
            assert(chips[i].occurrence == k);
        }
    }
}

proof fn lemma_shown_concat(a: Seq<TimeChip>, b: Seq<TimeChip>)
    ensures
        forall|k: int| #[trigger] shown(a + b, k) <==> shown(a, k) || shown(b, k),
        shown_once(a) && shown_once(b) && (forall|k: int| !(#[trigger] shown(a, k) && shown(b, k)))
            ==> shown_once(a + b),
{
    let r = a + b;
    assert forall|k: int| #[trigger] shown(r, k) <==> shown(a, k) || shown(b, k) by {
        if shown(r, k) {
            let i = choose|i: int| 0 <= i < r.len() && (#[trigger] r[i]).occurrence == k;
            if i < a.len() {
                assert(a[i].occurrence == k);
            } else {
                assert(b[i - a.len()].occurrence == k);
            }
        }
        if shown(a, k) {
            let i = choose|i: int| 0 <= i < a.len() && (#[trigger] a[i]).occurrence == k;
            assert(r[i].occurrence == k);
        }
        if shown(b, k) {
            let i = choose|i: int| 0 <= i < b.len() && (#[trigger] b[i]).occurrence == k;
            assert(r[i + a.len()].occurrence == k);
        }
    }
    if shown_once(a) && shown_once(b) && (forall|k: int| !(#[trigger] shown(a, k) && shown(b, k))) {
        assert forall|i: int, j: int| 0 <= i < j < r.len() implies (#[trigger] r[i]).occurrence != (
        #[trigger] r[j]).occurrence by {
            if j < a.len() {
                assert(a[i].occurrence != a[j].occurrence);
            } else if i >= a.len() {
                assert(b[i - a.len()].occurrence != b[j - a.len()].occurrence);
            } else if r[i].occurrence == r[j].occurrence {
                let k = r[i].occurrence as int;
                assert(a[i].occurrence == k);
                assert(b[j - a.len()].occurrence == k);
                assert(shown(a, k) && shown(b, k));
            }
        }
    }
}

proof fn lemma_crossing_shown(occs: Seq<EventOccurrence>, first: int, n: int, m: int)
    requires
        0 <= m <= occs.len() <= usize::MAX,
    ensures
        shown_once(crossing_chips(occs, first, n, m)),
        forall|k: int| #[trigger]
            shown(crossing_chips(occs, first, n, m), k) <==> 0 <= k < m && !occs[k].all_day && low_column(
                occs[k],
                first,
            ) < high_column(occs[k], first, n),
    decreases m,
{
    if m > 0 {
        lemma_crossing_shown(occs, first, n, m - 1);
        let rest = crossing_chips(occs, first, n, m - 1);
        let now = crossing_chips(occs, first, n, m);
        if now.len() > rest.len() {
            let one = seq![now.last()];
            assert(now =~= rest + one);
            assert forall|k: int| #[trigger] shown(one, k) <==> k == m - 1 by {
                if k == m - 1 {
                    assert(one[0].occurrence == k);
                }
            }
            lemma_shown_concat(rest, one);
            assert forall|k: int| !(#[trigger] shown(rest, k) && shown(one, k)) by {
                assert(shown(one, k) <==> k == m - 1);
            }
        }
        assert forall|k: int| #[trigger] shown(now, k) <==> 0 <= k < m && !occs[k].all_day && low_column(
            occs[k],
            first,
        ) < high_column(occs[k], first, n) by {
            assert(shown(rest, k) <==> 0 <= k < m - 1 && !occs[k].all_day && low_column(occs[k], first)
                < high_column(occs[k], first, n));
        }
    }
}

proof fn lemma_columns_shown(occs: Seq<EventOccurrence>, first: int, n: int, c: int)
    requires
        occs.len() <= usize::MAX,
        0 <= c,
    ensures
        shown_once(columns_chips(occs, first, n, c)),
        forall|k: int| #[trigger]
            shown(columns_chips(occs, first, n, c), k) <==> 0 <= k < occs.len() && !occs[k].all_day && low_column(
                occs[k],
                first,
            ) == high_column(occs[k], first, n) && low_column(occs[k], first) < c,
    decreases c,
{
    if c > 0 {
        lemma_columns_shown(occs, first, n, c - 1);
        let m = occs.len() as int;
        let spans = column_spans(occs, first, n, c - 1, m);
        lemma_column_spans(occs, first, n, c - 1, m);
        let chips = column_chips(c - 1, spans);
        lemma_chips_of_spans(spans, chips, m);
        let rest = columns_chips(occs, first, n, c - 1);
        lemma_shown_concat(rest, chips);
        assert forall|k: int| !(#[trigger] shown(rest, k) && shown(chips, k)) by {
            assert(shown(chips, k) <==> spanned(spans, k));
        }
        assert forall|k: int| #[trigger]
            shown(columns_chips(occs, first, n, c), k) <==> 0 <= k < occs.len() && !occs[k].all_day && low_column(
                occs[k],
                first,
            ) == high_column(occs[k], first, n) && low_column(occs[k], first) < c by {
            assert(shown(chips, k) <==> spanned(spans, k));
            assert(shown(rest, k) || !shown(rest, k));
        }
    }
}

/// Every occurrence that touches the grid has a chip, no other has one, and none has two.
pub proof fn lemma_each_occurrence_shown_once(occs: Seq<EventOccurrence>, first: int, n: int)
    requires
        occs.len() <= usize::MAX,
        n > 0,
    ensures
        shown_once(grid_chips(occs, first, n)),
        forall|k: int|
            0 <= k < occs.len() ==> (#[trigger] shown(grid_chips(occs, first, n), k) <==> on_grid(
                occs[k],
                first,
                n,
            )),
{
    let m = occs.len() as int;
    let spans = all_day_spans(occs, first, n, m);
    let band = band_chips(spans);
    let crossing = crossing_chips(occs, first, n, m);
    let columns = columns_chips(occs, first, n, n);
    lemma_all_day_spans(occs, first, n, m);
    lemma_chips_of_spans(spans, band, m);
    lemma_crossing_shown(occs, first, n, m);
    lemma_columns_shown(occs, first, n, n);
    lemma_shown_concat(band, crossing);
    assert forall|k: int| !(#[trigger] shown(band, k) && shown(crossing, k)) by {
        assert(shown(band, k) <==> spanned(spans, k));
    }
    let two = band + crossing;
    lemma_shown_concat(two, columns);
    assert forall|k: int| !(#[trigger] shown(two, k) && shown(columns, k)) by {
        assert(shown(band, k) <==> spanned(spans, k));
    }
    assert forall|k: int| 0 <= k < occs.len() implies (#[trigger] shown(grid_chips(occs, first, n), k)
        <==> on_grid(occs[k], first, n)) by {
        assert(shown(band, k) <==> spanned(spans, k));
        assert(shown(two, k) || !shown(two, k));
        assert(shown(columns, k) || !shown(columns, k));
    }
}

/// A chip takes up the columns of the days that an occurrence covers.
pub open spec fn takes_days(c: TimeChip, occ: EventOccurrence, first: int, n: int) -> bool {
    &&& c.all_day == occ.all_day
    &&& day_columns(occ, first, n) == Some((c.column as int, c.column + c.span))
}

/// The chips of a grid and the days that the occurrences cover agree: an occurrence that covers a
/// day of the grid has one chip, over all the days of the grid that it covers, no other occurrence
/// has one, and there are no other chips.
pub open spec fn follow_days(chips: Seq<TimeChip>, occs: Seq<EventOccurrence>, first: int, n: int) -> bool {
    &&& shown_once(chips)
    &&& forall|k: int|
        0 <= k < occs.len() ==> (#[trigger] shown(chips, k) <==> day_columns(occs[k], first, n) is Some)
    &&& all_take_days(chips, occs, first, n)
}

/// Every chip takes up the columns of the days that its occurrence covers.
pub open spec fn all_take_days(chips: Seq<TimeChip>, occs: Seq<EventOccurrence>, first: int, n: int) -> bool {
    forall|i: int|
        0 <= i < chips.len() ==> (#[trigger] chips[i]).occurrence < occs.len() && takes_days(
            chips[i],
            occs[chips[i].occurrence as int],
            first,
            n,
        )
}

proof fn lemma_columns_of_days(occ: EventOccurrence, first: int, n: int)
    requires
        n > 0,
    ensures
        on_grid(occ, first, n) <==> day_columns(occ, first, n) is Some,
        on_grid(occ, first, n) ==> day_columns(occ, first, n) == Some(
            (low_column(occ, first), high_column(occ, first, n) + 1),
        ),
{
}

proof fn lemma_all_day_columns(occs: Seq<EventOccurrence>, first: int, n: int, m: int)
    requires
        0 <= m <= occs.len() <= usize::MAX,
        i32::MIN <= first <= i32::MAX,
        0 < n <= usize::MAX,
    ensures
        forall|i: int|
            0 <= i < all_day_spans(occs, first, n, m).len() ==> {
                let s = #[trigger] all_day_spans(occs, first, n, m)[i];
                &&& s.occurrence < m
                &&& occs[s.occurrence as int].all_day
                &&& 0 <= s.from < s.to
                &&& day_columns(occs[s.occurrence as int], first, n) == Some((s.from as int, s.to as int))
            },
    decreases m,
{
    if m > 0 {
        lemma_all_day_columns(occs, first, n, m - 1);
        lemma_columns_of_days(occs[m - 1], first, n);
        let rest = all_day_spans(occs, first, n, m - 1);
        let now = all_day_spans(occs, first, n, m);
        assert forall|i: int| 0 <= i < now.len() implies {
            let s = #[trigger] now[i];
            &&& s.occurrence < m
            &&& occs[s.occurrence as int].all_day
            &&& 0 <= s.from < s.to
            &&& day_columns(occs[s.occurrence as int], first, n) == Some((s.from as int, s.to as int))
        } by {
            if i < rest.len() {
                assert(now[i] == rest[i]);
            }
        }
    }
}

proof fn lemma_crossing_columns(occs: Seq<EventOccurrence>, first: int, n: int, m: int)
    requires
        0 <= m <= occs.len() <= usize::MAX,
        i32::MIN <= first <= i32::MAX,
        0 < n <= usize::MAX,
    ensures
        all_take_days(crossing_chips(occs, first, n, m), occs, first, n),
    decreases m,
{
    if m > 0 {
        lemma_crossing_columns(occs, first, n, m - 1);
        lemma_columns_of_days(occs[m - 1], first, n);
        let rest = crossing_chips(occs, first, n, m - 1);
        let now = crossing_chips(occs, first, n, m);
        assert forall|i: int| 0 <= i < now.len() implies (#[trigger] now[i]).occurrence < occs.len()
            && takes_days(now[i], occs[now[i].occurrence as int], first, n) by {
            if i < rest.len() {
                assert(now[i] == rest[i]);
            }
        }
    }
}

proof fn lemma_spans_in_column(occs: Seq<EventOccurrence>, first: int, n: int, c: int, m: int)
    requires
        0 <= m <= occs.len() <= usize::MAX,
    ensures
        forall|i: int|
            0 <= i < column_spans(occs, first, n, c, m).len() ==> {
                let s = #[trigger] column_spans(occs, first, n, c, m)[i];
                &&& s.occurrence < m
                &&& !occs[s.occurrence as int].all_day
                &&& low_column(occs[s.occurrence as int], first) == c
                &&& high_column(occs[s.occurrence as int], first, n) == c
            },
    decreases m,
{
    if m > 0 {
        lemma_spans_in_column(occs, first, n, c, m - 1);
        let rest = column_spans(occs, first, n, c, m - 1);
        let now = column_spans(occs, first, n, c, m);
        assert forall|i: int| 0 <= i < now.len() implies {
            let s = #[trigger] now[i];
            &&& s.occurrence < m
            &&& !occs[s.occurrence as int].all_day
            &&& low_column(occs[s.occurrence as int], first) == c
            &&& high_column(occs[s.occurrence as int], first, n) == c
        } by {
            if i < rest.len() {
                assert(now[i] == rest[i]);
            }
        }
    }
}

proof fn lemma_take_days_concat(
    a: Seq<TimeChip>,
    b: Seq<TimeChip>,
    occs: Seq<EventOccurrence>,
    first: int,
    n: int,
)
    requires
        all_take_days(a, occs, first, n),
        all_take_days(b, occs, first, n),
    ensures
        all_take_days(a + b, occs, first, n),
{
    let r = a + b;
    assert forall|i: int| 0 <= i < r.len() implies (#[trigger] r[i]).occurrence < occs.len()
        && takes_days(r[i], occs[r[i].occurrence as int], first, n) by {
        if i < a.len() {
            assert(r[i] == a[i]);
        } else {
            assert(r[i] == b[i - a.len()]);
        }
    }
}

proof fn lemma_columns_take_days(occs: Seq<EventOccurrence>, first: int, n: int, c: int)
    requires
        occs.len() <= usize::MAX,
        0 <= c <= n <= usize::MAX,
        0 < n,
    ensures
        all_take_days(columns_chips(occs, first, n, c), occs, first, n),
    decreases c,
{
    if c > 0 {
        lemma_columns_take_days(occs, first, n, c - 1);
        let m = occs.len() as int;
        let spans = column_spans(occs, first, n, c - 1, m);
        lemma_spans_in_column(occs, first, n, c - 1, m);
        lemma_arranged(spans);
        let chips = column_chips(c - 1, spans);
        assert forall|i: int| 0 <= i < chips.len() implies (#[trigger] chips[i]).occurrence < occs.len()
            && takes_days(chips[i], occs[chips[i].occurrence as int], first, n) by {
            let s = spans[key_order(spans)[i]];
            assert(arranged(spans)[i] == s);
            lemma_columns_of_days(occs[s.occurrence as int], first, n);
        }
        lemma_take_days_concat(columns_chips(occs, first, n, c - 1), chips, occs, first, n);
    }
}

/// The chips of a grid and the days that the occurrences cover agree.
pub proof fn lemma_chips_follow_days(occs: Seq<EventOccurrence>, first: int, n: int)
    requires
        occs.len() <= usize::MAX,
        i32::MIN <= first <= i32::MAX,
        0 < n <= usize::MAX,
    ensures
        follow_days(grid_chips(occs, first, n), occs, first, n),
{
    let m = occs.len() as int;
    lemma_each_occurrence_shown_once(occs, first, n);
    assert forall|k: int| 0 <= k < occs.len() implies (#[trigger] shown(grid_chips(occs, first, n), k)
        <==> day_columns(occs[k], first, n) is Some) by {
        lemma_columns_of_days(occs[k], first, n);
    }
    let spans = all_day_spans(occs, first, n, m);
    lemma_all_day_columns(occs, first, n, m);
    lemma_arranged(spans);
    let band = band_chips(spans);
    assert forall|i: int| 0 <= i < band.len() implies (#[trigger] band[i]).occurrence < occs.len()
        && takes_days(band[i], occs[band[i].occurrence as int], first, n) by {
        let s = spans[key_order(spans)[i]];
        assert(arranged(spans)[i] == s);
    }
    let crossing = crossing_chips(occs, first, n, m);
    lemma_crossing_columns(occs, first, n, m);
    lemma_columns_take_days(occs, first, n, n);
    lemma_take_days_concat(band, crossing, occs, first, n);
    lemma_take_days_concat(band + crossing, columns_chips(occs, first, n, n), occs, first, n);
}

/// A chip takes up the time of its occurrence.
spec fn keeps_time(c: TimeChip, occs: Seq<EventOccurrence>, first: int, n: int) -> bool {
    let o = occs[c.occurrence as int];
    let from = o.start.local.date.number as int;
    let to = o.end.local.date.number as int;
    &&& c.occurrence < occs.len()
    &&& c.all_day == o.all_day
    &&& o.all_day ==> c.start_minutes == 0 && c.end_minutes == 1440
    &&& !o.all_day && from >= first ==> c.start_minutes == o.start.local.secs as int / 60
    &&& !o.all_day && from < first ==> c.start_minutes == 0
    &&& !o.all_day && from == to ==> c.end_minutes == o.end.local.secs as int / 60
    &&& !o.all_day && from < to < first + n && o.end.local.secs > 0 ==> c.end_minutes == o.end.local.secs as int
        / 60
    &&& !o.all_day && from < to && o.end.local.secs == 0 ==> c.end_minutes == 1440
    &&& !o.all_day && from < to && to >= first + n ==> c.end_minutes == 1440
}

proof fn lemma_crossing_times(occs: Seq<EventOccurrence>, first: int, n: int, m: int)
    requires
        0 <= m <= occs.len() <= usize::MAX,
        0 < n <= usize::MAX,
    ensures
        forall|i: int|
            0 <= i < crossing_chips(occs, first, n, m).len() ==> keeps_time(
                #[trigger] crossing_chips(occs, first, n, m)[i],
                occs,
                first,
                n,
            ),
    decreases m,
{
    if m > 0 {
        lemma_crossing_times(occs, first, n, m - 1);
        let rest = crossing_chips(occs, first, n, m - 1);
        let now = crossing_chips(occs, first, n, m);
        assert forall|i: int| 0 <= i < now.len() implies keeps_time(#[trigger] now[i], occs, first, n) by {
            if i < rest.len() {
                assert(now[i] == rest[i]);
            }
        }
    }
}

proof fn lemma_span_times(occs: Seq<EventOccurrence>, first: int, n: int, c: int, m: int)
    requires
        0 <= m <= occs.len() <= usize::MAX,
        0 <= c < n <= usize::MAX,
    ensures
        forall|i: int, lane: int, lanes: int|
            0 <= i < column_spans(occs, first, n, c, m).len() ==> keeps_time(
                #[trigger] timed_chip(c, column_spans(occs, first, n, c, m)[i], lane, lanes),
                occs,
                first,
                n,
            ),
    decreases m,
{
    if m > 0 {
        lemma_span_times(occs, first, n, c, m - 1);
        let rest = column_spans(occs, first, n, c, m - 1);
        let now = column_spans(occs, first, n, c, m);
        assert forall|i: int, lane: int, lanes: int| 0 <= i < now.len() implies keeps_time(
            #[trigger] timed_chip(c, now[i], lane, lanes),
            occs,
            first,
            n,
        ) by {
            if i < rest.len() {
                assert(now[i] == rest[i]);
                assert(keeps_time(timed_chip(c, rest[i], lane, lanes), occs, first, n));
            }
        }
    }
}

proof fn lemma_columns_times(occs: Seq<EventOccurrence>, first: int, n: int, c: int)
    requires
        occs.len() <= usize::MAX,
        0 <= c <= n <= usize::MAX,
        0 < n,
    ensures
        forall|i: int|
            0 <= i < columns_chips(occs, first, n, c).len() ==> keeps_time(
                #[trigger] columns_chips(occs, first, n, c)[i],
                occs,
                first,
                n,
            ),
    decreases c,
{
    if c > 0 {
        lemma_columns_times(occs, first, n, c - 1);
        let m = occs.len() as int;
        let spans = column_spans(occs, first, n, c - 1, m);
        lemma_span_times(occs, first, n, c - 1, m);
        lemma_arranged(spans);
        let rest = columns_chips(occs, first, n, c - 1);
        let chips = column_chips(c - 1, spans);
        let now = columns_chips(occs, first, n, c);
        assert forall|i: int| 0 <= i < now.len() implies keeps_time(#[trigger] now[i], occs, first, n) by {
            if i < rest.len() {
                assert(now[i] == rest[i]);
            } else {
                let k = i - rest.len();
                assert(now[i] == chips[k]);
                let s = spans[key_order(spans)[k]];
                assert(arranged(spans)[k] == s);
                let lanes = greedy_lanes(ranges_of(arranged(spans)));
                assert(chips[k] == timed_chip(c - 1, s, lanes[k], lane_count(lanes)));
            }
        }
    }
}

/// A chip takes up the time of its occurrence, to the minute. One that starts and ends on one day
/// goes from the minute at which the occurrence starts to the one at which it ends; one that comes
/// from before the grid starts at midnight, and one that goes on until midnight or beyond the grid
/// ends at midnight. An all-day chip takes up the day.
pub proof fn lemma_chip_keeps_time(occs: Seq<EventOccurrence>, first: int, n: int, i: int)
    requires
        occs.len() <= usize::MAX,
        i32::MIN <= first <= i32::MAX,
        0 < n <= usize::MAX,
        0 <= i < grid_chips(occs, first, n).len(),
    ensures
        ({
            let c = grid_chips(occs, first, n)[i];
            let o = occs[c.occurrence as int];
            let from = o.start.local.date.number as int;
            let to = o.end.local.date.number as int;
            &&& c.occurrence < occs.len()
            &&& c.all_day == o.all_day
            &&& o.all_day ==> c.start_minutes == 0 && c.end_minutes == 1440
            &&& !o.all_day && from == to ==> c.span == 1 && c.start_minutes == o.start.local.secs as int / 60
                && c.end_minutes == o.end.local.secs as int / 60
            &&& !o.all_day && from >= first ==> c.start_minutes == o.start.local.secs as int / 60
            &&& !o.all_day && from < first ==> c.start_minutes == 0
            &&& !o.all_day && from < to < first + n && o.end.local.secs > 0 ==> c.end_minutes
                == o.end.local.secs as int / 60
            &&& !o.all_day && from < to && (o.end.local.secs == 0 || to >= first + n) ==> c.end_minutes == 1440
        }),
{
    let m = occs.len() as int;
    let spans = all_day_spans(occs, first, n, m);
    let band = band_chips(spans);
    let crossing = crossing_chips(occs, first, n, m);
    let columns = columns_chips(occs, first, n, n);
    let all = grid_chips(occs, first, n);
    lemma_all_day_columns(occs, first, n, m);
    lemma_arranged(spans);
    lemma_crossing_times(occs, first, n, m);
    lemma_columns_times(occs, first, n, n);
    lemma_chips_follow_days(occs, first, n);
    let c = all[i];
    assert(takes_days(c, occs[c.occurrence as int], first, n));
    if i < band.len() {
        assert(c == band[i]);
        let s = spans[key_order(spans)[i]];
        assert(arranged(spans)[i] == s);
    } else if i < band.len() + crossing.len() {
        assert(c == crossing[i - band.len()]);
    } else {
        assert(c == columns[i - band.len() - crossing.len()]);
    }
    assert(keeps_time(c, occs, first, n));
}

/// A chip covers the days of its occurrence that the grid shows, and no others.
pub proof fn lemma_chip_covers_days(occs: Seq<EventOccurrence>, first: int, n: int, i: int, day: int)
    requires
        occs.len() <= usize::MAX,
        i32::MIN <= first <= i32::MAX,
        0 < n <= usize::MAX,
        0 <= i < grid_chips(occs, first, n).len(),
        first <= day < first + n,
    ensures
        ({
            let c = grid_chips(occs, first, n)[i];
            c.column <= day - first < c.column + c.span <==> covers(occs[c.occurrence as int], day)
        }),
{
    lemma_chips_follow_days(occs, first, n);
    let c = grid_chips(occs, first, n)[i];
    assert(takes_days(c, occs[c.occurrence as int], first, n));
    lemma_columns_by_day(occs[c.occurrence as int], first, n, day);
}

proof fn lemma_lane_count(lanes: Seq<int>)
    requires
        forall|i: int| 0 <= i < lanes.len() ==> 0 <= #[trigger] lanes[i],
    ensures
        forall|i: int| 0 <= i < lanes.len() ==> #[trigger] lanes[i] < lane_count(lanes),
        lanes.len() > 0 ==> exists|i: int| 0 <= i < lanes.len() && #[trigger] lanes[i] == lane_count(lanes) - 1,
        1 <= lane_count(lanes),
        forall|b: int| (forall|i: int| 0 <= i < lanes.len() ==> #[trigger] lanes[i] < b) && 1 <= b
            ==> #[trigger] within(lane_count(lanes), b),
    decreases lanes.len(),
{
    if lanes.len() > 0 {
        let rest = lanes.drop_last();
        lemma_lane_count(rest);
        assert(lanes.last() == lanes[lanes.len() - 1]);
        assert forall|i: int| 0 <= i < lanes.len() implies #[trigger] lanes[i] < lane_count(lanes) by {
            if i < rest.len() {
                assert(rest[i] == lanes[i]);
            }
        }
        if lanes.last() + 1 <= lane_count(rest) {
            if rest.len() > 0 {
                let i = choose|i: int| 0 <= i < rest.len() && #[trigger] rest[i] == lane_count(rest) - 1;
                assert(lanes[i] == lane_count(lanes) - 1);
            }
        }
        assert forall|b: int| (forall|i: int| 0 <= i < lanes.len() ==> #[trigger] lanes[i] < b) && 1
            <= b implies #[trigger] within(lane_count(lanes), b) by {
            assert forall|i: int| 0 <= i < rest.len() implies #[trigger] rest[i] < b by {
                assert(rest[i] == lanes[i]);
            }
            assert(within(lane_count(rest), b));
        }
    }
}

spec fn within(a: int, b: int) -> bool {
    a <= b
}

/// The chips of a column stand together.
proof fn lemma_column_of_chip(occs: Seq<EventOccurrence>, first: int, n: int, c: int, i: int) -> (r: int)
    requires
        0 <= c <= n <= usize::MAX,
        0 <= i < columns_chips(occs, first, n, c).len(),
    ensures
        0 <= r < c,
        ({
            let before = columns_chips(occs, first, n, r).len();
            let chips = column_chips(r, column_spans(occs, first, n, r, occs.len() as int));
            &&& before <= i < before + chips.len()
            &&& columns_chips(occs, first, n, c)[i] == chips[i - before]
            &&& columns_chips(occs, first, n, c)[i].column == r
        }),
    decreases c,
{
    let before = columns_chips(occs, first, n, c - 1);
    if i < before.len() {
        lemma_column_of_chip(occs, first, n, c - 1, i)
    } else {
        c - 1
    }
}

proof fn lemma_columns_grow(occs: Seq<EventOccurrence>, first: int, n: int, a: int, b: int)
    requires
        0 <= a <= b,
    ensures
        columns_chips(occs, first, n, a).len() <= columns_chips(occs, first, n, b).len(),
        forall|i: int|
            0 <= i < columns_chips(occs, first, n, a).len() ==> #[trigger] columns_chips(occs, first, n, b)[i]
                == columns_chips(occs, first, n, a)[i],
    decreases b,
{
    if a < b {
        lemma_columns_grow(occs, first, n, a, b - 1);
    }
}

/// The number of the first chip of those within one column.
spec fn columns_start(occs: Seq<EventOccurrence>, first: int, n: int) -> nat {
    band_chips(all_day_spans(occs, first, n, occs.len() as int)).len() + crossing_chips(
        occs,
        first,
        n,
        occs.len() as int,
    ).len()
}

proof fn lemma_within_column(occs: Seq<EventOccurrence>, first: int, n: int, i: int)
    requires
        occs.len() <= usize::MAX,
        i32::MIN <= first <= i32::MAX,
        0 < n <= usize::MAX,
        0 <= i < grid_chips(occs, first, n).len(),
        !grid_chips(occs, first, n)[i].all_day,
        grid_chips(occs, first, n)[i].span == 1,
    ensures
        columns_start(occs, first, n) <= i,
        grid_chips(occs, first, n)[i] == columns_chips(occs, first, n, n)[i - columns_start(occs, first, n)],
{
    let m = occs.len() as int;
    let band = band_chips(all_day_spans(occs, first, n, m));
    let crossing = crossing_chips(occs, first, n, m);
    let all = grid_chips(occs, first, n);
    if i < band.len() {
        assert(all[i] == band[i]);
    } else if i < band.len() + crossing.len() {
        assert(all[i] == crossing[i - band.len()]);
        lemma_crossing_wide(occs, first, n, m);
    }
}

proof fn lemma_crossing_wide(occs: Seq<EventOccurrence>, first: int, n: int, m: int)
    requires
        0 <= m <= occs.len() <= usize::MAX,
        i32::MIN <= first <= i32::MAX,
        0 < n <= usize::MAX,
    ensures
        forall|i: int|
            0 <= i < crossing_chips(occs, first, n, m).len() ==> (#[trigger] crossing_chips(
                occs,
                first,
                n,
                m,
            )[i]).span > 1,
    decreases m,
{
    if m > 0 {
        lemma_crossing_wide(occs, first, n, m - 1);
        let rest = crossing_chips(occs, first, n, m - 1);
        let now = crossing_chips(occs, first, n, m);
        assert forall|i: int| 0 <= i < now.len() implies (#[trigger] now[i]).span > 1 by {
            if i < rest.len() {
                assert(now[i] == rest[i]);
            }
        }
    }
}

/// Within one day chips stand side by side as far as they have to: two chips in one lane never
/// overlap; a chip is in a further lane only if in each lane before it a chip is still running when
/// it starts; and there are as many lanes as the furthest chip of the day needs.
pub proof fn lemma_lanes_of_a_day(occs: Seq<EventOccurrence>, first: int, n: int, i: int, lane: int)
    requires
        occs.len() <= usize::MAX,
        i32::MIN <= first <= i32::MAX,
        0 < n <= usize::MAX,
        0 <= i < grid_chips(occs, first, n).len(),
        !grid_chips(occs, first, n)[i].all_day,
        grid_chips(occs, first, n)[i].span == 1,
    ensures
        ({
            let chips = grid_chips(occs, first, n);
            let beside = |j: int|
                0 <= j < chips.len() && !chips[j].all_day && chips[j].span == 1 && chips[j].column
                    == chips[i].column;
            &&& forall|j: int|
                #[trigger] beside(j) && j != i && chips[j].lane == chips[i].lane ==> chips[j].end_minutes
                    <= chips[i].start_minutes || chips[i].end_minutes <= chips[j].start_minutes
            &&& 0 <= lane < chips[i].lane ==> exists|j: int| #[trigger]
                    beside(j) && chips[j].lane == lane && chips[j].start_minutes <= chips[i].start_minutes
                        < chips[j].end_minutes
            &&& chips[i].lane < chips[i].lanes
            &&& exists|j: int| #[trigger] beside(j) && chips[j].lane == chips[i].lanes - 1
            &&& forall|j: int| #[trigger] beside(j) ==> chips[j].lanes == chips[i].lanes
        }),
{
    let chips = grid_chips(occs, first, n);
    let beside = |j: int|
        0 <= j < chips.len() && !chips[j].all_day && chips[j].span == 1 && chips[j].column == chips[i].column;
    let off = columns_start(occs, first, n) as int;
    let columns = columns_chips(occs, first, n, n);
    let m = occs.len() as int;
    lemma_within_column(occs, first, n, i);
    assert(columns.len() + off == chips.len());
    let c = lemma_column_of_chip(occs, first, n, n, i - off);
    let spans = column_spans(occs, first, n, c, m);
    let own = column_chips(c, spans);
    let start = columns_chips(occs, first, n, c).len() as int;
    let at = i - off - start;
    assert(chips[i] == own[at]);
    let rows = arranged(spans);
    let ranges = ranges_of(rows);
    let lanes = greedy_lanes(ranges);
    lemma_arranged(spans);
    lemma_lanes_disjoint(ranges);
    lemma_lanes_bounded(ranges);
    lemma_column_spans(occs, first, n, c, m);
    lemma_span_count(occs, first, n, c, m);
    lemma_lane_count(lanes);
    assert(lane_count(lanes) <= spans.len()) by {
        assert(within(lane_count(lanes), spans.len() as int));
    }
    assert forall|k: int| 0 <= k < own.len() implies #[trigger] beside(off + start + k) && chips[off + start + k]
        == own[k] by {
        lemma_columns_grow(occs, first, n, c + 1, n);
        assert(columns_chips(occs, first, n, c + 1)[start + k] == own[k]);
        assert(columns[start + k] == own[k]);
        assert(chips[off + start + k] == columns[start + k]);
    }
    assert forall|j: int| #[trigger] beside(j) implies start + off <= j < start + off + own.len() && chips[j]
        == own[j - off - start] by {
        lemma_within_column(occs, first, n, j);
        let d = lemma_column_of_chip(occs, first, n, n, j - off);
        assert(d == c);
    }
    assert forall|j: int| #[trigger] beside(j) && j != i && chips[j].lane == chips[i].lane implies chips[j].end_minutes
        <= chips[i].start_minutes || chips[i].end_minutes <= chips[j].start_minutes by {
        let k = j - off - start;
        assert(chips[j] == own[k]);
        assert(0 <= lanes[k] < spans.len() && 0 <= lanes[at] < spans.len());
        if k < at {
            assert(lanes[k] == lanes[at]);
            assert(ranges[k].1 <= ranges[at].0);
        } else {
            assert(lanes[at] == lanes[k]);
            assert(ranges[at].1 <= ranges[k].0);
        }
    }
    assert(0 <= lanes[at] < spans.len());
    if 0 <= lane < chips[i].lane {
        lemma_lower_lanes_busy(ranges, at, lane);
        let k = choose|k: int| 0 <= k < at && #[trigger] lanes[k] == lane && ranges[k].1 > ranges[at].0;
        assert(ranges[k].0 <= ranges[at].0);
        assert(0 <= lanes[k] < spans.len());
        assert(beside(off + start + k));
        assert(chips[off + start + k] == own[k]);
    }
    let k = choose|k: int| 0 <= k < lanes.len() && #[trigger] lanes[k] == lane_count(lanes) - 1;
    assert(0 <= lanes[k] < spans.len());
    assert(beside(off + start + k));
    assert(chips[off + start + k] == own[k]);
}

proof fn lemma_span_count(occs: Seq<EventOccurrence>, first: int, n: int, c: int, m: int)
    requires
        0 <= m <= occs.len(),
    ensures
        column_spans(occs, first, n, c, m).len() <= m,
    decreases m,
{
    if m > 0 {
        lemma_span_count(occs, first, n, c, m - 1);
    }
}

} // verus!
