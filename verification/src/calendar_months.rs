//! The month, week and agenda views: which days they show and what happens on them.

use crate::calendar_days::{covers, occurrence_day_range};
use crate::dates::{civil, day_number, formatted, lemma_civil_of_day_number, lemma_civil_of_number};
use crate::dates::{lemma_month_end, month_after, month_days, Date, MAX_DAY, MIN_DAY};
use crate::model::EventOccurrence;
use crate::sorting::{as_rows, in_key_order, key_order, lemma_key_order_arranges};
use crate::sorting::{lemma_key_order_sorts, ordered_keys, sort_rows, Soonest};
use vstd::prelude::*;

verus! {

/// How many events a day of the month view shows.
pub const MAX_VISIBLE_EVENTS_PER_DAY: usize = 3;

/// How many days the month view shows: six weeks.
pub const GRID_DAYS: usize = 42;

/// The number of the first day of a day's month.
pub open spec fn month_start(n: int) -> int {
    day_number(civil(n).0, civil(n).1, 1)
}

/// The number of the last day of a day's month.
pub open spec fn month_end(n: int) -> int {
    day_number(civil(n).0, civil(n).1, month_days(civil(n).0, civil(n).1))
}

/// The first day of a date's month.
pub fn first_of_month(date: Date) -> (r: Date)
    requires
        date.valid(),
    ensures
        r.valid(),
        r.number == month_start(date.number as int),
        civil(r.number as int) == (date.spec_year(), date.spec_month(), 1int),
{
    let (y, m, d) = date.ymd();
    proof {
        lemma_civil_of_number(date.number as int);
        lemma_month_end(y as int, m as int);
        lemma_civil_of_day_number(y as int, m as int, 1);
    }
    date.plus_days(1 - d as i64)
}

/// The last day of a date's month.
pub fn last_of_month(date: Date) -> (r: Date)
    requires
        date.valid(),
    ensures
        r.valid(),
        r.number == month_end(date.number as int),
        date.number <= r.number,
{
    let first = first_of_month(date);
    let ghost (y, m, d) = civil(date.number as int);
    proof {
        lemma_civil_of_number(date.number as int);
        lemma_month_end(y, m);
        lemma_civil_of_day_number(y, m, month_days(y, m));
        let next = month_after(y, m, 1);
        lemma_month_end(next.0, next.1);
    }
    match first.checked_shift_months(1) {
        Some(next) => next.plus_days(-1),
        // Only the very last December has no month after it.
        None => first.plus_days(30),
    }
}

/// The first day on or before `anchor` that falls on a weekday, counted from Sunday as 0.
pub open spec fn week_first(anchor: int, weekday: int) -> int {
    anchor - (anchor % 7 - weekday) % 7
}

/// The first day of the week that a date belongs to, for weeks that start on a weekday, counted
/// from Sunday as 0.
pub fn week_start(anchor: Date, first: u32) -> (r: Date)
    requires
        anchor.valid(),
        first < 7,
        week_first(anchor.number as int, first as int) >= MIN_DAY,
    ensures
        r.valid(),
        r.number == week_first(anchor.number as int, first as int),
        r.spec_weekday() == first,
        r.number <= anchor.number < r.number + 7,
{
    let offset: i64 = (anchor.days_from_sunday() + 7 - first as i64) % 7;
    anchor.plus_days(-offset)
}

/// The Sunday on or before the first day of a month.
pub fn first_grid_day(month: Date) -> (r: Date)
    requires
        month.valid(),
        week_first(month.number as int, 0) >= MIN_DAY,
    ensures
        r.valid(),
        r.number == week_first(month.number as int, 0),
        r.spec_weekday() == 0,
        r.number <= month.number < r.number + 7,
{
    month.plus_days(-month.days_from_sunday())
}

/// The days that a day, week or work week view shows.
pub open spec fn shown_days(anchor: int, day_view: bool, weekday: int, count: int) -> Seq<int> {
    if day_view {
        seq![anchor]
    } else {
        Seq::new(count as nat, |i: int| week_first(anchor, weekday) + i)
    }
}

/// The days that a day, week or work week view shows: the anchor alone, or `count` days of its week
/// from a weekday on, counted from Sunday as 0.
pub fn grid_dates(anchor: Date, day_view: bool, first: u32, count: usize) -> (r: Vec<Date>)
    requires
        anchor.valid(),
        first < 7,
        !day_view ==> week_first(anchor.number as int, first as int) >= MIN_DAY && week_first(
            anchor.number as int,
            first as int,
        ) + count <= MAX_DAY + 1,
    ensures
        r@.map_values(|d: Date| d.number as int) == shown_days(
            anchor.number as int,
            day_view,
            first as int,
            count as int,
        ),
{
    let ghost f = |d: Date| d.number as int;
    let mut out: Vec<Date> = Vec::new();
    if day_view {
        out.push(anchor);
        assert(out@.map_values(f) =~= seq![anchor.number as int]);
        return out;
    }
    let start = week_start(anchor, first);
    let ghost want = shown_days(anchor.number as int, day_view, first as int, count as int);
    let mut i: usize = 0;
    assert(out@.map_values(f) =~= want.take(0));
    while i < count
        invariant
            i <= count,
            start.number == week_first(anchor.number as int, first as int),
            start.valid(),
            start.number + count <= MAX_DAY + 1,
            f == |d: Date| d.number as int,
            want == Seq::new(
                count as nat,
                |i: int| week_first(anchor.number as int, first as int) + i,
            ),
            out@.map_values(f) == want.take(i as int),
        decreases count - i,
    {
        let ghost before = out@.map_values(f);
        let d = start.plus_days(i as i64);
        out.push(d);
        assert(out@.map_values(f) =~= before.push(d.number as int));
        assert(want.take(i + 1) =~= want.take(i as int).push(want[i as int]));
        i += 1;
    }
    assert(want.take(i as int) =~= want);
    out
}

/// Picks what covers a day.
pub open spec fn on_day(day: int) -> spec_fn(EventOccurrence) -> bool {
    |o: EventOccurrence| covers(o, day)
}

fn bucket<'a>(occurrences: &'a Vec<EventOccurrence>, grid_start: Date, n: usize, col: usize) -> (r: Vec<
    &'a EventOccurrence,
>)
    requires
        col < n,
    ensures
        r@.unref() == occurrences@.filter(on_day(grid_start.number + col)),
{
    let ghost keep = on_day(grid_start.number + col);
    let mut out: Vec<&'a EventOccurrence> = Vec::new();
    let mut i: usize = 0;
    assert(occurrences@.take(0).filter(keep) =~= Seq::<EventOccurrence>::empty());
    assert(out@.unref() =~= occurrences@.take(0).filter(keep));
    while i < occurrences.len()
        invariant
            i <= occurrences.len(),
            col < n,
            keep == on_day(grid_start.number + col),
            out@.unref() == occurrences@.take(i as int).filter(keep),
        decreases occurrences.len() - i,
    {
        let ghost before = out@.unref();
        let ghost o = occurrences@[i as int];
        proof {
            assert(occurrences@.take(i + 1) =~= occurrences@.take(i as int).push(o));
            occurrences@.take(i as int).lemma_filter_push(o, keep);
        }
        let hit = match occurrence_day_range(&occurrences[i], grid_start, n) {
            Some((a, b)) => a <= col && col < b,
            None => false,
        };
        assert(hit == covers(o, grid_start.number + col as int));
        if hit {
            out.push(&occurrences[i]);
            assert(out@.unref() =~= before.push(o));
        }
        i += 1;
    }
    assert(occurrences@.take(i as int) =~= occurrences@);
    out
}

/// What happens on each of `n` days: every occurrence stands on each day that it covers.
pub fn bucket_by_date<'a>(occurrences: &'a Vec<EventOccurrence>, grid_start: Date, n: usize) -> (r: Vec<
    Vec<&'a EventOccurrence>,
>)
    ensures
        r@.len() == n,
        forall|i: int|
            0 <= i < n ==> (#[trigger] r@[i])@.unref() == occurrences@.filter(
                on_day(grid_start.number + i),
            ),
{
    let mut out: Vec<Vec<&'a EventOccurrence>> = Vec::new();
    let mut col: usize = 0;
    while col < n
        invariant
            col <= n,
            out@.len() == col,
            forall|i: int|
                0 <= i < col ==> (#[trigger] out@[i])@.unref() == occurrences@.filter(
                    on_day(grid_start.number + i),
                ),
        decreases n - col,
    {
        out.push(bucket(occurrences, grid_start, n, col));
        col += 1;
    }
    out
}

/// How many of the events of a day are shown, and how many more there are.
pub fn visible_events(count: usize) -> (r: (usize, usize))
    ensures
        r.0 + r.1 == count,
        r.0 == (if count < MAX_VISIBLE_EVENTS_PER_DAY {
            count
        } else {
            MAX_VISIBLE_EVENTS_PER_DAY
        }),
{
    if count <= MAX_VISIBLE_EVENTS_PER_DAY {
        (count, 0)
    } else {
        (MAX_VISIBLE_EVENTS_PER_DAY, count - MAX_VISIBLE_EVENTS_PER_DAY)
    }
}

/// A day of the month view.
#[derive(Clone, Copy, PartialEq, Eq, Structural, Debug)]
pub struct DayCell {
    pub date: Date,
    /// The day of the month.
    pub day: u32,
    /// It belongs to the month that is shown.
    pub in_month: bool,
    pub today: bool,
    pub marked: bool,
}

/// One of the dates is a day.
pub open spec fn is_marked(marked: Seq<Date>, day: int) -> bool {
    exists|i: int| 0 <= i < marked.len() && (#[trigger] marked[i]).number == day
}

/// The cell of a day.
pub open spec fn cell_of(day: int, month: int, today: Date, marked: Seq<Date>) -> DayCell {
    DayCell {
        date: Date { number: day as i32 },
        day: civil(day).2 as u32,
        in_month: civil(day).1 == civil(month).1,
        today: day == today.number,
        marked: is_marked(marked, day),
    }
}

/// All days of the month view are in the range of dates.
pub open spec fn shows_month(month: Date) -> bool {
    &&& month.valid()
    &&& week_first(month_start(month.number as int), 0) >= MIN_DAY
    &&& week_first(month_start(month.number as int), 0) + GRID_DAYS <= MAX_DAY + 1
}

fn listed_date(marked: &Vec<Date>, date: Date) -> (r: bool)
    ensures
        r == is_marked(marked@, date.number as int),
{
    let mut i: usize = 0;
    while i < marked.len()
        invariant
            i <= marked.len(),
            forall|k: int| 0 <= k < i ==> (#[trigger] marked@[k]).number != date.number,
        decreases marked.len() - i,
    {
        if marked[i].number == date.number {
            assert(marked@[i as int].number == date.number);
            return true;
        }
        i += 1;
    }
    false
}

/// The days of the month view for a date's month: six weeks from the Sunday on or before its first
/// day. The dates that are to be marked are the selected one, or those with events.
pub fn month_cells(month: Date, today: Date, marked: &Vec<Date>) -> (r: Vec<DayCell>)
    requires
        shows_month(month),
    ensures
        r@ == Seq::new(
            GRID_DAYS as nat,
            |i: int|
                cell_of(
                    week_first(month_start(month.number as int), 0) + i,
                    month.number as int,
                    today,
                    marked@,
                ),
        ),
{
    let first = first_of_month(month);
    let start = first_grid_day(first);
    let this_month: u32 = month.month();
    let ghost want = Seq::new(
        GRID_DAYS as nat,
        |i: int| cell_of(start.number + i, month.number as int, today, marked@),
    );
    let mut out: Vec<DayCell> = Vec::new();
    let mut i: usize = 0;
    while i < GRID_DAYS
        invariant
            i <= GRID_DAYS,
            start.valid(),
            start.number + GRID_DAYS <= MAX_DAY + 1,
            this_month == month.spec_month(),
            want == Seq::new(
                GRID_DAYS as nat,
                |i: int| cell_of(start.number + i, month.number as int, today, marked@),
            ),
            out@ == want.take(i as int),
        decreases GRID_DAYS - i,
    {
        let date = start.plus_days(i as i64);
        let cell = DayCell {
            date,
            day: date.day(),
            in_month: date.month() == this_month,
            today: date.number == today.number,
            marked: listed_date(marked, date),
        };
        assert(cell == want[i as int]);
        out.push(cell);
        assert(want.take(i + 1) =~= want.take(i as int).push(want[i as int]));
        i += 1;
    }
    assert(want.take(i as int) =~= want);
    out
}

/// Every day of a month has a cell in the month view.
pub proof fn lemma_month_view_holds_month(month: Date, day: int)
    requires
        shows_month(month),
        month_start(month.number as int) <= day <= month_end(month.number as int),
    ensures
        0 <= day - week_first(month_start(month.number as int), 0) < GRID_DAYS,
{
    let (y, m, d) = civil(month.number as int);
    lemma_civil_of_number(month.number as int);
    lemma_month_end(y, m);
}

/// The events of one day of the agenda.
#[derive(Debug)]
pub struct DayGroup<'a> {
    pub date: Date,
    pub events: Vec<&'a EventOccurrence>,
}

/// The day that an occurrence starts on.
pub open spec fn start_day(o: EventOccurrence) -> int {
    o.start.local.date.number as int
}

/// Picks what starts from one day to another.
pub open spec fn starts_within(from: int, to: int) -> spec_fn(EventOccurrence) -> bool {
    |o: EventOccurrence| from <= start_day(o) <= to
}

/// The occurrences of the agenda in order: what starts from the anchor to the end of its month, the
/// soonest first.
pub open spec fn agenda_events(occurrences: Seq<EventOccurrence>, anchor: int) -> Seq<EventOccurrence> {
    let shown = occurrences.filter(starts_within(anchor, month_end(anchor)));
    key_order(shown.map_values(|o: EventOccurrence| Soonest { at: o.start.instant })).map_values(
        |i: int| shown[i],
    )
}

/// Occurrences in groups: those that follow each other and start on the same day.
pub open spec fn by_day(s: Seq<EventOccurrence>) -> Seq<(int, Seq<EventOccurrence>)>
    decreases s.len(),
{
    if s.len() == 0 {
        Seq::empty()
    } else {
        let before = by_day(s.drop_last());
        let day = start_day(s.last());
        if before.len() > 0 && before.last().0 == day {
            before.drop_last().push((day, before.last().1.push(s.last())))
        } else {
            before.push((day, seq![s.last()]))
        }
    }
}

/// Groups by day.
pub open spec fn group_views<'a>(v: Seq<DayGroup<'a>>) -> Seq<(int, Seq<EventOccurrence>)> {
    v.map_values(|g: DayGroup<'a>| (g.date.number as int, g.events@.unref()))
}

fn agenda_list<'a>(occurrences: &'a Vec<EventOccurrence>, anchor: Date) -> (r: Vec<&'a EventOccurrence>)
    requires
        anchor.valid(),
    ensures
        r@.unref() == agenda_events(occurrences@, anchor.number as int),
{
    let end = last_of_month(anchor);
    let ghost keep = starts_within(anchor.number as int, end.number as int);
    let mut kept: Vec<&'a EventOccurrence> = Vec::new();
    let mut keys: Vec<Soonest> = Vec::new();
    let mut i: usize = 0;
    assert(occurrences@.take(0).filter(keep) =~= Seq::<EventOccurrence>::empty());
    assert(kept@.unref() =~= occurrences@.take(0).filter(keep));
    while i < occurrences.len()
        invariant
            i <= occurrences.len(),
            keep == starts_within(anchor.number as int, end.number as int),
            kept@.unref() == occurrences@.take(i as int).filter(keep),
            kept@.len() == keys@.len(),
            forall|k: int| 0 <= k < keys@.len() ==> #[trigger] keys@[k] == (Soonest {
                at: kept@[k].start.instant,
            }),
        decreases occurrences.len() - i,
    {
        let ghost before = kept@.unref();
        let o = &occurrences[i];
        proof {
            assert(occurrences@.take(i + 1) =~= occurrences@.take(i as int).push(*o));
            occurrences@.take(i as int).lemma_filter_push(*o, keep);
        }
        let day: i32 = o.start.local.date.number;
        if anchor.number <= day && day <= end.number {
            kept.push(o);
            keys.push(Soonest { at: o.start.instant });
            assert(kept@.unref() =~= before.push(*o));
        }
        i += 1;
    }
    assert(occurrences@.take(i as int) =~= occurrences@);
    let ghost shown = occurrences@.filter(keep);
    assert(shown.len() == kept@.len());
    assert(keys@ =~= shown.map_values(|o: EventOccurrence| Soonest { at: o.start.instant })) by {
        assert forall|k: int| 0 <= k < keys@.len() implies keys@[k] == shown.map_values(
            |o: EventOccurrence| Soonest { at: o.start.instant },
        )[k] by {
            assert(shown[k] == *kept@[k]);
        }
    }
    let order = sort_rows(&keys);
    let ghost want = agenda_events(occurrences@, anchor.number as int);
    assert(as_rows(order@).len() == order@.len());
    let mut out: Vec<&'a EventOccurrence> = Vec::new();
    let mut j: usize = 0;
    assert(out@.unref() =~= want.take(0));
    while j < order.len()
        invariant
            j <= order.len() == want.len(),
            order@.len() == kept@.len() == shown.len(),
            kept@.unref() == shown,
            as_rows(order@) == key_order(
                shown.map_values(|o: EventOccurrence| Soonest { at: o.start.instant }),
            ),
            want == key_order(
                shown.map_values(|o: EventOccurrence| Soonest { at: o.start.instant }),
            ).map_values(|i: int| shown[i]),
            forall|k: int| 0 <= k < order@.len() ==> #[trigger] order@[k] < kept@.len(),
            out@.unref() == want.take(j as int),
        decreases order.len() - j,
    {
        let k: usize = order[j];
        let ghost before = out@.unref();
        assert(as_rows(order@)[j as int] == k);
        assert(shown[k as int] == *kept@[k as int]);
        out.push(kept[k]);
        assert(out@.unref() =~= before.push(shown[k as int]));
        assert(want.take(j + 1) =~= want.take(j as int).push(want[j as int]));
        j += 1;
    }
    assert(want.take(j as int) =~= want);
    out
}

/// The agenda: what starts from the anchor to the end of its month, day by day.
pub fn agenda_groups<'a>(occurrences: &'a Vec<EventOccurrence>, anchor: Date) -> (r: Vec<DayGroup<'a>>)
    requires
        anchor.valid(),
    ensures
        group_views(r@) == by_day(agenda_events(occurrences@, anchor.number as int)),
{
    let listed = agenda_list(occurrences, anchor);
    let ghost all = agenda_events(occurrences@, anchor.number as int);
    assert(all.len() == listed@.len());
    let mut done: Vec<DayGroup<'a>> = Vec::new();
    if listed.len() == 0 {
        assert(group_views(done@) =~= by_day(all));
        return done;
    }
    let mut day = listed[0].start.local.date;
    let mut group: Vec<&'a EventOccurrence> = Vec::new();
    group.push(listed[0]);
    let mut i: usize = 1;
    proof {
        assert(all[0] == *listed@[0]);
        assert(all.take(1).drop_last() =~= Seq::<EventOccurrence>::empty());
        assert(by_day(all.take(1).drop_last()).len() == 0);
        assert(group@.unref() =~= seq![all[0]]);
        assert(all.take(1).last() == all[0]);
        assert(group_views(done@).push((day.number as int, group@.unref())) =~= by_day(all.take(1)));
    }
    while i < listed.len()
        invariant
            1 <= i <= listed.len() == all.len(),
            listed@.unref() == all,
            group_views(done@).push((day.number as int, group@.unref())) == by_day(all.take(i as int)),
        decreases listed.len() - i,
    {
        let o = listed[i];
        let ghost groups = by_day(all.take(i as int));
        proof {
            assert(all[i as int] == *o);
            assert(all.take(i + 1).drop_last() =~= all.take(i as int));
            assert(groups.drop_last() =~= group_views(done@));
        }
        let ghost before = group@.unref();
        if o.start.local.date.number == day.number {
            group.push(o);
            assert(group@.unref() =~= before.push(*o));
        } else {
            let ghost views = group_views(done@);
            let full = DayGroup { date: day, events: group };
            done.push(full);
            assert(group_views(done@) =~= views.push((full.date.number as int, full.events@.unref())));
            group = Vec::new();
            group.push(o);
            day = o.start.local.date;
            assert(group@.unref() =~= seq![*o]);
        }
        i += 1;
    }
    proof {
        assert(all.take(i as int) =~= all);
    }
    let ghost views = group_views(done@);
    let last = DayGroup { date: day, events: group };
    done.push(last);
    assert(group_views(done@) =~= views.push((last.date.number as int, last.events@.unref())));
    done
}

/// Nothing of the agenda comes before something that starts earlier.
pub proof fn lemma_agenda_in_order(occurrences: Seq<EventOccurrence>, anchor: int, a: int, b: int)
    requires
        0 <= a < b < agenda_events(occurrences, anchor).len(),
    ensures
        agenda_events(occurrences, anchor)[a].start.instant.le(
            agenda_events(occurrences, anchor)[b].start.instant,
        ),
{
    let shown = occurrences.filter(starts_within(anchor, month_end(anchor)));
    let keys = shown.map_values(|o: EventOccurrence| Soonest { at: o.start.instant });
    assert(ordered_keys::<Soonest>());
    lemma_key_order_sorts(keys);
    lemma_key_order_arranges(keys);
    let order = key_order(keys);
    assert(in_key_order(keys, order[a], order[b]));
    assert(0 <= order[a] < shown.len() && 0 <= order[b] < shown.len());
}

/// The header of a day in the agenda.
pub open spec fn day_header(date: int, today: int) -> Seq<char> {
    if date == today {
        "Today"@
    } else if date == today + 1 {
        "Tomorrow"@
    } else {
        formatted(date, 0, "%a %d %b"@)
    }
}

/// The header of a day in the agenda.
pub fn agenda_day_header(date: Date, today: Date) -> (r: String)
    requires
        date.valid(),
    ensures
        r@ == day_header(date.number as int, today.number as int),
{
    let ahead: i64 = date.days_since(today);
    if ahead == 0 {
        "Today".to_owned()
    } else if ahead == 1 {
        "Tomorrow".to_owned()
    } else {
        date.format("%a %d %b")
    }
}

} // verus!
