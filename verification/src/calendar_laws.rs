//! What holds of the calendar's days, weeks and months, and of what they show.

use crate::calendar_days::{covered_days, covers};
use crate::calendar_main::{shows_day, shows_days, stepped, title_of, turned, MonthDay, TimePage, ViewKind};
use crate::calendar_months::{agenda_events, by_day, cell_of, day_header, month_end, month_start, on_day};
use crate::calendar_months::{shown_days, shows_month, start_day, starts_within, week_first, DayCell};
use crate::calendar_view::{band_of, bare_color, calendar_row, clock_hour, color_class, color_rule, group_rows};
use crate::calendar_view::{half_of_day, header_of_column, label_text, painted_in, rows_upto, span_text};
use crate::calendar_view::{shortened, time_text, title_or_untitled, two_digits, weekday_label, CheckView};
use crate::calendar_colors::{all_hex, color_rgb, hex_digit, lemma_short_color, CalendarInfo};
use crate::calendar_view::{color_rules, spelled_color, CalendarAccountGroup};
use crate::dates::{civil, day_number, formatted, lemma_civil_of_day_number, lemma_civil_of_number, lemma_month_end};
use crate::dates::{month_after, month_days, shifted, valid_civil, Date, DateTime, MAX_DAY, MIN_DAY};
use crate::grid_pointer::{chip_end, chip_start, clamped, drag_at, ghost_chip, new_drag, snapped, ChipPress, DragMode};
use crate::grid_pointer::{GridPointer, Release, Slot, SlotRange, TimeGridDrag};
use crate::model::EventOccurrence;
use crate::sorting::{key_order, lemma_key_order_arranges, Soonest};
use crate::text::{decimal, decimal_value, has_prefix, has_text, lemma_decimal_reads_back, strip_front};
use crate::time_grid::{grid_chips, TimeChip};
use vstd::prelude::*;

verus! {

/// Where a step leads: as many days on as there are steps in the day view, as many weeks in the two
/// week views, and in the others as many months, to the same day of the month or the last one that
/// there is.
pub proof fn lemma_step_leads(anchor: int, by: int)
    requires
        MIN_DAY <= anchor <= MAX_DAY,
    ensures
        stepped(ViewKind::Day, anchor, by) == anchor + by,
        stepped(ViewKind::Week, anchor, by) == anchor + 7 * by,
        stepped(ViewKind::WorkWeek, anchor, by) == anchor + 7 * by,
        stepped(ViewKind::Split, anchor, by) == stepped(ViewKind::Month, anchor, by),
        shifted(anchor, by) is Some ==> ({
            let (y, m, d) = civil(anchor);
            let (year, month, day) = civil(stepped(ViewKind::Month, anchor, by));
            &&& year * 12 + month == y * 12 + m + by
            &&& 1 <= month <= 12
            &&& day <= d
            &&& d <= month_days(year, month) ==> day == d
            &&& d > month_days(year, month) ==> day == month_days(year, month)
        }),
        shifted(anchor, by) is None ==> stepped(ViewKind::Month, anchor, by) == anchor,
{
    lemma_civil_of_number(anchor);
    let (y, m, d) = civil(anchor);
    let (year, month) = month_after(y, m, by);
    lemma_month_end(year, month);
    if shifted(anchor, by) is Some {
        let last = month_days(year, month);
        let day = if d < last {
            d
        } else {
            last
        };
        lemma_civil_of_day_number(year, month, day);
    }
}

/// A week starts on its weekday, and holds the day that it is for.
pub proof fn lemma_week_of_day(anchor: int, weekday: int)
    requires
        0 <= weekday < 7,
    ensures
        week_first(anchor, weekday) % 7 == weekday,
        week_first(anchor, weekday) <= anchor < week_first(anchor, weekday) + 7,
{
}

/// The days of a view: the day itself, or the days of its week one after the other.
pub proof fn lemma_shown_days(anchor: int, weekday: int, count: int, i: int)
    requires
        0 <= weekday < 7,
        0 <= i < count,
    ensures
        shown_days(anchor, true, weekday, count) == seq![anchor],
        shown_days(anchor, false, weekday, count).len() == count,
        shown_days(anchor, false, weekday, count)[i] == week_first(anchor, weekday) + i,
        count == 7 ==> exists|k: int| 0 <= k < 7 && #[trigger] shown_days(anchor, false, weekday, count)[k] == anchor,
{
    if count == 7 {
        let k = anchor - week_first(anchor, weekday);
        assert(shown_days(anchor, false, weekday, count)[k] == anchor);
    }
}

/// A month goes from its first to its last day: a day lies between them exactly if it is of that month
/// and year.
pub proof fn lemma_days_of_month(n: int, day: int)
    requires
        MIN_DAY <= n <= MAX_DAY,
        MIN_DAY <= day <= MAX_DAY,
    ensures
        month_start(n) <= day <= month_end(n) <==> civil(day).0 == civil(n).0 && civil(day).1 == civil(n).1,
        month_start(n) <= n <= month_end(n),
        civil(month_start(n)).2 == 1,
{
    lemma_civil_of_number(n);
    lemma_civil_of_number(day);
    let (y, m, d) = civil(n);
    lemma_month_end(y, m);
    lemma_civil_of_day_number(y, m, 1);
    if month_start(n) <= day <= month_end(n) {
        let k = day - month_start(n) + 1;
        assert(day_number(y, m, k) == day);
        lemma_civil_of_day_number(y, m, k);
    }
}

/// The cells of a month's page: a cell belongs to the month exactly if its day lies between the first
/// and the last day of it; it shows the day's own number; and it is marked if the day is.
pub proof fn lemma_cell_of_day(month: Date, day: int, today: Date, marked: Seq<Date>)
    requires
        shows_month(month),
        week_first(month_start(month.number as int), 0) <= day < week_first(month_start(month.number as int), 0) + 42,
    ensures
        ({
            let c = cell_of(day, month.number as int, today, marked);
            &&& c.date.number == day
            &&& c.day == civil(day).2
            &&& c.in_month <==> month_start(month.number as int) <= day <= month_end(month.number as int)
            &&& c.today <==> day == today.number
            &&& c.marked <==> exists|i: int| 0 <= i < marked.len() && (#[trigger] marked[i]).number == day
        }),
{
    let n = month.number as int;
    let (y, m, d) = civil(n);
    lemma_civil_of_number(n);
    lemma_civil_of_number(day);
    lemma_days_of_month(n, day);
    lemma_month_end(y, m);
    let (ny, nm) = month_after(y, m, 1);
    let py = if m == 1 {
        y - 1
    } else {
        y
    };
    let pm = if m == 1 {
        12
    } else {
        m - 1
    };
    lemma_month_end(py, pm);
    assert(month_after(py, pm, 1) == (y, m));
    if day > month_end(n) {
        let k = day - month_end(n);
        assert(day_number(ny, nm, k) == day);
        assert(valid_civil(ny, nm, k));
        lemma_civil_of_day_number(ny, nm, k);
    } else if day < month_start(n) {
        let k = month_days(py, pm) - (month_start(n) - 1 - day);
        assert(day_number(py, pm, k) == day);
        assert(valid_civil(py, pm, k));
        lemma_civil_of_day_number(py, pm, k);
    }
}

/// A day of the month's page shows its first events, and says how many more there are: none is left
/// out of the count.
pub proof fn lemma_day_shows_events<'a>(d: MonthDay<'a>, cell: DayCell, events: Seq<EventOccurrence>, i: int)
    requires
        shows_day(d, cell, events),
    ensures
        d.events@.len() + d.more == events.len(),
        0 <= i < d.events@.len() ==> *d.events@[i] == events[i],
        d.more > 0 ==> d.events@.len() > 0,
{
    assert(d.events@.unref().len() == d.events@.len());
    if 0 <= i < d.events@.len() {
        assert(d.events@.unref()[i] == *d.events@[i]);
    }
}

/// An event is shown on every day that it covers.
pub proof fn lemma_event_on_its_days(occurrences: Seq<EventOccurrence>, day: int, o: EventOccurrence)
    ensures
        occurrences.filter(on_day(day)).contains(o) <==> occurrences.contains(o) && covers(o, day),
{
    let p = on_day(day);
    let shown = occurrences.filter(p);
    if shown.contains(o) {
        occurrences.lemma_filter_contains_rev(p, o);
        let i = choose|i: int| 0 <= i < shown.len() && shown[i] == o;
        occurrences.lemma_filter_pred(p, i);
    }
    if occurrences.contains(o) && p(o) {
        let i = choose|i: int| 0 <= i < occurrences.len() && occurrences[i] == o;
        occurrences.lemma_filter_contains(p, i);
    }
}

/// The small calendar turns to the first day of the next month, or of the one before.
pub proof fn lemma_turned(month: int)
    requires
        MIN_DAY <= month <= MAX_DAY,
    ensures
        shifted(month, 1) is Some ==> ({
            let (y, m, d) = civil(turned(month, true));
            y * 12 + m == civil(month).0 * 12 + civil(month).1 + 1 && d == 1
        }),
        shifted(month, -1) is Some ==> ({
            let (y, m, d) = civil(turned(month, false));
            y * 12 + m == civil(month).0 * 12 + civil(month).1 - 1 && d == 1
        }),
{
    lemma_step_leads(month, 1);
    lemma_step_leads(month, -1);
    lemma_civil_of_number(month);
    let (y, m, d) = civil(month);
    if shifted(month, 1) is Some {
        let n = shifted(month, 1)->0;
        let (year, mon) = month_after(y, m, 1);
        lemma_month_end(year, mon);
        lemma_civil_of_day_number(
            year,
            mon,
            if d < month_days(year, mon) {
                d
            } else {
                month_days(year, mon)
            },
        );
        lemma_days_of_month(n, n);
        lemma_civil_of_day_number(civil(n).0, civil(n).1, 1);
    }
    if shifted(month, -1) is Some {
        let n = shifted(month, -1)->0;
        let (year, mon) = month_after(y, m, -1);
        lemma_month_end(year, mon);
        lemma_civil_of_day_number(
            year,
            mon,
            if d < month_days(year, mon) {
                d
            } else {
                month_days(year, mon)
            },
        );
        lemma_days_of_month(n, n);
        lemma_civil_of_day_number(civil(n).0, civil(n).1, 1);
    }
}

/// What a view is titled with: the day view with its day, the month view with its month, the week
/// views with their first and their last day.
pub proof fn lemma_titles(anchor: int)
    ensures
        title_of(ViewKind::Day, anchor) == formatted(anchor, 0, "%A %d %B %Y"@),
        title_of(ViewKind::Month, anchor) == formatted(month_start(anchor), 0, "%B %Y"@),
        ({
            let tail = " – "@ + formatted(week_first(anchor, 0) + 6, 0, "%d %b %Y"@);
            let t = title_of(ViewKind::Week, anchor);
            t.len() >= tail.len() && t.skip(t.len() - tail.len()) == tail
        }),
        ({
            let tail = " – "@ + formatted(week_first(anchor, 1) + 4, 0, "%d %b %Y"@);
            let t = title_of(ViewKind::WorkWeek, anchor);
            t.len() >= tail.len() && t.skip(t.len() - tail.len()) == tail
        }),
        civil(week_first(anchor, 0)).0 != civil(week_first(anchor, 0) + 6).0 ==> has_prefix(
            title_of(ViewKind::Week, anchor),
            formatted(week_first(anchor, 0), 0, "%d %b %Y"@),
        ),
        civil(week_first(anchor, 0)).0 == civil(week_first(anchor, 0) + 6).0 ==> has_prefix(
            title_of(ViewKind::Week, anchor),
            formatted(week_first(anchor, 0), 0, "%d %b"@),
        ),
{
    let t = title_of(ViewKind::Week, anchor);
    let tail = " – "@ + formatted(week_first(anchor, 0) + 6, 0, "%d %b %Y"@);
    assert(t.skip(t.len() - tail.len()) =~= tail);
    let long = formatted(week_first(anchor, 0), 0, "%d %b %Y"@);
    let short = formatted(week_first(anchor, 0), 0, "%d %b"@);
    if civil(week_first(anchor, 0)).0 != civil(week_first(anchor, 0) + 6).0 {
        assert(t.take(long.len() as int) =~= long);
    } else {
        assert(t.take(short.len() as int) =~= short);
    }
    let t = title_of(ViewKind::WorkWeek, anchor);
    let tail = " – "@ + formatted(week_first(anchor, 1) + 4, 0, "%d %b %Y"@);
    assert(t.skip(t.len() - tail.len()) =~= tail);
}

/// The agenda lists what starts from a day on until the end of its month, and nothing else.
pub proof fn lemma_on_agenda(occurrences: Seq<EventOccurrence>, anchor: int, o: EventOccurrence)
    ensures
        agenda_events(occurrences, anchor).contains(o) <==> occurrences.contains(o) && anchor
            <= o.start.local.date.number <= month_end(anchor),
{
    let p = starts_within(anchor, month_end(anchor));
    let shown = occurrences.filter(p);
    let keys = shown.map_values(|o: EventOccurrence| Soonest { at: o.start.instant });
    let order = key_order(keys);
    let all = agenda_events(occurrences, anchor);
    lemma_key_order_arranges(keys);
    if all.contains(o) {
        let i = choose|i: int| 0 <= i < all.len() && all[i] == o;
        assert(0 <= order[i] < shown.len());
        assert(shown[order[i]] == o);
        assert(shown.contains(o));
        occurrences.lemma_filter_contains_rev(p, o);
        occurrences.lemma_filter_pred(p, order[i]);
    }
    if occurrences.contains(o) && p(o) {
        let i = choose|i: int| 0 <= i < occurrences.len() && occurrences[i] == o;
        occurrences.lemma_filter_contains(p, i);
        let x = choose|x: int| 0 <= x < shown.len() && shown[x] == o;
        assert(order.contains(x));
        let k = choose|k: int| 0 <= k < order.len() && order[k] == x;
        assert(all[k] == o);
    }
}

/// All events of groups, one group after the other.
pub open spec fn flat(groups: Seq<(int, Seq<EventOccurrence>)>) -> Seq<EventOccurrence>
    decreases groups.len(),
{
    if groups.len() == 0 {
        Seq::empty()
    } else {
        flat(groups.drop_last()) + groups.last().1
    }
}

/// Grouping by day loses no event and changes no order; every group holds events of its day, at least
/// one; and two groups that follow each other are of different days.
pub proof fn lemma_groups_by_day(s: Seq<EventOccurrence>)
    ensures
        flat(by_day(s)) == s,
        forall|g: int, i: int|
            0 <= g < by_day(s).len() && 0 <= i < by_day(s)[g].1.len() ==> (
            #[trigger] by_day(s)[g].1[i]).start.local.date.number == by_day(s)[g].0,
        forall|g: int| 0 <= g < by_day(s).len() ==> (#[trigger] by_day(s)[g]).1.len() > 0,
        forall|g: int, h: int| 0 <= g && h == g + 1 && h < by_day(s).len() ==> (#[trigger] by_day(s)[g]).0 != (
        #[trigger] by_day(s)[h]).0,
    decreases s.len(),
{
    if s.len() == 0 {
        assert(flat(by_day(s)) =~= s);
    } else {
        let rest = s.drop_last();
        lemma_groups_by_day(rest);
        let before = by_day(rest);
        let now = by_day(s);
        let day = start_day(s.last());
        if before.len() > 0 && before.last().0 == day {
            assert(now.drop_last() =~= before.drop_last());
            assert(flat(now) =~= flat(before.drop_last()) + before.last().1.push(s.last()));
            assert(flat(before) == flat(before.drop_last()) + before.last().1);
            assert(flat(now) =~= rest.push(s.last()));
        } else {
            assert(now.drop_last() =~= before);
            assert(flat(now) =~= rest.push(s.last()));
        }
        assert(rest.push(s.last()) =~= s);
        let last = now.len() - 1;
        assert forall|g: int, i: int| 0 <= g < now.len() && 0 <= i < now[g].1.len() implies (
        #[trigger] now[g].1[i]).start.local.date.number == now[g].0 by {
            if g < last {
                assert(now[g] == before[g]);
            } else if before.len() > 0 && before.last().0 == day {
                let old_events = before.last().1;
                assert(before[last] == before.last());
                if i < old_events.len() {
                    assert(now[g].1[i] == before[last].1[i]);
                }
            }
        }
        assert forall|g: int| 0 <= g < now.len() implies (#[trigger] now[g]).1.len() > 0 by {
            if g < last {
                assert(now[g] == before[g]);
            }
        }
        assert forall|g: int, h: int| 0 <= g && h == g + 1 && h < now.len() implies (#[trigger] now[g]).0 != (
        #[trigger] now[h]).0 by {
            assert(now[g] == before[g]);
            if h < last {
                assert(now[h] == before[h]);
            } else if before.len() > 0 && before.last().0 == day {
                assert(now[h].0 == before[h].0);
            } else {
                assert(before[g] == before.last());
            }
        }
    }
}

/// How a day of the agenda is headed: today and the day after by these names, and no other day.
pub proof fn lemma_day_headed(date: int, today: int)
    ensures
        day_header(today, today) == "Today"@,
        day_header(today + 1, today) == "Tomorrow"@,
        date != today && date != today + 1 ==> day_header(date, today) == formatted(date, 0, "%a %d %b"@),
{
}

/// An hour on the clock and its half of the day tell the hour of the day.
pub proof fn lemma_clock_tells_hour(h: int)
    requires
        0 <= h < 24,
    ensures
        1 <= clock_hour(h) <= 12,
        clock_hour(h) % 12 + (if half_of_day(h) == "pm"@ {
            12int
        } else {
            0int
        }) == h,
        half_of_day(h) == "am"@ || half_of_day(h) == "pm"@,
        "am"@ != "pm"@,
{
    reveal_strlit("am");
    reveal_strlit("pm");
    assert("am"@[0] != "pm"@[0]);
}

/// The minutes of a time are written with two digits and read back as they are.
pub proof fn lemma_minutes_told(n: nat)
    requires
        n < 60,
    ensures
        two_digits(n).len() == 2,
        decimal_value(two_digits(n)) == n,
{
    reveal_strlit("0");
    lemma_decimal_reads_back(n);
    reveal_with_fuel(decimal, 3);
    reveal_with_fuel(decimal_value, 4);
    if n < 10 {
        assert(decimal(n).len() == 1);
        let s = "0"@ + decimal(n);
        assert(s.drop_last() =~= "0"@);
        assert("0"@.drop_last() =~= Seq::<char>::empty());
        assert(s.last() == decimal(n)[0]);
        assert(decimal(n).drop_last() =~= Seq::<char>::empty());
    } else {
        assert(decimal(n).len() == 2);
    }
}

/// A time is told by the hour on the clock, the minutes and the half of the day.
pub proof fn lemma_time_told(t: DateTime)
    requires
        t.secs < 86400,
    ensures
        time_text(t) == decimal(clock_hour(t.secs as int / 3600) as nat) + ":"@ + two_digits(
            (t.secs as int % 3600 / 60) as nat,
        ) + half_of_day(t.secs as int / 3600),
{
    assert(t.secs as int / 60 % 60 == t.secs as int % 3600 / 60);
}

/// The days of a week are headed by their names, from Sunday on, and their number in the month.
pub proof fn lemma_column_headed(date: Date)
    ensures
        weekday_label(0) == "Sun"@ && weekday_label(1) == "Mon"@ && weekday_label(2) == "Tue"@,
        weekday_label(3) == "Wed"@ && weekday_label(4) == "Thu"@ && weekday_label(5) == "Fri"@,
        weekday_label(6) == "Sat"@,
        header_of_column(date) == weekday_label(date.number as int % 7) + " "@ + decimal(
            civil(date.number as int).2 as nat,
        ),
{
}

/// What an event is labelled with: its title, behind the time at which it starts where there is one to
/// show; its tooltip also tells when it ends, after when it starts.
pub proof fn lemma_labels(occ: EventOccurrence)
    ensures
        label_text(occ, false) == title_or_untitled(occ.summary),
        label_text(occ, true) == time_text(occ.start.local) + " "@ + title_or_untitled(occ.summary),
        span_text(occ, true) == title_or_untitled(occ.summary),
        has_prefix(
            span_text(occ, false),
            time_text(occ.start.local) + " – "@ + time_text(occ.end.local),
        ),
        ({
            let t = title_or_untitled(occ.summary);
            let s = span_text(occ, false);
            s.len() >= t.len() && s.skip(s.len() - t.len()) == t
        }),
        occ.summary matches Some(s) ==> title_or_untitled(occ.summary) == s@,
{
    let s = span_text(occ, false);
    let head = time_text(occ.start.local) + " – "@ + time_text(occ.end.local);
    assert(s.take(head.len() as int) =~= head);
    let t = title_or_untitled(occ.summary);
    assert(s.skip(s.len() - t.len()) =~= t);
}

/// What is painted of a selection on a day are exactly the half hours of the day that it holds.
pub proof fn lemma_band_is_selection(range: SlotRange, day: Date, minutes: i64)
    requires
        range.first().le(range.last()),
        0 <= range.start_minutes <= 1410 && range.start_minutes as int % 30 == 0,
        0 <= range.end_minutes <= 1410 && range.end_minutes as int % 30 == 0,
        0 <= minutes <= 1410 && minutes as int % 30 == 0,
    ensures
        range.holds(Slot { date: day, minutes }) <==> (band_of(range, day.number as int) matches Some((a, b)) && a
            <= minutes && minutes + 30 <= b),
{
}

/// The chips that are painted are those of the part of the grid, without the one that is dragged.
pub proof fn lemma_painted(chips: Seq<TimeChip>, band: bool, dragged: Option<usize>, i: int)
    requires
        0 <= i < chips.len() <= usize::MAX,
    ensures
        Seq::new(chips.len(), |i: int| i).filter(painted_in(chips, band, dragged)).contains(i) <==> (chips[i].all_day
            <==> band) && !(dragged is Some && dragged->0 == i),
{
    let all = Seq::new(chips.len(), |i: int| i);
    let p = painted_in(chips, band, dragged);
    let painted = all.filter(p);
    assert(all[i] == i);
    if painted.contains(i) {
        let k = choose|k: int| 0 <= k < painted.len() && painted[k] == i;
        all.lemma_filter_pred(p, k);
    }
    if p(i) {
        all.lemma_filter_contains(p, i);
    }
}

/// The row of a calendar says its id, its name and its colour, and is checked if the calendar is.
pub proof fn lemma_calendar_row(c: CalendarInfo, checked: Seq<String>, colors: Map<Seq<char>, Seq<char>>)
    ensures
        calendar_row(c, checked, colors) matches CheckView::Calendar(id, name, color, is_checked) && id == c.id@ && name
            == c.display_name@ && (colors.contains_key(c.id@) ==> color == colors[c.id@]) && (is_checked
            <==> exists|i: int| 0 <= i < checked.len() && (#[trigger] checked[i])@ == c.id@),
{
}

/// Every calendar of every account has a row, below the one with the name of its account.
pub proof fn lemma_calendar_listed(
    groups: Seq<CalendarAccountGroup>,
    checked: Seq<String>,
    colors: Map<Seq<char>, Seq<char>>,
    n: int,
    g: int,
    c: int,
)
    requires
        0 <= g < n <= groups.len(),
        0 <= c < groups[g].calendars@.len(),
    ensures
        exists|i: int|
            0 <= i && i + 1 + c < rows_upto(groups, checked, colors, n).len() && #[trigger] rows_upto(
                groups,
                checked,
                colors,
                n,
            )[i] == CheckView::Header(groups[g].display_name@) && rows_upto(groups, checked, colors, n)[i + 1 + c]
                == calendar_row(groups[g].calendars@[c], checked, colors),
    decreases n,
{
    let before = rows_upto(groups, checked, colors, n - 1);
    let own = group_rows(groups[n - 1], checked, colors);
    let all = rows_upto(groups, checked, colors, n);
    if g == n - 1 {
        let i = before.len() as int;
        assert(own[0] == CheckView::Header(groups[g].display_name@));
        assert(all[i] == own[0]);
        assert(all[i + 1 + c] == own[1 + c]);
    } else {
        lemma_calendar_listed(groups, checked, colors, n - 1, g, c);
        let i = choose|i: int|
            0 <= i && i + 1 + c < before.len() && #[trigger] before[i] == CheckView::Header(groups[g].display_name@)
                && before[i + 1 + c] == calendar_row(groups[g].calendars@[c], checked, colors);
        assert(all[i] == before[i]);
        assert(all[i + 1 + c] == before[i + 1 + c]);
    }
}

/// The rule of a colour is for the class of that colour, and paints it.
pub proof fn lemma_color_rule(color: Seq<char>)
    ensures
        has_prefix(color_rule(color), "."@ + color_class(color) + " { background-color: "@ + color + "; color: "@),
        color_class(color) == "calendar-event-"@ + bare_color(color),
{
    let head = "."@ + color_class(color) + " { background-color: "@ + color + "; color: "@;
    assert(color_rule(color).take(head.len() as int) =~= head);
}

/// A text that is cut short keeps its start, and shows that there is more.
pub proof fn lemma_shortened(text: Seq<char>, keep: int)
    requires
        0 <= keep <= text.len(),
    ensures
        shortened(text, keep).len() == keep + 1,
        shortened(text, keep).last() == '…',
        shortened(text, keep).drop_last() == text.take(keep),
{
    assert(shortened(text, keep).drop_last() =~= text.take(keep));
}

/// Snapping leads to the nearest half hour, and clamping to the nearest number within the bounds.
pub proof fn lemma_nearest(v: int, low: int, high: int)
    requires
        low <= high,
    ensures
        snapped(v) % 30 == 0,
        -15 <= v - snapped(v) < 15,
        low <= clamped(v, low, high) <= high,
        low <= v <= high ==> clamped(v, low, high) == v,
        v < low ==> clamped(v, low, high) == low,
        v > high ==> clamped(v, low, high) == high,
{
}

/// What is shown of a drag goes from where the dragged event starts to where it ends.
pub proof fn lemma_ghost_shows_drag(drag: TimeGridDrag, occurrence: usize)
    requires
        0 <= drag.live_start < drag.live_end <= 0x1000_0000,
    ensures
        chip_start(ghost_chip(drag, occurrence)) == drag.live_start,
        chip_end(ghost_chip(drag, occurrence)) == drag.live_end,
        ghost_chip(drag, occurrence).occurrence == occurrence,
        ghost_chip(drag, occurrence).all_day == drag.all_day,
{
    let s = drag.live_start as int;
    let e = drag.live_end as int;
    let first = s / 1440;
    let last = (e - 1) / 1440;
    assert(first * 1440 + s % 1440 == s);
    if e % 1440 == 0 {
        assert(last == e / 1440 - 1);
    } else {
        assert(last == e / 1440);
    }
}

/// An event that is grabbed and not moved stays where it is: a timed one that starts on a half hour,
/// grabbed anywhere, under a pointer that is where it was pressed.
pub proof fn lemma_grab_moves_nothing(press: ChipPress, chip: TimeChip, at: (usize, i64), columns: usize)
    requires
        press.mode == DragMode::Move,
        !chip.all_day,
        0 <= chip_start(chip) < chip_end(chip) <= columns * 1440 <= 0x1000_0000,
        chip_start(chip) % 30 == 0,
        at.0 < columns,
        0 <= at.1 <= 1440,
        chip_start(chip) <= at.0 * 1440 + at.1 <= columns * 1440,
    ensures
        drag_at(new_drag(press, chip, Some(at)), at, columns).live_start == chip_start(chip),
        drag_at(new_drag(press, chip, Some(at)), at, columns).live_end == chip_end(chip),
        new_drag(press, chip, Some(at)).original_start == chip_start(chip),
        new_drag(press, chip, Some(at)).original_end == chip_end(chip),
        new_drag(press, chip, Some(at)).chip == press.chip,
{
    let drag = new_drag(press, chip, Some(at));
    let pointer = at.0 * 1440 + at.1;
    assert(clamped(pointer, 0, columns * 1440) == pointer);
    assert(pointer - drag.grab_offset == chip_start(chip));
    assert(snapped(chip_start(chip)) == chip_start(chip));
}

/// A chip starts and ends at its minutes of its first and its last column.
pub proof fn lemma_chip_on_axis(chip: TimeChip)
    requires
        chip.span > 0,
    ensures
        chip_start(chip) == chip.column * 1440 + chip.start_minutes,
        chip.span == 1 ==> chip_end(chip) == chip.column * 1440 + chip.end_minutes,
        chip_end(chip) - chip_start(chip) == (chip.span - 1) * 1440 + chip.end_minutes - chip.start_minutes,
{
    let a = chip.column as int;
    let b = chip.span - 1;
    assert((a + b) * 1440 == a * 1440 + b * 1440) by (nonlinear_arith);
}

/// Dragging over empty slots selects all from where it was pressed to where it was let go, in either
/// direction.
pub proof fn lemma_drag_selects(from: Slot, to: Slot, other: Slot)
    requires
        from != to,
    ensures
        ({
            let pressed = GridPointer::fresh().after_press(None, Some(from));
            let moved = pressed.after_move(true, Seq::empty(), 0, None, None, Some(to), 7);
            let done = moved.after_release(Some(to));
            &&& pressed.selection matches Some(range) && (range.holds(other) <==> other == from)
            &&& done.selection matches Some(range) && range.holds(from) && range.holds(to) && (range.holds(other)
                <==> (from.le(other) && other.le(to)) || (to.le(other) && other.le(from)))
            &&& !done.drag_active
        }),
{
}

/// A dragged event follows the pointer: away from the ends of the grid, one that is moved starts within
/// a quarter of an hour of where it is held, and one that is resized ends within a quarter of an hour of
/// the pointer; one of whole days goes as many columns on as the pointer.
pub proof fn lemma_drag_follows(drag: TimeGridDrag, col: int, minutes: int, total: int)
    requires
        0 <= col * 1440 + minutes <= total,
        total % 30 == 0,
    ensures
        !drag.all_day && drag.mode == DragMode::Move && 15 <= col * 1440 + minutes - drag.grab_offset && col * 1440
            + minutes - drag.grab_offset + 15 <= total - drag.duration() ==> -15 <= col * 1440 + minutes - drag.grab_offset
            - drag.live(col, minutes, total).0 < 15,
        !drag.all_day && drag.mode == DragMode::ResizeEnd && col * 1440 + minutes >= drag.original_start + 45 ==> -15
            <= col * 1440 + minutes - drag.live(col, minutes, total).1 < 15,
        drag.all_day && 0 <= (col - drag.grab_offset as int / 1440) * 1440 <= total - drag.duration() ==> drag.live(
            col,
            minutes,
            total,
        ).0 == (col - drag.grab_offset as int / 1440) * 1440,
{
    let pointer = col * 1440 + minutes;
    lemma_nearest(pointer, 0, total);
    lemma_nearest(pointer - drag.grab_offset, 0, total);
    lemma_nearest(snapped(pointer), 0, total);
    if total - drag.duration() >= 0 {
        lemma_nearest(snapped(pointer - drag.grab_offset), 0, total - drag.duration());
    }
}

/// Letting go of a dragged event drops that event where it was dragged to, and letting go of one that was
/// only pressed opens it.
pub proof fn lemma_let_go(state: GridPointer, chips: Seq<TimeChip>, occurrences: int, slot: Option<Slot>)
    requires
        state.chip_press is Some || state.drag is Some,
    ensures
        state.chip_press is None && chips[(state.drag->0).chip as int].occurrence < occurrences
            ==> state.asked_by_release(chips, occurrences, slot) == (Release::DropEvent {
            occurrence: chips[(state.drag->0).chip as int].occurrence,
            drag: state.drag->0,
        }),
        state.chip_press is Some && chips[(state.chip_press->0).chip as int].occurrence < occurrences
            ==> state.asked_by_release(chips, occurrences, slot) == (Release::OpenEvent {
            occurrence: chips[(state.chip_press->0).chip as int].occurrence,
        }),
        state.chip_press is None ==> state.after_release(slot).drag is None,
        state.after_release(slot).chip_press is None,
        state.after_release(slot).selection == state.selection,
{
}

/// Where nothing is redrawn on a move, what is shown stays: no other slots are selected and no event is
/// dragged elsewhere.
pub proof fn lemma_redrawn_if_changed(
    state: GridPointer,
    far: bool,
    chips: Seq<TimeChip>,
    occurrences: int,
    at: Option<(usize, i64)>,
    pressed_at: Option<(usize, i64)>,
    slot: Option<Slot>,
    columns: usize,
)
    requires
        !state.redrawn_by_move(far, chips, occurrences, at, slot),
    ensures
        ({
            let after = state.after_move(far, chips, occurrences, at, pressed_at, slot, columns);
            after.selection == state.selection && after.drag == state.drag
        }),
{
}

/// A page of days shows the days one after the other, each headed by its name and number, marks today
/// and no other day, and starts with nothing selected or dragged.
pub proof fn lemma_page_of_days(
    p: TimePage,
    anchor: int,
    weekday: int,
    count: int,
    today: Date,
    occurrences: Seq<EventOccurrence>,
    i: int,
)
    requires
        shows_days(p, shown_days(anchor, false, weekday, count), today, occurrences),
        0 <= weekday < 7,
        0 <= i < count,
    ensures
        p.dates@.len() == count,
        p.dates@[i].number == week_first(anchor, weekday) + i,
        p.dates@[i].number as int % 7 == (weekday + i) % 7,
        p.heads@[i].text@ == weekday_label((weekday + i) % 7) + " "@ + decimal(
            civil(p.dates@[i].number as int).2 as nat,
        ),
        p.heads@[i].today <==> p.dates@[i].number == today.number,
        p.chips@ == grid_chips(occurrences, week_first(anchor, weekday), count),
        p.pointer.selection is None && p.pointer.drag is None && p.pointer.chip_press is None && !p.pointer.drag_active,
{
    let days = shown_days(anchor, false, weekday, count);
    let numbers = p.dates@.map_values(|d: Date| d.number as int);
    assert(numbers.len() == p.dates@.len());
    assert(numbers[i] == p.dates@[i].number);
    assert(days[i] == week_first(anchor, weekday) + i);
    assert(days[0] == week_first(anchor, weekday));
    assert(p.dates@[i].number as int % 7 == (weekday + i) % 7);
}

/// The days that an event is listed on, from one day to another: those of them that it covers.
pub proof fn lemma_listed_days(occ: EventOccurrence, from: int, to: int, day: int)
    ensures
        covered_days(occ, from, to).contains(day) <==> from <= day <= to && covers(occ, day),
        covered_days(occ, from, to).no_duplicates(),
{
    let days = covered_days(occ, from, to);
    if from <= day <= to && covers(occ, day) {
        let low = if occ.start.local.date.number < from {
            from
        } else {
            occ.start.local.date.number as int
        };
        assert(days[day - low] == day);
    }
}

/// A colour that is written with three digits is spelled out with six, and is still the same colour.
pub proof fn lemma_spelled_color(digits: Seq<char>)
    requires
        digits.len() == 3 || digits.len() == 6,
        all_hex(digits),
    ensures
        color_rgb(spelled_color("#"@ + digits)) == color_rgb("#"@ + digits),
        spelled_color("#"@ + digits).len() == 7,
{
    reveal_strlit("#");
    let c = "#"@ + digits;
    let p = |x: char| x == '#';
    assert(hex_digit(digits[0]));
    assert(digits[0] != '#');
    assert(c.drop_first() =~= digits);
    assert(strip_front(digits, p) == digits);
    assert(bare_color(c) == digits) by {
        assert(c[0] == '#');
        assert(strip_front(c, p) == strip_front(c.drop_first(), p));
    }
    if digits.len() == 3 {
        assert(hex_digit(digits[1]) && hex_digit(digits[2]));
        lemma_short_color(digits[0], digits[1], digits[2]);
        assert(c =~= seq!['#', digits[0], digits[1], digits[2]]);
    } else {
        assert(c =~= spelled_color(c));
    }
}

/// There is a rule for every colour.
pub proof fn lemma_rule_of_each_color(colors: Seq<Seq<char>>, i: int)
    requires
        0 <= i < colors.len(),
    ensures
        has_text(color_rules(colors), color_rule(colors[i])),
    decreases colors.len(),
{
    let all = color_rules(colors);
    let before = color_rules(colors.drop_last());
    let rule = color_rule(colors[i]);
    if i == colors.len() - 1 {
        assert(all.skip(before.len() as int) =~= rule);
        assert(rule.take(rule.len() as int) =~= rule);
        assert(has_prefix(all.skip(before.len() as int), rule));
    } else {
        lemma_rule_of_each_color(colors.drop_last(), i);
        let k = choose|k: int| 0 <= k <= before.len() && has_prefix(#[trigger] before.skip(k), rule);
        assert(all.skip(k).take(rule.len() as int) =~= before.skip(k).take(rule.len() as int));
        assert(has_prefix(all.skip(k), rule));
    }
}

} // verus!
