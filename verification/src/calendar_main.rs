//! The main panel of the calendar, whose views all show the time around one date, and the small
//! month beside it.

use crate::calendar_colors::CalendarColorMap;
use crate::calendar_months::{agenda_events, agenda_groups, bucket_by_date, by_day, cell_of, first_grid_day};
use crate::calendar_months::{first_of_month, grid_dates, group_views, month_cells, month_start, on_day};
use crate::calendar_months::{shown_days, shows_month, visible_events, week_first, week_start, DayCell, DayGroup};
use crate::calendar_months::{GRID_DAYS, MAX_VISIBLE_EVENTS_PER_DAY};
use crate::calendar_view::{column_header, header_of_column};
use crate::dates::{civil, formatted, shifted, Date, MAX_DAY, MIN_DAY};
use crate::grid_pointer::GridPointer;
use crate::model::EventOccurrence;
use crate::text::same;
use crate::time_grid::{compute_time_grid_chips, grid_chips, TimeChip};
use vstd::prelude::*;

verus! {

/// A view of the calendar.
#[derive(Clone, Copy, PartialEq, Eq, Structural, Debug)]
pub enum ViewKind {
    Day,
    WorkWeek,
    Week,
    Split,
    Month,
}

/// The name of a view.
pub open spec fn name_of_view(view: ViewKind) -> Seq<char> {
    match view {
        ViewKind::Day => "day"@,
        ViewKind::WorkWeek => "workweek"@,
        ViewKind::Week => "week"@,
        ViewKind::Split => "split"@,
        ViewKind::Month => "month"@,
    }
}

/// The view with a name, if there is one.
pub open spec fn view_named(name: Seq<char>) -> Option<ViewKind> {
    if name == "day"@ {
        Some(ViewKind::Day)
    } else if name == "workweek"@ {
        Some(ViewKind::WorkWeek)
    } else if name == "week"@ {
        Some(ViewKind::Week)
    } else if name == "split"@ {
        Some(ViewKind::Split)
    } else if name == "month"@ {
        Some(ViewKind::Month)
    } else {
        None
    }
}

fn find_view(name: &str) -> (r: Option<ViewKind>)
    ensures
        r == view_named(name@),
{
    if same(name, "day") {
        Some(ViewKind::Day)
    } else if same(name, "workweek") {
        Some(ViewKind::WorkWeek)
    } else if same(name, "week") {
        Some(ViewKind::Week)
    } else if same(name, "split") {
        Some(ViewKind::Split)
    } else if same(name, "month") {
        Some(ViewKind::Month)
    } else {
        None
    }
}

/// How many days a step is in a view that moves by days.
pub open spec fn step_days(view: ViewKind) -> Option<int> {
    match view {
        ViewKind::Day => Some(1),
        ViewKind::WorkWeek => Some(7),
        ViewKind::Week => Some(7),
        _ => None,
    }
}

/// The anchor after `by` steps: of a day, a week or a month. Steps of a month that would leave the
/// range of dates go nowhere.
pub open spec fn stepped(view: ViewKind, anchor: int, by: int) -> int {
    match step_days(view) {
        Some(days) => anchor + by * days,
        None => match shifted(anchor, by) {
            Some(n) => n,
            None => anchor,
        },
    }
}

/// As many steps back as ahead lead to the same day, where a step is a day or a week.
pub proof fn lemma_steps_back(view: ViewKind, anchor: int, by: int)
    requires
        step_days(view) is Some,
    ensures
        stepped(view, stepped(view, anchor, by), -by) == anchor,
{
    let days = step_days(view)->0;
    assert(anchor + by * days + (-by) * days == anchor) by (nonlinear_arith);
}

/// The weekday that a week view starts on, counted from Sunday as 0, and how many days it shows.
pub open spec fn week_shape(view: ViewKind) -> (int, int) {
    if view == ViewKind::WorkWeek {
        (1, 5)
    } else {
        (0, 7)
    }
}

/// The title above a view.
pub open spec fn title_of(view: ViewKind, anchor: int) -> Seq<char> {
    match view {
        ViewKind::Day => formatted(anchor, 0, "%A %d %B %Y"@),
        ViewKind::Split => "Split · "@ + formatted(anchor, 0, "%d %b %Y"@),
        ViewKind::Month => formatted(month_start(anchor), 0, "%B %Y"@),
        _ => {
            let (weekday, count) = week_shape(view);
            let start = week_first(anchor, weekday);
            let end = start + count - 1;
            formatted(
                start,
                0,
                if civil(start).0 == civil(end).0 {
                    "%d %b"@
                } else {
                    "%d %b %Y"@
                },
            ) + " – "@ + formatted(end, 0, "%d %b %Y"@)
        },
    }
}

/// The days of a week view are in the range of dates.
pub open spec fn shows_week(view: ViewKind, anchor: int) -> bool {
    let (weekday, count) = week_shape(view);
    MIN_DAY <= week_first(anchor, weekday) && week_first(anchor, weekday) + count - 1 <= MAX_DAY
}

/// All views around a day show days in the range of dates.
pub open spec fn displayable(anchor: int) -> bool {
    &&& MIN_DAY <= anchor <= MAX_DAY
    &&& shows_month(Date { number: anchor as i32 })
    &&& shows_week(ViewKind::WorkWeek, anchor)
    &&& shows_week(ViewKind::Week, anchor)
}

/// The main panel: which view is shown, the date that all views show the time around, and what they
/// show.
#[derive(Debug)]
pub struct CalendarMain {
    pub view: ViewKind,
    pub anchor: Date,
    pub occurrences: Vec<EventOccurrence>,
    pub colors: CalendarColorMap,
}

impl CalendarMain {
    /// All views can be shown.
    pub open spec fn valid(self) -> bool {
        displayable(self.anchor.number as int)
    }
}

/// The panel as it opens: the month of today, with nothing in it yet.
pub fn build_main(today: Date) -> (r: CalendarMain)
    requires
        displayable(today.number as int),
    ensures
        r.valid(),
        r.view == ViewKind::Month,
        r.anchor == today,
        r.occurrences@.len() == 0,
        r.colors.entries@.len() == 0,
{
    CalendarMain {
        view: ViewKind::Month,
        anchor: today,
        occurrences: Vec::new(),
        colors: CalendarColorMap { entries: Vec::new() },
    }
}

/// Shows the view with a name. Any other name changes nothing.
pub fn set_view(c: &mut CalendarMain, view: &str)
    ensures
        *final(c) == (CalendarMain {
            view: match view_named(view@) {
                Some(v) => v,
                None => old(c).view,
            },
            ..*old(c)
        }),
{
    if let Some(v) = find_view(view) {
        c.view = v;
    }
}

/// The name of the view that is shown.
pub fn active_view(c: &CalendarMain) -> (r: &'static str)
    ensures
        r@ == name_of_view(c.view),
{
    match c.view {
        ViewKind::Day => "day",
        ViewKind::WorkWeek => "workweek",
        ViewKind::Week => "week",
        ViewKind::Split => "split",
        ViewKind::Month => "month",
    }
}

/// The view that is shown has a name by which it can be shown.
pub proof fn lemma_views_named(view: ViewKind)
    ensures
        view_named(name_of_view(view)) == Some(view),
{
    reveal_strlit("day");
    reveal_strlit("workweek");
    reveal_strlit("week");
    reveal_strlit("split");
    reveal_strlit("month");
    assert("month"@.len() == 5 && "month"@[0] == 'm');
    assert("split"@.len() == 5 && "split"@[0] == 's');
    assert("week"@.len() == 4);
    assert("workweek"@.len() == 8);
    assert("day"@.len() == 3);
}

/// Shows the time around another date in every view.
pub fn set_anchor(c: &mut CalendarMain, day: Date)
    requires
        displayable(day.number as int),
    ensures
        final(c).valid(),
        *final(c) == (CalendarMain { anchor: day, ..*old(c) }),
{
    c.anchor = day;
}

/// The date that every view shows the time around.
pub fn anchor(c: &CalendarMain) -> (r: Date)
    ensures
        r == c.anchor,
{
    c.anchor
}

/// Shows other occurrences.
pub fn set_occurrences(c: &mut CalendarMain, occurrences: Vec<EventOccurrence>)
    ensures
        *final(c) == (CalendarMain { occurrences, ..*old(c) }),
{
    c.occurrences = occurrences;
}

/// Shows calendars in other colours.
pub fn set_calendar_colors(c: &mut CalendarMain, colors: CalendarColorMap)
    ensures
        *final(c) == (CalendarMain { colors, ..*old(c) }),
{
    c.colors = colors;
}

/// Moves by some steps of the view that is shown.
pub fn step(c: &mut CalendarMain, by: i64)
    requires
        old(c).valid(),
        displayable(stepped(old(c).view, old(c).anchor.number as int, by as int)),
    ensures
        final(c).valid(),
        final(c).anchor.number == stepped(old(c).view, old(c).anchor.number as int, by as int),
        *final(c) == (CalendarMain { anchor: final(c).anchor, ..*old(c) }),
{
    let anchor = c.anchor;
    let moved = match c.view {
        ViewKind::Day => anchor.plus_days(by),
        ViewKind::WorkWeek => anchor.plus_days(by * 7),
        ViewKind::Week => anchor.plus_days(by * 7),
        _ => match anchor.checked_shift_months(by) {
            Some(d) => d,
            None => anchor,
        },
    };
    set_anchor(c, moved);
}

/// Shows the time around today in every view.
pub fn go_today(c: &mut CalendarMain, today: Date)
    requires
        displayable(today.number as int),
    ensures
        final(c).valid(),
        *final(c) == (CalendarMain { anchor: today, ..*old(c) }),
{
    set_anchor(c, today);
}

/// The title above the view that is shown.
pub fn header_text(c: &CalendarMain) -> (r: String)
    requires
        c.valid(),
    ensures
        r@ == title_of(c.view, c.anchor.number as int),
{
    match c.view {
        ViewKind::Day => c.anchor.format("%A %d %B %Y"),
        ViewKind::Split => {
            let mut out = "Split · ".to_owned();
            out.push_str(&c.anchor.format("%d %b %Y"));
            out
        },
        ViewKind::Month => first_of_month(c.anchor).format("%B %Y"),
        _ => {
            let (weekday, count): (u32, i64) = if c.view == ViewKind::WorkWeek {
                (1, 5)
            } else {
                (0, 7)
            };
            let start = week_start(c.anchor, weekday);
            let end = start.plus_days(count - 1);
            let mut out = if start.year() == end.year() {
                start.format("%d %b")
            } else {
                start.format("%d %b %Y")
            };
            out.push_str(" – ");
            out.push_str(&end.format("%d %b %Y"));
            out
        },
    }
}

/// A day of the month view, with the events that are shown on it and how many more there are.
#[derive(Debug)]
pub struct MonthDay<'a> {
    pub cell: DayCell,
    pub events: Vec<&'a EventOccurrence>,
    pub more: usize,
}

/// How many of a day's events are shown in the month view.
pub open spec fn shown_count(events: nat) -> nat {
    if events < MAX_VISIBLE_EVENTS_PER_DAY {
        events
    } else {
        MAX_VISIBLE_EVENTS_PER_DAY as nat
    }
}

/// A day of the month view shows the first events of the day, and says how many more there are.
pub open spec fn shows_day<'a>(d: MonthDay<'a>, cell: DayCell, events: Seq<EventOccurrence>) -> bool {
    &&& d.cell == cell
    &&& d.events@.unref() == events.take(shown_count(events.len()) as int)
    &&& d.more == events.len() - shown_count(events.len())
}

fn first_events<'a>(events: &Vec<&'a EventOccurrence>, n: usize) -> (r: Vec<&'a EventOccurrence>)
    requires
        n <= events@.len(),
    ensures
        r@.unref() == events@.unref().take(n as int),
{
    let mut out: Vec<&'a EventOccurrence> = Vec::new();
    let mut i: usize = 0;
    assert(out@.unref() =~= events@.unref().take(0));
    while i < n
        invariant
            i <= n <= events@.len(),
            out@.unref() == events@.unref().take(i as int),
        decreases n - i,
    {
        let ghost before = out@.unref();
        out.push(events[i]);
        assert(out@.unref() =~= before.push(*events@[i as int]));
        assert(events@.unref().take(i + 1) =~= before.push(*events@[i as int]));
        i += 1;
    }
    out
}

/// The month view of a date's month. The selected date, if any, is marked.
pub fn month_page<'a>(
    month: Date,
    today: Date,
    selected: &Vec<Date>,
    occurrences: &'a Vec<EventOccurrence>,
) -> (r: Vec<MonthDay<'a>>)
    requires
        shows_month(month),
    ensures
        r@.len() == GRID_DAYS,
        forall|i: int|
            0 <= i < GRID_DAYS ==> {
                let day = week_first(month_start(month.number as int), 0) + i;
                shows_day(
                    #[trigger] r@[i],
                    cell_of(day, month.number as int, today, selected@),
                    occurrences@.filter(on_day(day)),
                )
            },
{
    let start = first_grid_day(first_of_month(month));
    let cells = month_cells(month, today, selected);
    let buckets = bucket_by_date(occurrences, start, GRID_DAYS);
    let mut out: Vec<MonthDay<'a>> = Vec::new();
    let mut i: usize = 0;
    while i < GRID_DAYS
        invariant
            i <= GRID_DAYS,
            start.number == week_first(month_start(month.number as int), 0),
            cells@.len() == GRID_DAYS,
            buckets@.len() == GRID_DAYS,
            forall|k: int|
                0 <= k < GRID_DAYS ==> #[trigger] cells@[k] == cell_of(
                    start.number + k,
                    month.number as int,
                    today,
                    selected@,
                ),
            forall|k: int|
                0 <= k < GRID_DAYS ==> (#[trigger] buckets@[k])@.unref() == occurrences@.filter(
                    on_day(start.number + k),
                ),
            out@.len() == i,
            forall|k: int|
                0 <= k < i ==> shows_day(
                    #[trigger] out@[k],
                    cell_of(start.number + k, month.number as int, today, selected@),
                    occurrences@.filter(on_day(start.number + k)),
                ),
        decreases GRID_DAYS - i,
    {
        let ghost events = occurrences@.filter(on_day(start.number + i as int));
        assert(buckets@[i as int]@.unref() == events);
        assert(events.len() == buckets@[i as int]@.len());
        let (shown, more) = visible_events(buckets[i].len());
        let day = MonthDay { cell: cells[i], events: first_events(&buckets[i], shown), more };
        assert(shows_day(day, cell_of(start.number + i as int, month.number as int, today, selected@), events));
        out.push(day);
        i += 1;
    }
    out
}

/// The head of a day's column.
#[derive(Debug)]
pub struct ColumnHead {
    pub text: String,
    pub today: bool,
}

/// A day, week or work week view.
#[derive(Debug)]
pub struct TimePage {
    pub dates: Vec<Date>,
    pub heads: Vec<ColumnHead>,
    pub chips: Vec<TimeChip>,
    pub pointer: GridPointer,
}

/// What a day, week or work week view shows: consecutive days, the chips of the occurrences on them,
/// and nothing selected or dragged.
pub open spec fn shows_days(p: TimePage, days: Seq<int>, today: Date, occurrences: Seq<EventOccurrence>) -> bool {
    &&& p.dates@.map_values(|d: Date| d.number as int) == days
    &&& p.heads@.len() == days.len()
    &&& forall|i: int|
        0 <= i < days.len() ==> (#[trigger] p.heads@[i]).text@ == header_of_column(p.dates@[i])
            && p.heads@[i].today == (days[i] == today.number)
    &&& p.chips@ == grid_chips(occurrences, days[0], days.len() as int)
    &&& p.pointer == GridPointer::fresh()
}

/// A day, week or work week view: the anchor alone, or `count` days of its week from a weekday on,
/// counted from Sunday as 0.
pub fn time_page(
    anchor: Date,
    day_view: bool,
    first: u32,
    count: usize,
    today: Date,
    occurrences: &Vec<EventOccurrence>,
) -> (r: TimePage)
    requires
        anchor.valid(),
        first < 7,
        count > 0,
        !day_view ==> week_first(anchor.number as int, first as int) >= MIN_DAY && week_first(
            anchor.number as int,
            first as int,
        ) + count <= MAX_DAY + 1,
    ensures
        shows_days(
            r,
            shown_days(anchor.number as int, day_view, first as int, count as int),
            today,
            occurrences@,
        ),
{
    let dates = grid_dates(anchor, day_view, first, count);
    let ghost days = shown_days(anchor.number as int, day_view, first as int, count as int);
    let ghost f = |d: Date| d.number as int;
    assert(dates@.map_values(f) == days);
    assert(dates@.len() == days.len());
    let chips = compute_time_grid_chips(&dates, occurrences);
    let mut heads: Vec<ColumnHead> = Vec::new();
    let mut i: usize = 0;
    while i < dates.len()
        invariant
            i <= dates.len() == days.len(),
            f == |d: Date| d.number as int,
            dates@.map_values(f) == days,
            forall|k: int| 0 <= k < days.len() ==> MIN_DAY <= #[trigger] days[k] <= MAX_DAY,
            heads@.len() == i,
            forall|k: int|
                0 <= k < i ==> (#[trigger] heads@[k]).text@ == header_of_column(dates@[k])
                    && heads@[k].today == (days[k] == today.number),
        decreases dates.len() - i,
    {
        let date = dates[i];
        assert(days[i as int] == date.number);
        heads.push(ColumnHead { text: column_header(date), today: date.number == today.number });
        i += 1;
    }
    assert(days[0] == dates@[0].number);
    TimePage { dates, heads, chips, pointer: GridPointer::new() }
}

/// All views of the panel. The agenda belongs to the split view, beside its month.
#[derive(Debug)]
pub struct CalendarPages<'a> {
    pub header: String,
    pub month: Vec<MonthDay<'a>>,
    pub workweek: TimePage,
    pub week: TimePage,
    pub day: TimePage,
    pub agenda: Vec<DayGroup<'a>>,
}

/// Draws all views anew, around the same date and with the same occurrences.
pub fn refresh<'a>(c: &'a CalendarMain, today: Date, selected: &Vec<Date>) -> (r: CalendarPages<'a>)
    requires
        c.valid(),
    ensures
        r.header@ == title_of(c.view, c.anchor.number as int),
        r.month@.len() == GRID_DAYS,
        forall|i: int|
            0 <= i < GRID_DAYS ==> {
                let day = week_first(month_start(c.anchor.number as int), 0) + i;
                shows_day(
                    #[trigger] r.month@[i],
                    cell_of(day, c.anchor.number as int, today, selected@),
                    c.occurrences@.filter(on_day(day)),
                )
            },
        shows_days(
            r.workweek,
            shown_days(c.anchor.number as int, false, 1, 5),
            today,
            c.occurrences@,
        ),
        shows_days(r.week, shown_days(c.anchor.number as int, false, 0, 7), today, c.occurrences@),
        shows_days(r.day, shown_days(c.anchor.number as int, true, 1, 1), today, c.occurrences@),
        group_views(r.agenda@) == by_day(agenda_events(c.occurrences@, c.anchor.number as int)),
{
    CalendarPages {
        header: header_text(c),
        month: month_page(c.anchor, today, selected, &c.occurrences),
        workweek: time_page(c.anchor, false, 1, 5, today, &c.occurrences),
        week: time_page(c.anchor, false, 0, 7, today, &c.occurrences),
        day: time_page(c.anchor, true, 1, 1, today, &c.occurrences),
        agenda: agenda_groups(&c.occurrences, c.anchor),
    }
}

/// The small month beside the panel: the first day of the month it shows, and the days with events.
#[derive(Debug)]
pub struct MiniCalendar {
    pub month: Date,
    pub event_days: Vec<Date>,
}

impl MiniCalendar {
    /// The month is given by its first day and can be shown.
    pub open spec fn valid(self) -> bool {
        &&& shows_month(self.month)
        &&& month_start(self.month.number as int) == self.month.number
    }

    /// The number of the day in a cell.
    pub open spec fn day_of_cell(self, index: int) -> int {
        week_first(self.month.number as int, 0) + index
    }
}

fn first_day(month: Date) -> (r: Date)
    requires
        shows_month(month),
    ensures
        r.number == month_start(month.number as int),
        month_start(r.number as int) == r.number,
        shows_month(r),
{
    first_of_month(month)
}

/// The small month as it opens: that of today, with no events.
pub fn build_mini(today: Date) -> (r: MiniCalendar)
    requires
        shows_month(today),
    ensures
        r.valid(),
        r.month.number == month_start(today.number as int),
        r.event_days@.len() == 0,
{
    MiniCalendar { month: first_day(today), event_days: Vec::new() }
}

/// Shows the month of a date and marks the days with events.
pub fn set_mini_month(mc: &mut MiniCalendar, month: Date, event_days: Vec<Date>)
    requires
        shows_month(month),
    ensures
        final(mc).valid(),
        final(mc).month.number == month_start(month.number as int),
        final(mc).event_days == event_days,
{
    mc.month = first_day(month);
    mc.event_days = event_days;
}

/// Marks other days with events, in the same month.
pub fn set_mini_event_days(mc: &mut MiniCalendar, event_days: Vec<Date>)
    ensures
        *final(mc) == (MiniCalendar { event_days, ..*old(mc) }),
{
    mc.event_days = event_days;
}

/// The first day of the month that is shown.
pub fn mini_month(mc: &MiniCalendar) -> (r: Date)
    ensures
        r == mc.month,
{
    mc.month
}

/// The first day of the month before or after a month; the same where there is none.
pub open spec fn turned(month: int, ahead: bool) -> int {
    match shifted(
        month,
        if ahead {
            1
        } else {
            -1
        },
    ) {
        Some(n) => month_start(n),
        None => month,
    }
}

/// Turns to the month before or after. The marked days stay.
pub fn turn_mini(mc: &mut MiniCalendar, ahead: bool)
    requires
        old(mc).valid(),
        shows_month(Date { number: turned(old(mc).month.number as int, ahead) as i32 }),
    ensures
        final(mc).valid(),
        final(mc).month.number == turned(old(mc).month.number as int, ahead),
        final(mc).event_days == old(mc).event_days,
{
    let months: i64 = if ahead {
        1
    } else {
        -1
    };
    if let Some(next) = mc.month.checked_shift_months(months) {
        mc.month = first_of_month(next);
    }
}

/// The date of a day that is clicked.
pub fn mini_day(mc: &MiniCalendar, index: usize) -> (r: Date)
    requires
        mc.valid(),
        index < GRID_DAYS,
    ensures
        r.number == mc.day_of_cell(index as int),
{
    first_grid_day(mc.month).plus_days(index as i64)
}

/// The title and the days of the small month.
pub fn mini_page(mc: &MiniCalendar, today: Date) -> (r: (String, Vec<DayCell>))
    requires
        mc.valid(),
    ensures
        r.0@ == formatted(mc.month.number as int, 0, "%B %Y"@),
        r.1@ == Seq::new(
            GRID_DAYS as nat,
            |i: int| cell_of(mc.day_of_cell(i), mc.month.number as int, today, mc.event_days@),
        ),
{
    let cells = month_cells(mc.month, today, &mc.event_days);
    assert(cells@ =~= Seq::new(
        GRID_DAYS as nat,
        |i: int| cell_of(mc.day_of_cell(i), mc.month.number as int, today, mc.event_days@),
    ));
    (mc.month.format("%B %Y"), cells)
}

/// A date that is clicked in the small month is the one that its cell shows.
pub proof fn lemma_mini_click_is_cell(mc: MiniCalendar, today: Date, index: int)
    requires
        mc.valid(),
        0 <= index < GRID_DAYS,
    ensures
        cell_of(mc.day_of_cell(index), mc.month.number as int, today, mc.event_days@).date.number
            == mc.day_of_cell(index),
{
}

} // verus!
