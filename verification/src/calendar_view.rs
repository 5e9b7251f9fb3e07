//! The calendar's labels, chips and checklist.

use crate::calendar_colors::{all_hex, foreground, hex_chars, readable_foreground};
use crate::calendar_colors::{CalendarColorMap, CalendarInfo, DEFAULT_CHECK_COLOR};
use crate::dates::{Date, DateTime};
use crate::grid_pointer::SlotRange;
use crate::model::{text_of, EventOccurrence};
use crate::text::{chars_of, decimal, decimal_text, same, strip_front, trim_start_matches};
use crate::time_grid::TimeChip;
use vstd::prelude::*;

verus! {

/// The weekdays from Sunday on.
pub open spec fn weekday_label(weekday: int) -> Seq<char> {
    if weekday == 0 {
        "Sun"@
    } else if weekday == 1 {
        "Mon"@
    } else if weekday == 2 {
        "Tue"@
    } else if weekday == 3 {
        "Wed"@
    } else if weekday == 4 {
        "Thu"@
    } else if weekday == 5 {
        "Fri"@
    } else {
        "Sat"@
    }
}

/// The header of a column: the weekday and the day of the month.
pub open spec fn header_of_column(date: Date) -> Seq<char> {
    weekday_label(date.spec_weekday()) + " "@ + decimal(date.spec_day() as nat)
}

/// The header of a column: the weekday and the day of the month.
pub fn column_header(date: Date) -> (r: String)
    requires
        date.valid(),
    ensures
        r@ == header_of_column(date),
{
    let w: i64 = date.days_from_sunday();
    let name: &'static str = if w == 0 {
        "Sun"
    } else if w == 1 {
        "Mon"
    } else if w == 2 {
        "Tue"
    } else if w == 3 {
        "Wed"
    } else if w == 4 {
        "Thu"
    } else if w == 5 {
        "Fri"
    } else {
        "Sat"
    };
    let mut out = name.to_owned();
    out.push_str(" ");
    out.push_str(&decimal_text(date.day() as u64));
    out
}

/// An hour on the face of a clock: 12 for midnight and noon.
pub open spec fn clock_hour(h: int) -> int {
    if h % 12 == 0 {
        12
    } else {
        h % 12
    }
}

/// An hour on the face of a clock: 12 for midnight and noon.
pub fn hour_12(h: u32) -> (r: u32)
    ensures
        r == clock_hour(h as int),
        1 <= r <= 12,
{
    let h: u32 = h % 12;
    if h == 0 {
        12
    } else {
        h
    }
}

/// Before or after noon.
pub open spec fn half_of_day(h: int) -> Seq<char> {
    if h < 12 {
        "am"@
    } else {
        "pm"@
    }
}

/// Before or after noon.
pub fn meridiem(h: u32) -> (r: &'static str)
    ensures
        r@ == half_of_day(h as int),
{
    if h < 12 {
        "am"
    } else {
        "pm"
    }
}

/// The label of an hour beside a grid. Hours are counted in 32 bits and start again after a day.
pub fn hour_gutter_text(h: usize) -> (r: String)
    ensures
        ({
            let hour = h as int % 0x1_0000_0000 % 24;
            r@ == decimal(clock_hour(hour) as nat) + half_of_day(hour)
        }),
{
    let h: u32 = ((h as u64 % 0x1_0000_0000) % 24) as u32;
    let mut out = decimal_text(hour_12(h) as u64);
    out.push_str(meridiem(h));
    out
}

/// A number with two digits.
pub open spec fn two_digits(n: nat) -> Seq<char> {
    if n < 10 {
        "0"@ + decimal(n)
    } else {
        decimal(n)
    }
}

/// A time of day with hour and minute.
pub open spec fn time_text(t: DateTime) -> Seq<char> {
    let h = t.secs as int / 3600;
    decimal(clock_hour(h) as nat) + ":"@ + two_digits((t.secs as int / 60 % 60) as nat) + half_of_day(h)
}

/// A time of day with hour and minute.
pub fn format_event_time(local: DateTime) -> (r: String)
    ensures
        r@ == time_text(local),
{
    let h: u32 = local.hour();
    let m: u32 = local.minute();
    let mut out = decimal_text(hour_12(h) as u64);
    out.push_str(":");
    let ghost before = out@;
    if m < 10 {
        out.push_str("0");
    }
    out.push_str(&decimal_text(m as u64));
    assert(out@ =~= before + two_digits((local.secs as int / 60 % 60) as nat));
    out.push_str(meridiem(h));
    out
}

/// What an event is called.
pub open spec fn title_or_untitled(summary: Option<String>) -> Seq<char> {
    match summary {
        Some(s) => s@,
        None => "(untitled)"@,
    }
}

fn summary_of(occ: &EventOccurrence) -> (r: String)
    ensures
        r@ == title_or_untitled(occ.summary),
{
    match &occ.summary {
        Some(s) => s.clone(),
        None => "(untitled)".to_owned(),
    }
}

/// The label of an event: when it starts and what it is called; without the time if it takes the
/// whole day or there is no room for it.
pub open spec fn label_text(occ: EventOccurrence, with_time: bool) -> Seq<char> {
    if with_time {
        time_text(occ.start.local) + " "@ + title_or_untitled(occ.summary)
    } else {
        title_or_untitled(occ.summary)
    }
}

fn label_of_event(occ: &EventOccurrence, with_time: bool) -> (r: String)
    ensures
        r@ == label_text(*occ, with_time),
{
    if with_time {
        let mut out = format_event_time(occ.start.local);
        out.push_str(" ");
        out.push_str(&summary_of(occ));
        out
    } else {
        summary_of(occ)
    }
}

/// The label of an event in the month view.
pub fn event_label(occ: &EventOccurrence) -> (r: String)
    ensures
        r@ == label_text(*occ, !occ.all_day),
{
    label_of_event(occ, !occ.all_day)
}

/// The label of a chip. The time needs a chip of some height.
pub fn chip_text(occ: &EventOccurrence, chip: &TimeChip, tall: bool) -> (r: String)
    ensures
        r@ == label_text(*occ, !chip.all_day && tall),
{
    label_of_event(occ, !chip.all_day && tall)
}

/// The whole of an event in one line: from when to when, and what it is called.
pub open spec fn span_text(occ: EventOccurrence, all_day: bool) -> Seq<char> {
    if all_day {
        title_or_untitled(occ.summary)
    } else {
        time_text(occ.start.local) + " – "@ + time_text(occ.end.local) + "  "@ + title_or_untitled(occ.summary)
    }
}

fn span_of(occ: &EventOccurrence, all_day: bool) -> (r: String)
    ensures
        r@ == span_text(*occ, all_day),
{
    if all_day {
        return summary_of(occ);
    }
    let mut out = format_event_time(occ.start.local);
    out.push_str(" – ");
    out.push_str(&format_event_time(occ.end.local));
    out.push_str("  ");
    out.push_str(&summary_of(occ));
    out
}

/// What is said of a chip below the pointer.
pub fn chip_tooltip(occ: &EventOccurrence, chip: &TimeChip) -> (r: String)
    ensures
        r@ == span_text(*occ, chip.all_day),
{
    span_of(occ, chip.all_day)
}

/// The time and the line of an event in the agenda.
pub fn agenda_row(occ: &EventOccurrence) -> (r: (String, String))
    ensures
        r.0@ == (if occ.all_day {
            "All day"@
        } else {
            time_text(occ.start.local)
        }),
        r.1@ == span_text(*occ, occ.all_day),
{
    let time = if occ.all_day {
        "All day".to_owned()
    } else {
        format_event_time(occ.start.local)
    };
    (time, span_of(occ, occ.all_day))
}

/// What is said of events that there is no room for.
pub fn more_label(count: usize) -> (r: String)
    ensures
        r@ == "+"@ + decimal(count as nat) + " more"@,
{
    let mut out = "+".to_owned();
    out.push_str(&decimal_text(count as u64));
    out.push_str(" more");
    out
}

/// A colour without the `#` before it.
pub open spec fn bare_color(color: Seq<char>) -> Seq<char> {
    strip_front(color, |c: char| c == '#')
}

/// The style class of events in a colour.
pub open spec fn color_class(color: Seq<char>) -> Seq<char> {
    "calendar-event-"@ + bare_color(color)
}

/// The style class of an event: that of its calendar's colour, if it has one.
pub fn event_color_class(calendar_id: &str, colors: &CalendarColorMap) -> (r: Option<String>)
    ensures
        text_of(r) == (if colors@.contains_key(calendar_id@) {
            Some(color_class(colors@[calendar_id@]))
        } else {
            None
        }),
{
    match colors.get(calendar_id) {
        Some(color) => {
            let mut out = "calendar-event-".to_owned();
            out.push_str(trim_start_matches(color, '#'));
            Some(out)
        },
        None => None,
    }
}

/// The style rule for events in a colour.
pub open spec fn color_rule(color: Seq<char>) -> Seq<char> {
    "."@ + color_class(color) + " { background-color: "@ + color + "; color: "@ + foreground(color)
        + "; border-radius: 4px; padding: 1px 4px; }\n"@
}

/// The style rule for events in a colour.
pub fn calendar_color_css(color: &str) -> (r: String)
    ensures
        r@ == color_rule(color@),
{
    let mut class = "calendar-event-".to_owned();
    class.push_str(trim_start_matches(color, '#'));
    let mut out = ".".to_owned();
    out.push_str(&class);
    out.push_str(" { background-color: ");
    out.push_str(color);
    out.push_str("; color: ");
    out.push_str(readable_foreground(color));
    out.push_str("; border-radius: 4px; padding: 1px 4px; }\n");
    out
}

/// A colour written so that it can be read by the drawing library: three digits are doubled.
pub open spec fn spelled_color(color: Seq<char>) -> Seq<char> {
    let body = bare_color(color);
    if body.len() == 3 && all_hex(body) {
        seq!['#', body[0], body[0], body[1], body[1], body[2], body[2]]
    } else {
        "#"@ + body
    }
}

/// A colour written so that it can be read by the drawing library.
pub fn css_color(color: &str) -> (r: String)
    ensures
        r@ == spelled_color(color@),
{
    let body = trim_start_matches(color, '#');
    let chars = chars_of(body);
    proof {
        reveal_strlit("#");
    }
    let mut out = "#".to_owned();
    if chars.len() == 3 && hex_chars(&chars) {
        out.push(chars[0]);
        out.push(chars[0]);
        out.push(chars[1]);
        out.push(chars[1]);
        out.push(chars[2]);
        out.push(chars[2]);
        assert(out@ =~= spelled_color(color@));
    } else {
        out.push_str(body);
    }
    out
}

/// How an account's calendars stand with their server.
#[derive(Debug)]
pub enum CalendarConnectionState {
    Connecting,
    Disconnected,
    Idle,
    Busy,
    Error { message: String, retryable: bool },
}

/// What is said of an account that lists no calendars.
pub fn calendar_account_status_text(state: &CalendarConnectionState, has_calendars: bool) -> (r: Option<
    String,
>)
    ensures
        text_of(r) == (if has_calendars {
            None
        } else {
            Some(
                match *state {
                    CalendarConnectionState::Connecting => "Connecting…"@,
                    CalendarConnectionState::Disconnected => "Disconnected"@,
                    CalendarConnectionState::Idle => "No calendars found"@,
                    CalendarConnectionState::Busy => "No calendars found"@,
                    CalendarConnectionState::Error { message, .. } => message@,
                },
            )
        }),
{
    if has_calendars {
        return None;
    }
    let text = match state {
        CalendarConnectionState::Connecting => "Connecting…".to_owned(),
        CalendarConnectionState::Disconnected => "Disconnected".to_owned(),
        CalendarConnectionState::Idle => "No calendars found".to_owned(),
        CalendarConnectionState::Busy => "No calendars found".to_owned(),
        CalendarConnectionState::Error { message, .. } => message.clone(),
    };
    Some(text)
}

/// The calendars of an account, and what is said of it where it has none.
#[derive(Debug)]
pub struct CalendarAccountGroup {
    pub display_name: String,
    pub calendars: Vec<CalendarInfo>,
    pub status: Option<String>,
}

/// A row of the list of calendars.
#[derive(Debug)]
pub enum ChecklistRow {
    /// Nothing can be listed.
    Placeholder,
    /// An account.
    Header(String),
    /// What is said of the account above.
    Status(String),
    /// A calendar: its id, name and colour, and whether it is shown.
    Calendar { id: String, name: String, color: String, checked: bool },
}

/// A row of the list of calendars, as text.
pub enum CheckView {
    Placeholder,
    Header(Seq<char>),
    Status(Seq<char>),
    Calendar(Seq<char>, Seq<char>, Seq<char>, bool),
}

impl View for ChecklistRow {
    type V = CheckView;

    open spec fn view(&self) -> CheckView {
        match self {
            ChecklistRow::Placeholder => CheckView::Placeholder,
            ChecklistRow::Header(s) => CheckView::Header(s@),
            ChecklistRow::Status(s) => CheckView::Status(s@),
            ChecklistRow::Calendar { id, name, color, checked } => CheckView::Calendar(
                id@,
                name@,
                color@,
                *checked,
            ),
        }
    }
}

/// Rows as text.
pub open spec fn check_views(v: Seq<ChecklistRow>) -> Seq<CheckView> {
    v.map_values(|r: ChecklistRow| r@)
}

/// The colour that a calendar is shown in.
pub open spec fn shown_color(colors: Map<Seq<char>, Seq<char>>, id: Seq<char>) -> Seq<char> {
    if colors.contains_key(id) {
        colors[id]
    } else {
        DEFAULT_CHECK_COLOR@
    }
}

/// The colour that a calendar is shown in.
pub fn color_of_calendar(colors: &CalendarColorMap, id: &str) -> (r: String)
    ensures
        r@ == shown_color(colors@, id@),
{
    match colors.get(id) {
        Some(c) => c.to_owned(),
        None => DEFAULT_CHECK_COLOR.to_owned(),
    }
}

/// One of the ids is this one.
pub open spec fn is_listed(ids: Seq<String>, id: Seq<char>) -> bool {
    exists|i: int| 0 <= i < ids.len() && (#[trigger] ids[i])@ == id
}

fn listed_id(ids: &Vec<String>, id: &str) -> (r: bool)
    ensures
        r == is_listed(ids@, id@),
{
    let mut i: usize = 0;
    while i < ids.len()
        invariant
            i <= ids.len(),
            forall|k: int| 0 <= k < i ==> (#[trigger] ids@[k])@ != id@,
        decreases ids.len() - i,
    {
        if same(&ids[i], id) {
            assert(ids@[i as int]@ == id@);
            return true;
        }
        i += 1;
    }
    false
}

/// The row of a calendar.
pub open spec fn calendar_row(
    c: CalendarInfo,
    checked: Seq<String>,
    colors: Map<Seq<char>, Seq<char>>,
) -> CheckView {
    CheckView::Calendar(c.id@, c.display_name@, shown_color(colors, c.id@), is_listed(checked, c.id@))
}

/// The rows of an account: its name, and its calendars or what is said where it has none.
pub open spec fn group_rows(
    group: CalendarAccountGroup,
    checked: Seq<String>,
    colors: Map<Seq<char>, Seq<char>>,
) -> Seq<CheckView> {
    seq![CheckView::Header(group.display_name@)] + (if group.calendars@.len() > 0 {
        group.calendars@.map_values(|c: CalendarInfo| calendar_row(c, checked, colors))
    } else {
        match group.status {
            Some(s) => seq![CheckView::Status(s@)],
            None => Seq::empty(),
        }
    })
}

/// The rows of the first `n` accounts.
pub open spec fn rows_upto(
    groups: Seq<CalendarAccountGroup>,
    checked: Seq<String>,
    colors: Map<Seq<char>, Seq<char>>,
    n: int,
) -> Seq<CheckView>
    decreases n,
{
    if n <= 0 {
        Seq::empty()
    } else {
        rows_upto(groups, checked, colors, n - 1) + group_rows(groups[n - 1], checked, colors)
    }
}

/// The rows of the list of calendars.
pub fn rebuild_calendar_checklist(
    groups: &Vec<CalendarAccountGroup>,
    checked: &Vec<String>,
    colors: &CalendarColorMap,
) -> (r: Vec<ChecklistRow>)
    ensures
        check_views(r@) == (if groups@.len() == 0 {
            seq![CheckView::Placeholder]
        } else {
            rows_upto(groups@, checked@, colors@, groups@.len() as int)
        }),
{
    let mut out: Vec<ChecklistRow> = Vec::new();
    if groups.is_empty() {
        out.push(ChecklistRow::Placeholder);
        assert(check_views(out@) =~= seq![CheckView::Placeholder]);
        return out;
    }
    let mut i: usize = 0;
    assert(check_views(out@) =~= rows_upto(groups@, checked@, colors@, 0));
    while i < groups.len()
        invariant
            i <= groups.len(),
            check_views(out@) == rows_upto(groups@, checked@, colors@, i as int),
        decreases groups.len() - i,
    {
        let group = &groups[i];
        let ghost start = check_views(out@);
        out.push(ChecklistRow::Header(group.display_name.clone()));
        let ghost head = check_views(out@);
        assert(head =~= start.push(CheckView::Header(group.display_name@)));
        if group.calendars.is_empty() {
            if let Some(status) = &group.status {
                out.push(ChecklistRow::Status(status.clone()));
                assert(check_views(out@) =~= head.push(CheckView::Status(status@)));
            }
        } else {
            let ghost rows = group.calendars@.map_values(
                |c: CalendarInfo| calendar_row(c, checked@, colors@),
            );
            let mut k: usize = 0;
            assert(check_views(out@) =~= head + rows.take(0));
            while k < group.calendars.len()
                invariant
                    k <= group.calendars.len(),
                    rows == group.calendars@.map_values(
                        |c: CalendarInfo| calendar_row(c, checked@, colors@),
                    ),
                    check_views(out@) == head + rows.take(k as int),
                decreases group.calendars.len() - k,
            {
                let c = &group.calendars[k];
                let ghost before = check_views(out@);
                let row = ChecklistRow::Calendar {
                    id: c.id.clone(),
                    name: c.display_name.clone(),
                    color: color_of_calendar(colors, &c.id),
                    checked: listed_id(checked, &c.id),
                };
                assert(row@ == rows[k as int]);
                out.push(row);
                assert(check_views(out@) =~= before.push(row@));
                assert(check_views(out@) =~= head + rows.take(k + 1));
                k += 1;
            }
            assert(rows.take(k as int) =~= rows);
        }
        assert(check_views(out@) =~= start + group_rows(groups@[i as int], checked@, colors@));
        i += 1;
    }
    out
}

/// The style rules for the colours of calendars, one after the other.
pub open spec fn color_rules(colors: Seq<Seq<char>>) -> Seq<char>
    decreases colors.len(),
{
    if colors.len() == 0 {
        Seq::empty()
    } else {
        color_rules(colors.drop_last()) + color_rule(colors.last())
    }
}

/// The style rules for the colours of calendars, one after the other.
pub fn checklist_css(colors: &Vec<String>) -> (r: String)
    ensures
        r@ == color_rules(colors@.map_values(|s: String| s@)),
{
    let ghost all = colors@.map_values(|s: String| s@);
    let mut out = String::new();
    let mut i: usize = 0;
    assert(all.take(0) =~= Seq::<Seq<char>>::empty());
    while i < colors.len()
        invariant
            i <= colors.len(),
            all == colors@.map_values(|s: String| s@),
            out@ == color_rules(all.take(i as int)),
        decreases colors.len() - i,
    {
        assert(all.take(i + 1).drop_last() =~= all.take(i as int));
        out.push_str(&calendar_color_css(&colors[i]));
        i += 1;
    }
    assert(all.take(i as int) =~= all);
    out
}

/// The minutes of a day that a selection covers: from its start on the first day, to the end of its
/// last slot on the last day, and all in between.
pub open spec fn band_of(range: SlotRange, day: int) -> Option<(int, int)> {
    let from = if day == range.start_date.number {
        range.start_minutes as int
    } else {
        0
    };
    let to = if day == range.end_date.number {
        range.end_minutes + 30
    } else {
        1440
    };
    if day < range.start_date.number || day > range.end_date.number || to <= from {
        None
    } else {
        Some((from, to))
    }
}

/// The minutes of a day that a selection covers.
pub fn selection_band(range: &SlotRange, date: Date) -> (r: Option<(i64, i64)>)
    requires
        range.end_minutes <= i64::MAX - 30,
    ensures
        (match r {
            Some((a, b)) => Some((a as int, b as int)),
            None => None,
        }) == band_of(*range, date.number as int),
{
    if date.number < range.start_date.number || date.number > range.end_date.number {
        return None;
    }
    let from: i64 = if date.number == range.start_date.number {
        range.start_minutes
    } else {
        0
    };
    let to: i64 = if date.number == range.end_date.number {
        range.end_minutes + 30
    } else {
        1440
    };
    if to <= from {
        None
    } else {
        Some((from, to))
    }
}

/// Picks the chips to paint in one half of a grid: those of the band for whole days or the others,
/// without the one that is being dragged.
pub open spec fn painted_in(chips: Seq<TimeChip>, band: bool, dragged: Option<usize>) -> spec_fn(int) -> bool {
    |i: int| chips[i].all_day == band && dragged != Some(i as usize)
}

/// The chips to paint in one half of a grid, by their numbers.
pub fn painted_chips(chips: &Vec<TimeChip>, band: bool, dragged: Option<usize>) -> (r: Vec<usize>)
    ensures
        r@.map_values(|i: usize| i as int) == Seq::new(chips@.len(), |i: int| i).filter(
            painted_in(chips@, band, dragged),
        ),
{
    let ghost all = Seq::new(chips@.len(), |i: int| i);
    let ghost keep = painted_in(chips@, band, dragged);
    let ghost f = |i: usize| i as int;
    let mut out: Vec<usize> = Vec::new();
    let mut i: usize = 0;
    assert(all.take(0).filter(keep) =~= Seq::<int>::empty());
    assert(out@.map_values(f) =~= all.take(0).filter(keep));
    while i < chips.len()
        invariant
            i <= chips.len(),
            all == Seq::new(chips@.len(), |i: int| i),
            keep == painted_in(chips@, band, dragged),
            f == |i: usize| i as int,
            out@.map_values(f) == all.take(i as int).filter(keep),
        decreases chips.len() - i,
    {
        proof {
            assert(all.take(i + 1) =~= all.take(i as int).push(i as int));
            all.take(i as int).lemma_filter_push(i as int, keep);
        }
        let held = match dragged {
            Some(d) => d == i,
            None => false,
        };
        if chips[i].all_day == band && !held {
            let ghost before = out@.map_values(f);
            out.push(i);
            assert(out@.map_values(f) =~= before.push(i as int));
        }
        i += 1;
    }
    assert(all.take(i as int) =~= all);
    out
}

/// The start of a text with an ellipsis.
pub open spec fn shortened(text: Seq<char>, keep: int) -> Seq<char> {
    text.take(keep).push('…')
}

/// The start of a text with an ellipsis, for a label that is too long: the widest one that fits is
/// found by trying shorter and shorter ones.
pub fn ellipsis_candidate(text: &str, keep: usize) -> (r: String)
    requires
        keep <= text@.len(),
    ensures
        r@ == shortened(text@, keep as int),
{
    let chars = chars_of(text);
    let mut out = String::new();
    let mut i: usize = 0;
    while i < keep
        invariant
            i <= keep <= chars@.len(),
            chars@ == text@,
            out@ == text@.take(i as int),
        decreases keep - i,
    {
        out.push(chars[i]);
        assert(out@ =~= text@.take(i + 1));
        i += 1;
    }
    out.push('…');
    out
}

} // verus!
