//! The grids of the calendar: chips, slots, drags and the days that events cover.

use lookout::calendar_colors::CalendarColorMap;
use lookout::calendar_days::{covered_local_dates, occurrence_day_range};
use lookout::calendar_main::{active_view, anchor, build_main, build_mini, go_today, header_text, mini_day, mini_month};
use lookout::calendar_main::{mini_page, refresh, set_anchor, set_calendar_colors, set_mini_event_days, set_mini_month};
use lookout::calendar_main::{set_occurrences, set_view, step, turn_mini};
use lookout::calendar_months::{agenda_day_header, agenda_groups, bucket_by_date, first_grid_day};
use lookout::calendar_months::{first_of_month, grid_dates, last_of_month, month_cells, visible_events, week_start};
use lookout::dates::{Date, DateTime, Instant, Moment, EPOCH_DAY};
use lookout::grid_pointer::{cell_index_at, click_day, col_minutes_at, drag_ghost_chip, drag_times, drag_update};
use lookout::grid_pointer::{grab_mode, month_drag_times, slot_from_point, ChipPress, DayClick, DragMode};
use lookout::grid_pointer::{GridPointer, MonthDrag, Release, Slot, SlotRange, TimeGridDrag};
use lookout::lanes::assign_lanes;
use lookout::model::{EventOccurrence, EventSensitivity, EventTransparency};
use lookout::time_grid::{compute_time_grid_chips, TimeChip};

const SUNDAY: u32 = 0;
const MONDAY: u32 = 1;
const HOUR_GUTTER_WIDTH: f64 = 52.0;
const TIME_SLOT_HEIGHT: f64 = 48.0;

fn ymd(year: i32, month: u32, day: u32) -> Date {
    Date::from_ymd_opt(year, month, day).unwrap()
}

fn at(date: Date, hour: u32, minute: u32) -> DateTime {
    DateTime::at(date, hour, minute, 0).unwrap()
}

fn moment(t: DateTime) -> Moment {
    let secs = (t.date.number as i64 - EPOCH_DAY as i64) * 86400 + t.secs as i64;
    Moment { instant: Instant { secs, nanos: 0 }, local: t }
}

fn occ(summary: &str, start: DateTime, end: DateTime, all_day: bool) -> EventOccurrence {
    EventOccurrence {
        uid: summary.to_string(),
        calendar_id: "test".to_string(),
        summary: Some(summary.to_string()),
        description: None,
        location: None,
        start: moment(start),
        end: moment(end),
        all_day,
        rrule: None,
        recurrence_id: None,
        exdates: Vec::new(),
        master_start: None,
        master_end: None,
        href: None,
        etag: None,
        master_href: None,
        master_etag: None,
        attendees: Vec::new(),
        organizer: None,
        categories: Vec::new(),
        sensitivity: EventSensitivity::Public,
        transparency: EventTransparency::Busy,
        reminder_minutes_before: None,
        conference_url: None,
    }
}

fn test_week() -> Vec<Date> {
    (0..7).map(|i| ymd(2026, 8, 2).plus_days(i)).collect()
}

/// The column that a point lies in and the minute of the day at its height.
fn place(x: f64, y: f64, width: f64, n_cols: usize) -> (Option<usize>, i64) {
    let minutes = (y / TIME_SLOT_HEIGHT * 60.0) as i64;
    if x < HOUR_GUTTER_WIDTH || n_cols == 0 {
        return (None, minutes);
    }
    let col_width = (width - HOUR_GUTTER_WIDTH).max(0.0) / n_cols as f64;
    (Some(((x - HOUR_GUTTER_WIDTH) / col_width) as usize), minutes)
}

fn slot_at(x: f64, y: f64, width: f64, n_cols: usize) -> Option<(usize, i64)> {
    let (column, minutes) = place(x, y, width, n_cols);
    slot_from_point(column, minutes, n_cols)
}

fn cell_at(width: f64, height: f64, x: f64, y: f64) -> Option<usize> {
    if width <= 0.0 || height <= 0.0 || x < 0.0 || y < 0.0 || x >= width || y >= height {
        return None;
    }
    cell_index_at((y / (height / 7.0)) as usize, (x / (width / 7.0)) as usize)
}

#[test]
fn first_grid_day_lands_on_sunday_on_or_before_the_1st() {
    let month = ymd(2026, 7, 1);
    let grid_start = first_grid_day(month);
    assert_eq!(grid_start, ymd(2026, 6, 28));
    assert_eq!(grid_start.days_from_sunday(), 0);
}

#[test]
fn first_grid_day_is_unchanged_when_month_already_starts_on_sunday() {
    let month = ymd(2026, 11, 1);
    assert_eq!(first_grid_day(month), month);
}

#[test]
fn week_start_resolves_to_the_week_s_first_weekday() {
    let thursday = ymd(2026, 8, 6);
    assert_eq!(week_start(thursday, SUNDAY), ymd(2026, 8, 2));
    assert_eq!(week_start(thursday, MONDAY), ymd(2026, 8, 3));
}

#[test]
fn week_start_surrounds_weekends_correctly() {
    let sunday = ymd(2026, 8, 9);
    assert_eq!(week_start(sunday, SUNDAY), sunday);
    assert_eq!(week_start(sunday, MONDAY), ymd(2026, 8, 3));
}

#[test]
fn last_of_month_handles_short_and_long_months() {
    assert_eq!(last_of_month(ymd(2026, 2, 17)), ymd(2026, 2, 28));
    assert_eq!(last_of_month(ymd(2026, 8, 6)), ymd(2026, 8, 31));
}

#[test]
fn month_ends_hold_at_the_end_of_time_and_in_leap_years() {
    assert_eq!(last_of_month(ymd(2024, 2, 1)), ymd(2024, 2, 29));
    assert_eq!(last_of_month(ymd(2026, 12, 31)), ymd(2026, 12, 31));
    assert_eq!(last_of_month(ymd(262142, 12, 5)), ymd(262142, 12, 31));
    assert_eq!(first_of_month(ymd(-262143, 1, 31)), ymd(-262143, 1, 1));
}

#[test]
fn assign_lanes_reuses_lanes_for_non_overlapping_ranges() {
    let ranges = [(9 * 60, 10 * 60), (9 * 60 + 30, 10 * 60 + 30), (10 * 60, 11 * 60)];
    assert_eq!(assign_lanes(&ranges), vec![0, 1, 0]);
}

#[test]
fn assign_lanes_stacks_nested_ranges() {
    let ranges = [(9 * 60, 12 * 60), (9 * 60 + 30, 11 * 60 + 30), (10 * 60, 11 * 60)];
    assert_eq!(assign_lanes(&ranges), vec![0, 1, 2]);
}

#[test]
fn grid_chips_lane_concurrent_timed_events_side_by_side() {
    let day = ymd(2026, 8, 6);
    let occurrences = vec![
        occ("early", at(day, 9, 0), at(day, 10, 0), false),
        occ("late", at(day, 9, 30), at(day, 11, 0), false),
    ];
    let chips = compute_time_grid_chips(&test_week(), &occurrences);
    assert_eq!(chips.len(), 2);
    assert_eq!(chips[0].occurrence, 0);
    assert_eq!(chips[0].lane, 0);
    assert_eq!(chips[1].occurrence, 1);
    assert_eq!(chips[1].lane, 1);
    assert_eq!(chips[1].lanes, 2);
    for chip in &chips {
        assert!(!chip.all_day);
        assert_eq!(chip.span, 1);
        assert_eq!(chip.column, 4);
    }
}

#[test]
fn grid_chips_span_days_for_multi_day_timed_events() {
    let occurrences = vec![occ("overnight", at(ymd(2026, 8, 5), 22, 0), at(ymd(2026, 8, 6), 2, 0), false)];
    let chips = compute_time_grid_chips(&test_week(), &occurrences);
    assert_eq!(chips.len(), 1);
    assert_eq!(chips[0].column, 3);
    assert_eq!(chips[0].span, 2);
    assert_eq!(chips[0].start_minutes, 22 * 60);
    assert_eq!(chips[0].end_minutes, 2 * 60);
    assert_eq!(chips[0].lanes, 1);
}

#[test]
fn grid_chips_collapse_midnight_enders_to_one_column() {
    let occurrences = vec![occ("closer", at(ymd(2026, 8, 5), 10, 0), at(ymd(2026, 8, 6), 0, 0), false)];
    let chips = compute_time_grid_chips(&test_week(), &occurrences);
    assert_eq!(chips.len(), 1);
    assert_eq!(chips[0].span, 1);
    assert_eq!(chips[0].start_minutes, 10 * 60);
    assert_eq!(chips[0].end_minutes, 1440);
}

#[test]
fn grid_chips_clip_all_day_events_to_the_grid_window() {
    let before = ymd(2026, 8, 1);
    let occurrences = vec![
        occ("weekender", at(ymd(2026, 8, 7), 0, 0), at(ymd(2026, 8, 10), 0, 0), true),
        occ("outside", at(before, 0, 0), at(before, 0, 0), true),
    ];
    let chips = compute_time_grid_chips(&test_week(), &occurrences);
    assert_eq!(chips.len(), 1);
    assert_eq!(chips[0].occurrence, 0);
    assert!(chips[0].all_day);
    assert_eq!(chips[0].column, 5);
    assert_eq!(chips[0].span, 2);
    assert_eq!(chips[0].start_minutes, 0);
    assert_eq!(chips[0].end_minutes, 1440);
}

#[test]
fn grid_chips_skip_events_outside_the_window() {
    let earlier = ymd(2026, 7, 30);
    let later = ymd(2026, 8, 10);
    let occurrences = vec![
        occ("too early", at(earlier, 9, 0), at(earlier, 10, 0), false),
        occ("too late", at(later, 9, 0), at(later, 10, 0), false),
    ];
    assert!(compute_time_grid_chips(&test_week(), &occurrences).is_empty());
}

#[test]
fn chips_of_one_column_do_not_share_a_lane_at_the_same_time() {
    let day = ymd(2026, 8, 6);
    let occurrences: Vec<EventOccurrence> = (0..6)
        .map(|i| occ(&format!("e{i}"), at(day, 9 + i / 2, 0), at(day, 11, 30 * (i % 2)), false))
        .collect();
    let chips = compute_time_grid_chips(&test_week(), &occurrences);
    assert_eq!(chips.len(), 6);
    for a in &chips {
        for b in &chips {
            if a.occurrence != b.occurrence && a.lane == b.lane {
                assert!(a.end_minutes <= b.start_minutes || b.end_minutes <= a.start_minutes);
            }
        }
        assert!(a.lane < a.lanes);
    }
    for (i, _) in occurrences.iter().enumerate() {
        assert_eq!(chips.iter().filter(|c| c.occurrence == i).count(), 1);
    }
}

#[test]
fn occurrence_day_range_covers_every_day_of_a_multi_day_all_day_event() {
    let o = occ("weekender", at(ymd(2026, 8, 7), 0, 0), at(ymd(2026, 8, 10), 0, 0), true);
    let first = test_week()[0];
    let range = occurrence_day_range(&o, first, 31).unwrap();
    assert_eq!(range, (5, 8));
    for col in range.0..range.1 {
        let covered = first.plus_days(col as i64);
        assert!(o.start.local.date <= covered);
        assert!(covered < o.end.local.date);
    }
}

#[test]
fn occurrence_day_range_covers_both_days_of_a_midnight_crosser() {
    let o = occ("overnight", at(ymd(2026, 8, 5), 22, 0), at(ymd(2026, 8, 6), 2, 0), false);
    let week = test_week();
    assert_eq!(occurrence_day_range(&o, week[0], week.len()).unwrap(), (3, 5));
}

#[test]
fn occurrence_day_range_drops_the_day_an_event_ends_at_midnight() {
    let o = occ("closer", at(ymd(2026, 8, 5), 10, 0), at(ymd(2026, 8, 6), 0, 0), false);
    let week = test_week();
    assert_eq!(occurrence_day_range(&o, week[0], week.len()).unwrap(), (3, 4));
}

#[test]
fn occurrence_day_range_clips_events_starting_before_the_window() {
    let o = occ("vacation", at(ymd(2026, 8, 1), 0, 0), at(ymd(2026, 8, 5), 0, 0), true);
    let week = test_week();
    assert_eq!(occurrence_day_range(&o, week[0], week.len()).unwrap(), (0, 3));
}

#[test]
fn occurrence_day_range_returns_none_for_events_outside_the_window() {
    let earlier = ymd(2026, 7, 30);
    let later = ymd(2026, 8, 10);
    let occurrences = vec![
        occ("too early", at(earlier, 9, 0), at(earlier, 10, 0), false),
        occ("too late", at(later, 9, 0), at(later, 10, 0), false),
    ];
    let week = test_week();
    for o in &occurrences {
        assert!(occurrence_day_range(o, week[0], week.len()).is_none());
    }
    assert!(occurrence_day_range(&occurrences[0], earlier, 0).is_none());
}

#[test]
fn covered_local_dates_clips_to_the_window_and_skips_outsiders() {
    let trip = occ("Trip", at(ymd(2026, 8, 4), 0, 0), at(ymd(2026, 8, 7), 0, 0), true);
    let window_start = ymd(2026, 8, 1);
    let window_end = ymd(2026, 8, 31);
    let covered = covered_local_dates(&trip, window_start, window_end);
    assert_eq!(covered, vec![ymd(2026, 8, 4), ymd(2026, 8, 5), ymd(2026, 8, 6)]);
    let outside = occ("Outside", at(ymd(2026, 9, 5), 9, 0), at(ymd(2026, 9, 5), 10, 0), false);
    assert!(covered_local_dates(&outside, window_start, window_end).is_empty());
    assert!(covered_local_dates(&trip, window_end, window_start).is_empty());
}

#[test]
fn bucket_by_date_places_multi_day_events_on_every_covered_day() {
    let trip = occ("Trip", at(ymd(2026, 8, 4), 0, 0), at(ymd(2026, 8, 7), 0, 0), true);
    let meeting = occ("Meeting", at(ymd(2026, 8, 5), 9, 0), at(ymd(2026, 8, 5), 10, 0), false);
    let grid_start = ymd(2026, 7, 26);
    let occurrences = vec![trip, meeting];
    let by_date = bucket_by_date(&occurrences, grid_start, 42);
    assert_eq!(by_date.len(), 42);
    let summaries = |date: Date| {
        let bucket = &by_date[date.days_since(grid_start) as usize];
        let mut names: Vec<String> = bucket.iter().filter_map(|o| o.summary.clone()).collect();
        names.sort();
        names
    };
    assert_eq!(summaries(ymd(2026, 8, 4)), vec!["Trip"]);
    assert_eq!(summaries(ymd(2026, 8, 5)), vec!["Meeting", "Trip"]);
    assert_eq!(summaries(ymd(2026, 8, 6)), vec!["Trip"]);
    assert!(summaries(ymd(2026, 8, 7)).is_empty());
}

#[test]
fn only_three_events_of_a_day_are_shown() {
    assert_eq!(visible_events(0), (0, 0));
    assert_eq!(visible_events(3), (3, 0));
    assert_eq!(visible_events(5), (3, 2));
}

#[test]
fn month_cells_show_six_weeks_from_a_sunday() {
    let today = ymd(2026, 8, 6);
    let cells = month_cells(ymd(2026, 8, 20), today, &vec![ymd(2026, 8, 9)]);
    assert_eq!(cells.len(), 42);
    assert_eq!(cells[0].date, ymd(2026, 7, 26));
    assert!(!cells[0].in_month);
    assert_eq!(cells[6].day, 1);
    assert!(cells[6].in_month);
    assert!(cells[11].today);
    assert_eq!(cells.iter().filter(|c| c.today).count(), 1);
    assert!(cells[14].marked);
    assert_eq!(cells.iter().filter(|c| c.marked).count(), 1);
    assert_eq!(cells[41].date, ymd(2026, 9, 5));
}

#[test]
fn grid_dates_are_the_anchor_or_its_week() {
    let thursday = ymd(2026, 8, 6);
    assert_eq!(grid_dates(thursday, true, SUNDAY, 1), vec![thursday]);
    assert_eq!(grid_dates(thursday, false, SUNDAY, 7), test_week());
    let work_week = grid_dates(thursday, false, MONDAY, 5);
    assert_eq!(work_week.first(), Some(&ymd(2026, 8, 3)));
    assert_eq!(work_week.last(), Some(&ymd(2026, 8, 7)));
}

#[test]
fn the_agenda_groups_the_rest_of_the_month_by_day() {
    let occurrences = vec![
        occ("late", at(ymd(2026, 8, 20), 15, 0), at(ymd(2026, 8, 20), 16, 0), false),
        occ("over", at(ymd(2026, 8, 5), 9, 0), at(ymd(2026, 8, 5), 10, 0), false),
        occ("early", at(ymd(2026, 8, 20), 9, 0), at(ymd(2026, 8, 20), 10, 0), false),
        occ("today", at(ymd(2026, 8, 6), 9, 0), at(ymd(2026, 8, 6), 10, 0), false),
        occ("next month", at(ymd(2026, 9, 1), 9, 0), at(ymd(2026, 9, 1), 10, 0), false),
    ];
    let groups = agenda_groups(&occurrences, ymd(2026, 8, 6));
    assert_eq!(groups.len(), 2);
    assert_eq!(groups[0].date, ymd(2026, 8, 6));
    assert_eq!(groups[1].date, ymd(2026, 8, 20));
    let names: Vec<&str> = groups[1].events.iter().map(|o| o.uid.as_str()).collect();
    assert_eq!(names, vec!["early", "late"]);
    assert!(agenda_groups(&occurrences, ymd(2026, 10, 1)).is_empty());
}

#[test]
fn agenda_headers_name_today_and_tomorrow() {
    let today = ymd(2026, 8, 11);
    assert_eq!(agenda_day_header(today, today), "Today");
    assert_eq!(agenda_day_header(ymd(2026, 8, 12), today), "Tomorrow");
    assert_eq!(agenda_day_header(ymd(2026, 8, 13), today), "Thu 13 Aug");
}

#[test]
fn slot_range_spanning_normalizes_the_drag_direction() {
    let mon = ymd(2026, 8, 3);
    let tue = ymd(2026, 8, 4);
    let down = SlotRange::spanning(tue, 11 * 60, mon, 9 * 60);
    let up = SlotRange::spanning(mon, 9 * 60, tue, 11 * 60);
    assert_eq!(down, up);
    assert_eq!(down.start_date, mon);
    assert_eq!(down.start_minutes, 9 * 60);
    assert_eq!(down.end_date, tue);
    assert_eq!(down.end_minutes, 11 * 60);
}

#[test]
fn slot_range_contains_includes_the_boundaries_and_skips_outside() {
    let mon = ymd(2026, 8, 3);
    let tue = ymd(2026, 8, 4);
    let range = SlotRange::spanning(mon, 9 * 60, tue, 11 * 60);
    assert!(range.contains(mon, 9 * 60));
    assert!(range.contains(mon, 13 * 60));
    assert!(range.contains(tue, 11 * 60));
    assert!(range.contains(tue, 0));
    assert!(!range.contains(mon, 8 * 60 + 30));
    assert!(!range.contains(tue, 11 * 60 + 30));
    assert!(!range.contains(ymd(2026, 8, 5), 0));
}

#[test]
fn slot_range_single_covers_exactly_one_slot() {
    let day = ymd(2026, 8, 3);
    let range = SlotRange::single(day, 9 * 60);
    assert_eq!(range.start_date, day);
    assert_eq!(range.end_date, day);
    assert_eq!(range.start_minutes, 9 * 60);
    assert_eq!(range.end_minutes, 9 * 60);
    assert!(range.contains(day, 9 * 60));
    assert!(!range.contains(day, 9 * 60 + 30));
    assert!(!range.contains(day, 8 * 60 + 30));
}

#[test]
fn slot_from_point_ignores_the_hour_gutter() {
    assert!(slot_at(HOUR_GUTTER_WIDTH - 1.0, 300.0, 752.0, 7).is_none());
    assert!(slot_at(0.0, 0.0, 752.0, 7).is_none());
}

#[test]
fn slot_from_point_maps_columns_across_the_canvas() {
    let (col, _) = slot_at(HOUR_GUTTER_WIDTH + 1.0, 0.0, HOUR_GUTTER_WIDTH + 700.0, 7).unwrap();
    assert_eq!(col, 0);
    let (col, _) = slot_at(HOUR_GUTTER_WIDTH + 100.0 * 4.0 + 50.0, 0.0, HOUR_GUTTER_WIDTH + 700.0, 7).unwrap();
    assert_eq!(col, 4);
    let (col, _) = slot_at(HOUR_GUTTER_WIDTH + 700.0 - 1.0, 0.0, HOUR_GUTTER_WIDTH + 700.0, 7).unwrap();
    assert_eq!(col, 6);
}

#[test]
fn slot_from_point_snaps_minutes_to_the_half_hour() {
    let y_912 = (9 * 60 + 12) as f64 * TIME_SLOT_HEIGHT / 60.0;
    let (_, minutes) = slot_at(HOUR_GUTTER_WIDTH + 10.0, y_912, 752.0, 7).unwrap();
    assert_eq!(minutes, 9 * 60);
    let y_918 = (9 * 60 + 18) as f64 * TIME_SLOT_HEIGHT / 60.0;
    let (_, minutes) = slot_at(HOUR_GUTTER_WIDTH + 10.0, y_918, 752.0, 7).unwrap();
    assert_eq!(minutes, 9 * 60 + 30);
    let y_9am = 9.0 * TIME_SLOT_HEIGHT;
    let (_, minutes) = slot_at(HOUR_GUTTER_WIDTH + 10.0, y_9am, 752.0, 7).unwrap();
    assert_eq!(minutes, 9 * 60);
}

#[test]
fn slot_from_point_clamps_to_the_last_startable_slot() {
    let (_, minutes) = slot_at(HOUR_GUTTER_WIDTH + 10.0, 24.0 * TIME_SLOT_HEIGHT, 752.0, 7).unwrap();
    assert_eq!(minutes, 1440 - 30);
    let (_, minutes) = slot_at(HOUR_GUTTER_WIDTH + 10.0, 23.9 * TIME_SLOT_HEIGHT, 752.0, 7).unwrap();
    assert_eq!(minutes, 1440 - 30);
}

#[test]
fn positions_are_not_snapped_and_reach_midnight() {
    assert_eq!(col_minutes_at(Some(6), 1500, 7), Some((6, 1440)));
    assert_eq!(col_minutes_at(Some(7), 552, 7), None);
    assert_eq!(slot_from_point(Some(8), 0, 7), None);
    assert_eq!(col_minutes_at(Some(2), 552, 7), Some((2, 552)));
    assert_eq!(col_minutes_at(Some(2), -5, 7), Some((2, 0)));
    assert_eq!(col_minutes_at(None, 552, 7), None);
    assert_eq!(col_minutes_at(Some(0), 552, 0), None);
}

fn drag_at(original_start: i64, original_end: i64, mode: DragMode) -> TimeGridDrag {
    TimeGridDrag {
        chip: 0,
        mode,
        original_start,
        original_end,
        live_start: original_start,
        live_end: original_end,
        grab_offset: 0,
        all_day: false,
    }
}

#[test]
fn drag_move_shifts_both_ends_preserving_duration_and_grab_offset() {
    let mut drag = drag_at(1440 + 9 * 60, 1440 + 10 * 60, DragMode::Move);
    drag.grab_offset = 30;
    drag_update(&mut drag, 2, 9 * 60 + 30, 7 * 1440);
    assert_eq!(drag.live_start, 2 * 1440 + 9 * 60);
    assert_eq!(drag.live_end, 2 * 1440 + 10 * 60);
}

#[test]
fn drag_move_snaps_to_half_hours() {
    let mut drag = drag_at(1440 + 9 * 60, 1440 + 10 * 60, DragMode::Move);
    drag_update(&mut drag, 2, 9 * 60 + 43, 7 * 1440);
    assert_eq!(drag.live_start, 2 * 1440 + 9 * 60 + 30);
    let mut drag = drag_at(1440 + 9 * 60, 1440 + 10 * 60, DragMode::Move);
    drag_update(&mut drag, 2, 9 * 60 + 7, 7 * 1440);
    assert_eq!(drag.live_start, 2 * 1440 + 9 * 60);
}

#[test]
fn drag_move_clamps_to_the_visible_grid_window() {
    let mut drag = drag_at(0, 60, DragMode::Move);
    drag_update(&mut drag, 6, 23 * 60, 7 * 1440);
    assert_eq!(drag.live_end, 7 * 1440);
    let mut drag = drag_at(2 * 1440 + 9 * 60, 2 * 1440 + 10 * 60, DragMode::Move);
    drag_update(&mut drag, 0, 0, 7 * 1440);
    assert_eq!(drag.live_start, 0);
    assert_eq!(drag.live_end, 60);
}

#[test]
fn drag_resize_follows_the_pointer_with_the_start_pinned() {
    let mut drag = drag_at(1440 + 9 * 60, 1440 + 10 * 60, DragMode::ResizeEnd);
    drag_update(&mut drag, 1, 11 * 60 + 40, 7 * 1440);
    assert_eq!(drag.live_start, 1440 + 9 * 60);
    assert_eq!(drag.live_end, 1440 + 11 * 60 + 30);
}

#[test]
fn drag_resize_never_flips_or_underflows_the_minimum_duration() {
    let mut drag = drag_at(1440 + 9 * 60, 1440 + 10 * 60, DragMode::ResizeEnd);
    drag_update(&mut drag, 1, 8 * 60, 7 * 1440);
    assert_eq!(drag.live_start, 1440 + 9 * 60);
    assert_eq!(drag.live_end, 1440 + 9 * 60 + 30);
    let mut drag = drag_at(1440 + 22 * 60, 1440 + 23 * 60, DragMode::ResizeEnd);
    drag_update(&mut drag, 2, 6 * 60, 7 * 1440);
    assert_eq!(drag.live_start, 1440 + 22 * 60);
    assert_eq!(drag.live_end, 2 * 1440 + 6 * 60);
}

#[test]
fn drag_all_day_moves_by_whole_days() {
    let mut drag = drag_at(2 * 1440, 4 * 1440, DragMode::Move);
    drag.all_day = true;
    drag.grab_offset = 1440;
    drag_update(&mut drag, 2, 720, 7 * 1440);
    assert_eq!(drag.live_start, 1440);
    assert_eq!(drag.live_end, 3 * 1440);
}

#[test]
fn drag_times_move_shifts_both_ends_by_the_live_delta() {
    let epoch = at(ymd(1970, 1, 1), 0, 0);
    let e = occ("Move", epoch, epoch, false);
    let drag = TimeGridDrag {
        chip: 0,
        mode: DragMode::Move,
        original_start: 1440 + 9 * 60,
        original_end: 1440 + 10 * 60,
        live_start: 2 * 1440 + 9 * 60 + 30,
        live_end: 2 * 1440 + 10 * 60 + 30,
        grab_offset: 0,
        all_day: false,
    };
    let (start, end) = drag_times(&drag, &e);
    assert_eq!(start.secs - e.start.instant.secs, (24 * 60 + 30) * 60);
    assert_eq!(end.secs - e.end.instant.secs, (24 * 60 + 30) * 60);
}

#[test]
fn drag_times_resize_only_shifts_the_end() {
    let epoch = at(ymd(1970, 1, 1), 0, 0);
    let e = occ("Resize", epoch, epoch, false);
    let drag = TimeGridDrag {
        chip: 0,
        mode: DragMode::ResizeEnd,
        original_start: 1440 + 9 * 60,
        original_end: 1440 + 10 * 60,
        live_start: 1440 + 9 * 60,
        live_end: 1440 + 12 * 60,
        grab_offset: 0,
        all_day: false,
    };
    let (start, end) = drag_times(&drag, &e);
    assert_eq!(start, e.start.instant);
    assert_eq!(end.secs - e.end.instant.secs, 2 * 60 * 60);
}

#[test]
fn drag_ghost_chip_spans_midnight_and_renders_full_last_columns() {
    let drag = TimeGridDrag {
        chip: 0,
        mode: DragMode::Move,
        original_start: 1440 + 22 * 60,
        original_end: 1440 + 30 * 60,
        live_start: 1440 + 22 * 60,
        live_end: 2 * 1440 + 6 * 60,
        grab_offset: 0,
        all_day: false,
    };
    let ghost = drag_ghost_chip(&drag, 0);
    assert_eq!((ghost.column, ghost.span, ghost.start_minutes, ghost.end_minutes), (1, 2, 22 * 60, 6 * 60));

    let drag = TimeGridDrag {
        chip: 0,
        mode: DragMode::ResizeEnd,
        original_start: 1440 + 9 * 60,
        original_end: 1440 + 10 * 60,
        live_start: 1440 + 9 * 60,
        live_end: 2 * 1440,
        grab_offset: 0,
        all_day: false,
    };
    let ghost = drag_ghost_chip(&drag, 0);
    assert_eq!((ghost.column, ghost.span, ghost.start_minutes, ghost.end_minutes), (1, 1, 9 * 60, 1440));

    let drag = TimeGridDrag {
        chip: 0,
        mode: DragMode::Move,
        original_start: 2 * 1440,
        original_end: 4 * 1440,
        live_start: 3 * 1440,
        live_end: 5 * 1440,
        grab_offset: 0,
        all_day: true,
    };
    let ghost = drag_ghost_chip(&drag, 0);
    assert_eq!((ghost.column, ghost.span, ghost.start_minutes, ghost.end_minutes), (3, 2, 0, 1440));
}

#[test]
fn cell_index_at_point_maps_grid_coordinates_to_day_cells() {
    assert_eq!(cell_at(700.0, 700.0, 0.0, 100.0), Some(0));
    assert_eq!(cell_at(700.0, 700.0, 650.0, 100.0), Some(6));
    assert_eq!(cell_at(700.0, 700.0, 0.0, 690.0), Some(42 - 7));
    assert_eq!(cell_at(700.0, 700.0, 650.0, 690.0), Some(41));
    assert_eq!(cell_at(700.0, 700.0, 50.0, 50.0), None);
    assert_eq!(cell_at(700.0, 700.0, -1.0, 100.0), None);
    assert_eq!(cell_at(700.0, 700.0, 700.0, 100.0), None);
    assert_eq!(cell_at(700.0, 700.0, 50.0, 700.0), None);
    assert_eq!(cell_at(0.0, 700.0, 0.0, 0.0), None);
}

fn chip(column: usize, span: usize, start_minutes: i64, end_minutes: i64) -> TimeChip {
    TimeChip { column, span, lane: 0, lanes: 1, all_day: false, start_minutes, end_minutes, occurrence: 0 }
}

#[test]
fn a_click_on_a_chip_opens_it_and_a_drag_drops_it() {
    let chips = vec![chip(1, 1, 9 * 60, 10 * 60)];
    let press = ChipPress { chip: 0, mode: DragMode::Move };

    let mut pointer = GridPointer::new();
    pointer.press(Some(press), None);
    assert_eq!(pointer.release(&chips, 1, None), Release::OpenEvent { occurrence: 0 });

    let mut pointer = GridPointer::new();
    pointer.press(Some(press), None);
    let from = Some((1, 9 * 60 + 30));
    assert!(!pointer.motion(false, &chips, 1, Some((1, 9 * 60 + 32)), from, None, 7));
    assert!(pointer.motion(true, &chips, 1, Some((2, 11 * 60)), from, None, 7));
    match pointer.release(&chips, 1, None) {
        Release::DropEvent { occurrence, drag } => {
            assert_eq!(occurrence, 0);
            assert_eq!((drag.live_start, drag.live_end), (2 * 1440 + 10 * 60 + 30, 2 * 1440 + 11 * 60 + 30));
        }
        other => panic!("{other:?}"),
    }
}

#[test]
fn a_dragged_chip_that_spans_days_keeps_its_length() {
    let chips = vec![chip(1, 2, 22 * 60, 2 * 60)];
    let mut pointer = GridPointer::new();
    pointer.press(Some(ChipPress { chip: 0, mode: DragMode::Move }), None);
    pointer.motion(true, &chips, 1, Some((3, 22 * 60)), Some((1, 22 * 60)), None, 7);
    match pointer.release(&chips, 1, None) {
        Release::DropEvent { drag, .. } => assert_eq!(drag.live_end - drag.live_start, 4 * 60),
        other => panic!("{other:?}"),
    }
}

#[test]
fn slots_are_selected_first_and_opened_by_a_second_click() {
    let day = ymd(2026, 8, 3);
    let slot = Some(Slot { date: day, minutes: 540 });
    let mut pointer = GridPointer::new();
    pointer.press(None, slot);
    assert_eq!(pointer.release(&[], 0, slot), Release::Nothing);
    assert_eq!(pointer.selection, Some(SlotRange::single(day, 540)));
    pointer.press(None, slot);
    assert_eq!(pointer.release(&[], 0, slot), Release::OpenSlots { range: SlotRange::single(day, 540) });
}

#[test]
fn a_chip_is_resized_at_its_lower_edge_unless_it_takes_the_whole_day() {
    assert_eq!(grab_mode(false, true), DragMode::ResizeEnd);
    assert_eq!(grab_mode(false, false), DragMode::Move);
    assert_eq!(grab_mode(true, true), DragMode::Move);
}

#[test]
fn month_drags_move_by_whole_days() {
    let from = ymd(2026, 8, 3);
    let mut drag = MonthDrag::new(from);
    assert!(!drag.motion(false, Some(ymd(2026, 8, 4))));
    assert_eq!(drag.release(), None);
    assert!(drag.motion(true, Some(ymd(2026, 8, 5))));
    assert!(!drag.motion(true, None));
    assert_eq!(drag.release(), Some(2));
    let o = occ("x", at(from, 9, 0), at(from, 10, 0), false);
    let (start, end) = month_drag_times(&o, 2);
    assert_eq!(start.secs - o.start.instant.secs, 2 * 86400);
    assert_eq!(end.secs - o.end.instant.secs, 2 * 86400);
}

#[test]
fn day_cells_are_selected_first_and_opened_by_a_second_click() {
    let day = ymd(2026, 8, 3);
    let mut selected = None;
    assert_eq!(click_day(&mut selected, day), DayClick::Select);
    assert_eq!(selected, Some(day));
    assert_eq!(click_day(&mut selected, day), DayClick::Activate);
    assert_eq!(selected, None);
}

#[test]
fn views_are_known_by_name_and_step_in_their_own_unit() {
    let mut main = build_main(ymd(2026, 1, 31));
    assert_eq!(active_view(&main), "month");
    step(&mut main, 1);
    assert_eq!(anchor(&main), ymd(2026, 2, 28));
    step(&mut main, 0);
    assert_eq!(anchor(&main), ymd(2026, 2, 28));
    set_anchor(&mut main, ymd(2026, 1, 15));
    step(&mut main, 3);
    assert_eq!(anchor(&main), ymd(2026, 4, 15));
    step(&mut main, -15);
    assert_eq!(anchor(&main), ymd(2025, 1, 15));
    set_anchor(&mut main, ymd(2026, 2, 28));
    set_view(&mut main, "agenda");
    assert_eq!(active_view(&main), "month");
    for (view, by, days) in [("day", -1, -1), ("workweek", 1, 7), ("week", -2, -14)] {
        set_view(&mut main, view);
        assert_eq!(active_view(&main), view);
        step(&mut main, by);
        assert_eq!(anchor(&main), ymd(2026, 2, 28).plus_days(days));
        step(&mut main, -by);
        assert_eq!(anchor(&main), ymd(2026, 2, 28));
    }
    set_view(&mut main, "split");
    set_anchor(&mut main, ymd(2026, 1, 31));
    step(&mut main, -1);
    assert_eq!(anchor(&main), ymd(2025, 12, 31));
    go_today(&mut main, ymd(2026, 8, 6));
    assert_eq!(anchor(&main), ymd(2026, 8, 6));
}

#[test]
fn titles_name_the_days_that_are_shown() {
    let mut main = build_main(ymd(2026, 8, 6));
    assert_eq!(header_text(&main), "August 2026");
    for (view, title) in [
        ("day", "Thursday 06 August 2026"),
        ("week", "02 Aug – 08 Aug 2026"),
        ("workweek", "03 Aug – 07 Aug 2026"),
        ("split", "Split · 06 Aug 2026"),
    ] {
        set_view(&mut main, view);
        assert_eq!(header_text(&main), title);
    }
    set_view(&mut main, "week");
    set_anchor(&mut main, ymd(2026, 1, 1));
    assert_eq!(header_text(&main), "28 Dec 2025 – 03 Jan 2026");
}

#[test]
fn all_views_are_drawn_around_the_same_date() {
    let mut main = build_main(ymd(2026, 8, 6));
    let day = ymd(2026, 8, 6);
    let mut events: Vec<EventOccurrence> =
        (8u32..12).map(|h| occ(&format!("at {h}"), at(day, h, 0), at(day, h + 1, 0), false)).collect();
    events.push(occ("later", at(ymd(2026, 8, 20), 9, 0), at(ymd(2026, 8, 20), 10, 0), false));
    set_occurrences(&mut main, events);
    let mut colors = CalendarColorMap::new();
    colors.insert("test", "#3584e4".to_string());
    set_calendar_colors(&mut main, colors);
    let pages = refresh(&main, ymd(2026, 8, 7), &vec![ymd(2026, 8, 5)]);
    assert_eq!(pages.header, "August 2026");
    assert_eq!(pages.month.len(), 42);
    assert_eq!(pages.month[0].cell.date, ymd(2026, 7, 26));
    let shown = &pages.month[11];
    assert_eq!((shown.cell.date, shown.events.len(), shown.more), (day, 3, 1));
    assert!(pages.month[12].cell.today && pages.month[10].cell.marked);
    assert_eq!(pages.workweek.dates[0], ymd(2026, 8, 3));
    assert_eq!(pages.week.heads[4].text, "Thu 6");
    assert!(pages.week.heads[5].today && !pages.week.heads[4].today);
    assert_eq!((pages.day.dates.len(), pages.day.chips.len()), (1, 4));
    assert_eq!(pages.week.pointer, GridPointer::new());
    assert_eq!(pages.agenda.len(), 2);
}

#[test]
fn the_small_month_turns_and_names_the_clicked_day() {
    let mut mini = build_mini(ymd(2026, 8, 15));
    assert_eq!(mini_month(&mini), ymd(2026, 8, 1));
    turn_mini(&mut mini, true);
    assert_eq!(mini_month(&mini), ymd(2026, 9, 1));
    turn_mini(&mut mini, false);
    turn_mini(&mut mini, false);
    assert_eq!(mini_month(&mini), ymd(2026, 7, 1));
    assert_eq!(mini_day(&mini, 0), ymd(2026, 6, 28));
    set_mini_event_days(&mut mini, vec![ymd(2026, 7, 4)]);
    let (title, cells) = mini_page(&mini, ymd(2026, 7, 1));
    assert_eq!(title, "July 2026");
    assert!(cells[3].today && cells[6].marked && !cells[0].in_month);
    set_mini_month(&mut mini, ymd(2026, 2, 9), vec![]);
    assert_eq!(mini_month(&mini), ymd(2026, 2, 1));
    assert!(mini_page(&mini, ymd(2026, 7, 1)).1.iter().all(|c| !c.marked && !c.today));
}

#[test]
fn an_all_day_chip_moves_by_days_wherever_it_was_grabbed() {
    let mut drag = drag_at(1440, 2 * 1440, DragMode::Move);
    drag.all_day = true;
    drag.grab_offset = 16;
    drag_update(&mut drag, 3, 20, 7 * 1440);
    assert_eq!((drag.live_start, drag.live_end), (3 * 1440, 4 * 1440));
}

#[test]
fn chips_and_covered_days_agree_to_the_second() {
    let day = ymd(2026, 8, 6);
    let mut late = occ("late", at(day, 22, 0), at(day.plus_days(1), 0, 0), false);
    late.end.local.secs = 30;
    let events = vec![late, occ("night", at(day, 22, 0), at(day.plus_days(1), 0, 0), false)];
    let dates = [day, day.plus_days(1), day.plus_days(2)];
    let chips = compute_time_grid_chips(&dates, &events);
    for chip in &chips {
        let range = occurrence_day_range(&events[chip.occurrence], day, 3);
        assert_eq!(range, Some((chip.column, chip.column + chip.span)));
    }
    assert_eq!(chips.len(), 2);
    assert_eq!(chips.iter().find(|c| c.occurrence == 0).unwrap().span, 2);
}
