//! Links in chats, colours of calendars and the labels of the calendar.

use lookout::calendar_colors::{assign_missing, colors_path, is_hex_color, parse_expanded_hex, parse_hex_rgb};
use lookout::calendar_colors::{readable_foreground, resolve_color, CalendarColorMap, CalendarInfo};
use lookout::calendar_colors::{CALENDAR_PALETTE, DEFAULT_CHECK_COLOR};
use lookout::calendar_view::{agenda_row, calendar_account_status_text, calendar_color_css, checklist_css};
use lookout::calendar_view::{chip_text, chip_tooltip, css_color, ellipsis_candidate, event_color_class};
use lookout::calendar_view::{event_label, format_event_time, hour_12, hour_gutter_text, meridiem};
use lookout::calendar_view::{more_label, painted_chips, rebuild_calendar_checklist, selection_band};
use lookout::calendar_view::{CalendarAccountGroup, CalendarConnectionState, ChecklistRow};
use lookout::chat_links::{build_link, open_event_link, open_message_link, parse};
use lookout::chat_links::{parse_message_target, percent_decode, percent_encode};
use lookout::dates::{Date, DateTime, Instant, Moment};
use lookout::grid_pointer::SlotRange;
use lookout::luminance::{brightness_of, share_of};
use lookout::model::{EventOccurrence, EventSensitivity, EventTransparency};
use lookout::paths::ConfigEnv;
use lookout::time_grid::TimeChip;

fn ymd(year: i32, month: u32, day: u32) -> Date {
    Date::from_ymd_opt(year, month, day).unwrap()
}

fn at(hour: u32, minute: u32) -> DateTime {
    DateTime::at(ymd(2026, 8, 6), hour, minute, 0).unwrap()
}

fn moment(local: DateTime) -> Moment {
    Moment { instant: Instant { secs: local.secs as i64, nanos: 0 }, local }
}

fn occ(summary: Option<&str>, start: DateTime, end: DateTime, all_day: bool) -> EventOccurrence {
    EventOccurrence {
        uid: "event-1".to_string(),
        calendar_id: "cal-1".to_string(),
        summary: summary.map(str::to_string),
        description: None,
        location: None,
        start: moment(start),
        end: moment(end),
        all_day,
        rrule: None,
        recurrence_id: None,
        exdates: Vec::new(),
        master_start: None,
        master_end: None,
        href: None,
        etag: None,
        master_href: None,
        master_etag: None,
        attendees: Vec::new(),
        organizer: None,
        categories: Vec::new(),
        sensitivity: EventSensitivity::default(),
        transparency: EventTransparency::default(),
        reminder_minutes_before: None,
        conference_url: None,
    }
}

fn info(id: &str, color: Option<&str>) -> CalendarInfo {
    CalendarInfo {
        id: id.to_string(),
        account_id: "account".to_string(),
        display_name: id.to_string(),
        color: color.map(|c| c.to_string()),
        href: format!("/{id}"),
    }
}

#[test]
fn percent_encode_keeps_unreserved_and_encodes_the_rest() {
    assert_eq!(percent_encode("abc-_.~"), "abc-_.~");
    assert_eq!(percent_encode("{\"a\":1}"), "%7B%22a%22%3A1%7D");
}

#[test]
fn percent_decode_round_trips_through_encode() {
    let s = "hello world/with?special&chars=1";
    assert_eq!(percent_decode(&percent_encode(s)), s);
}

#[test]
fn percent_codes_work_on_bytes() {
    assert_eq!(percent_encode("é"), "%C3%A9");
    assert_eq!(percent_decode("%C3%A9%20x"), "é x");
    assert_eq!(percent_decode("%zz"), "%zz");
    assert_eq!(percent_decode("%FF"), "\u{FFFD}");
    assert_eq!(percent_decode("%+A%+fx"), "\n\u{f}x");
    assert_eq!(percent_decode("%++%-1%+g%aé%+"), "%++%-1%+g%aé%+");
    for data in ["%aé", "%4", "%", "%+A", "100%zz"] {
        assert_eq!(parse(&format!("lookout-action:open-event?data={data}")), None);
    }
    assert_eq!(parse("lookout-action:a?data=%41é").unwrap().1, "Aé");
}

#[test]
fn open_event_link_round_trips_to_the_same_json_reminders_uses() {
    let json = "{\"uid\":\"event-1\",\"calendar_id\":\"cal-1\",\"summary\":\"Team sync\",\"all_day\":false}";
    let link = open_event_link(json);
    let (action, payload) = parse(&link).expect("valid lookout-action link");
    assert_eq!(action, "open-event");
    assert_eq!(payload, json);
}

#[test]
fn open_message_link_round_trips_mailbox_and_uid() {
    let link = open_message_link("acct-1:INBOX/Sub", 42);
    let (action, payload) = parse(&link).expect("valid lookout-action link");
    assert_eq!(action, "open-message");
    assert_eq!(payload, "42:acct-1:INBOX/Sub");
    let (uid, parsed_mailbox) = payload.split_once(':').unwrap();
    assert_eq!(uid, "42");
    assert_eq!(parsed_mailbox, "acct-1:INBOX/Sub");
    assert_eq!(parse_message_target(&payload), Some((42, "acct-1:INBOX/Sub".to_string())));
}

#[test]
fn parse_rejects_other_schemes() {
    assert_eq!(parse("https://example.com"), None);
    assert_eq!(parse("mailto:someone@example.com"), None);
    assert_eq!(parse("lookout-action:"), None);
}

#[test]
fn links_are_written_out_and_targets_need_a_number() {
    assert_eq!(build_link("open-event", "a b"), "lookout-action:open-event?data=a%20b");
    assert_eq!(parse_message_target("x:INBOX"), None);
    assert_eq!(parse_message_target("42"), None);
}

#[test]
fn resolve_color_prefers_valid_server_color() {
    assert_eq!(resolve_color(Some("#3584e4"), "#ff0000"), "#3584e4");
    assert_eq!(resolve_color(Some("#ABCDEF"), "#ff0000"), "#ABCDEF");
    assert_eq!(resolve_color(Some("#11223344"), "#ff0000"), "#11223344");
}

#[test]
fn resolve_color_rejects_malformed_server_color() {
    assert_eq!(resolve_color(Some("3584e4"), "#ff0000"), "#ff0000");
    assert_eq!(resolve_color(Some("#xyzzy"), "#ff0000"), "#ff0000");
    assert_eq!(resolve_color(Some("#12"), "#ff0000"), "#ff0000");
    assert_eq!(resolve_color(None, "#ff0000"), "#ff0000");
}

#[test]
fn assign_missing_prefers_server_color_then_palette() {
    let mut map = CalendarColorMap::new();
    let calendars = vec![info("b", Some("#00ff00")), info("a", None)];
    assert!(assign_missing(&mut map, &calendars));
    assert_eq!(map.get("b"), Some("#00ff00"));
    assert_eq!(map.get("a"), Some(CALENDAR_PALETTE[0]));
}

#[test]
fn assign_missing_is_idempotent() {
    let mut map = CalendarColorMap::new();
    let calendars = vec![info("a", None), info("b", None)];
    assert!(assign_missing(&mut map, &calendars));
    let before: Vec<(String, String)> = map.entries.iter().map(|e| (e.id.clone(), e.color.clone())).collect();
    assert!(!assign_missing(&mut map, &calendars));
    let after: Vec<(String, String)> = map.entries.iter().map(|e| (e.id.clone(), e.color.clone())).collect();
    assert_eq!(before, after);
}

#[test]
fn palette_wraps_round_robin() {
    let mut map = CalendarColorMap::new();
    let calendars: Vec<CalendarInfo> = (0..(CALENDAR_PALETTE.len() + 1)).map(|i| info(&format!("c{i:02}"), None)).collect();
    assign_missing(&mut map, &calendars);
    assert_eq!(map.get("c10"), Some(CALENDAR_PALETTE[0]));
}

#[test]
fn colors_stay_and_do_not_depend_on_the_order_of_calendars() {
    let mut map = CalendarColorMap::new();
    map.insert("b", "#010101".to_string());
    assign_missing(&mut map, &vec![info("c", None), info("a", None), info("b", None)]);
    let mut other = CalendarColorMap::new();
    other.insert("b", "#010101".to_string());
    assign_missing(&mut other, &vec![info("a", None), info("b", None), info("c", None)]);
    for id in ["a", "b", "c"] {
        assert_eq!(map.get(id), other.get(id));
    }
    assert_eq!(map.get("b"), Some("#010101"));
    assert_eq!(map.get("c"), Some(CALENDAR_PALETTE[2]));
}

#[test]
fn readable_foreground_contrasts_with_background() {
    assert_eq!(readable_foreground("#ffffff"), "black");
    assert_eq!(readable_foreground("#000000"), "white");
    assert_eq!(readable_foreground("#3584e4"), "white");
    assert_eq!(readable_foreground("#e5a50a"), "black");
    assert_eq!(readable_foreground("#abc"), "black");
    assert_eq!(readable_foreground("not-a-color"), "white");
}

#[test]
fn whole_numbers_agree_with_the_formula_for_brightness() {
    let linear = |c: u8| {
        let c = c as f64 / 255.0;
        if c <= 0.04045 {
            c / 12.92
        } else {
            ((c + 0.055) / 1.055).powf(2.4)
        }
    };
    for c in 0..=255u8 {
        assert!((share_of(c) as f64 - linear(c) * 1e9).abs() <= 1.0, "{c}");
    }
    for r in (0..=255u8).step_by(5) {
        for g in (0..=255u8).step_by(3) {
            for b in (0..=255u8).step_by(5) {
                let bright = 0.2126 * linear(r) + 0.7152 * linear(g) + 0.0722 * linear(b) > 0.4;
                assert_eq!(brightness_of(r, g, b) > 4_000_000_000_000, bright, "{r} {g} {b}");
            }
        }
    }
    assert_eq!(brightness_of(127, 186, 64) > 4_000_000_000_000, {
        0.2126 * linear(127) + 0.7152 * linear(186) + 0.0722 * linear(64) > 0.4
    });
}

#[test]
fn hex_colors_are_read_digit_by_digit() {
    assert_eq!(parse_hex_rgb("#abc"), Some((0xaa, 0xbb, 0xcc)));
    assert_eq!(parse_hex_rgb("#3584E4"), Some((0x35, 0x84, 0xe4)));
    assert_eq!(parse_hex_rgb("#3584e480"), Some((0x35, 0x84, 0xe4)));
    assert_eq!(parse_hex_rgb("#3584e4zz"), None);
    assert_eq!(parse_hex_rgb("#aaaaaé1"), None);
    assert_eq!(parse_hex_rgb("#3584e"), None);
    assert_eq!(parse_hex_rgb("3584e4"), None);
    assert_eq!(parse_hex_rgb("#3584ex"), None);
    assert_eq!(parse_expanded_hex("f0"), None);
    assert_eq!(parse_expanded_hex("f0a1"), Some((0xff, 0x00, 0xaa)));
    assert_eq!(parse_expanded_hex("xyz"), None);
    assert!(is_hex_color("#fff"));
    assert!(!is_hex_color("#ffff"));
    assert_eq!(readable_foreground("#12345é1"), "white");
}

#[test]
fn colors_are_kept_in_the_config_directory() {
    let env = ConfigEnv { xdg_config_home: Some("/cfg".to_string()), home: Some("/home/u".to_string()), user_profile: None };
    assert_eq!(colors_path(&env), "/cfg/lookout/calendar-colors.json");
    let env = ConfigEnv { xdg_config_home: None, home: Some("/home/u".to_string()), user_profile: None };
    assert_eq!(colors_path(&env), "/home/u/.config/lookout/calendar-colors.json");
    let env = ConfigEnv { xdg_config_home: None, home: None, user_profile: Some("/profile/".to_string()) };
    assert_eq!(colors_path(&env), "/profile/.config/lookout/calendar-colors.json");
    let env = ConfigEnv { xdg_config_home: None, home: None, user_profile: None };
    assert_eq!(colors_path(&env), ".config/lookout/calendar-colors.json");
}

#[test]
fn hour_gutter_labels_are_compact_12_hour() {
    assert_eq!(hour_gutter_text(0), "12am");
    assert_eq!(hour_gutter_text(5), "5am");
    assert_eq!(hour_gutter_text(8), "8am");
    assert_eq!(hour_gutter_text(12), "12pm");
    assert_eq!(hour_gutter_text(13), "1pm");
    assert_eq!(hour_gutter_text(17), "5pm");
    assert_eq!(hour_gutter_text(23), "11pm");
    assert_eq!(hour_gutter_text(24), "12am");
    assert_eq!((hour_12(0), meridiem(0)), (12, "am"));
}

#[test]
fn event_times_are_compact_12_hour_with_minutes() {
    assert_eq!(format_event_time(at(9, 30)), "9:30am");
    assert_eq!(format_event_time(at(17, 0)), "5:00pm");
    assert_eq!(format_event_time(at(0, 5)), "12:05am");
    assert_eq!(format_event_time(at(12, 15)), "12:15pm");
}

#[test]
fn account_status_is_none_once_calendars_exist() {
    for state in [
        CalendarConnectionState::Disconnected,
        CalendarConnectionState::Connecting,
        CalendarConnectionState::Idle,
        CalendarConnectionState::Busy,
        CalendarConnectionState::Error { message: "boom".to_string(), retryable: true },
    ] {
        assert_eq!(calendar_account_status_text(&state, true), None);
    }
}

#[test]
fn account_status_maps_connecting_and_disconnected() {
    assert_eq!(calendar_account_status_text(&CalendarConnectionState::Connecting, false).as_deref(), Some("Connecting…"));
    assert_eq!(calendar_account_status_text(&CalendarConnectionState::Disconnected, false).as_deref(), Some("Disconnected"));
}

#[test]
fn account_status_says_no_calendars_when_idle_or_busy_with_none() {
    for state in [CalendarConnectionState::Idle, CalendarConnectionState::Busy] {
        assert_eq!(calendar_account_status_text(&state, false).as_deref(), Some("No calendars found"));
    }
}

#[test]
fn account_status_surfaces_the_session_error() {
    let state = CalendarConnectionState::Error { message: "login failed".to_string(), retryable: true };
    assert_eq!(calendar_account_status_text(&state, false).as_deref(), Some("login failed"));
}

#[test]
fn labels_of_events_say_when_and_what() {
    let timed = occ(Some("Lunch"), at(12, 0), at(13, 5), false);
    let whole = occ(None, at(0, 0), at(0, 0), true);
    assert_eq!(event_label(&timed), "12:00pm Lunch");
    assert_eq!(event_label(&whole), "(untitled)");
    let chip = TimeChip {
        column: 0,
        span: 1,
        lane: 0,
        lanes: 1,
        all_day: false,
        start_minutes: 720,
        end_minutes: 785,
        occurrence: 0,
    };
    assert_eq!(chip_text(&timed, &chip, true), "12:00pm Lunch");
    assert_eq!(chip_text(&timed, &chip, false), "Lunch");
    assert_eq!(chip_tooltip(&timed, &chip), "12:00pm – 1:05pm  Lunch");
    assert_eq!(agenda_row(&whole), ("All day".to_string(), "(untitled)".to_string()));
    assert_eq!(agenda_row(&timed), ("12:00pm".to_string(), "12:00pm – 1:05pm  Lunch".to_string()));
    assert_eq!(more_label(4), "+4 more");
}

#[test]
fn color_rules_carry_the_color_and_a_readable_text() {
    assert_eq!(
        calendar_color_css("#3584e4"),
        ".calendar-event-3584e4 { background-color: #3584e4; color: white; border-radius: 4px; padding: 1px 4px; }\n"
    );
    let both = checklist_css(&vec!["#e5a50a".to_string(), "#56b9c4".to_string()]);
    assert_eq!(both, format!("{}{}", calendar_color_css("#e5a50a"), calendar_color_css("#56b9c4")));
    let mut colors = CalendarColorMap::new();
    colors.insert("cal-1", "#e5a50a".to_string());
    assert_eq!(event_color_class("cal-1", &colors).as_deref(), Some("calendar-event-e5a50a"));
    assert_eq!(event_color_class("cal-2", &colors), None);
    assert_eq!(css_color("#abc"), "#aabbcc");
    assert_eq!(css_color("##12345678"), "#12345678");
    assert_eq!(css_color("red"), "#red");
}

#[test]
fn the_checklist_lists_accounts_and_their_calendars() {
    let mut colors = CalendarColorMap::new();
    colors.insert("a", "#e5a50a".to_string());
    assert!(matches!(rebuild_calendar_checklist(&vec![], &vec![], &colors)[0], ChecklistRow::Placeholder));
    let groups = vec![
        CalendarAccountGroup { display_name: "Home".to_string(), calendars: vec![info("a", None), info("b", None)], status: None },
        CalendarAccountGroup { display_name: "Work".to_string(), calendars: vec![], status: Some("Connecting…".to_string()) },
    ];
    let rows = rebuild_calendar_checklist(&groups, &vec!["b".to_string()], &colors);
    assert_eq!(rows.len(), 5);
    assert!(matches!(&rows[0], ChecklistRow::Header(h) if h == "Home"));
    assert!(matches!(&rows[1], ChecklistRow::Calendar { color, checked, .. } if color == "#e5a50a" && !checked));
    assert!(matches!(&rows[2], ChecklistRow::Calendar { color, checked, .. } if color == DEFAULT_CHECK_COLOR && *checked));
    assert!(matches!(&rows[4], ChecklistRow::Status(s) if s == "Connecting…"));
}

#[test]
fn selections_and_chips_are_painted_where_they_belong() {
    let mon = ymd(2026, 8, 3);
    let range = SlotRange::spanning(mon, 540, ymd(2026, 8, 5), 600);
    assert_eq!(selection_band(&range, mon), Some((540, 1440)));
    assert_eq!(selection_band(&range, ymd(2026, 8, 4)), Some((0, 1440)));
    assert_eq!(selection_band(&range, ymd(2026, 8, 5)), Some((0, 630)));
    assert_eq!(selection_band(&range, ymd(2026, 8, 6)), None);
    let chip = |all_day: bool| TimeChip {
        column: 0,
        span: 1,
        lane: 0,
        lanes: 1,
        all_day,
        start_minutes: 0,
        end_minutes: 60,
        occurrence: 0,
    };
    let chips = vec![chip(true), chip(false), chip(false)];
    assert_eq!(painted_chips(&chips, true, None), vec![0]);
    assert_eq!(painted_chips(&chips, false, Some(1)), vec![2]);
    assert_eq!(ellipsis_candidate("Lunch", 2), "Lu…");
}
