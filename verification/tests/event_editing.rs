//! The event editor: what it opens with, what it saves and what it prints.

use lookout::dates::{Date, DateTime, Instant, Moment, EPOCH_DAY};
use lookout::event_editor::{address_of, apply_edit_scope, attendee_to_token, build_event, build_event_from_input};
use lookout::event_editor::{calendar_event_from_occurrence, date_time_from_form, default_event_times, delete_target, end_with_times};
use lookout::event_editor::{form_categories, format_calendar_date, initial_times, name_of, occurrences_for_day};
use lookout::event_editor::{open_form, reminder_from_index, reminder_index, save_event, save_form, saved_rrule};
use lookout::event_editor::{sensitivity_from_index, sensitivity_index, synthetic_occurrence};
use lookout::event_editor::{transparency_from_index, transparency_index, EventEditorPrefill, EventMeta, FormInput};
use lookout::event_input::{form_input, SeriesChoice};
use lookout::event_print::{printable_event_html, printable_rows, MarkupRow, PrintForm};
use lookout::model::{Attendee, AttendeeRole, AttendeeStatus, EmailAddress, EventOccurrence, EventSensitivity};
use lookout::model::{EventTransparency, RecurrenceRange};

fn ymd(year: i32, month: u32, day: u32) -> Date {
    Date::from_ymd_opt(year, month, day).unwrap()
}

fn at(date: Date, hour: u32, minute: u32) -> DateTime {
    DateTime::at(date, hour, minute, 0).unwrap()
}

fn instant(t: DateTime) -> Instant {
    Instant { secs: (t.date.number as i64 - EPOCH_DAY as i64) * 86400 + t.secs as i64, nanos: 0 }
}

fn moment(t: DateTime) -> Moment {
    Moment { instant: instant(t), local: t }
}

fn base_input() -> FormInput {
    let day = ymd(2026, 8, 12);
    FormInput {
        title: "Sync".to_string(),
        location: String::new(),
        description: String::new(),
        all_day: false,
        start_local: at(day, 9, 0),
        end_local: at(day, 10, 0),
        attendee_tokens: Vec::new(),
        existing_attendees: Vec::new(),
        categories: Vec::new(),
        sensitivity: EventSensitivity::Public,
        transparency: EventTransparency::Busy,
        reminder_minutes_before: None,
        video_enabled: false,
        conference_url_text: String::new(),
        rrule: None,
        recurrence_id: None,
        recurrence_range: RecurrenceRange::default(),
        exdates: Vec::new(),
        owner_email: None,
        existing_meta: None,
    }
}

fn occ(uid: &str, day: Date, recurrence_id: Option<DateTime>) -> EventOccurrence {
    EventOccurrence {
        uid: uid.to_string(),
        calendar_id: "test".to_string(),
        summary: Some(uid.to_string()),
        description: None,
        location: None,
        start: moment(at(day, 9, 0)),
        end: moment(at(day, 10, 0)),
        all_day: false,
        rrule: None,
        recurrence_id: recurrence_id.map(instant),
        exdates: Vec::new(),
        master_start: None,
        master_end: None,
        href: None,
        etag: None,
        master_href: None,
        master_etag: None,
        attendees: Vec::new(),
        organizer: None,
        categories: Vec::new(),
        sensitivity: EventSensitivity::default(),
        transparency: EventTransparency::default(),
        reminder_minutes_before: None,
        conference_url: None,
    }
}

#[test]
fn occurrences_for_day_excludes_the_event_being_edited() {
    let day = ymd(2026, 8, 12);
    let all = [occ("evt-1", day, None), occ("evt-2", day, None)];
    let editing = occ("evt-1", day, None);
    let result = occurrences_for_day(&all, day, Some(&editing));
    let uids: Vec<&str> = result.iter().map(|o| o.uid.as_str()).collect();
    assert_eq!(uids, vec!["evt-2"]);
}

#[test]
fn occurrences_for_day_returns_everything_for_a_brand_new_event() {
    let day = ymd(2026, 8, 12);
    let all = [occ("evt-1", day, None), occ("evt-2", day, None)];
    let result = occurrences_for_day(&all, day, None);
    let uids: Vec<&str> = result.iter().map(|o| o.uid.as_str()).collect();
    assert_eq!(uids, vec!["evt-1", "evt-2"]);
    assert!(occurrences_for_day(&all, ymd(2026, 8, 13), None).is_empty());
}

#[test]
fn occurrences_for_day_keeps_a_different_instance_of_the_same_recurring_series() {
    let day = ymd(2026, 8, 12);
    let editing = occ("series", day, Some(at(day, 9, 0)));
    let all = [occ("series", day, Some(at(day, 9, 0))), occ("series", day, Some(at(day, 15, 0)))];
    let result = occurrences_for_day(&all, day, Some(&editing));
    assert_eq!(result.iter().map(|o| o.recurrence_id).collect::<Vec<_>>(), vec![all[1].recurrence_id]);
}

#[test]
fn rejects_end_before_start() {
    let mut input = base_input();
    input.end_local = at(ymd(2026, 8, 12), 8, 0);
    assert!(build_event_from_input(input).is_err());
    let mut input = base_input();
    input.end_local = at(ymd(2026, 8, 12), 8, 0);
    assert_eq!(build_event(input, "u".to_string()).unwrap_err(), "The event's end must be after its start.");
}

#[test]
fn includes_new_attendees_as_needs_action() {
    let mut input = base_input();
    input.attendee_tokens = vec!["Alice <alice@example.com>".to_string()];
    input.owner_email = Some("me@example.com".to_string());
    let event = build_event_from_input(input).unwrap();
    assert_eq!(event.attendees.len(), 1);
    assert_eq!(event.attendees[0].address.address, "alice@example.com");
    assert_eq!(event.attendees[0].address.name.as_deref(), Some("Alice"));
    assert_eq!(event.attendees[0].status, AttendeeStatus::NeedsAction);
    assert_eq!(event.organizer.as_ref().map(|o| o.address.as_str()), Some("me@example.com"));
}

#[test]
fn preserves_existing_attendee_status() {
    let mut input = base_input();
    input.attendee_tokens = vec!["alice@example.com".to_string()];
    input.existing_attendees = vec![Attendee {
        address: EmailAddress::new("alice@example.com"),
        role: AttendeeRole::Required,
        status: AttendeeStatus::Accepted,
    }];
    let event = build_event_from_input(input).unwrap();
    assert_eq!(event.attendees[0].status, AttendeeStatus::Accepted);
}

#[test]
fn omits_organizer_without_attendees_even_with_owner_email() {
    let mut input = base_input();
    input.owner_email = Some("me@example.com".to_string());
    let event = build_event_from_input(input).unwrap();
    assert!(event.organizer.is_none());
}

#[test]
fn omits_conference_url_when_toggle_off_even_if_url_field_has_text() {
    let mut input = base_input();
    input.video_enabled = false;
    input.conference_url_text = "https://example.com/join".to_string();
    let event = build_event_from_input(input).unwrap();
    assert!(event.conference_url.is_none());
}

#[test]
fn includes_conference_url_when_toggle_on() {
    let mut input = base_input();
    input.video_enabled = true;
    input.conference_url_text = "https://example.com/join".to_string();
    let event = build_event_from_input(input).unwrap();
    assert_eq!(event.conference_url.as_deref(), Some("https://example.com/join"));
}

#[test]
fn calendar_event_from_occurrence_preserves_metadata_and_replaces_times() {
    let day = ymd(2026, 8, 12);
    let mut o = occ("evt-1@example.com", day, None);
    o.calendar_id = "work".to_string();
    o.summary = Some("Sync".to_string());
    o.description = Some("Agenda".to_string());
    o.location = Some("HQ".to_string());
    o.href = Some("https://dav.example.com/cal/evt-1.ics".to_string());
    o.etag = Some("\"abc\"".to_string());
    o.attendees = vec![Attendee {
        address: EmailAddress::new("alice@example.com"),
        role: AttendeeRole::Required,
        status: AttendeeStatus::Accepted,
    }];
    o.organizer = Some(EmailAddress::new("me@example.com"));
    o.categories = vec!["team".to_string()];
    o.sensitivity = EventSensitivity::Private;
    o.transparency = EventTransparency::Free;
    o.reminder_minutes_before = Some(10);
    o.conference_url = Some("https://meet.example.com/x".to_string());

    let moved = at(ymd(2026, 8, 13), 14, 0);
    let moved_end = at(ymd(2026, 8, 13), 16, 0);
    let event = calendar_event_from_occurrence(&o, moved, moved_end);
    assert_eq!(event.uid, o.uid);
    assert_eq!(event.calendar_id, o.calendar_id);
    assert_eq!(event.summary.as_deref(), Some("Sync"));
    assert_eq!(event.description.as_deref(), Some("Agenda"));
    assert_eq!(event.location.as_deref(), Some("HQ"));
    assert_eq!(event.href, o.href);
    assert_eq!(event.etag, o.etag);
    assert_eq!(event.attendees.len(), 1);
    assert_eq!(event.attendees[0].status, AttendeeStatus::Accepted);
    assert_eq!(event.organizer.map(|a| a.address), o.organizer.map(|a| a.address));
    assert_eq!(event.categories, o.categories);
    assert_eq!(event.sensitivity, EventSensitivity::Private);
    assert_eq!(event.transparency, EventTransparency::Free);
    assert_eq!(event.reminder_minutes_before, Some(10));
    assert_eq!(event.conference_url.as_deref(), Some("https://meet.example.com/x"));
    assert_eq!(event.start, moved);
    assert_eq!(event.end, moved_end);
}

#[test]
fn calendar_event_from_occurrence_applies_the_exclusive_end_convention_for_all_day() {
    let mut o = occ("evt-2@example.com", ymd(2026, 8, 12), None);
    o.calendar_id = "work".to_string();
    o.summary = None;
    o.start = moment(at(ymd(2026, 8, 12), 0, 0));
    o.end = moment(at(ymd(2026, 8, 14), 0, 0));
    o.all_day = true;
    let moved = at(ymd(2026, 8, 20), 0, 0);
    let event = calendar_event_from_occurrence(&o, moved, at(ymd(2026, 8, 21), 0, 0));
    assert_eq!(event.start, moved);
    assert_eq!(event.end, at(ymd(2026, 8, 22), 0, 0));
    assert!(event.all_day);
}

#[test]
fn apply_edit_scope_this_turns_a_plain_expansion_into_a_fresh_override() {
    let day = ymd(2026, 8, 12);
    let instance = instant(at(day, 9, 0));
    let mut o = occ("evt-3@example.com", day, None);
    o.calendar_id = "work".to_string();
    o.summary = Some("Sync".to_string());
    o.rrule = Some("FREQ=WEEKLY".to_string());
    o.exdates = vec![instant(at(ymd(2026, 8, 19), 9, 0))];
    o.master_start = Some(moment(at(day, 9, 0)));
    o.master_end = Some(moment(at(day, 10, 0)));
    o.href = Some("https://dav.example.com/cal/master.ics".to_string());
    o.etag = Some("\"m1\"".to_string());
    let edited = at(day, 11, 0);
    let edited_end = at(day, 13, 0);

    let mut event = calendar_event_from_occurrence(&o, edited, edited_end);
    apply_edit_scope(&mut event, 0, Some(&o));
    assert_eq!(event.recurrence_id, Some(instance));
    assert_eq!(event.recurrence_range, RecurrenceRange::This);
    assert_eq!(event.rrule, None);
    assert!(event.exdates.is_empty());
    assert_eq!(event.href, None);
    assert_eq!(event.etag, None);

    o.recurrence_id = Some(instance);
    o.href = Some("https://dav.example.com/cal/override.ics".to_string());
    o.etag = Some("\"o1\"".to_string());
    o.master_href = Some("https://dav.example.com/cal/master.ics".to_string());
    o.master_etag = Some("\"m1\"".to_string());
    let mut event = calendar_event_from_occurrence(&o, edited, edited_end);
    apply_edit_scope(&mut event, 0, Some(&o));
    assert_eq!(event.recurrence_id, Some(instance));
    assert_eq!(event.href.as_deref(), Some("https://dav.example.com/cal/override.ics"));
    assert_eq!(event.etag.as_deref(), Some("\"o1\""));

    let mut event = calendar_event_from_occurrence(&o, edited, edited_end);
    apply_edit_scope(&mut event, 1, Some(&o));
    assert_eq!(event.recurrence_range, RecurrenceRange::ThisAndFuture);
    assert_eq!(event.rrule.as_deref(), Some("FREQ=WEEKLY"));

    let mut event = calendar_event_from_occurrence(&o, edited, edited_end);
    event.rrule = Some("FREQ=WEEKLY".to_string());
    apply_edit_scope(&mut event, 2, Some(&o));
    assert_eq!(event.href.as_deref(), Some("https://dav.example.com/cal/master.ics"));
    assert_eq!(event.etag.as_deref(), Some("\"m1\""));

    o.rrule = None;
    o.recurrence_id = None;
    o.exdates = Vec::new();
    let mut event = calendar_event_from_occurrence(&o, edited, edited_end);
    apply_edit_scope(&mut event, 0, Some(&o));
    assert_eq!(event.recurrence_id, None);
    assert_eq!(event.rrule, None);
}

#[test]
fn a_new_event_gets_an_id_and_an_edited_one_keeps_its_own() {
    let event = build_event_from_input(base_input()).unwrap();
    assert_eq!(event.uid.len(), 36);
    let other = build_event_from_input(base_input()).unwrap();
    assert_ne!(event.uid, other.uid);
    let mut input = base_input();
    input.existing_meta = Some(EventMeta { uid: "kept".to_string(), href: Some("/h".to_string()), etag: None });
    let event = build_event(input, "fresh".to_string()).unwrap();
    assert_eq!(event.uid, "kept");
    assert_eq!(event.href.as_deref(), Some("/h"));
}

#[test]
fn saving_needs_a_calendar() {
    let calendars = vec!["a".to_string(), "b".to_string()];
    let event = save_event(base_input(), &calendars, 1, 0, None, "fresh".to_string()).unwrap();
    assert_eq!(event.calendar_id, "b");
    assert_eq!(event.uid, "fresh");
    let error = save_form(base_input(), &calendars, 2, 0, None).unwrap_err();
    assert_eq!(error, "No calendar selected.");
    assert_eq!(delete_target(&calendars, 0).as_deref(), Ok("a"));
    assert_eq!(delete_target(&calendars, 2).unwrap_err(), "No calendar selected.");
}

#[test]
fn new_events_start_at_the_next_whole_hour() {
    let day = ymd(2026, 8, 12);
    assert_eq!(default_event_times(at(day, 9, 20)), (at(day, 10, 0), at(day, 11, 0)));
    assert_eq!(default_event_times(at(day, 23, 59)), (at(ymd(2026, 8, 13), 0, 0), at(ymd(2026, 8, 13), 1, 0)));
    assert_eq!(end_with_times(at(day, 9, 0), at(day, 9, 0)), at(day, 10, 0));
    assert_eq!(end_with_times(at(day, 9, 0), at(day, 9, 30)), at(day, 9, 30));
    assert_eq!(date_time_from_form(day, 14, 30, false), at(day, 14, 30));
    assert_eq!(date_time_from_form(day, 14, 30, true), at(day, 0, 0));
}

#[test]
fn the_form_opens_with_the_event_or_the_suggestion() {
    let day = ymd(2026, 8, 12);
    let calendars = vec!["a".to_string(), "test".to_string()];
    let mut o = occ("evt", day, None);
    o.rrule = Some("FREQ=DAILY".to_string());
    o.categories = vec!["x".to_string(), "y".to_string()];
    o.attendees = vec![Attendee {
        address: EmailAddress { name: Some("Al".to_string()), address: "al@x".to_string() },
        role: AttendeeRole::Required,
        status: AttendeeStatus::NeedsAction,
    }];
    let prefill = EventEditorPrefill {
        calendar_ids: &calendars,
        default_calendar: "test",
        existing: Some(&o),
        suggested_start: None,
        suggested_end: None,
        read_only: false,
    };
    let form = open_form(&prefill, at(day, 7, 0));
    assert_eq!(form.dialog_title, "Edit event");
    assert_eq!(form.calendar, Some(1));
    assert!(!form.calendar_open);
    assert_eq!(form.attendees, "Al <al@x>");
    assert_eq!(form.categories, "x, y");
    assert!(form.series_note && form.scope_open && form.delete_shown);
    assert!(form.editable && form.save_shown);

    let new = EventEditorPrefill {
        existing: None,
        suggested_start: Some(at(day, 15, 0)),
        suggested_end: Some(at(day, 15, 30)),
        ..prefill
    };
    let form = open_form(&new, at(day, 7, 0));
    assert_eq!((form.dialog_title, form.save_label), ("New event", "Add"));
    assert_eq!((form.start, form.end), (at(day, 15, 0), at(day, 15, 30)));
    assert_eq!(initial_times(None, None, None, at(day, 7, 0)), (at(day, 8, 0), at(day, 9, 0)));
}

#[test]
fn recipients_are_taken_apart() {
    assert_eq!(name_of("\"Lovelace, Ada\" <ada@x>").as_deref(), Some("Lovelace, Ada"));
    assert_eq!(name_of("ada@x"), None);
    assert_eq!(address_of("Ada <ada@x>"), "ada@x");
    assert_eq!(address_of("  ada@x "), "ada@x");
    let attendee = Attendee {
        address: EmailAddress { name: Some(" ".to_string()), address: "al@x".to_string() },
        role: AttendeeRole::Optional,
        status: AttendeeStatus::Tentative,
    };
    assert_eq!(attendee_to_token(&attendee), "al@x");
}

#[test]
fn choices_are_numbered_both_ways() {
    for i in 0..3 {
        assert_eq!(sensitivity_index(sensitivity_from_index(i)), i);
    }
    for i in 0..2 {
        assert_eq!(transparency_index(transparency_from_index(i)), i);
    }
    for i in 0..4 {
        assert_eq!(reminder_index(reminder_from_index(i)), i);
    }
    assert_eq!(reminder_from_index(0), None);
    assert_eq!(saved_rrule(Some("RAW".to_string()), None).as_deref(), Some("RAW"));
    assert_eq!(saved_rrule(Some("RAW".to_string()), Some("NEW".to_string())).as_deref(), Some("NEW"));
    assert_eq!(form_categories(" a, ,b "), vec!["a", "b"]);
    assert_eq!(format_calendar_date(2026, 8, 5), "Wed, Aug 5");
    assert_eq!(format_calendar_date(2026, 2, 30), "");
}

#[test]
fn the_preview_stands_for_the_event_in_the_form() {
    let day = ymd(2026, 8, 12);
    let o = synthetic_occurrence("cal".to_string(), "  ", moment(at(day, 9, 0)), moment(at(day, 10, 0)), false);
    assert_eq!(o.summary.as_deref(), Some("(untitled)"));
    assert_eq!(o.calendar_id, "cal");
}

#[test]
fn a_printed_event_lists_what_the_form_holds() {
    let day = ymd(2026, 8, 12);
    let form = PrintForm {
        all_day: false,
        start: at(day, 9, 0),
        end: at(day, 10, 30),
        unrepresentable_rule: None,
        rule: None,
        calendar: Some("Work".to_string()),
        location: String::new(),
        attendees: vec!["a@x".to_string(), "b@x".to_string()],
        video_enabled: true,
        conference_url: String::new(),
        categories: String::new(),
        transparency: 1,
        sensitivity: 2,
        reminder: 0,
    };
    let rows = printable_rows(&form);
    let find = |label: &str| rows.iter().find(|r| r.label == label).map(|r| r.value.as_str());
    assert_eq!(find("When"), Some("Wednesday, August 12, 2026 · 09:00 – Wednesday, August 12, 2026 · 10:30"));
    assert_eq!(find("Series"), Some("Does not repeat"));
    assert_eq!(find("Location"), None);
    assert_eq!(find("Attendees"), Some("a@x, b@x"));
    assert_eq!(find("Video call"), Some("Yes"));
    assert_eq!(find("Show as"), Some("Free"));
    assert_eq!(find("Sensitivity"), Some("Confidential"));
    let html = printable_event_html("T", &vec![MarkupRow { label: "L".to_string(), value: "V".to_string() }], "");
    assert!(html.contains("<h1>T</h1><table><tr><th>L</th><td>V</td></tr></table></body>"));
}

#[test]
fn saving_an_unedited_form_keeps_what_it_does_not_show() {
    let day = ymd(2026, 8, 12);
    let calendars = vec!["test".to_string()];
    let mut o = occ("evt", day, None);
    o.href = Some("/evt.ics".to_string());
    o.etag = Some("\"7\"".to_string());
    o.rrule = Some("FREQ=DAILY;BYSETPOS=1".to_string());
    o.exdates = vec![instant(at(ymd(2026, 8, 13), 9, 0))];
    o.sensitivity = EventSensitivity::Confidential;
    o.transparency = EventTransparency::Free;
    o.reminder_minutes_before = Some(30);
    o.attendees = vec![Attendee {
        address: EmailAddress { name: Some("Al".to_string()), address: "al@x".to_string() },
        role: AttendeeRole::Required,
        status: AttendeeStatus::Accepted,
    }];
    let prefill = EventEditorPrefill {
        calendar_ids: &calendars,
        default_calendar: "test",
        existing: Some(&o),
        suggested_start: None,
        suggested_end: None,
        read_only: false,
    };
    let mut form = open_form(&prefill, at(day, 7, 0));
    let kept = SeriesChoice { chosen: None, unreadable: o.rrule.clone() };
    let input = form_input(&form, Some(&o), kept, Some("me@x".to_string()));
    assert_eq!((input.start_local, input.end_local), (form.start, form.end));
    let saved = save_form(input, &calendars, 0, 2, Some(&o)).unwrap();
    assert_eq!((saved.uid.as_str(), saved.href.as_deref(), saved.etag.as_deref()), ("evt", Some("/evt.ics"), Some("\"7\"")));
    assert_eq!(saved.rrule, o.rrule);
    assert_eq!(saved.exdates, o.exdates);
    assert_eq!((saved.sensitivity, saved.transparency), (EventSensitivity::Confidential, EventTransparency::Free));
    assert_eq!(saved.reminder_minutes_before, Some(30));
    assert_eq!(saved.attendees.len(), 1);
    assert_eq!(saved.attendees[0].status, AttendeeStatus::Accepted);
    assert_eq!(saved.organizer.unwrap().address, "me@x");

    form.attendees = "Al <al@x>, \"Lovelace, Ada\" <ada@x>".to_string();
    form.categories = "x, , y".to_string();
    form.all_day = true;
    form.start = at(day, 9, 30);
    let chosen = SeriesChoice { chosen: Some("FREQ=WEEKLY".to_string()), unreadable: o.rrule.clone() };
    let input = form_input(&form, Some(&o), chosen, None);
    assert_eq!(input.attendee_tokens.len(), 2);
    assert_eq!(input.categories, vec!["x", "y"]);
    assert_eq!(input.start_local, at(day, 0, 0));
    assert_eq!(input.rrule.as_deref(), Some("FREQ=WEEKLY"));
    assert_eq!(input.existing_attendees.len(), 1);

    let none = SeriesChoice { chosen: None, unreadable: None };
    let fresh = form_input(&open_form(&EventEditorPrefill { existing: None, ..prefill }, at(day, 7, 0)), None, none, None);
    assert!(fresh.existing_meta.is_none() && fresh.exdates.is_empty() && fresh.rrule.is_none());
}
