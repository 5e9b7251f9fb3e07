//! The event editor: what its form opens with, and the event that is saved.

use crate::calendar_days::covers;
use crate::dates::{formatted, Date, DateTime, Instant, Moment, MAX_DAY, MIN_DAY};
use crate::fresh_ids::{new_uuid, uuid_shape};
use crate::model::{address_label, clone_strings, full_label, text_of, texts_of, EmailAddressView};
use crate::model::{Attendee, AttendeeRole, AttendeeStatus, CalendarEvent, EmailAddress, EventOccurrence};
use crate::model::{EventSensitivity, EventTransparency, RecurrenceRange};
use crate::pieces::{eq_ignore_ascii_case, join, joined, same_ignoring_case, tags, tags_of};
use crate::text::{blank, first_of, lemma_blank_is_all_white, lemma_first_of, lemma_trimmed_fixed, same};
use crate::text::{split_once, strip_back, strip_front, white};
use crate::text::{trim, trim_end_matches, trim_start_matches, trimmed};
use vstd::prelude::*;

verus! {

/// An attendee as text.
pub struct AttendeeView {
    pub address: EmailAddressView,
    pub role: AttendeeRole,
    pub status: AttendeeStatus,
}

impl View for Attendee {
    type V = AttendeeView;

    open spec fn view(&self) -> AttendeeView {
        AttendeeView { address: self.address@, role: self.role, status: self.status }
    }
}

/// Attendees as text.
pub open spec fn attendee_views(v: Seq<Attendee>) -> Seq<AttendeeView> {
    v.map_values(|a: Attendee| a@)
}

/// The entry of a recipient field for an attendee: `Name <address>`, or the address alone.
pub fn attendee_to_token(attendee: &Attendee) -> (r: String)
    ensures
        r@ == full_label(attendee@.address),
{
    address_label(&attendee.address)
}

/// A text without quotation marks around it.
pub open spec fn unquoted_name(s: Seq<char>) -> Seq<char> {
    trimmed(
        strip_back(strip_front(trimmed(s), |c: char| c == '"'), |c: char| c == '"'),
    )
}

/// The name in an entry of a recipient field: what stands before the first `<`, without quotation
/// marks; nothing if there is no `<` or no name.
pub open spec fn token_name(token: Seq<char>) -> Option<Seq<char>> {
    let k = first_of(token, '<');
    if k < token.len() && unquoted_name(token.take(k)).len() > 0 {
        Some(unquoted_name(token.take(k)))
    } else {
        None
    }
}

/// The name in an entry of a recipient field.
pub fn name_of(token: &str) -> (r: Option<String>)
    ensures
        text_of(r) == token_name(token@),
{
    match split_once(token, '<') {
        None => None,
        Some((before, _)) => {
            let name = trim(trim_end_matches(trim_start_matches(trim(before), '"'), '"'));
            if name.is_empty() {
                None
            } else {
                Some(name.to_owned())
            }
        },
    }
}

/// The address in an entry of a recipient field: what stands between the first `<` and the `>`
/// behind it, or the whole entry if there is no `<`, without white space around it.
pub open spec fn token_address(token: Seq<char>) -> Seq<char> {
    let k = first_of(token, '<');
    if k < token.len() {
        let rest = token.skip(k + 1);
        trimmed(rest.take(first_of(rest, '>')))
    } else {
        trimmed(token)
    }
}

/// The address in an entry of a recipient field.
pub fn address_of(token: &str) -> (r: &str)
    ensures
        r@ == token_address(token@),
{
    match split_once(token, '<') {
        None => {
            proof {
                lemma_first_of(token@, '<');
            }
            trim(token)
        },
        Some((_, rest)) => {
            proof {
                lemma_first_of(token@, '<');
                lemma_first_of(rest@, '>');
            }
            match split_once(rest, '>') {
                None => {
                    assert(rest@.take(first_of(rest@, '>')) =~= rest@);
                    trim(rest)
                },
                Some((inside, _)) => trim(inside),
            }
        },
    }
}

/// An occurrence is another one than the one that is edited: another event, or another instance of
/// the same series.
pub open spec fn other_than(o: EventOccurrence, existing: Option<EventOccurrence>) -> bool {
    match existing {
        None => true,
        Some(e) => o.uid@ != e.uid@ || o.recurrence_id != e.recurrence_id,
    }
}

/// An occurrence that the preview of a day shows beside the one that is edited.
pub open spec fn previewed(day: int, existing: Option<EventOccurrence>) -> spec_fn(EventOccurrence) -> bool {
    |o: EventOccurrence| covers(o, day) && other_than(o, existing)
}

/// An optional reference as an optional value.
pub open spec fn deref(o: Option<&EventOccurrence>) -> Option<EventOccurrence> {
    match o {
        Some(e) => Some(*e),
        None => None,
    }
}

/// The occurrences of a day, in order, without the one that is edited.
pub fn occurrences_for_day<'a>(
    month_occurrences: &'a [EventOccurrence],
    day: Date,
    existing: Option<&EventOccurrence>,
) -> (r: Vec<&'a EventOccurrence>)
    ensures
        r@.unref() == month_occurrences@.filter(previewed(day.number as int, deref(existing))),
{
    let ghost keep = previewed(day.number as int, deref(existing));
    let ghost all = month_occurrences@;
    let mut out: Vec<&'a EventOccurrence> = Vec::new();
    let mut i: usize = 0;
    assert(all.take(0).filter(keep) =~= Seq::<EventOccurrence>::empty());
    assert(out@.unref() =~= all.take(0).filter(keep));
    while i < month_occurrences.len()
        invariant
            i <= month_occurrences.len(),
            all == month_occurrences@,
            keep == previewed(day.number as int, deref(existing)),
            out@.unref() == all.take(i as int).filter(keep),
        decreases month_occurrences.len() - i,
    {
        let o = &month_occurrences[i];
        let ghost before = out@.unref();
        proof {
            assert(all.take(i + 1) =~= all.take(i as int).push(*o));
            all.take(i as int).lemma_filter_push(*o, keep);
        }
        let on_day = match crate::calendar_days::occurrence_day_range(o, day, 1) {
            Some(_) => true,
            None => false,
        };
        assert(on_day == covers(*o, day.number as int)) by {
            assert(covers(*o, day.number + 0) == covers(*o, day.number as int));
        }
        let other = match existing {
            None => true,
            Some(e) => !same(&o.uid, &e.uid) || !same_instant(o.recurrence_id, e.recurrence_id),
        };
        if on_day && other {
            out.push(o);
            assert(out@.unref() =~= before.push(*o));
        }
        i += 1;
    }
    assert(all.take(i as int) =~= all);
    out
}

fn same_instant(a: Option<Instant>, b: Option<Instant>) -> (r: bool)
    ensures
        r == (a == b),
{
    match (a, b) {
        (None, None) => true,
        (Some(x), Some(y)) => x == y,
        _ => false,
    }
}

/// The occurrence that the preview shows for the event in the form.
pub fn synthetic_occurrence(calendar_id: String, title: &str, start: Moment, end: Moment, all_day: bool) -> (r:
    EventOccurrence)
    ensures
        r.uid@ == "__lookout_preview__"@,
        r.calendar_id == calendar_id,
        text_of(r.summary) == Some(
            if blank(title@) {
                "(untitled)"@
            } else {
                trimmed(title@)
            },
        ),
        r.start == start,
        r.end == end,
        r.all_day == all_day,
        r.description is None && r.location is None && r.rrule is None && r.recurrence_id is None,
        r.master_start is None && r.master_end is None && r.href is None && r.etag is None,
        r.master_href is None && r.master_etag is None && r.organizer is None,
        r.reminder_minutes_before is None && r.conference_url is None,
        r.exdates@.len() == 0 && r.attendees@.len() == 0 && r.categories@.len() == 0,
        r.sensitivity == EventSensitivity::Public,
        r.transparency == EventTransparency::Busy,
{
    let t = trim(title);
    let summary = if t.is_empty() {
        "(untitled)".to_owned()
    } else {
        t.to_owned()
    };
    EventOccurrence {
        uid: "__lookout_preview__".to_owned(),
        calendar_id,
        summary: Some(summary),
        description: None,
        location: None,
        start,
        end,
        all_day,
        rrule: None,
        recurrence_id: None,
        exdates: Vec::new(),
        master_start: None,
        master_end: None,
        href: None,
        etag: None,
        master_href: None,
        master_etag: None,
        attendees: Vec::new(),
        organizer: None,
        categories: Vec::new(),
        sensitivity: EventSensitivity::Public,
        transparency: EventTransparency::Busy,
        reminder_minutes_before: None,
        conference_url: None,
    }
}

/// A time, in seconds since the midnight before day 0, is in the range of dates.
pub open spec fn in_dates(stamp: int) -> bool {
    MIN_DAY * 86400 <= stamp < (MAX_DAY + 1) * 86400
}

/// The times of a new event: from the next whole hour to the one after it.
pub fn default_event_times(now: DateTime) -> (r: (DateTime, DateTime))
    requires
        now.valid(),
        in_dates((now.stamp() / 3600 + 2) * 3600),
    ensures
        r.0.valid(),
        r.1.valid(),
        r.0.stamp() == (now.stamp() / 3600 + 1) * 3600,
        r.1.stamp() == r.0.stamp() + 3600,
{
    let hour: u32 = now.hour();
    let start = if hour == 23 {
        DateTime { date: now.date.plus_days(1), secs: 0 }
    } else {
        DateTime { date: now.date, secs: (hour + 1) * 3600 }
    };
    proof {
        assert(now.stamp() / 3600 == now.date.number * 24 + now.secs as int / 3600);
        assert(now.secs / 3600 <= 23);
    }
    (start, start.plus_hour())
}

/// The time that the form shows: midnight for all-day events and for an hour and minute that do
/// not exist.
pub fn date_time_from_form(date: Date, hour: u32, minute: u32, all_day: bool) -> (r: DateTime)
    ensures
        r.date == date,
        r.secs == if !all_day && hour < 24 && minute < 60 {
            hour * 3600 + minute * 60
        } else {
            0
        },
        date.valid() ==> r.valid(),
{
    if all_day {
        return DateTime { date, secs: 0 };
    }
    match DateTime::at(date, hour, minute, 0) {
        Some(t) => t,
        None => DateTime { date, secs: 0 },
    }
}

/// When the end that the form shows is the last day of an all-day event, the event ends a day
/// later.
pub open spec fn model_end_stamp(all_day: bool, end: DateTime) -> int {
    if all_day {
        end.stamp() + 86400
    } else {
        end.stamp()
    }
}

/// When an event ends whose form shows an end.
pub fn model_end(all_day: bool, end: DateTime) -> (r: DateTime)
    requires
        end.valid(),
        all_day ==> end.date.number < MAX_DAY,
    ensures
        r.valid(),
        r.stamp() == model_end_stamp(all_day, end),
        r.secs == end.secs,
{
    if all_day {
        end.plus_days(1)
    } else {
        end
    }
}

/// The times that the form opens with: those of the series of an event that is one, those of any
/// other event that is edited, those that were suggested, an hour from the suggested start, or the
/// default. The form shows the last day of an all-day event, which is a day before its end.
pub open spec fn opening_times(
    existing: Option<EventOccurrence>,
    suggested_start: Option<DateTime>,
    suggested_end: Option<DateTime>,
    default_start: int,
) -> (int, int) {
    match existing {
        Some(occ) => {
            let whole_series = occ.recurrence_id is None && occ.master_start is Some && occ.master_end is Some;
            let start = if whole_series {
                (occ.master_start->0).local
            } else {
                occ.start.local
            };
            let end = if whole_series {
                (occ.master_end->0).local
            } else {
                occ.end.local
            };
            (start.stamp(), end.stamp() - if occ.all_day {
                86400int
            } else {
                0int
            })
        },
        None => match suggested_start {
            Some(start) => (start.stamp(), match suggested_end {
                Some(end) => end.stamp(),
                None => start.stamp() + 3600,
            }),
            None => (default_start, default_start + 3600),
        },
    }
}

/// The times of an occurrence are in the range of dates.
pub open spec fn valid_times(occ: EventOccurrence) -> bool {
    &&& occ.start.local.valid()
    &&& occ.end.local.valid()
    &&& occ.master_start matches Some(m) ==> m.local.valid()
    &&& occ.master_end matches Some(m) ==> m.local.valid()
}

/// The times that the form opens with are in the range of dates.
pub open spec fn opens_in_dates(
    existing: Option<EventOccurrence>,
    suggested_start: Option<DateTime>,
    suggested_end: Option<DateTime>,
    now: DateTime,
) -> bool {
    &&& existing matches Some(occ) ==> valid_times(occ)
    &&& suggested_start matches Some(t) ==> t.valid()
    &&& suggested_end matches Some(t) ==> t.valid()
    &&& now.valid()
    &&& in_dates(
        opening_times(existing, suggested_start, suggested_end, (now.stamp() / 3600 + 1) * 3600).1,
    )
}

/// The times that the form opens with.
pub fn initial_times(
    existing: Option<&EventOccurrence>,
    suggested_start: Option<DateTime>,
    suggested_end: Option<DateTime>,
    now: DateTime,
) -> (r: (DateTime, DateTime))
    requires
        opens_in_dates(deref(existing), suggested_start, suggested_end, now),
    ensures
        r.0.valid(),
        r.1.valid(),
        (r.0.stamp(), r.1.stamp()) == opening_times(
            deref(existing),
            suggested_start,
            suggested_end,
            (now.stamp() / 3600 + 1) * 3600,
        ),
{
    match existing {
        Some(occ) => {
            let (start, end) = match (occ.recurrence_id, occ.master_start, occ.master_end) {
                (None, Some(s), Some(e)) => (s.local, e.local),
                _ => (occ.start.local, occ.end.local),
            };
            if occ.all_day {
                (start, end.plus_days(-1))
            } else {
                (start, end)
            }
        },
        None => match suggested_start {
            Some(start) => match suggested_end {
                Some(end) => (start, end),
                None => (start, start.plus_hour()),
            },
            None => default_event_times(now),
        },
    }
}

/// The end that the form shows once it is no longer for an all-day event: an hour behind the start
/// if it would not be behind the start otherwise.
pub fn end_with_times(start: DateTime, end: DateTime) -> (r: DateTime)
    requires
        start.valid(),
        end.valid(),
        end.stamp() <= start.stamp() ==> in_dates(start.stamp() + 3600),
    ensures
        r.valid(),
        r.stamp() == if end.stamp() <= start.stamp() {
            start.stamp() + 3600
        } else {
            end.stamp()
        },
        r.stamp() > start.stamp(),
{
    if end.no_later_than(start) {
        start.plus_hour()
    } else {
        end
    }
}

/// The minutes before an event at which the reminders of the form come; the first one is no
/// reminder.
pub open spec fn reminder_at(index: int) -> Option<i64> {
    if index == 1 {
        Some(0i64)
    } else if index == 2 {
        Some(5i64)
    } else if index == 3 {
        Some(10i64)
    } else if index == 4 {
        Some(15i64)
    } else if index == 5 {
        Some(30i64)
    } else if index == 6 {
        Some(60i64)
    } else if index == 7 {
        Some(1440i64)
    } else {
        None
    }
}

/// The reminder that is selected in the form.
pub fn reminder_from_index(index: usize) -> (r: Option<i64>)
    ensures
        r == reminder_at(index as int),
{
    match index {
        1 => Some(0),
        2 => Some(5),
        3 => Some(10),
        4 => Some(15),
        5 => Some(30),
        6 => Some(60),
        7 => Some(1440),
        _ => None,
    }
}

/// Which reminder of the form an event has: none if the form does not offer its reminder.
pub fn reminder_index(minutes: Option<i64>) -> (r: usize)
    ensures
        r < 8,
        r > 0 ==> minutes is Some,
        reminder_at(r as int) == minutes || (r == 0 && forall|k: int| 0 <= k ==> #[trigger] reminder_at(k)
            != minutes),
{
    match minutes {
        Some(0) => 1,
        Some(5) => 2,
        Some(10) => 3,
        Some(15) => 4,
        Some(30) => 5,
        Some(60) => 6,
        Some(1440) => 7,
        _ => 0,
    }
}

/// The label of a reminder of the form.
pub fn reminder_label(index: usize) -> (r: &'static str)
    ensures
        r@ == if index == 1 {
            "At time of event"@
        } else if index == 2 {
            "5 minutes before"@
        } else if index == 3 {
            "10 minutes before"@
        } else if index == 4 {
            "15 minutes before"@
        } else if index == 5 {
            "30 minutes before"@
        } else if index == 6 {
            "1 hour before"@
        } else if index == 7 {
            "1 day before"@
        } else {
            "No reminder"@
        },
{
    match index {
        1 => "At time of event",
        2 => "5 minutes before",
        3 => "10 minutes before",
        4 => "15 minutes before",
        5 => "30 minutes before",
        6 => "1 hour before",
        7 => "1 day before",
        _ => "No reminder",
    }
}

/// The sensitivity that is selected in the form.
pub fn sensitivity_from_index(index: usize) -> (r: EventSensitivity)
    ensures
        r == if index == 1 {
            EventSensitivity::Private
        } else if index == 2 {
            EventSensitivity::Confidential
        } else {
            EventSensitivity::Public
        },
{
    match index {
        1 => EventSensitivity::Private,
        2 => EventSensitivity::Confidential,
        _ => EventSensitivity::Public,
    }
}

/// Which sensitivity of the form an event has.
pub fn sensitivity_index(s: EventSensitivity) -> (r: usize)
    ensures
        r == (match s {
            EventSensitivity::Public => 0usize,
            EventSensitivity::Private => 1usize,
            EventSensitivity::Confidential => 2usize,
        }),
{
    match s {
        EventSensitivity::Public => 0,
        EventSensitivity::Private => 1,
        EventSensitivity::Confidential => 2,
    }
}

/// How the event is to be shown, as selected in the form.
pub fn transparency_from_index(index: usize) -> (r: EventTransparency)
    ensures
        r == if index == 1 {
            EventTransparency::Free
        } else {
            EventTransparency::Busy
        },
{
    if index == 1 {
        EventTransparency::Free
    } else {
        EventTransparency::Busy
    }
}

/// Which of the form's ways to show an event it has.
pub fn transparency_index(t: EventTransparency) -> (r: usize)
    ensures
        r == (match t {
            EventTransparency::Busy => 0usize,
            EventTransparency::Free => 1usize,
        }),
{
    match t {
        EventTransparency::Busy => 0,
        EventTransparency::Free => 1,
    }
}

/// The rule of a series that is saved: the one that the form holds, or the one that the event had
/// if the form could not show it and none was chosen instead.
pub fn saved_rrule(unrepresentable: Option<String>, chosen: Option<String>) -> (r: Option<String>)
    ensures
        r == if chosen is Some {
            chosen
        } else {
            unrepresentable
        },
{
    match chosen {
        Some(rule) => Some(rule),
        None => unrepresentable,
    }
}

/// What identifies an event that is edited: its id, and where it is stored in which version.
#[derive(Debug)]
pub struct EventMeta {
    pub uid: String,
    pub href: Option<String>,
    pub etag: Option<String>,
}

/// What the form holds.
#[derive(Debug)]
pub struct FormInput {
    pub title: String,
    pub location: String,
    pub description: String,
    pub all_day: bool,
    pub start_local: DateTime,
    /// The end that the form shows: for an all-day event, its last day.
    pub end_local: DateTime,
    pub attendee_tokens: Vec<String>,
    /// The attendees that the event had before.
    pub existing_attendees: Vec<Attendee>,
    pub categories: Vec<String>,
    pub sensitivity: EventSensitivity,
    pub transparency: EventTransparency,
    pub reminder_minutes_before: Option<i64>,
    pub video_enabled: bool,
    pub conference_url_text: String,
    pub rrule: Option<String>,
    pub recurrence_id: Option<Instant>,
    pub recurrence_range: RecurrenceRange,
    pub exdates: Vec<Instant>,
    pub owner_email: Option<String>,
    pub existing_meta: Option<EventMeta>,
}

impl FormInput {
    /// The times are in the range of dates, and so is the end of the event.
    pub open spec fn in_range(self) -> bool {
        &&& self.start_local.valid()
        &&& self.end_local.valid()
        &&& self.all_day ==> self.end_local.date.number < MAX_DAY
    }

    /// The event would not end after its start.
    pub open spec fn ends_too_early(self) -> bool {
        model_end_stamp(self.all_day, self.end_local) <= self.start_local.stamp()
    }
}

/// The answer of the first attendee with an address; an attendee who is new has not answered.
pub open spec fn kept_status(existing: Seq<Attendee>, address: Seq<char>) -> AttendeeStatus
    decreases existing.len(),
{
    if existing.len() == 0 {
        AttendeeStatus::NeedsAction
    } else if same_ignoring_case(existing[0].address.address@, address) {
        existing[0].status
    } else {
        kept_status(existing.skip(1), address)
    }
}

/// The attendee that an entry of the form stands for.
pub open spec fn invited(token: Seq<char>, existing: Seq<Attendee>) -> AttendeeView {
    AttendeeView {
        address: EmailAddressView { name: token_name(token), address: token_address(token) },
        role: AttendeeRole::Required,
        status: kept_status(existing, token_address(token)),
    }
}

/// A text without white space around it, unless it is blank.
pub open spec fn filled(s: Seq<char>) -> Option<Seq<char>> {
    if blank(s) {
        None
    } else {
        Some(trimmed(s))
    }
}

fn filled_text(s: &str) -> (r: Option<String>)
    ensures
        text_of(r) == filled(s@),
{
    let t = trim(s);
    if t.is_empty() {
        None
    } else {
        Some(t.to_owned())
    }
}

fn status_of(existing: &Vec<Attendee>, address: &str) -> (r: AttendeeStatus)
    ensures
        r == kept_status(existing@, address@),
{
    let mut i: usize = 0;
    assert(existing@.skip(0) =~= existing@);
    while i < existing.len()
        invariant
            i <= existing.len(),
            kept_status(existing@, address@) == kept_status(existing@.skip(i as int), address@),
        decreases existing.len() - i,
    {
        assert(existing@.skip(i as int).skip(1) =~= existing@.skip(i + 1));
        if eq_ignore_ascii_case(&existing[i].address.address, address) {
            return existing[i].status;
        }
        i += 1;
    }
    AttendeeStatus::NeedsAction
}

/// The attendees that the entries of the form stand for.
pub open spec fn all_invited(tokens: Seq<Seq<char>>, existing: Seq<Attendee>) -> Seq<AttendeeView> {
    tokens.map_values(|t: Seq<char>| invited(t, existing))
}

fn attendees_from(tokens: &Vec<String>, existing: &Vec<Attendee>) -> (r: Vec<Attendee>)
    ensures
        attendee_views(r@) == all_invited(texts_of(tokens@), existing@),
        r@.len() == tokens@.len(),
{
    let mut out: Vec<Attendee> = Vec::new();
    let ghost want = all_invited(texts_of(tokens@), existing@);
    let mut i: usize = 0;
    while i < tokens.len()
        invariant
            i <= tokens.len(),
            out@.len() == i,
            want == all_invited(texts_of(tokens@), existing@),
            attendee_views(out@) == want.take(i as int),
        decreases tokens.len() - i,
    {
        let token = &tokens[i];
        let address = address_of(token).to_owned();
        let status = status_of(existing, &address);
        let attendee = Attendee {
            address: EmailAddress { name: name_of(token), address },
            role: AttendeeRole::Required,
            status,
        };
        let ghost before = attendee_views(out@);
        assert(attendee@ == invited(tokens@[i as int]@, existing@));
        assert(want[i as int] == attendee@);
        out.push(attendee);
        assert(attendee_views(out@) =~= before.push(attendee@));
        assert(want.take(i + 1) =~= want.take(i as int).push(attendee@));
        i += 1;
    }
    assert(want.take(i as int) =~= want);
    out
}

/// The event that the form stands for, with the id `uid` if it is new. Its calendar is left open.
pub open spec fn built_from(input: FormInput, uid: Seq<char>, e: CalendarEvent) -> bool {
    &&& e.uid@ == (match input.existing_meta {
        Some(meta) => meta.uid@,
        None => uid,
    })
    &&& text_of(e.href) == (match input.existing_meta {
        Some(meta) => text_of(meta.href),
        None => None,
    })
    &&& text_of(e.etag) == (match input.existing_meta {
        Some(meta) => text_of(meta.etag),
        None => None,
    })
    &&& e.calendar_id@.len() == 0
    &&& text_of(e.summary) == filled(input.title@)
    &&& text_of(e.description) == filled(input.description@)
    &&& text_of(e.location) == filled(input.location@)
    &&& e.start == input.start_local
    &&& e.end.valid()
    &&& e.end.stamp() == model_end_stamp(input.all_day, input.end_local)
    &&& e.all_day == input.all_day
    &&& e.rrule == input.rrule
    &&& e.recurrence_id == input.recurrence_id
    &&& e.recurrence_range == input.recurrence_range
    &&& e.exdates == input.exdates
    &&& e.rdates@.len() == 0
    &&& attendee_views(e.attendees@) == all_invited(
        texts_of(input.attendee_tokens@),
        input.existing_attendees@,
    )
    &&& (match e.organizer {
        Some(o) => {
            &&& input.attendee_tokens@.len() > 0
            &&& text_of(input.owner_email) == Some(o@.address)
            &&& o@.name is None
        },
        None => input.attendee_tokens@.len() == 0 || input.owner_email is None,
    })
    &&& e.categories == input.categories
    &&& e.sensitivity == input.sensitivity
    &&& e.transparency == input.transparency
    &&& e.reminder_minutes_before == input.reminder_minutes_before
    &&& text_of(e.conference_url) == (if input.video_enabled {
        filled(input.conference_url_text@)
    } else {
        None
    })
}

/// The event that the form stands for, with the id `fresh_uid` if it is new. Fails if it would not
/// end after its start.
pub fn build_event(input: FormInput, fresh_uid: String) -> (r: Result<CalendarEvent, String>)
    requires
        input.in_range(),
    ensures
        match r {
            Ok(e) => !input.ends_too_early() && built_from(input, fresh_uid@, e),
            Err(message) => input.ends_too_early() && message@
                == "The event's end must be after its start."@,
        },
{
    let end = model_end(input.all_day, input.end_local);
    if end.no_later_than(input.start_local) {
        return Err("The event's end must be after its start.".to_owned());
    }
    let attendees = attendees_from(&input.attendee_tokens, &input.existing_attendees);
    let organizer = match input.owner_email {
        Some(email) => if attendees.is_empty() {
            None
        } else {
            Some(EmailAddress::new(&email))
        },
        None => None,
    };
    let conference_url = if input.video_enabled {
        filled_text(&input.conference_url_text)
    } else {
        None
    };
    let meta = match input.existing_meta {
        Some(meta) => meta,
        None => EventMeta { uid: fresh_uid, href: None, etag: None },
    };
    Ok(
        CalendarEvent {
            uid: meta.uid,
            calendar_id: String::new(),
            summary: filled_text(&input.title),
            description: filled_text(&input.description),
            location: filled_text(&input.location),
            start: input.start_local,
            end,
            all_day: input.all_day,
            rrule: input.rrule,
            recurrence_id: input.recurrence_id,
            recurrence_range: input.recurrence_range,
            exdates: input.exdates,
            rdates: Vec::new(),
            href: meta.href,
            etag: meta.etag,
            attendees,
            organizer,
            categories: input.categories,
            sensitivity: input.sensitivity,
            transparency: input.transparency,
            reminder_minutes_before: input.reminder_minutes_before,
            conference_url,
        },
    )
}

/// The event that the form stands for. A new event gets a random id.
pub fn build_event_from_input(input: FormInput) -> (r: Result<CalendarEvent, String>)
    requires
        input.in_range(),
    ensures
        match r {
            Ok(e) => !input.ends_too_early() && (exists|uid: Seq<char>|
                uuid_shape(uid) && #[trigger] built_from(input, uid, e)),
            Err(message) => input.ends_too_early() && message@
                == "The event's end must be after its start."@,
        },
{
    let uid = new_uuid();
    let r = build_event(input, uid);
    assert(r matches Ok(e) ==> uuid_shape(uid@) && built_from(input, uid@, e));
    r
}

/// What an edit scope leaves alone.
pub open spec fn same_content(a: CalendarEvent, b: CalendarEvent) -> bool {
    &&& a.uid == b.uid
    &&& a.calendar_id == b.calendar_id
    &&& a.summary == b.summary
    &&& a.description == b.description
    &&& a.location == b.location
    &&& a.start == b.start
    &&& a.end == b.end
    &&& a.all_day == b.all_day
    &&& a.rdates == b.rdates
    &&& a.attendees == b.attendees
    &&& a.organizer == b.organizer
    &&& a.categories == b.categories
    &&& a.sensitivity == b.sensitivity
    &&& a.transparency == b.transparency
    &&& a.reminder_minutes_before == b.reminder_minutes_before
    &&& a.conference_url == b.conference_url
}

/// An occurrence is one of a series.
pub open spec fn recurring(occ: EventOccurrence) -> bool {
    occ.rrule is Some || occ.recurrence_id is Some
}

/// The instance of the series that an occurrence stands for.
pub open spec fn instance_of(occ: EventOccurrence) -> Instant {
    match occ.recurrence_id {
        Some(id) => id,
        None => occ.start.instant,
    }
}

/// The first of two texts that is there.
pub open spec fn first_text(a: Option<Seq<char>>, b: Option<Seq<char>>) -> Option<Seq<char>> {
    if a is Some {
        a
    } else {
        b
    }
}

/// An event as it is saved for an edit scope: 0 is this occurrence, 1 this and the following ones,
/// anything else the whole series.
pub open spec fn scoped(
    before: CalendarEvent,
    after: CalendarEvent,
    scope: usize,
    occurrence: Option<EventOccurrence>,
) -> bool {
    &&& same_content(before, after)
    &&& match occurrence {
        None => after == before,
        Some(occ) => if !recurring(occ) {
            after == before
        } else if scope == 0 || scope == 1 {
            &&& after.recurrence_id == Some(instance_of(occ))
            &&& after.recurrence_range == (if scope == 0 {
                RecurrenceRange::This
            } else {
                RecurrenceRange::ThisAndFuture
            })
            &&& after.rrule == (if scope == 0 {
                None
            } else {
                before.rrule
            })
            &&& after.exdates@.len() == 0
            &&& if occ.recurrence_id is Some {
                after.href == before.href && after.etag == before.etag
            } else {
                after.href is None && after.etag is None
            }
        } else {
            &&& after.recurrence_id == before.recurrence_id
            &&& after.recurrence_range == before.recurrence_range
            &&& after.rrule == before.rrule
            &&& after.exdates == before.exdates
            &&& if occ.recurrence_id is Some {
                &&& text_of(after.href) == first_text(text_of(occ.master_href), text_of(occ.href))
                &&& text_of(after.etag) == first_text(text_of(occ.master_etag), text_of(occ.etag))
            } else {
                after.href == before.href && after.etag == before.etag
            }
        },
    }
}

fn first_of_two(a: &Option<String>, b: &Option<String>) -> (r: Option<String>)
    ensures
        text_of(r) == first_text(text_of(*a), text_of(*b)),
{
    match a {
        Some(s) => Some(s.clone()),
        None => b.clone(),
    }
}

/// Makes an event what the edit scope asks for. An edit of one occurrence, or of it and the
/// following ones, becomes an override of the series at that instance: a new object, unless the
/// occurrence is an override already. An edit of the whole series goes to the series itself.
/// Events that do not repeat are left alone.
pub fn apply_edit_scope(event: &mut CalendarEvent, scope: usize, occurrence: Option<&EventOccurrence>)
    ensures
        scoped(*old(event), *final(event), scope, deref(occurrence)),
{
    let occ = match occurrence {
        Some(occ) => occ,
        None => return,
    };
    let from_override = occ.recurrence_id.is_some();
    if !(occ.rrule.is_some() || from_override) {
        return;
    }
    if scope == 0 || scope == 1 {
        event.recurrence_id = match occ.recurrence_id {
            Some(id) => Some(id),
            None => Some(occ.start.instant),
        };
        event.exdates = Vec::new();
        if scope == 0 {
            event.recurrence_range = RecurrenceRange::This;
            event.rrule = None;
        } else {
            event.recurrence_range = RecurrenceRange::ThisAndFuture;
        }
        if !from_override {
            event.href = None;
            event.etag = None;
        }
    } else if from_override {
        event.href = first_of_two(&occ.master_href, &occ.href);
        event.etag = first_of_two(&occ.master_etag, &occ.etag);
    }
}

/// The event with the content of an occurrence and other times.
pub open spec fn moved_event(occ: EventOccurrence, start: DateTime, end: DateTime, e: CalendarEvent) -> bool {
    &&& e.uid == occ.uid
    &&& e.calendar_id == occ.calendar_id
    &&& text_of(e.summary) == text_of(occ.summary)
    &&& text_of(e.description) == text_of(occ.description)
    &&& text_of(e.location) == text_of(occ.location)
    &&& e.start == start
    &&& e.end.valid()
    &&& e.end.stamp() == model_end_stamp(occ.all_day, end)
    &&& e.all_day == occ.all_day
    &&& text_of(e.rrule) == text_of(occ.rrule)
    &&& e.recurrence_id == occ.recurrence_id
    &&& e.recurrence_range == RecurrenceRange::This
    &&& e.exdates@ == occ.exdates@
    &&& e.rdates@.len() == 0
    &&& text_of(e.href) == text_of(occ.href)
    &&& text_of(e.etag) == text_of(occ.etag)
    &&& e.attendees@ == occ.attendees@
    &&& e.organizer == occ.organizer
    &&& e.categories@ == occ.categories@
    &&& e.sensitivity == occ.sensitivity
    &&& e.transparency == occ.transparency
    &&& e.reminder_minutes_before == occ.reminder_minutes_before
    &&& text_of(e.conference_url) == text_of(occ.conference_url)
}

pub(crate) fn clone_instants(v: &Vec<Instant>) -> (r: Vec<Instant>)
    ensures
        r@ == v@,
{
    let mut out: Vec<Instant> = Vec::new();
    let mut i: usize = 0;
    while i < v.len()
        invariant
            i <= v.len(),
            out@ == v@.take(i as int),
        decreases v.len() - i,
    {
        out.push(v[i]);
        assert(out@ =~= v@.take(i + 1));
        i += 1;
    }
    assert(out@ =~= v@);
    out
}

pub(crate) fn clone_attendees(v: &Vec<Attendee>) -> (r: Vec<Attendee>)
    ensures
        r@ == v@,
{
    let mut out: Vec<Attendee> = Vec::new();
    let mut i: usize = 0;
    while i < v.len()
        invariant
            i <= v.len(),
            out@ == v@.take(i as int),
        decreases v.len() - i,
    {
        out.push(v[i].clone());
        assert(out@ =~= v@.take(i + 1));
        i += 1;
    }
    assert(out@ =~= v@);
    out
}

/// The event that is saved for an occurrence that was dragged: its content with the dragged times,
/// the end being the last day of an all-day event.
pub fn calendar_event_from_occurrence(occ: &EventOccurrence, start_local: DateTime, end_local: DateTime) -> (r:
    CalendarEvent)
    requires
        end_local.valid(),
        occ.all_day ==> end_local.date.number < MAX_DAY,
    ensures
        moved_event(*occ, start_local, end_local, r),
{
    CalendarEvent {
        uid: occ.uid.clone(),
        calendar_id: occ.calendar_id.clone(),
        summary: occ.summary.clone(),
        description: occ.description.clone(),
        location: occ.location.clone(),
        start: start_local,
        end: model_end(occ.all_day, end_local),
        all_day: occ.all_day,
        rrule: occ.rrule.clone(),
        recurrence_id: occ.recurrence_id,
        recurrence_range: RecurrenceRange::This,
        exdates: clone_instants(&occ.exdates),
        rdates: Vec::new(),
        href: occ.href.clone(),
        etag: occ.etag.clone(),
        attendees: clone_attendees(&occ.attendees),
        organizer: match &occ.organizer {
            Some(o) => Some(o.clone()),
            None => None,
        },
        categories: clone_strings(&occ.categories),
        sensitivity: occ.sensitivity,
        transparency: occ.transparency,
        reminder_minutes_before: occ.reminder_minutes_before,
        conference_url: occ.conference_url.clone(),
    }
}

/// The event that is saved for a form: the event of the form, with the id `uid` if it is new, in a
/// calendar, as the edit scope asks for.
pub open spec fn saved_from(
    input: FormInput,
    uid: Seq<char>,
    calendar: String,
    scope: usize,
    existing: Option<EventOccurrence>,
    e: CalendarEvent,
) -> bool {
    exists|built: CalendarEvent| #[trigger]
        built_from(input, uid, built) && scoped(
            CalendarEvent { calendar_id: calendar, ..built },
            e,
            scope,
            existing,
        )
}

/// A click on Save, with the id that a new event gets: the event of the form in the selected
/// calendar, as the edit scope asks for. Fails without a selected calendar.
pub fn save_event(
    input: FormInput,
    calendar_ids: &Vec<String>,
    selected: usize,
    scope: usize,
    existing: Option<&EventOccurrence>,
    fresh_uid: String,
) -> (r: Result<CalendarEvent, String>)
    requires
        input.in_range(),
    ensures
        match r {
            Ok(e) => {
                &&& selected < calendar_ids@.len()
                &&& !input.ends_too_early()
                &&& saved_from(
                    input,
                    fresh_uid@,
                    calendar_ids@[selected as int],
                    scope,
                    deref(existing),
                    e,
                )
            },
            Err(message) => if selected >= calendar_ids@.len() {
                message@ == "No calendar selected."@
            } else {
                input.ends_too_early() && message@ == "The event's end must be after its start."@
            },
        },
{
    if selected >= calendar_ids.len() {
        return Err("No calendar selected.".to_owned());
    }
    let ghost uid = fresh_uid@;
    match build_event(input, fresh_uid) {
        Err(message) => Err(message),
        Ok(built) => {
            let mut event = built;
            assert(built_from(input, uid, built));
            event.calendar_id = calendar_ids[selected].clone();
            apply_edit_scope(&mut event, scope, existing);
            Ok(event)
        },
    }
}

/// A click on Save for an event that may be new: a new event gets a random id.
pub fn save_form(
    input: FormInput,
    calendar_ids: &Vec<String>,
    selected: usize,
    scope: usize,
    existing: Option<&EventOccurrence>,
) -> (r: Result<CalendarEvent, String>)
    requires
        input.in_range(),
    ensures
        match r {
            Ok(e) => {
                &&& selected < calendar_ids@.len()
                &&& !input.ends_too_early()
                &&& exists|uid: Seq<char>|
                    uuid_shape(uid) && #[trigger] saved_from(
                        input,
                        uid,
                        calendar_ids@[selected as int],
                        scope,
                        deref(existing),
                        e,
                    )
            },
            Err(message) => if selected >= calendar_ids@.len() {
                message@ == "No calendar selected."@
            } else {
                input.ends_too_early() && message@ == "The event's end must be after its start."@
            },
        },
{
    let uid = new_uuid();
    let r = save_event(input, calendar_ids, selected, scope, existing, uid);
    assert(r matches Ok(e) ==> uuid_shape(uid@) && saved_from(
        input,
        uid@,
        calendar_ids@[selected as int],
        scope,
        deref(existing),
        e,
    ));
    r
}

/// An edit of one occurrence of a series does not touch the series: what is saved is a new object
/// that stands for that occurrence alone.
pub proof fn lemma_single_edit_spares_series(
    before: CalendarEvent,
    after: CalendarEvent,
    occ: EventOccurrence,
)
    requires
        recurring(occ),
        occ.recurrence_id is None,
        scoped(before, after, 0, Some(occ)),
    ensures
        after.href is None,
        after.etag is None,
        after.rrule is None,
        after.recurrence_id == Some(occ.start.instant),
{
}

/// The times that an edit of an occurrence starts from: those of its series, unless it is an
/// override or the series is not known.
pub open spec fn edited_times(occ: EventOccurrence) -> (DateTime, DateTime) {
    if occ.recurrence_id is None && occ.master_start is Some && occ.master_end is Some {
        ((occ.master_start->0).local, (occ.master_end->0).local)
    } else {
        (occ.start.local, occ.end.local)
    }
}

/// Saving a form whose times were left as it opened with them does not move the event or its
/// series.
pub proof fn lemma_untouched_times_stay(
    occ: EventOccurrence,
    suggested_start: Option<DateTime>,
    suggested_end: Option<DateTime>,
    default_start: int,
    input: FormInput,
    uid: Seq<char>,
    e: CalendarEvent,
)
    requires
        input.all_day == occ.all_day,
        (input.start_local.stamp(), input.end_local.stamp()) == opening_times(
            Some(occ),
            suggested_start,
            suggested_end,
            default_start,
        ),
        built_from(input, uid, e),
    ensures
        e.start.stamp() == edited_times(occ).0.stamp(),
        e.end.stamp() == edited_times(occ).1.stamp(),
{
}

/// No edit scope changes an event that does not repeat.
pub proof fn lemma_scope_ignores_single_events(
    before: CalendarEvent,
    after: CalendarEvent,
    scope: usize,
    occ: EventOccurrence,
)
    requires
        !recurring(occ),
        scoped(before, after, scope, Some(occ)),
    ensures
        after == before,
{
}

/// What the event editor is opened with.
pub struct EventEditorPrefill<'a> {
    /// The ids of the calendars that can be picked, in order.
    pub calendar_ids: &'a Vec<String>,
    pub default_calendar: &'a str,
    /// The occurrence that is edited; none for a new event.
    pub existing: Option<&'a EventOccurrence>,
    pub suggested_start: Option<DateTime>,
    pub suggested_end: Option<DateTime>,
    /// The event can be looked at but not changed.
    pub read_only: bool,
}

/// What the form of the event editor shows when it opens.
#[derive(Debug)]
pub struct EventForm {
    pub dialog_title: &'static str,
    /// The calendar that is selected; none if there is no calendar.
    pub calendar: Option<usize>,
    /// Whether another calendar can be picked.
    pub calendar_open: bool,
    pub title: String,
    pub location: String,
    pub description: String,
    pub attendees: String,
    pub categories: String,
    pub all_day: bool,
    pub start: DateTime,
    pub end: DateTime,
    pub video_enabled: bool,
    pub conference_url: String,
    pub reminder: usize,
    pub sensitivity: usize,
    pub transparency: usize,
    /// Whether to say that changes apply to the whole series.
    pub series_note: bool,
    /// Whether an edit scope can be picked.
    pub scope_open: bool,
    /// Whether anything in the form can be changed.
    pub editable: bool,
    pub save_label: &'static str,
    pub save_shown: bool,
    pub delete_shown: bool,
}

fn position_of(v: &Vec<String>, s: &str) -> (r: usize)
    ensures
        v@.len() > 0 ==> r < v@.len(),
        texts_of(v@).contains(s@) ==> r < v@.len() && v@[r as int]@ == s@ && forall|j: int|
            0 <= j < r ==> (#[trigger] v@[j])@ != s@,
        !texts_of(v@).contains(s@) ==> r == 0,
{
    let mut i: usize = 0;
    while i < v.len()
        invariant
            i <= v.len(),
            forall|j: int| 0 <= j < i ==> (#[trigger] v@[j])@ != s@,
        decreases v.len() - i,
    {
        if same(&v[i], s) {
            assert(texts_of(v@)[i as int] == s@);
            return i;
        }
        i += 1;
    }
    assert forall|k: int| 0 <= k < texts_of(v@).len() implies texts_of(v@)[k] != s@ by {
        assert(v@[k]@ != s@);
    }
    0
}

/// The entries of the recipient field for attendees.
pub open spec fn attendee_tokens(v: Seq<Attendee>) -> Seq<Seq<char>> {
    v.map_values(|a: Attendee| full_label(a@.address))
}

fn tokens_of(v: &Vec<Attendee>) -> (r: Vec<String>)
    ensures
        texts_of(r@) == attendee_tokens(v@),
{
    let mut out: Vec<String> = Vec::new();
    let mut i: usize = 0;
    while i < v.len()
        invariant
            i <= v.len(),
            texts_of(out@) == attendee_tokens(v@).take(i as int),
        decreases v.len() - i,
    {
        let ghost before = texts_of(out@);
        let token = attendee_to_token(&v[i]);
        out.push(token);
        assert(texts_of(out@) =~= before.push(token@));
        assert(attendee_tokens(v@).take(i + 1) =~= attendee_tokens(v@).take(i as int).push(token@));
        i += 1;
    }
    assert(attendee_tokens(v@).take(i as int) =~= attendee_tokens(v@));
    out
}

fn text_or_empty(o: &Option<String>) -> (r: String)
    ensures
        r@ == match text_of(*o) {
            Some(s) => s,
            None => Seq::empty(),
        },
{
    match o {
        Some(s) => s.clone(),
        None => String::new(),
    }
}

/// A text, or the empty one.
pub open spec fn shown_text(o: Option<String>) -> Seq<char> {
    match text_of(o) {
        Some(s) => s,
        None => Seq::empty(),
    }
}

/// The fields of the form that show an event show the occurrence that is edited; for a new event
/// they are blank.
pub open spec fn shows_event(form: EventForm, existing: Option<EventOccurrence>) -> bool {
    match existing {
        None => {
            &&& form.title@.len() == 0
            &&& form.location@.len() == 0
            &&& form.description@.len() == 0
            &&& form.attendees@.len() == 0
            &&& form.categories@.len() == 0
            &&& form.conference_url@.len() == 0
            &&& !form.all_day && !form.video_enabled && !form.series_note && !form.scope_open
            &&& form.reminder == 0
            &&& form.sensitivity == 0
            &&& form.transparency == 0
        },
        Some(occ) => {
            &&& form.title@ == shown_text(occ.summary)
            &&& form.location@ == shown_text(occ.location)
            &&& form.description@ == shown_text(occ.description)
            &&& form.attendees@ == joined(attendee_tokens(occ.attendees@), ", "@)
            &&& form.categories@ == joined(texts_of(occ.categories@), ", "@)
            &&& form.conference_url@ == shown_text(occ.conference_url)
            &&& form.all_day == occ.all_day
            &&& form.video_enabled == occ.conference_url is Some
            &&& form.series_note == occ.rrule is Some
            &&& form.scope_open == recurring(occ)
            &&& reminder_at(form.reminder as int) == occ.reminder_minutes_before || (form.reminder == 0
                && forall|k: int| 0 <= k ==> #[trigger] reminder_at(k) != occ.reminder_minutes_before)
            &&& form.sensitivity == (match occ.sensitivity {
                EventSensitivity::Public => 0usize,
                EventSensitivity::Private => 1usize,
                EventSensitivity::Confidential => 2usize,
            })
            &&& form.transparency == (match occ.transparency {
                EventTransparency::Busy => 0usize,
                EventTransparency::Free => 1usize,
            })
        },
    }
}

/// What the form shows when the editor opens.
pub fn open_form(prefill: &EventEditorPrefill, now: DateTime) -> (r: EventForm)
    requires
        opens_in_dates(
            deref(prefill.existing),
            prefill.suggested_start,
            prefill.suggested_end,
            now,
        ),
    ensures
        r.dialog_title@ == if prefill.read_only {
            "Event"@
        } else if prefill.existing is Some {
            "Edit event"@
        } else {
            "New event"@
        },
        r.calendar is None <==> prefill.calendar_ids@.len() == 0,
        r.calendar matches Some(k) ==> k < prefill.calendar_ids@.len() && (if texts_of(
            prefill.calendar_ids@,
        ).contains(prefill.default_calendar@) {
            prefill.calendar_ids@[k as int]@ == prefill.default_calendar@ && forall|j: int|
                0 <= j < k ==> (#[trigger] prefill.calendar_ids@[j])@ != prefill.default_calendar@
        } else {
            k == 0
        }),
        r.calendar_open == (prefill.calendar_ids@.len() > 0 && prefill.existing is None),
        r.start.valid(),
        r.end.valid(),
        (r.start.stamp(), r.end.stamp()) == opening_times(
            deref(prefill.existing),
            prefill.suggested_start,
            prefill.suggested_end,
            (now.stamp() / 3600 + 1) * 3600,
        ),
        shows_event(r, deref(prefill.existing)),
        r.save_label@ == if prefill.existing is Some {
            "Save"@
        } else {
            "Add"@
        },
        r.editable == !prefill.read_only,
        r.save_shown == !prefill.read_only,
        r.delete_shown == (prefill.existing is Some && !prefill.read_only),
{
    let (start, end) = initial_times(
        prefill.existing,
        prefill.suggested_start,
        prefill.suggested_end,
        now,
    );
    let has_existing = prefill.existing.is_some();
    let dialog_title = if prefill.read_only {
        "Event"
    } else if has_existing {
        "Edit event"
    } else {
        "New event"
    };
    let calendar = if prefill.calendar_ids.is_empty() {
        None
    } else {
        Some(position_of(prefill.calendar_ids, prefill.default_calendar))
    };
    let calendar_open = !prefill.calendar_ids.is_empty() && !has_existing;
    let save_label = if has_existing {
        "Save"
    } else {
        "Add"
    };
    match prefill.existing {
        Some(occ) => EventForm {
            dialog_title,
            calendar,
            calendar_open,
            title: text_or_empty(&occ.summary),
            location: text_or_empty(&occ.location),
            description: text_or_empty(&occ.description),
            attendees: join(&tokens_of(&occ.attendees), ", "),
            categories: join(&occ.categories, ", "),
            all_day: occ.all_day,
            start,
            end,
            video_enabled: occ.conference_url.is_some(),
            conference_url: text_or_empty(&occ.conference_url),
            reminder: reminder_index(occ.reminder_minutes_before),
            sensitivity: sensitivity_index(occ.sensitivity),
            transparency: transparency_index(occ.transparency),
            series_note: occ.rrule.is_some(),
            scope_open: occ.rrule.is_some() || occ.recurrence_id.is_some(),
            editable: !prefill.read_only,
            save_label,
            save_shown: !prefill.read_only,
            delete_shown: !prefill.read_only,
        },
        None => EventForm {
            dialog_title,
            calendar,
            calendar_open,
            title: String::new(),
            location: String::new(),
            description: String::new(),
            attendees: String::new(),
            categories: String::new(),
            all_day: false,
            start,
            end,
            video_enabled: false,
            conference_url: String::new(),
            reminder: 0,
            sensitivity: 0,
            transparency: 0,
            series_note: false,
            scope_open: false,
            editable: !prefill.read_only,
            save_label,
            save_shown: !prefill.read_only,
            delete_shown: false,
        },
    }
}

/// The categories that the form holds.
pub fn form_categories(text: &str) -> (r: Vec<String>)
    ensures
        texts_of(r@) == tags_of(text@),
{
    tags(text)
}

/// The date on the button of a calendar: blank for a date that does not exist.
pub fn format_calendar_date(year: i32, month: u32, day: u32) -> (r: String)
    ensures
        crate::dates::valid_civil(year as int, month as int, day as int) ==> r@ == formatted(
            crate::dates::day_number(year as int, month as int, day as int),
            0,
            "%a, %b %-d"@,
        ),
        !crate::dates::valid_civil(year as int, month as int, day as int) ==> r@.len() == 0,
{
    match Date::from_ymd_opt(year, month, day) {
        Some(d) => d.format("%a, %b %-d"),
        None => String::new(),
    }
}

/// A click on Delete: the selected calendar. The times in the form do not matter.
pub fn delete_target(calendar_ids: &Vec<String>, selected: usize) -> (r: Result<String, String>)
    ensures
        match r {
            Ok(id) => selected < calendar_ids@.len() && id@ == calendar_ids@[selected as int]@,
            Err(message) => selected >= calendar_ids@.len() && message@ == "No calendar selected."@,
        },
{
    if selected < calendar_ids.len() {
        Ok(calendar_ids[selected].clone())
    } else {
        Err("No calendar selected.".to_owned())
    }
}

/// A text field of an event holds what was typed, without white space around it; nothing if nothing
/// was typed.
pub open spec fn holds_typed(field: Option<String>, typed: Seq<char>) -> bool {
    match field {
        Some(t) => !blank(typed) && t@ == trimmed(typed),
        None => blank(typed),
    }
}

/// What is saved says what the form says, each field what was typed into it, in the calendar that was
/// picked; and it takes the time that the form shows, an all-day event a day more, since the form
/// shows its last day.
pub proof fn lemma_saved_as_typed(
    input: FormInput,
    uid: Seq<char>,
    calendar: String,
    scope: usize,
    existing: Option<EventOccurrence>,
    e: CalendarEvent,
)
    requires
        saved_from(input, uid, calendar, scope, existing, e),
    ensures
        holds_typed(e.summary, input.title@),
        holds_typed(e.location, input.location@),
        holds_typed(e.description, input.description@),
        input.video_enabled ==> holds_typed(e.conference_url, input.conference_url_text@),
        !input.video_enabled ==> e.conference_url is None,
        e.calendar_id == calendar,
        e.start == input.start_local,
        e.all_day == input.all_day,
        e.end.stamp() - e.start.stamp() == input.end_local.stamp() - input.start_local.stamp() + (if input.all_day {
            86400int
        } else {
            0int
        }),
        e.categories == input.categories,
        e.sensitivity == input.sensitivity,
        e.transparency == input.transparency,
        e.reminder_minutes_before == input.reminder_minutes_before,
        input.existing_meta matches Some(meta) ==> e.uid@ == meta.uid@,
        input.existing_meta is None ==> e.uid@ == uid,
        e.attendees@.len() == input.attendee_tokens@.len(),
        forall|i: int|
            0 <= i < e.attendees@.len() ==> (#[trigger] e.attendees@[i]).address.address@ == token_address(
                input.attendee_tokens@[i]@,
            ) && text_of(e.attendees@[i].address.name) == token_name(input.attendee_tokens@[i]@),
        e.organizer is Some <==> input.attendee_tokens@.len() > 0 && input.owner_email is Some,
        e.organizer matches Some(o) ==> o.address@ == (input.owner_email->0)@,
{
    let built = choose|built: CalendarEvent| #[trigger]
        built_from(input, uid, built) && scoped(
            CalendarEvent { calendar_id: calendar, ..built },
            e,
            scope,
            existing,
        );
    let tokens = texts_of(input.attendee_tokens@);
    let all = all_invited(tokens, input.existing_attendees@);
    assert(tokens.len() == input.attendee_tokens@.len());
    assert(attendee_views(e.attendees@).len() == e.attendees@.len());
    assert forall|i: int| 0 <= i < e.attendees@.len() implies (#[trigger] e.attendees@[i]).address.address@
        == token_address(input.attendee_tokens@[i]@) && text_of(e.attendees@[i].address.name) == token_name(
        input.attendee_tokens@[i]@,
    ) by {
        assert(attendee_views(e.attendees@)[i] == all[i]);
        assert(tokens[i] == input.attendee_tokens@[i]@);
    }
    if let Some(o) = e.organizer {
        assert(o@.address == o.address@);
    }
}

/// Fields of an event depend on the fields of the form with the same name alone: what is typed into
/// one shows up in no other.
pub proof fn lemma_fields_apart(
    a: FormInput,
    b: FormInput,
    uid: Seq<char>,
    calendar: String,
    scope: usize,
    existing: Option<EventOccurrence>,
    x: CalendarEvent,
    y: CalendarEvent,
)
    requires
        saved_from(a, uid, calendar, scope, existing, x),
        saved_from(b, uid, calendar, scope, existing, y),
    ensures
        a.title@ == b.title@ ==> text_of(x.summary) == text_of(y.summary),
        a.location@ == b.location@ ==> text_of(x.location) == text_of(y.location),
        a.description@ == b.description@ ==> text_of(x.description) == text_of(y.description),
        a.start_local == b.start_local ==> x.start == y.start,
        a.end_local == b.end_local && a.all_day == b.all_day ==> x.end.stamp() == y.end.stamp(),
        a.rrule == b.rrule ==> x.rrule == y.rrule,
{
    lemma_saved_as_typed(a, uid, calendar, scope, existing, x);
    lemma_saved_as_typed(b, uid, calendar, scope, existing, y);
}

/// An attendee who was invited before, by an address in any case, keeps the answer that they gave;
/// anybody else has not answered.
pub proof fn lemma_answer_kept(existing: Seq<Attendee>, address: Seq<char>, i: int)
    ensures
        0 <= i < existing.len() && same_ignoring_case(existing[i].address.address@, address) && (forall|j: int|
            0 <= j < i ==> !same_ignoring_case((#[trigger] existing[j]).address.address@, address)) ==> kept_status(
            existing,
            address,
        ) == existing[i].status,
        (forall|j: int|
            0 <= j < existing.len() ==> !same_ignoring_case((#[trigger] existing[j]).address.address@, address))
            ==> kept_status(existing, address) == AttendeeStatus::NeedsAction,
    decreases existing.len(),
{
    if existing.len() > 0 && !same_ignoring_case(existing[0].address.address@, address) {
        let rest = existing.skip(1);
        lemma_answer_kept(rest, address, i - 1);
        if forall|j: int| 0 <= j < i ==> !same_ignoring_case((#[trigger] existing[j]).address.address@, address) {
            assert forall|j: int| 0 <= j < i - 1 && j < rest.len() implies !same_ignoring_case(
                (#[trigger] rest[j]).address.address@,
                address,
            ) by {
                assert(rest[j] == existing[j + 1]);
            }
            if 0 < i < existing.len() {
                assert(rest[i - 1] == existing[i]);
            }
        }
        if forall|j: int|
            0 <= j < existing.len() ==> !same_ignoring_case((#[trigger] existing[j]).address.address@, address) {
            assert forall|j: int| 0 <= j < rest.len() implies !same_ignoring_case(
                (#[trigger] rest[j]).address.address@,
                address,
            ) by {
                assert(rest[j] == existing[j + 1]);
            }
        }
    }
}

/// How far an edit of a series reaches. One of this occurrence takes its place and repeats no more;
/// one of this and the following ones takes their place and keeps the rule; both stand at the instance
/// that they replace. One of the whole series goes to the object of the series, with its rule and its
/// exceptions.
pub proof fn lemma_reach_of_edit(before: CalendarEvent, after: CalendarEvent, scope: usize, occ: EventOccurrence)
    requires
        occ.rrule is Some || occ.recurrence_id is Some,
        scoped(before, after, scope, Some(occ)),
    ensures
        scope == 0 ==> after.rrule is None && after.recurrence_range == RecurrenceRange::This,
        scope == 1 ==> after.rrule == before.rrule && after.recurrence_range == RecurrenceRange::ThisAndFuture,
        scope <= 1 && occ.recurrence_id is Some ==> after.recurrence_id == occ.recurrence_id && after.href
            == before.href && after.etag == before.etag,
        scope <= 1 && occ.recurrence_id is None ==> after.recurrence_id == Some(occ.start.instant) && after.href is None
            && after.etag is None,
        scope <= 1 ==> after.exdates@.len() == 0,
        scope > 1 ==> after.rrule == before.rrule && after.exdates == before.exdates && after.recurrence_id
            == before.recurrence_id,
        scope > 1 && occ.recurrence_id is None ==> after.href == before.href && after.etag == before.etag,
        scope > 1 && occ.recurrence_id is Some && occ.master_href is Some ==> text_of(after.href) == text_of(
            occ.master_href,
        ),
        scope > 1 && occ.recurrence_id is Some && occ.master_etag is Some ==> text_of(after.etag) == text_of(
            occ.master_etag,
        ),
        after.summary == before.summary && after.location == before.location && after.description
            == before.description,
        after.start == before.start && after.end == before.end && after.all_day == before.all_day,
        after.attendees == before.attendees && after.uid == before.uid && after.calendar_id == before.calendar_id,
        after.organizer == before.organizer && after.categories == before.categories,
        after.sensitivity == before.sensitivity && after.transparency == before.transparency,
        after.reminder_minutes_before == before.reminder_minutes_before && after.conference_url
            == before.conference_url,
{
}

/// Dragging an event changes its times and nothing else: it takes the time between where it was
/// dropped and the end that goes with it, an all-day event a day more.
pub proof fn lemma_drag_keeps_content(occ: EventOccurrence, start: DateTime, end: DateTime, e: CalendarEvent)
    requires
        moved_event(occ, start, end, e),
    ensures
        e.uid == occ.uid && e.calendar_id == occ.calendar_id,
        text_of(e.summary) == text_of(occ.summary),
        text_of(e.location) == text_of(occ.location),
        text_of(e.description) == text_of(occ.description),
        text_of(e.href) == text_of(occ.href),
        text_of(e.etag) == text_of(occ.etag),
        text_of(e.rrule) == text_of(occ.rrule),
        text_of(e.conference_url) == text_of(occ.conference_url),
        e.exdates@ == occ.exdates@ && e.attendees@ == occ.attendees@ && e.categories@ == occ.categories@,
        e.organizer == occ.organizer && e.all_day == occ.all_day && e.recurrence_id == occ.recurrence_id,
        e.sensitivity == occ.sensitivity && e.transparency == occ.transparency,
        e.reminder_minutes_before == occ.reminder_minutes_before,
        e.start == start,
        e.end.stamp() - e.start.stamp() == end.stamp() - start.stamp() + (if occ.all_day {
            86400int
        } else {
            0int
        }),
{
}

/// The day's preview shows what covers the day, without the occurrence that is being edited.
pub proof fn lemma_preview_of_day(
    occurrences: Seq<EventOccurrence>,
    day: int,
    existing: Option<EventOccurrence>,
    o: EventOccurrence,
)
    ensures
        occurrences.filter(previewed(day, existing)).contains(o) <==> occurrences.contains(o) && covers(o, day)
            && !(existing matches Some(e) && o.uid@ == e.uid@ && o.recurrence_id == e.recurrence_id),
{
    let keep = previewed(day, existing);
    let shown = occurrences.filter(keep);
    if shown.contains(o) {
        occurrences.lemma_filter_contains_rev(keep, o);
        let i = choose|i: int| 0 <= i < shown.len() && shown[i] == o;
        occurrences.lemma_filter_pred(keep, i);
    }
    if occurrences.contains(o) && keep(o) {
        let i = choose|i: int| 0 <= i < occurrences.len() && occurrences[i] == o;
        occurrences.lemma_filter_contains(keep, i);
    }
}

/// What a form opens with: an event that is edited opens at its own times, an all-day event with its
/// last day, one that repeats at the times of its series; a new one at what was suggested, for an hour
/// if no end was.
pub proof fn lemma_opens_at(
    existing: Option<EventOccurrence>,
    suggested_start: Option<DateTime>,
    suggested_end: Option<DateTime>,
    default_start: int,
)
    ensures
        ({
            let (start, end) = opening_times(existing, suggested_start, suggested_end, default_start);
            &&& existing is Some && (existing->0).master_start is None ==> start == (existing->0).start.local.stamp() && end
                == (existing->0).end.local.stamp() - (if (existing->0).all_day {
                86400int
            } else {
                0int
            })
            &&& existing is Some && (existing->0).recurrence_id is Some ==> start == (existing->0).start.local.stamp() && end
                == (existing->0).end.local.stamp() - (if (existing->0).all_day {
                86400int
            } else {
                0int
            })
            &&& existing is Some && (existing->0).recurrence_id is None && (existing->0).master_start is Some
                && (existing->0).master_end is Some ==> start == ((existing->0).master_start->0).local.stamp() && end
                == ((existing->0).master_end->0).local.stamp() - (if (existing->0).all_day {
                86400int
            } else {
                0int
            })
            &&& existing is None && suggested_start is Some && suggested_end is Some ==> start
                == (suggested_start->0).stamp() && end == (suggested_end->0).stamp()
            &&& existing is None && suggested_start is Some && suggested_end is None ==> start
                == (suggested_start->0).stamp() && end == start + 3600
            &&& existing is None && suggested_start is None ==> start == default_start && end == start + 3600
        }),
{
}

/// Reminders come the earlier the further down the list they stand: from the time of the event itself
/// to a day before it.
pub proof fn lemma_reminders_in_order(i: int, j: int)
    requires
        1 <= i < j <= 7,
    ensures
        reminder_at(0) is None,
        reminder_at(1) == Some(0i64),
        reminder_at(7) == Some((24 * 60) as i64),
        reminder_at(i) is Some && reminder_at(j) is Some && reminder_at(i)->0 < reminder_at(j)->0,
{
}

/// An attendee who is written out is read back: by the name, if there is one, and by the address.
pub proof fn lemma_attendee_reads_back(a: EmailAddressView)
    requires
        a.address.len() > 0,
        !white(a.address[0]) && !white(a.address.last()),
        !a.address.contains('<') && !a.address.contains('>'),
        a.name matches Some(name) ==> name.len() > 0 && !white(name[0]) && !white(name.last()) && name[0] != '"'
            && name.last() != '"' && !name.contains('<'),
    ensures
        token_address(full_label(a)) == a.address,
        token_name(full_label(a)) == a.name,
{
    reveal_strlit(" <");
    reveal_strlit(">");
    lemma_trimmed_fixed(a.address);
    match a.name {
        None => {
            lemma_first_of(a.address, '<');
            let k = first_of(a.address, '<');
            if k < a.address.len() {
                assert(a.address[k] == '<');
            }
        },
        Some(name) => {
            lemma_trimmed_fixed(name);
            lemma_blank_is_all_white(name);
            let token = name + " <"@ + a.address + ">"@;
            assert(full_label(a) == token);
            let at: int = (name.len() + 1) as int;
            lemma_first_of(token, '<');
            assert(token[at] == '<');
            let k = first_of(token, '<');
            assert(k == at) by {
                if k < at {
                    assert(token[k] == '<');
                    if k < name.len() {
                        assert(name[k] == '<');
                    }
                }
            }
            let rest = token.skip(k + 1);
            assert(rest =~= a.address + ">"@);
            lemma_first_of(rest, '>');
            let n = a.address.len() as int;
            assert(rest[n] == '>');
            let e = first_of(rest, '>');
            assert(e == n) by {
                if e < n {
                    assert(rest[e] == '>');
                    assert(a.address[e] == '>');
                }
            }
            assert(rest.take(n) =~= a.address);
            let front = token.take(k);
            assert(front =~= name.push(' '));
            lemma_trimmed_before_space(name);
            let quote = |c: char| c == '"';
            assert(strip_front(name, quote) == name);
            assert(strip_back(name, quote) == name);
        },
    }
}

proof fn lemma_trimmed_before_space(name: Seq<char>)
    requires
        name.len() > 0,
        !white(name[0]),
        !white(name.last()),
    ensures
        trimmed(name.push(' ')) == name,
{
    let s = name.push(' ');
    let p = |c: char| white(c);
    assert(s.drop_last() =~= name);
    lemma_trimmed_fixed(name);
}

/// An event is refused exactly if it does not end after it starts: by the clock, or, where it takes whole
/// days, if its last day is before its first.
pub proof fn lemma_refused_if_too_early(input: FormInput)
    requires
        input.start_local.secs < 86400,
        input.end_local.secs < 86400,
    ensures
        !input.all_day ==> (input.ends_too_early() <==> input.end_local.date.number < input.start_local.date.number || (
        input.end_local.date.number == input.start_local.date.number && input.end_local.secs <= input.start_local.secs)),
        input.all_day && input.start_local.secs == 0 && input.end_local.secs == 0 ==> (input.ends_too_early()
            <==> input.end_local.date.number < input.start_local.date.number),
{
}

} // verus!
