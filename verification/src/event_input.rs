//! What the event editor's form says when it is saved.

use crate::dates::{DateTime, Instant};
use crate::event_editor::{built_from, clone_attendees, clone_instants, date_time_from_form, deref};
use crate::event_editor::{all_invited, attendee_views, holds_typed, invited};
use crate::event_editor::{form_categories, reminder_at, reminder_from_index, saved_rrule};
use crate::event_editor::{sensitivity_from_index, shows_event, transparency_from_index};
use crate::event_editor::{EventForm, EventMeta, FormInput};
use crate::model::{text_of, texts_of, Attendee, CalendarEvent, EventOccurrence, EventSensitivity};
use crate::model::{EventTransparency, RecurrenceRange};
use crate::pieces::{address_entries, addresses_of, tags_of};
use crate::text::{blank, lemma_blank_is_all_white, trimmed};
use vstd::prelude::*;

verus! {

/// What the form says of a series.
#[derive(Debug)]
pub struct SeriesChoice {
    /// The rule that was chosen, if one was.
    pub chosen: Option<String>,
    /// The rule that the event had, if the form could not show it.
    pub unreadable: Option<String>,
}

/// The rule of the series: the one that was chosen, or else the one that could not be shown.
pub open spec fn rule_of(series: SeriesChoice) -> Option<Seq<char>> {
    if series.chosen is Some {
        text_of(series.chosen)
    } else {
        text_of(series.unreadable)
    }
}

/// The time that the form shows, to the minute: midnight for an all-day event.
pub open spec fn shown_time(t: DateTime, all_day: bool) -> DateTime {
    DateTime {
        date: t.date,
        secs: if all_day {
            0u32
        } else {
            (t.secs / 60 * 60) as u32
        },
    }
}

/// What identifies the event: that of the occurrence that is edited.
pub open spec fn identifies(meta: Option<EventMeta>, existing: Option<EventOccurrence>) -> bool {
    match existing {
        Some(occ) => {
            &&& meta matches Some(m)
            &&& m.uid@ == occ.uid@
            &&& text_of(m.href) == text_of(occ.href)
            &&& text_of(m.etag) == text_of(occ.etag)
        },
        None => meta is None,
    }
}

/// The input is what the form says, with what the form does not show taken from the occurrence that
/// is edited.
pub open spec fn collected(
    form: EventForm,
    existing: Option<EventOccurrence>,
    rule: Option<Seq<char>>,
    owner: Option<Seq<char>>,
    input: FormInput,
) -> bool {
    &&& input.title@ == form.title@
    &&& input.location@ == form.location@
    &&& input.description@ == form.description@
    &&& input.all_day == form.all_day
    &&& input.start_local == shown_time(form.start, form.all_day)
    &&& input.end_local == shown_time(form.end, form.all_day)
    &&& texts_of(input.attendee_tokens@) == addresses_of(form.attendees@)
    &&& input.existing_attendees@ == (match existing {
        Some(occ) => occ.attendees@,
        None => Seq::empty(),
    })
    &&& texts_of(input.categories@) == tags_of(form.categories@)
    &&& input.sensitivity == (if form.sensitivity == 1 {
        EventSensitivity::Private
    } else if form.sensitivity == 2 {
        EventSensitivity::Confidential
    } else {
        EventSensitivity::Public
    })
    &&& input.transparency == (if form.transparency == 1 {
        EventTransparency::Free
    } else {
        EventTransparency::Busy
    })
    &&& input.reminder_minutes_before == reminder_at(form.reminder as int)
    &&& input.video_enabled == form.video_enabled
    &&& input.conference_url_text@ == form.conference_url@
    &&& text_of(input.rrule) == rule
    &&& input.recurrence_id is None
    &&& input.recurrence_range == RecurrenceRange::This
    &&& input.exdates@ == (match existing {
        Some(occ) => occ.exdates@,
        None => Seq::empty(),
    })
    &&& text_of(input.owner_email) == owner
    &&& identifies(input.existing_meta, existing)
}

fn time_of_form(t: DateTime, all_day: bool) -> (r: DateTime)
    requires
        t.valid(),
    ensures
        r == shown_time(t, all_day),
        r.valid(),
{
    let hour: u32 = t.secs / 3600;
    let minute: u32 = (t.secs % 3600) / 60;
    date_time_from_form(t.date, hour, minute, all_day)
}

/// What the form says when it is saved. What it does not show (the event's id, where it is stored in
/// which version, its exceptions, the answers of its attendees) is that of the occurrence that is
/// edited.
pub fn form_input(
    form: &EventForm,
    existing: Option<&EventOccurrence>,
    series: SeriesChoice,
    owner_email: Option<String>,
) -> (r: FormInput)
    requires
        form.start.valid(),
        form.end.valid(),
    ensures
        collected(*form, deref(existing), rule_of(series), text_of(owner_email), r),
        r.start_local.valid(),
        r.end_local.valid(),
{
    let existing_attendees: Vec<Attendee> = match existing {
        Some(occ) => clone_attendees(&occ.attendees),
        None => Vec::new(),
    };
    let exdates: Vec<Instant> = match existing {
        Some(occ) => clone_instants(&occ.exdates),
        None => Vec::new(),
    };
    let existing_meta: Option<EventMeta> = match existing {
        Some(occ) => Some(
            EventMeta { uid: occ.uid.clone(), href: occ.href.clone(), etag: occ.etag.clone() },
        ),
        None => None,
    };
    FormInput {
        title: form.title.clone(),
        location: form.location.clone(),
        description: form.description.clone(),
        all_day: form.all_day,
        start_local: time_of_form(form.start, form.all_day),
        end_local: time_of_form(form.end, form.all_day),
        attendee_tokens: address_entries(&form.attendees),
        existing_attendees,
        categories: form_categories(&form.categories),
        sensitivity: sensitivity_from_index(form.sensitivity),
        transparency: transparency_from_index(form.transparency),
        reminder_minutes_before: reminder_from_index(form.reminder),
        video_enabled: form.video_enabled,
        conference_url_text: form.conference_url.clone(),
        rrule: saved_rrule(series.unreadable, series.chosen),
        recurrence_id: None,
        recurrence_range: RecurrenceRange::This,
        exdates,
        owner_email,
        existing_meta,
    }
}

/// A text that is there, or nothing.
pub open spec fn shown(o: Option<String>) -> Seq<char> {
    match o {
        Some(s) => s@,
        None => Seq::empty(),
    }
}

/// An occurrence whose form was opened and saved keeps its id, its place and version, its rule, its
/// exceptions, its title, location and description without white space around them, and what the
/// form picks from a list, if the form offers it.
pub proof fn lemma_unedited_event_kept(
    form: EventForm,
    occ: EventOccurrence,
    owner: Option<Seq<char>>,
    input: FormInput,
    uid: Seq<char>,
    e: CalendarEvent,
)
    requires
        shows_event(form, Some(occ)),
        collected(form, Some(occ), text_of(occ.rrule), owner, input),
        built_from(input, uid, e),
    ensures
        e.uid@ == occ.uid@,
        text_of(e.href) == text_of(occ.href),
        text_of(e.etag) == text_of(occ.etag),
        text_of(e.rrule) == text_of(occ.rrule),
        e.exdates@ == occ.exdates@,
        holds_typed(e.summary, shown(occ.summary)),
        holds_typed(e.location, shown(occ.location)),
        holds_typed(e.description, shown(occ.description)),
        occ.conference_url matches Some(url) ==> holds_typed(e.conference_url, url@),
        occ.conference_url is None ==> e.conference_url is None,
        e.all_day == occ.all_day,
        e.sensitivity == occ.sensitivity,
        e.transparency == occ.transparency,
        e.reminder_minutes_before == occ.reminder_minutes_before || (e.reminder_minutes_before is None
            && forall|k: int| 0 <= k ==> #[trigger] reminder_at(k) != occ.reminder_minutes_before),
{
    assert(blank(Seq::<char>::empty())) by {
        lemma_blank_is_all_white(Seq::<char>::empty());
    }
}

/// Everyone named in the form is invited, with the answer that they gave if they were invited before.
pub proof fn lemma_answers_kept(
    form: EventForm,
    occ: EventOccurrence,
    rule: Option<Seq<char>>,
    owner: Option<Seq<char>>,
    input: FormInput,
    uid: Seq<char>,
    e: CalendarEvent,
    i: int,
)
    requires
        collected(form, Some(occ), rule, owner, input),
        built_from(input, uid, e),
        0 <= i < addresses_of(form.attendees@).len(),
    ensures
        e.attendees@.len() == addresses_of(form.attendees@).len(),
        e.attendees@[i]@ == invited(addresses_of(form.attendees@)[i], occ.attendees@),
{
    let all = all_invited(texts_of(input.attendee_tokens@), input.existing_attendees@);
    assert(all.len() == texts_of(input.attendee_tokens@).len());
    assert(attendee_views(e.attendees@)[i] == e.attendees@[i]@);
}


/// The rule that was chosen counts, and one that the form could not show only where none was chosen.
pub proof fn lemma_rule_taken(series: SeriesChoice)
    ensures
        series.chosen matches Some(rule) ==> rule_of(series) == Some(rule@),
        series.chosen is None ==> rule_of(series) == text_of(series.unreadable),
{
}

/// A new event of which nothing was typed is public, takes its time, reminds of nothing, repeats by no
/// rule, and has no text, no guest and no place on a server.
pub proof fn lemma_new_event_plain(
    form: EventForm,
    owner: Option<Seq<char>>,
    input: FormInput,
    uid: Seq<char>,
    e: CalendarEvent,
)
    requires
        shows_event(form, None),
        collected(form, None, None, owner, input),
        built_from(input, uid, e),
    ensures
        e.uid@ == uid,
        e.href is None && e.etag is None,
        e.summary is None && e.location is None && e.description is None && e.conference_url is None,
        e.sensitivity == EventSensitivity::Public,
        e.transparency == EventTransparency::Busy,
        e.reminder_minutes_before is None,
        e.rrule is None,
        !e.all_day,
        e.start.date == form.start.date && e.start.secs as int / 60 == form.start.secs as int / 60,
        e.attendees@.len() == 0,
        e.exdates@.len() == 0,
        e.organizer is None,
{
    assert(blank(Seq::<char>::empty())) by {
        lemma_blank_is_all_white(Seq::<char>::empty());
    }
    if addresses_of(form.attendees@).len() > 0 {
        lemma_nothing_listed(form.attendees@);
    }
    assert(attendee_views(e.attendees@).len() == e.attendees@.len());
    assert(texts_of(input.attendee_tokens@).len() == input.attendee_tokens@.len());
}

proof fn lemma_nothing_listed(s: Seq<char>)
    requires
        s.len() == 0,
    ensures
        addresses_of(s).len() == 0,
{
    reveal(Seq::filter);
    assert(trimmed(Seq::<char>::empty()).len() == 0);
    let all = seq![Seq::<char>::empty()].map_values(|p: Seq<char>| trimmed(p));
    let full = |p: Seq<char>| p.len() > 0;
    assert(all.len() == 1);
    assert(all.drop_last() =~= Seq::<Seq<char>>::empty());
    assert(all.last().len() == 0);
    assert(all.drop_last().filter(full).len() == 0);
    assert(all.filter(full).len() == 0);
}

} // verus!
