//! The data that the views show: events, people and their addresses.

use crate::dates::{DateTime, Instant, Moment};
use crate::text::{blank, is_blank, lemma_blank_is_all_white, white};
use vstd::prelude::*;

verus! {

/// The text of an optional string.
pub open spec fn text_of(o: Option<String>) -> Option<Seq<char>> {
    match o {
        Some(s) => Some(s@),
        None => None,
    }
}

/// The texts of a sequence of strings.
pub open spec fn texts_of(v: Seq<String>) -> Seq<Seq<char>> {
    v.map_values(|s: String| s@)
}

/// A mail address with the name of its owner, if it is known.
#[derive(Debug)]
pub struct EmailAddress {
    pub name: Option<String>,
    pub address: String,
}

/// An address as text.
pub struct EmailAddressView {
    pub name: Option<Seq<char>>,
    pub address: Seq<char>,
}

impl View for EmailAddress {
    type V = EmailAddressView;

    open spec fn view(&self) -> EmailAddressView {
        EmailAddressView { name: text_of(self.name), address: self.address@ }
    }
}

impl Clone for EmailAddress {
    fn clone(&self) -> (r: Self)
        ensures
            r == *self,
    {
        EmailAddress { name: self.name.clone(), address: self.address.clone() }
    }
}

impl EmailAddress {
    /// An address without a name.
    pub fn new(address: &str) -> (r: EmailAddress)
        ensures
            r@ == (EmailAddressView { name: None, address: address@ }),
    {
        EmailAddress { name: None, address: address.to_owned() }
    }
}

/// The part that an attendee has in an event.
#[derive(Clone, Copy, PartialEq, Eq, Structural, Debug)]
pub enum AttendeeRole {
    Required,
    Optional,
    NonParticipant,
    Chair,
}

/// What an attendee answered.
#[derive(Clone, Copy, PartialEq, Eq, Structural, Debug)]
pub enum AttendeeStatus {
    NeedsAction,
    Accepted,
    Declined,
    Tentative,
    Delegated,
}

/// One invited person.
#[derive(Debug)]
pub struct Attendee {
    pub address: EmailAddress,
    pub role: AttendeeRole,
    pub status: AttendeeStatus,
}

impl Clone for Attendee {
    fn clone(&self) -> (r: Self)
        ensures
            r == *self,
    {
        Attendee { address: self.address.clone(), role: self.role, status: self.status }
    }
}

/// Who may see an event.
#[derive(Clone, Copy, PartialEq, Eq, Structural, Debug)]
pub enum EventSensitivity {
    Public,
    Private,
    Confidential,
}

impl Default for EventSensitivity {
    fn default() -> (r: Self)
        ensures
            r == EventSensitivity::Public,
    {
        EventSensitivity::Public
    }
}

/// Whether an event takes up its time.
#[derive(Clone, Copy, PartialEq, Eq, Structural, Debug)]
pub enum EventTransparency {
    Busy,
    Free,
}

impl Default for EventTransparency {
    fn default() -> (r: Self)
        ensures
            r == EventTransparency::Busy,
    {
        EventTransparency::Busy
    }
}

/// Which instances of a series an override replaces.
#[derive(Clone, Copy, PartialEq, Eq, Structural, Debug)]
pub enum RecurrenceRange {
    This,
    ThisAndFuture,
}

impl Default for RecurrenceRange {
    fn default() -> (r: Self)
        ensures
            r == RecurrenceRange::This,
    {
        RecurrenceRange::This
    }
}

/// One occurrence of an event, as the calendar shows it.
#[derive(Debug)]
pub struct EventOccurrence {
    pub uid: String,
    pub calendar_id: String,
    pub summary: Option<String>,
    pub description: Option<String>,
    pub location: Option<String>,
    pub start: Moment,
    pub end: Moment,
    pub all_day: bool,
    pub rrule: Option<String>,
    pub recurrence_id: Option<Instant>,
    pub exdates: Vec<Instant>,
    pub master_start: Option<Moment>,
    pub master_end: Option<Moment>,
    pub href: Option<String>,
    pub etag: Option<String>,
    pub master_href: Option<String>,
    pub master_etag: Option<String>,
    pub attendees: Vec<Attendee>,
    pub organizer: Option<EmailAddress>,
    pub categories: Vec<String>,
    pub sensitivity: EventSensitivity,
    pub transparency: EventTransparency,
    pub reminder_minutes_before: Option<i64>,
    pub conference_url: Option<String>,
}

/// An event to be saved. Its times are wall-clock times of the user's time zone.
#[derive(Debug)]
pub struct CalendarEvent {
    pub uid: String,
    pub calendar_id: String,
    pub summary: Option<String>,
    pub description: Option<String>,
    pub location: Option<String>,
    pub start: DateTime,
    pub end: DateTime,
    pub all_day: bool,
    pub rrule: Option<String>,
    pub recurrence_id: Option<Instant>,
    pub recurrence_range: RecurrenceRange,
    pub exdates: Vec<Instant>,
    pub rdates: Vec<Instant>,
    pub href: Option<String>,
    pub etag: Option<String>,
    pub attendees: Vec<Attendee>,
    pub organizer: Option<EmailAddress>,
    pub categories: Vec<String>,
    pub sensitivity: EventSensitivity,
    pub transparency: EventTransparency,
    pub reminder_minutes_before: Option<i64>,
    pub conference_url: Option<String>,
}

/// What a list shows of one mail.
#[derive(Debug)]
pub struct EmailSummary {
    pub uid: u32,
    pub mailbox: String,
    pub subject: Option<String>,
    pub from: Vec<EmailAddress>,
    pub to: Vec<EmailAddress>,
    pub cc: Vec<EmailAddress>,
    pub date: Instant,
    pub unread: bool,
    pub preview: Option<String>,
}

/// The content of one mail.
#[derive(Debug)]
pub struct EmailBody {
    pub text_body: Option<String>,
    pub headers: Vec<(String, String)>,
}

/// An address that mail can be sent from.
#[derive(Debug)]
pub struct Identity {
    pub account_id: String,
    pub name: String,
    pub email: String,
    pub reply_to: Vec<EmailAddress>,
    pub bcc: Vec<EmailAddress>,
}

impl Identity {
    /// An identity with nothing but a name and an address.
    pub fn new(account_id: &str, name: &str, email: &str) -> (r: Identity)
        ensures
            r.account_id@ == account_id@,
            r.name@ == name@,
            r.email@ == email@,
            r.reply_to@.len() == 0,
            r.bcc@.len() == 0,
    {
        Identity {
            account_id: account_id.to_owned(),
            name: name.to_owned(),
            email: email.to_owned(),
            reply_to: Vec::new(),
            bcc: Vec::new(),
        }
    }
}

impl Clone for Identity {
    fn clone(&self) -> (r: Self)
        ensures
            r.account_id == self.account_id,
            r.name == self.name,
            r.email == self.email,
            r.reply_to@ == self.reply_to@,
            r.bcc@ == self.bcc@,
    {
        Identity {
            account_id: self.account_id.clone(),
            name: self.name.clone(),
            email: self.email.clone(),
            reply_to: clone_addresses(&self.reply_to),
            bcc: clone_addresses(&self.bcc),
        }
    }
}

/// A copy of a list of addresses.
pub fn clone_addresses(v: &Vec<EmailAddress>) -> (r: Vec<EmailAddress>)
    ensures
        r@ == v@,
{
    let mut out: Vec<EmailAddress> = Vec::new();
    let mut i: usize = 0;
    while i < v.len()
        invariant
            i <= v.len(),
            out@ == v@.take(i as int),
        decreases v.len() - i,
    {
        out.push(v[i].clone());
        assert(out@ =~= v@.take(i + 1));
        i += 1;
    }
    assert(out@ =~= v@);
    out
}

/// A copy of a list of strings.
pub fn clone_strings(v: &Vec<String>) -> (r: Vec<String>)
    ensures
        r@ == v@,
{
    let mut out: Vec<String> = Vec::new();
    let mut i: usize = 0;
    while i < v.len()
        invariant
            i <= v.len(),
            out@ == v@.take(i as int),
        decreases v.len() - i,
    {
        out.push(v[i].clone());
        assert(out@ =~= v@.take(i + 1));
        i += 1;
    }
    assert(out@ =~= v@);
    out
}

/// The bare addresses of a list of addresses.
pub open spec fn addresses(v: Seq<EmailAddress>) -> Seq<Seq<char>> {
    v.map_values(|a: EmailAddress| a.address@)
}

/// A name that is there and not blank.
pub open spec fn given_name(a: EmailAddressView) -> Option<Seq<char>> {
    match a.name {
        Some(name) => if blank(name) {
            None
        } else {
            Some(name)
        },
        None => None,
    }
}

/// What an address is called: its name, or else the address itself.
pub open spec fn label_of(a: EmailAddressView) -> Seq<char> {
    match given_name(a) {
        Some(name) => name,
        None => a.address,
    }
}

/// The labels of a list of addresses.
pub open spec fn labels_of(v: Seq<EmailAddress>) -> Seq<Seq<char>> {
    v.map_values(|a: EmailAddress| label_of(a@))
}

/// An address written as `Name <address>`, or the address alone if it has no name.
pub open spec fn full_label(a: EmailAddressView) -> Seq<char> {
    match given_name(a) {
        Some(name) => name + " <"@ + a.address + ">"@,
        None => a.address,
    }
}

impl EmailAddress {
    /// What the address is called: its name, or else the address itself.
    pub fn display_label(&self) -> (r: String)
        ensures
            r@ == label_of(self@),
    {
        match &self.name {
            Some(name) => if is_blank(name) {
                self.address.clone()
            } else {
                name.clone()
            },
            None => self.address.clone(),
        }
    }
}

/// An address written as `Name <address>`, or the address alone if it has no name.
pub fn address_label(address: &EmailAddress) -> (r: String)
    ensures
        r@ == full_label(address@),
{
    match &address.name {
        Some(name) => {
            if is_blank(name) {
                address.address.clone()
            } else {
                let mut out = name.clone();
                out.push_str(" <");
                out.push_str(&address.address);
                out.push_str(">");
                out
            }
        },
        None => address.address.clone(),
    }
}

/// The labels of a list of addresses.
pub fn display_labels(v: &Vec<EmailAddress>) -> (r: Vec<String>)
    ensures
        texts_of(r@) == labels_of(v@),
{
    let mut out: Vec<String> = Vec::new();
    let mut i: usize = 0;
    while i < v.len()
        invariant
            i <= v.len(),
            texts_of(out@) == labels_of(v@).take(i as int),
        decreases v.len() - i,
    {
        let ghost before = texts_of(out@);
        let label = v[i].display_label();
        out.push(label);
        assert(texts_of(out@) =~= before.push(label@));
        assert(labels_of(v@).take(i + 1) =~= labels_of(v@).take(i as int).push(label@));
        i += 1;
    }
    assert(labels_of(v@).take(i as int) =~= labels_of(v@));
    out
}

/// How someone is shown: by their name, unless it is blank, and else by their address; in full the name
/// stands before the address, which stands in angle brackets.
pub proof fn lemma_shown_by_name(name: Seq<char>, address: Seq<char>)
    ensures
        (exists|i: int| 0 <= i < name.len() && !white(#[trigger] name[i])) ==> label_of(
            EmailAddressView { name: Some(name), address },
        ) == name && full_label(EmailAddressView { name: Some(name), address }) == name + " <"@ + address + ">"@,
        (forall|i: int| 0 <= i < name.len() ==> white(#[trigger] name[i])) ==> label_of(
            EmailAddressView { name: Some(name), address },
        ) == address && full_label(EmailAddressView { name: Some(name), address }) == address,
        label_of(EmailAddressView { name: None, address }) == address,
        full_label(EmailAddressView { name: None, address }) == address,
{
    lemma_blank_is_all_white(name);
}

} // verus!
