//! What a tool gives the assistant, as JSON.

use crate::assistant_tools::{ContactEntry, EmailEntry, EventEntry, TaskEntry, TaskStatus, TopContact};
use crate::encodings::{json_quote, json_quoted};
use crate::model::{text_of, texts_of};
use crate::pieces::{join, joined};
use crate::text::{decimal, decimal_text};
use vstd::prelude::*;

verus! {

/// Values as a JSON array.
pub open spec fn array_text(values: Seq<Seq<char>>) -> Seq<char> {
    "["@ + joined(values, ","@) + "]"@
}

/// Members as a JSON object.
pub open spec fn object_text(members: Seq<Seq<char>>) -> Seq<char> {
    "{"@ + joined(members, ","@) + "}"@
}

/// A member of a JSON object.
pub open spec fn member(name: Seq<char>, value: Seq<char>) -> Seq<char> {
    "\""@ + name + "\":"@ + value
}

/// Texts as JSON strings.
pub open spec fn strings_text(texts: Seq<Seq<char>>) -> Seq<char> {
    array_text(texts.map_values(|t: Seq<char>| json_quoted(t)))
}

/// A truth value as JSON.
pub open spec fn bool_text(b: bool) -> Seq<char> {
    if b {
        "true"@
    } else {
        "false"@
    }
}

/// A text as JSON, or `null`.
pub open spec fn string_or_null(text: Option<Seq<char>>) -> Seq<char> {
    match text {
        Some(t) => json_quoted(t),
        None => "null"@,
    }
}

/// The name of a status.
pub open spec fn status_name(status: TaskStatus) -> Seq<char> {
    match status {
        TaskStatus::NeedsAction => "NeedsAction"@,
        TaskStatus::InProcess => "InProcess"@,
        TaskStatus::Completed => "Completed"@,
        TaskStatus::Cancelled => "Cancelled"@,
    }
}

pub(crate) fn array_of(values: &Vec<String>) -> (r: String)
    ensures
        r@ == array_text(texts_of(values@)),
{
    let mut out = "[".to_owned();
    out.push_str(&join(values, ","));
    out.push_str("]");
    out
}

pub(crate) fn object_of(members: &Vec<String>) -> (r: String)
    ensures
        r@ == object_text(texts_of(members@)),
{
    let mut out = "{".to_owned();
    out.push_str(&join(members, ","));
    out.push_str("}");
    out
}

pub(crate) fn push_member(members: &mut Vec<String>, name: &str, value: &str)
    ensures
        texts_of(final(members)@) == texts_of(old(members)@).push(member(name@, value@)),
{
    let ghost before = texts_of(members@);
    let mut out = "\"".to_owned();
    out.push_str(name);
    out.push_str("\":");
    out.push_str(value);
    members.push(out);
    assert(texts_of(members@) =~= before.push(member(name@, value@)));
}

pub(crate) fn strings_json(texts: &Vec<String>) -> (r: String)
    ensures
        r@ == strings_text(texts_of(texts@)),
{
    let ghost want = texts_of(texts@).map_values(|t: Seq<char>| json_quoted(t));
    let mut quoted: Vec<String> = Vec::new();
    let mut i: usize = 0;
    while i < texts.len()
        invariant
            i <= texts.len(),
            want == texts_of(texts@).map_values(|t: Seq<char>| json_quoted(t)),
            texts_of(quoted@) == want.take(i as int),
        decreases texts.len() - i,
    {
        let ghost before = texts_of(quoted@);
        let q = json_quote(&texts[i]);
        quoted.push(q);
        assert(texts_of(quoted@) =~= before.push(q@));
        assert(want.take(i + 1) =~= before.push(want[i as int]));
        i += 1;
    }
    assert(want.take(i as int) =~= want);
    array_of(&quoted)
}

fn bool_json(b: bool) -> (r: &'static str)
    ensures
        r@ == bool_text(b),
{
    if b {
        "true"
    } else {
        "false"
    }
}

fn optional_json(text: &Option<String>) -> (r: String)
    ensures
        r@ == string_or_null(text_of(*text)),
{
    match text {
        Some(t) => json_quote(t),
        None => "null".to_owned(),
    }
}

fn status_text(status: TaskStatus) -> (r: &'static str)
    ensures
        r@ == status_name(status),
{
    match status {
        TaskStatus::NeedsAction => "NeedsAction",
        TaskStatus::InProcess => "InProcess",
        TaskStatus::Completed => "Completed",
        TaskStatus::Cancelled => "Cancelled",
    }
}

/// What can be written as JSON.
pub trait JsonValue: Sized {
    /// The JSON.
    spec fn json(&self) -> Seq<char>;

    /// The JSON.
    fn to_json(&self) -> (r: String)
        ensures
            r@ == self.json(),
    ;
}

impl JsonValue for EmailEntry {
    open spec fn json(&self) -> Seq<char> {
        object_text(
            seq![
                member("date"@, json_quoted(self.date@)),
                member("from"@, json_quoted(self.from@)),
                member("link"@, json_quoted(self.link@)),
                member("mailbox"@, json_quoted(self.mailbox@)),
                member("preview"@, json_quoted(self.preview@)),
                member("subject"@, json_quoted(self.subject@)),
                member("to"@, strings_text(texts_of(self.to@))),
                member("uid"@, decimal(self.uid as nat)),
                member("unread"@, bool_text(self.unread)),
            ],
        )
    }

    fn to_json(&self) -> (r: String) {
        let mut members: Vec<String> = Vec::new();
        push_member(&mut members, "date", &json_quote(&self.date));
        push_member(&mut members, "from", &json_quote(&self.from));
        push_member(&mut members, "link", &json_quote(&self.link));
        push_member(&mut members, "mailbox", &json_quote(&self.mailbox));
        push_member(&mut members, "preview", &json_quote(&self.preview));
        push_member(&mut members, "subject", &json_quote(&self.subject));
        push_member(&mut members, "to", &strings_json(&self.to));
        push_member(&mut members, "uid", &decimal_text(self.uid as u64));
        push_member(&mut members, "unread", bool_json(self.unread));
        assert(texts_of(members@) =~= seq![
            member("date"@, json_quoted(self.date@)),
            member("from"@, json_quoted(self.from@)),
            member("link"@, json_quoted(self.link@)),
            member("mailbox"@, json_quoted(self.mailbox@)),
            member("preview"@, json_quoted(self.preview@)),
            member("subject"@, json_quoted(self.subject@)),
            member("to"@, strings_text(texts_of(self.to@))),
            member("uid"@, decimal(self.uid as nat)),
            member("unread"@, bool_text(self.unread)),
        ]);
        object_of(&members)
    }
}

impl JsonValue for TopContact {
    open spec fn json(&self) -> Seq<char> {
        object_text(
            seq![
                member("address"@, json_quoted(self.address@)),
                member("count"@, decimal(self.count as nat)),
                member("name"@, json_quoted(self.name@)),
            ],
        )
    }

    fn to_json(&self) -> (r: String) {
        let mut members: Vec<String> = Vec::new();
        push_member(&mut members, "address", &json_quote(&self.address));
        push_member(&mut members, "count", &decimal_text(self.count));
        push_member(&mut members, "name", &json_quote(&self.name));
        assert(texts_of(members@) =~= seq![
            member("address"@, json_quoted(self.address@)),
            member("count"@, decimal(self.count as nat)),
            member("name"@, json_quoted(self.name@)),
        ]);
        object_of(&members)
    }
}

impl JsonValue for ContactEntry {
    open spec fn json(&self) -> Seq<char> {
        object_text(
            seq![
                member("account"@, json_quoted(self.account@)),
                member("emails"@, strings_text(texts_of(self.emails@))),
                member("name"@, json_quoted(self.name@)),
            ],
        )
    }

    fn to_json(&self) -> (r: String) {
        let mut members: Vec<String> = Vec::new();
        push_member(&mut members, "account", &json_quote(&self.account));
        push_member(&mut members, "emails", &strings_json(&self.emails));
        push_member(&mut members, "name", &json_quote(&self.name));
        assert(texts_of(members@) =~= seq![
            member("account"@, json_quoted(self.account@)),
            member("emails"@, strings_text(texts_of(self.emails@))),
            member("name"@, json_quoted(self.name@)),
        ]);
        object_of(&members)
    }
}

impl JsonValue for TaskEntry {
    open spec fn json(&self) -> Seq<char> {
        object_text(
            seq![
                member("calendar"@, json_quoted(self.calendar@)),
                member("categories"@, strings_text(texts_of(self.categories@))),
                member("due"@, string_or_null(text_of(self.due))),
                member("priority"@, decimal(self.priority as nat)),
                member("status"@, json_quoted(status_name(self.status))),
                member("summary"@, json_quoted(self.summary@)),
            ],
        )
    }

    fn to_json(&self) -> (r: String) {
        let mut members: Vec<String> = Vec::new();
        push_member(&mut members, "calendar", &json_quote(&self.calendar));
        push_member(&mut members, "categories", &strings_json(&self.categories));
        push_member(&mut members, "due", &optional_json(&self.due));
        push_member(&mut members, "priority", &decimal_text(self.priority as u64));
        push_member(&mut members, "status", &json_quote(status_text(self.status)));
        push_member(&mut members, "summary", &json_quote(&self.summary));
        assert(texts_of(members@) =~= seq![
            member("calendar"@, json_quoted(self.calendar@)),
            member("categories"@, strings_text(texts_of(self.categories@))),
            member("due"@, string_or_null(text_of(self.due))),
            member("priority"@, decimal(self.priority as nat)),
            member("status"@, json_quoted(status_name(self.status))),
            member("summary"@, json_quoted(self.summary@)),
        ]);
        object_of(&members)
    }
}

impl JsonValue for EventEntry {
    open spec fn json(&self) -> Seq<char> {
        object_text(
            seq![
                member("all_day"@, bool_text(self.all_day)),
                member("end"@, json_quoted(self.end@)),
                member("link"@, json_quoted(self.link@)),
                member("location"@, string_or_null(text_of(self.location))),
                member("start"@, json_quoted(self.start@)),
                member("summary"@, json_quoted(self.summary@)),
            ],
        )
    }

    fn to_json(&self) -> (r: String) {
        let mut members: Vec<String> = Vec::new();
        push_member(&mut members, "all_day", bool_json(self.all_day));
        push_member(&mut members, "end", &json_quote(&self.end));
        push_member(&mut members, "link", &json_quote(&self.link));
        push_member(&mut members, "location", &optional_json(&self.location));
        push_member(&mut members, "start", &json_quote(&self.start));
        push_member(&mut members, "summary", &json_quote(&self.summary));
        assert(texts_of(members@) =~= seq![
            member("all_day"@, bool_text(self.all_day)),
            member("end"@, json_quoted(self.end@)),
            member("link"@, json_quoted(self.link@)),
            member("location"@, string_or_null(text_of(self.location))),
            member("start"@, json_quoted(self.start@)),
            member("summary"@, json_quoted(self.summary@)),
        ]);
        object_of(&members)
    }
}

/// Entries as a JSON array.
pub open spec fn entries_text<T: JsonValue>(entries: Seq<T>) -> Seq<char> {
    array_text(entries.map_values(|e: T| e.json()))
}

fn entries_json<T: JsonValue>(entries: &Vec<T>) -> (r: String)
    ensures
        r@ == entries_text(entries@),
{
    let ghost want = entries@.map_values(|e: T| e.json());
    let mut written: Vec<String> = Vec::new();
    let mut i: usize = 0;
    while i < entries.len()
        invariant
            i <= entries.len(),
            want == entries@.map_values(|e: T| e.json()),
            texts_of(written@) == want.take(i as int),
        decreases entries.len() - i,
    {
        let ghost before = texts_of(written@);
        let json = entries[i].to_json();
        written.push(json);
        assert(texts_of(written@) =~= before.push(json@));
        assert(want.take(i + 1) =~= before.push(want[i as int]));
        i += 1;
    }
    assert(want.take(i as int) =~= want);
    array_of(&written)
}

/// What a tool gives.
#[derive(Debug)]
pub enum ToolResult {
    Emails(Vec<EmailEntry>),
    People(Vec<TopContact>),
    Contacts(Vec<ContactEntry>),
    Tasks(Vec<TaskEntry>),
    Events(Vec<EventEntry>),
}

impl JsonValue for ToolResult {
    open spec fn json(&self) -> Seq<char> {
        match self {
            ToolResult::Emails(v) => entries_text(v@),
            ToolResult::People(v) => entries_text(v@),
            ToolResult::Contacts(v) => entries_text(v@),
            ToolResult::Tasks(v) => entries_text(v@),
            ToolResult::Events(v) => entries_text(v@),
        }
    }

    fn to_json(&self) -> (r: String) {
        match self {
            ToolResult::Emails(v) => entries_json(v),
            ToolResult::People(v) => entries_json(v),
            ToolResult::Contacts(v) => entries_json(v),
            ToolResult::Tasks(v) => entries_json(v),
            ToolResult::Events(v) => entries_json(v),
        }
    }
}

/// What the assistant is told of a tool: what it gave, or a JSON document with the error.
pub open spec fn told_of(result: Result<ToolResult, String>) -> Seq<char> {
    match result {
        Ok(value) => value.json(),
        Err(error) => object_text(seq![member("error"@, json_quoted(error@))]),
    }
}

/// What the assistant is told of a tool.
pub fn result_content(result: &Result<ToolResult, String>) -> (r: String)
    ensures
        r@ == told_of(*result),
{
    match result {
        Ok(value) => value.to_json(),
        Err(error) => {
            let mut members: Vec<String> = Vec::new();
            push_member(&mut members, "error", &json_quote(error));
            assert(texts_of(members@) =~= seq![member("error"@, json_quoted(error@))]);
            object_of(&members)
        },
    }
}

} // verus!
