//! How a call of a tool is answered from the user's data, and how a conversation goes on from it.

use crate::assistant_chat::{call_views, calls_in, message_in, transcript, CallView, Conversation};
use crate::assistant_chat::{MessageView, StepView, ToolCall, MAX_TOOL_TURNS};
use crate::assistant_tools::{coming_rows, contact_views, counts_fit, dated_messages, dated_tasks, due_rows};
use crate::assistant_tools::{email_entries, event_entry, first_rows, list_contacts, list_tasks, matches_upto};
use crate::assistant_tools::{in_bounds, newest_rows, ranking, read_counts, read_messages, request_of, soonest_rows};
use crate::assistant_tools::{tells_email, tells_event, tells_task, told, top_contacts, top_views};
use crate::assistant_tools::{upcoming_rows, AddressCount, CalendarTask, ContactSource, EventEntry};
use crate::assistant_tools::{RequestView, ToolRequest};
use crate::dates::Instant;
use crate::encodings::{json_quoted, json_signed_at, json_string_at, json_unsigned_at};
use crate::model::{EmailSummary, EventOccurrence};
use crate::sorting::as_rows;
use crate::tool_results::{member, object_text, told_of, ToolResult};
use vstd::prelude::*;

verus! {

/// What a tool reads.
#[derive(Debug)]
pub struct ToolData<'a> {
    /// The mails that each cache gave for the request; none of a cache that could not be read.
    pub messages: &'a Vec<Option<Vec<EmailSummary>>>,
    /// How often mail was exchanged with whom, by cache.
    pub counts: &'a Vec<Option<Vec<AddressCount>>>,
    pub contacts: &'a Vec<ContactSource>,
    pub tasks: &'a Vec<CalendarTask>,
    pub occurrences: &'a Vec<EventOccurrence>,
    /// The JSON form of each occurrence.
    pub occurrence_json: &'a Vec<String>,
    pub checked_calendars: &'a Vec<String>,
    pub now: Instant,
}

impl ToolData<'_> {
    /// All that is dated is dated in range, and what is counted can be counted.
    pub open spec fn wf(self) -> bool {
        &&& dated_messages(read_messages(self.messages@))
        &&& counts_fit(self.counts@)
        &&& dated_tasks(self.tasks@)
        &&& self.occurrence_json@.len() == self.occurrences@.len()
        &&& forall|i: int|
            0 <= i < self.occurrences@.len() ==> (#[trigger] self.occurrences@[i]).start.instant.valid()
                && self.occurrences@[i].end.instant.valid()
        &&& self.now.in_range()
    }
}

/// What a tool gives says what was asked for, and nothing else.
pub open spec fn tells<'a>(request: ToolRequest, data: ToolData<'a>, result: ToolResult) -> bool {
    match request {
        ToolRequest::RecentEmails { limit } => tells_newest(data.messages@, limit, result),
        ToolRequest::SearchEmails { query: _, limit } => tells_newest(data.messages@, limit, result),
        ToolRequest::TopContacts { limit } => {
            &&& result matches ToolResult::People(v)
            &&& top_views(v@) == ranking(read_counts(data.counts@), limit)
        },
        ToolRequest::ListContacts { query, limit } => {
            &&& result matches ToolResult::Contacts(v)
            &&& contact_views(v@) == first_rows(
                matches_upto(data.contacts@, query@, data.contacts@.len() as int),
                limit,
            )
        },
        ToolRequest::ListTasks { all, limit } => {
            let shown = data.tasks@.filter(told(all));
            let rows = first_rows(due_rows(shown), limit);
            &&& result matches ToolResult::Tasks(v)
            &&& v@.len() == rows.len()
            &&& forall|i: int| 0 <= i < v@.len() ==> tells_task(#[trigger] v@[i], shown[rows[i]])
        },
        ToolRequest::UpcomingEvents { days, limit } => {
            let rows = soonest_rows(
                data.occurrences@,
                coming_rows(data.occurrences@, data.checked_calendars@, data.now, days as int),
                limit,
            );
            &&& result matches ToolResult::Events(v)
            &&& v@.len() == rows.len()
            &&& forall|i: int|
                0 <= i < v@.len() ==> tells_event(
                    #[trigger] v@[i],
                    data.occurrences@[rows[i]],
                    data.occurrence_json@[rows[i]]@,
                )
        },
    }
}

/// What a tool gives are the newest mails of the caches.
pub open spec fn tells_newest(found: Seq<Option<Vec<EmailSummary>>>, limit: usize, result: ToolResult) -> bool {
    let all = read_messages(found);
    let rows = first_rows(newest_rows(all), limit);
    &&& result matches ToolResult::Emails(v)
    &&& v@.len() == rows.len()
    &&& forall|i: int| 0 <= i < v@.len() ==> tells_email(#[trigger] v@[i], all[rows[i]])
}

proof fn lemma_told_tasks_dated(tasks: Seq<CalendarTask>, all: bool)
    requires
        dated_tasks(tasks),
    ensures
        dated_tasks(tasks.filter(told(all))),
{
    let shown = tasks.filter(told(all));
    assert forall|i: int| 0 <= i < shown.len() implies ((#[trigger] shown[i]).due matches Some(at) ==> at.valid()) by {
        assert(shown.contains(shown[i]));
        tasks.lemma_filter_contains_rev(told(all), shown[i]);
        let k = choose|k: int| 0 <= k < tasks.len() && tasks[k] == shown[i];
        assert(tasks[k] == shown[i]);
    }
}

fn event_entries(data: &ToolData, rows: &Vec<usize>) -> (r: Vec<EventEntry>)
    requires
        data.wf(),
        forall|k: int| 0 <= k < rows@.len() ==> #[trigger] rows@[k] < data.occurrences@.len(),
    ensures
        r@.len() == rows@.len(),
        forall|i: int|
            0 <= i < r@.len() ==> tells_event(
                #[trigger] r@[i],
                data.occurrences@[rows@[i] as int],
                data.occurrence_json@[rows@[i] as int]@,
            ),
{
    let mut out: Vec<EventEntry> = Vec::new();
    let mut i: usize = 0;
    while i < rows.len()
        invariant
            i <= rows.len(),
            data.wf(),
            out@.len() == i,
            forall|k: int| 0 <= k < rows@.len() ==> #[trigger] rows@[k] < data.occurrences@.len(),
            forall|k: int|
                0 <= k < i ==> tells_event(
                    #[trigger] out@[k],
                    data.occurrences@[rows@[k] as int],
                    data.occurrence_json@[rows@[k] as int]@,
                ),
        decreases rows.len() - i,
    {
        let k: usize = rows[i];
        out.push(event_entry(&data.occurrences[k], &data.occurrence_json[k]));
        i += 1;
    }
    out
}

/// What a tool gives for a request.
pub fn run_tool(request: &ToolRequest, data: &ToolData) -> (r: ToolResult)
    requires
        data.wf(),
        in_bounds(*request),
    ensures
        tells(*request, *data, r),
{
    match request {
        ToolRequest::RecentEmails { limit } => ToolResult::Emails(email_entries(data.messages, *limit)),
        ToolRequest::SearchEmails { query: _, limit } => ToolResult::Emails(
            email_entries(data.messages, *limit),
        ),
        ToolRequest::TopContacts { limit } => ToolResult::People(top_contacts(data.counts, *limit)),
        ToolRequest::ListContacts { query, limit } => ToolResult::Contacts(
            list_contacts(data.contacts, query, *limit),
        ),
        ToolRequest::ListTasks { all, limit } => {
            proof {
                lemma_told_tasks_dated(data.tasks@, *all);
            }
            ToolResult::Tasks(list_tasks(data.tasks, *all, *limit))
        },
        ToolRequest::UpcomingEvents { days, limit } => {
            let rows = upcoming_rows(
                data.occurrences,
                data.now,
                data.checked_calendars,
                *days,
                *limit,
            );
            assert(as_rows(rows@).len() == rows@.len());
            assert forall|k: int| 0 <= k < rows@.len() implies as_rows(rows@)[k] == rows@[k] by {}
            ToolResult::Events(event_entries(data, &rows))
        },
    }
}

/// What a call asks of a tool, or why it cannot be answered.
pub open spec fn requested(call: CallView) -> Result<RequestView, Seq<char>> {
    request_of(
        call.name,
        json_unsigned_at(call.arguments, "/limit"@),
        json_string_at(call.arguments, "/query"@),
        json_string_at(call.arguments, "/status"@),
        json_signed_at(call.arguments, "/days"@),
    )
}

/// A call that cannot be answered fails with the reason.
pub open spec fn answers(call: CallView, result: Result<ToolResult, String>) -> bool {
    requested(call) matches Err(reason) ==> (result matches Err(e) && e@ == reason)
}

/// A call that was read, with the data for it, comes to an end: with the reason why it cannot be
/// answered, with what went wrong when its data were read, or with what the tool gives.
pub fn finish_call(
    request: Result<ToolRequest, String>,
    data: Result<ToolData, String>,
) -> (r: Result<ToolResult, String>)
    requires
        request matches Ok(q) ==> in_bounds(q),
        data matches Ok(d) ==> d.wf(),
    ensures
        match (request, data) {
            (Err(e), _) => r == Err::<ToolResult, String>(e),
            (Ok(_), Err(e)) => r == Err::<ToolResult, String>(e),
            (Ok(q), Ok(d)) => r matches Ok(result) && tells(q, d, result),
        },
{
    match request {
        Err(e) => Err(e),
        Ok(q) => match data {
            Err(e) => Err(e),
            Ok(d) => Ok(run_tool(&q, &d)),
        },
    }
}

/// What is told of the called tools, in the order of the calls.
pub open spec fn tool_messages(calls: Seq<CallView>, results: Seq<Result<ToolResult, String>>) -> Seq<
    MessageView,
> {
    Seq::new(calls.len(), |i: int| MessageView::Tool(calls[i].id, told_of(results[i])))
}

/// When the assistant calls tools, the conversation goes on with what it said, unchanged, and one
/// message for each call, in the order of the calls: what the tool gave, or the error. Whatever came
/// of the calls, it is over only after too many replies, and a call that cannot be answered is told
/// of with the reason.
pub proof fn lemma_tool_turn(
    before: Conversation,
    body: Seq<char>,
    asked: Conversation,
    calls: Seq<ToolCall>,
    results: Seq<Result<ToolResult, String>>,
    after: Conversation,
    over: Option<String>,
)
    requires
        before.replied(body, StepView::Call(call_views(calls)), asked),
        asked.resulted(calls, results, over, after),
        calls.len() == results.len(),
        before.turns < MAX_TOOL_TURNS,
        forall|i: int|
            0 <= i < calls.len() ==> #[trigger] answers(call_views(calls)[i], results[i]),
    ensures
        call_views(calls) == calls_in(body),
        calls.len() >= 1,
        message_in(body) matches Some(message) && transcript(after.messages@) == transcript(
            before.messages@,
        ).push(MessageView::Assistant(message)) + tool_messages(calls_in(body), results),
        after.turns == before.turns + 1,
        over is None <==> before.turns + 1 < MAX_TOOL_TURNS,
        forall|i: int|
            0 <= i < calls.len() ==> (requested(#[trigger] calls_in(body)[i]) matches Err(reason) ==> told_of(
                results[i],
            ) == object_text(seq![member("error"@, json_quoted(reason))])),
{
    assert(call_views(calls).len() == calls.len());
    assert(tool_messages(call_views(calls), results) =~= Seq::new(
        calls.len(),
        |i: int| MessageView::Tool(calls[i].id@, told_of(results[i])),
    ));
    assert forall|i: int| 0 <= i < calls.len() implies (requested(#[trigger] calls_in(body)[i]) matches Err(
        reason,
    ) ==> told_of(results[i]) == object_text(seq![member("error"@, json_quoted(reason))])) by {
        assert(answers(call_views(calls)[i], results[i]));
    }
}

} // verus!
