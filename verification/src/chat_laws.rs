//! What holds of the conversation with the assistant, and of what is told to it.

use crate::assistant::{base_address, present, probe_error, snippet_of, sorted_texts};
use crate::assistant::{status_report, Probe};
use crate::assistant_chat::{step_of, transcript, CallView, Conversation, MessageView, ParameterKind};
use crate::assistant_chat::{StepView, ToolCall, ToolDefinition, ToolParameter};
use crate::assistant_tools::{ContactEntry, EmailEntry, EventEntry, TaskEntry, TaskStatus, TopContact};
use crate::chat_links::{encoded_byte, encoded_bytes, unreserved};
use crate::chat_request::{is_required, message_text, parameter_text, parameters_text, properties, request_text};
use crate::chat_request::{required_names, tool_text};
use crate::encodings::json_quoted;
use crate::model::{text_of, texts_of};
use crate::pieces::joined;
use crate::sorting::{in_key_order, key_order, lemma_key_order_arranges, lemma_key_order_sorts};
use crate::sorting::{lemma_texts_ordered, text_order};
use crate::text::{blank, decimal, has_prefix, has_text, strip_back, text_le, trimmed};
use crate::tool_results::{array_text, bool_text, entries_text, member, object_text, status_name, string_or_null};
use crate::tool_results::{strings_text, told_of, JsonValue, ToolResult};
use vstd::prelude::*;

verus! {

/// A text that is there stays there when something is put before or behind.
proof fn lemma_text_within(a: Seq<char>, s: Seq<char>, b: Seq<char>, t: Seq<char>)
    requires
        has_text(s, t),
    ensures
        has_text(a + s + b, t),
{
    let i = choose|i: int| 0 <= i <= s.len() && has_prefix(#[trigger] s.skip(i), t);
    let all = a + s + b;
    let k = a.len() + i;
    assert(all.skip(k).take(t.len() as int) =~= s.skip(i).take(t.len() as int));
    assert(has_prefix(all.skip(k), t));
}

proof fn lemma_text_itself(s: Seq<char>)
    ensures
        has_text(s, s),
{
    assert(s.skip(0) =~= s);
    assert(s.take(s.len() as int) =~= s);
    assert(has_prefix(s.skip(0), s));
}

/// Texts that are joined are all there.
pub proof fn lemma_joined_holds(parts: Seq<Seq<char>>, sep: Seq<char>, i: int)
    requires
        0 <= i < parts.len(),
    ensures
        has_text(joined(parts, sep), parts[i]),
    decreases parts.len(),
{
    lemma_text_itself(parts[i]);
    let none = Seq::<char>::empty();
    if parts.len() > 1 {
        let first = joined(parts.drop_last(), sep);
        if i < parts.len() - 1 {
            lemma_joined_holds(parts.drop_last(), sep, i);
            lemma_text_within(none, first, sep + parts.last(), parts[i]);
            assert(none + first + (sep + parts.last()) =~= joined(parts, sep));
        } else {
            lemma_text_within(first + sep, parts[i], none, parts[i]);
            assert(first + sep + parts[i] + none =~= joined(parts, sep));
        }
    }
}

proof fn lemma_member_told(members: Seq<Seq<char>>, i: int)
    requires
        0 <= i < members.len(),
    ensures
        has_text(object_text(members), members[i]),
{
    lemma_joined_holds(members, ","@, i);
    lemma_text_within("{"@, joined(members, ","@), "}"@, members[i]);
}

proof fn lemma_text_in_text(a: Seq<char>, b: Seq<char>, t: Seq<char>)
    requires
        has_text(a, b),
        has_text(b, t),
    ensures
        has_text(a, t),
{
    let i = choose|i: int| 0 <= i <= a.len() && has_prefix(#[trigger] a.skip(i), b);
    lemma_text_within(a.take(i), b, a.skip(i).skip(b.len() as int), t);
    assert(a.skip(i) =~= b + a.skip(i).skip(b.len() as int));
    assert(a =~= a.take(i) + b + a.skip(i).skip(b.len() as int));
}

proof fn lemma_within_member(members: Seq<Seq<char>>, i: int, name: Seq<char>, value: Seq<char>)
    requires
        0 <= i < members.len(),
        members[i] == member(name, value),
    ensures
        has_text(object_text(members), value),
{
    lemma_member_told(members, i);
    lemma_text_itself(value);
    let none = Seq::<char>::empty();
    lemma_text_within("\""@ + name + "\":"@, value, none, value);
    assert("\""@ + name + "\":"@ + value + none =~= member(name, value));
    lemma_text_in_text(object_text(members), members[i], value);
}

proof fn lemma_value_told(values: Seq<Seq<char>>, i: int)
    requires
        0 <= i < values.len(),
    ensures
        has_text(array_text(values), values[i]),
{
    lemma_joined_holds(values, ","@, i);
    lemma_text_within("["@, joined(values, ","@), "]"@, values[i]);
}

/// What is told of a mail: each thing under its own name.
pub proof fn lemma_email_told(e: EmailEntry)
    ensures
        has_text(e.json(), "\""@ + "date"@ + "\":"@ + json_quoted(e.date@)),
        has_text(e.json(), "\""@ + "from"@ + "\":"@ + json_quoted(e.from@)),
        has_text(e.json(), "\""@ + "link"@ + "\":"@ + json_quoted(e.link@)),
        has_text(e.json(), "\""@ + "mailbox"@ + "\":"@ + json_quoted(e.mailbox@)),
        has_text(e.json(), "\""@ + "preview"@ + "\":"@ + json_quoted(e.preview@)),
        has_text(e.json(), "\""@ + "subject"@ + "\":"@ + json_quoted(e.subject@)),
        has_text(e.json(), "\""@ + "to"@ + "\":"@ + strings_text(texts_of(e.to@))),
        has_text(e.json(), "\""@ + "uid"@ + "\":"@ + decimal(e.uid as nat)),
        has_text(e.json(), "\""@ + "unread"@ + "\":"@ + bool_text(e.unread)),
{
    let members = seq![
        member("date"@, json_quoted(e.date@)),
        member("from"@, json_quoted(e.from@)),
        member("link"@, json_quoted(e.link@)),
        member("mailbox"@, json_quoted(e.mailbox@)),
        member("preview"@, json_quoted(e.preview@)),
        member("subject"@, json_quoted(e.subject@)),
        member("to"@, strings_text(texts_of(e.to@))),
        member("uid"@, decimal(e.uid as nat)),
        member("unread"@, bool_text(e.unread)),
    ];
    assert forall|i: int| 0 <= i < members.len() implies has_text(object_text(members), #[trigger] members[i]) by {
        lemma_member_told(members, i);
    }
    assert(members[0] == member("date"@, json_quoted(e.date@)));
    assert(members[1] == member("from"@, json_quoted(e.from@)));
    assert(members[2] == member("link"@, json_quoted(e.link@)));
    assert(members[3] == member("mailbox"@, json_quoted(e.mailbox@)));
    assert(members[4] == member("preview"@, json_quoted(e.preview@)));
    assert(members[5] == member("subject"@, json_quoted(e.subject@)));
    assert(members[6] == member("to"@, strings_text(texts_of(e.to@))));
    assert(members[7] == member("uid"@, decimal(e.uid as nat)));
    assert(members[8] == member("unread"@, bool_text(e.unread)));
}

/// What is told of someone who writes often, and of a contact.
pub proof fn lemma_people_told(p: TopContact, c: ContactEntry)
    ensures
        has_text(p.json(), "\""@ + "address"@ + "\":"@ + json_quoted(p.address@)),
        has_text(p.json(), "\""@ + "count"@ + "\":"@ + decimal(p.count as nat)),
        has_text(p.json(), "\""@ + "name"@ + "\":"@ + json_quoted(p.name@)),
        has_text(c.json(), "\""@ + "account"@ + "\":"@ + json_quoted(c.account@)),
        has_text(c.json(), "\""@ + "emails"@ + "\":"@ + strings_text(texts_of(c.emails@))),
        has_text(c.json(), "\""@ + "name"@ + "\":"@ + json_quoted(c.name@)),
{
    let members = seq![
        member("address"@, json_quoted(p.address@)),
        member("count"@, decimal(p.count as nat)),
        member("name"@, json_quoted(p.name@)),
    ];
    lemma_member_told(members, 0);
    lemma_member_told(members, 1);
    lemma_member_told(members, 2);
    let members = seq![
        member("account"@, json_quoted(c.account@)),
        member("emails"@, strings_text(texts_of(c.emails@))),
        member("name"@, json_quoted(c.name@)),
    ];
    lemma_member_told(members, 0);
    lemma_member_told(members, 1);
    lemma_member_told(members, 2);
}

/// What is told of a task.
pub proof fn lemma_task_told(t: TaskEntry)
    ensures
        has_text(t.json(), "\""@ + "calendar"@ + "\":"@ + json_quoted(t.calendar@)),
        has_text(t.json(), "\""@ + "categories"@ + "\":"@ + strings_text(texts_of(t.categories@))),
        t.due is Some ==> has_text(t.json(), "\""@ + "due"@ + "\":"@ + json_quoted((t.due->0)@)),
        t.due is None ==> has_text(t.json(), "\""@ + "due"@ + "\":"@ + "null"@),
        has_text(t.json(), "\""@ + "priority"@ + "\":"@ + decimal(t.priority as nat)),
        has_text(t.json(), "\""@ + "status"@ + "\":"@ + json_quoted(status_name(t.status))),
        has_text(t.json(), "\""@ + "summary"@ + "\":"@ + json_quoted(t.summary@)),
{
    let members = seq![
        member("calendar"@, json_quoted(t.calendar@)),
        member("categories"@, strings_text(texts_of(t.categories@))),
        member("due"@, string_or_null(text_of(t.due))),
        member("priority"@, decimal(t.priority as nat)),
        member("status"@, json_quoted(status_name(t.status))),
        member("summary"@, json_quoted(t.summary@)),
    ];
    lemma_member_told(members, 0);
    lemma_member_told(members, 1);
    lemma_member_told(members, 2);
    lemma_member_told(members, 3);
    lemma_member_told(members, 4);
    lemma_member_told(members, 5);
}

/// What is told of an event.
pub proof fn lemma_event_told(e: EventEntry)
    ensures
        has_text(e.json(), "\""@ + "all_day"@ + "\":"@ + bool_text(e.all_day)),
        has_text(e.json(), "\""@ + "end"@ + "\":"@ + json_quoted(e.end@)),
        has_text(e.json(), "\""@ + "link"@ + "\":"@ + json_quoted(e.link@)),
        e.location is Some ==> has_text(e.json(), "\""@ + "location"@ + "\":"@ + json_quoted((e.location->0)@)),
        e.location is None ==> has_text(e.json(), "\""@ + "location"@ + "\":"@ + "null"@),
        has_text(e.json(), "\""@ + "start"@ + "\":"@ + json_quoted(e.start@)),
        has_text(e.json(), "\""@ + "summary"@ + "\":"@ + json_quoted(e.summary@)),
{
    let members = seq![
        member("all_day"@, bool_text(e.all_day)),
        member("end"@, json_quoted(e.end@)),
        member("link"@, json_quoted(e.link@)),
        member("location"@, string_or_null(text_of(e.location))),
        member("start"@, json_quoted(e.start@)),
        member("summary"@, json_quoted(e.summary@)),
    ];
    lemma_member_told(members, 0);
    lemma_member_told(members, 1);
    lemma_member_told(members, 2);
    lemma_member_told(members, 3);
    lemma_member_told(members, 4);
    lemma_member_told(members, 5);
}

/// How truth, and the states of a task, are written.
pub proof fn lemma_values_written()
    ensures
        bool_text(true) == "true"@,
        bool_text(false) == "false"@,
        status_name(TaskStatus::NeedsAction) == "NeedsAction"@,
        status_name(TaskStatus::InProcess) == "InProcess"@,
        status_name(TaskStatus::Completed) == "Completed"@,
        status_name(TaskStatus::Cancelled) == "Cancelled"@,
{
}

/// Every entry of a list is told.
pub proof fn lemma_entries_told<T: JsonValue>(entries: Seq<T>, i: int)
    ensures
        0 <= i < entries.len() ==> has_text(entries_text(entries), entries[i].json()),
        entries.len() == 0 ==> entries_text(entries) == "["@ + "]"@,
{
    let all = entries.map_values(|e: T| e.json());
    if 0 <= i < entries.len() {
        lemma_value_told(all, i);
    }
    if entries.len() == 0 {
        assert(entries_text(entries) =~= "["@ + "]"@);
    }
}

/// Of what went wrong the text is told.
pub proof fn lemma_error_told(error: String)
    ensures
        has_text(told_of(Err(error)), "\""@ + "error"@ + "\":"@ + json_quoted(error@)),
{
    lemma_member_told(seq![member("error"@, json_quoted(error@))], 0);
}

/// What is told is all that was found, of each kind of result.
pub proof fn lemma_each_result_told(result: ToolResult, i: int)
    ensures
        result matches ToolResult::Emails(v) ==> 0 <= i < v@.len() ==> has_text(told_of(Ok(result)), v@[i].json()),
        result matches ToolResult::People(v) ==> 0 <= i < v@.len() ==> has_text(told_of(Ok(result)), v@[i].json()),
        result matches ToolResult::Contacts(v) ==> 0 <= i < v@.len() ==> has_text(told_of(Ok(result)), v@[i].json()),
        result matches ToolResult::Tasks(v) ==> 0 <= i < v@.len() ==> has_text(told_of(Ok(result)), v@[i].json()),
        result matches ToolResult::Events(v) ==> 0 <= i < v@.len() ==> has_text(told_of(Ok(result)), v@[i].json()),
{
    match result {
        ToolResult::Emails(v) => lemma_entries_told(v@, i),
        ToolResult::People(v) => lemma_entries_told(v@, i),
        ToolResult::Contacts(v) => lemma_entries_told(v@, i),
        ToolResult::Tasks(v) => lemma_entries_told(v@, i),
        ToolResult::Events(v) => lemma_entries_told(v@, i),
    }
}

/// A message of a conversation says who speaks and what is said, and a tool's answer which call it is the
/// answer to.
pub proof fn lemma_message_says(text: Seq<char>, id: Seq<char>)
    ensures
        has_text(message_text(MessageView::System(text)), "\""@ + "content"@ + "\":"@ + json_quoted(text)),
        has_text(message_text(MessageView::System(text)), "\""@ + "role"@ + "\":"@ + json_quoted("system"@)),
        has_text(message_text(MessageView::User(text)), "\""@ + "content"@ + "\":"@ + json_quoted(text)),
        has_text(message_text(MessageView::User(text)), "\""@ + "role"@ + "\":"@ + json_quoted("user"@)),
        has_text(message_text(MessageView::Tool(id, text)), "\""@ + "content"@ + "\":"@ + json_quoted(text)),
        has_text(message_text(MessageView::Tool(id, text)), "\""@ + "role"@ + "\":"@ + json_quoted("tool"@)),
        has_text(message_text(MessageView::Tool(id, text)), "\""@ + "tool_call_id"@ + "\":"@ + json_quoted(id)),
        message_text(MessageView::Assistant(text)) == text,
{
    let m = seq![member("content"@, json_quoted(text)), member("role"@, json_quoted("system"@))];
    lemma_member_told(m, 0);
    lemma_member_told(m, 1);
    let m = seq![member("content"@, json_quoted(text)), member("role"@, json_quoted("user"@))];
    lemma_member_told(m, 0);
    lemma_member_told(m, 1);
    let m = seq![
        member("content"@, json_quoted(text)),
        member("role"@, json_quoted("tool"@)),
        member("tool_call_id"@, json_quoted(id)),
    ];
    lemma_member_told(m, 0);
    lemma_member_told(m, 1);
    lemma_member_told(m, 2);
}

/// A tool is told with its name, what it is for, and what it can be asked.
pub proof fn lemma_tool_told(tool: ToolDefinition, i: int)
    ensures
        has_text(tool_text(tool), "\""@ + "name"@ + "\":"@ + json_quoted(tool.name@)),
        has_text(tool_text(tool), "\""@ + "description"@ + "\":"@ + json_quoted(tool.description@)),
        has_text(tool_text(tool), "\""@ + "parameters"@ + "\":"@ + parameters_text(tool.parameters@)),
        has_text(tool_text(tool), "\""@ + "type"@ + "\":"@ + json_quoted("function"@)),
        0 <= i < tool.parameters@.len() ==> has_text(
            parameters_text(tool.parameters@),
            "\""@ + tool.parameters@[i].name@ + "\":"@ + parameter_text(tool.parameters@[i]),
        ),
        0 <= i < tool.parameters@.len() && tool.parameters@[i].required ==> has_text(
            parameters_text(tool.parameters@),
            json_quoted(tool.parameters@[i].name@),
        ),
{
    let inner = seq![
        member("description"@, json_quoted(tool.description@)),
        member("name"@, json_quoted(tool.name@)),
        member("parameters"@, parameters_text(tool.parameters@)),
    ];
    let outer = seq![member("function"@, object_text(inner)), member("type"@, json_quoted("function"@))];
    lemma_member_told(outer, 1);
    lemma_within_member(outer, 0, "function"@, object_text(inner));
    assert forall|k: int| 0 <= k < inner.len() implies has_text(tool_text(tool), #[trigger] inner[k]) by {
        lemma_member_told(inner, k);
        lemma_text_in_text(tool_text(tool), object_text(inner), inner[k]);
    }
    assert(inner[0] == member("description"@, json_quoted(tool.description@)));
    assert(inner[1] == member("name"@, json_quoted(tool.name@)));
    assert(inner[2] == member("parameters"@, parameters_text(tool.parameters@)));
    if 0 <= i < tool.parameters@.len() {
        let parameters = tool.parameters@;
        let names = required_names(parameters);
        let all = seq![
            member("additionalProperties"@, bool_text(false)),
            member("properties"@, object_text(properties(parameters))),
        ] + (if names.len() > 0 {
            seq![member("required"@, strings_text(names))]
        } else {
            Seq::empty()
        }) + seq![member("type"@, json_quoted("object"@))];
        lemma_member_told(properties(parameters), i);
        lemma_within_member(all, 1, "properties"@, object_text(properties(parameters)));
        lemma_text_in_text(object_text(all), object_text(properties(parameters)), properties(parameters)[i]);
        if parameters[i].required {
            let kept = parameters.filter(is_required());
            parameters.lemma_filter_contains(is_required(), i);
            let k = choose|k: int| 0 <= k < kept.len() && kept[k] == parameters[i];
            assert(names[k] == parameters[i].name@);
            let quoted = names.map_values(|t: Seq<char>| json_quoted(t));
            lemma_value_told(quoted, k);
            lemma_within_member(all, 2, "required"@, strings_text(names));
            lemma_text_in_text(object_text(all), strings_text(names), quoted[k]);
        }
    }
}

/// A parameter is told with what it is for and what it can be.
pub proof fn lemma_parameter_told(p: ToolParameter)
    ensures
        has_text(parameter_text(p), "\""@ + "description"@ + "\":"@ + json_quoted(p.description@)),
        p.kind matches ParameterKind::Integer { minimum, maximum } ==> has_text(
            parameter_text(p),
            "\""@ + "minimum"@ + "\":"@ + decimal(minimum as nat),
        ) && has_text(parameter_text(p), "\""@ + "maximum"@ + "\":"@ + decimal(maximum as nat)) && has_text(
            parameter_text(p),
            "\""@ + "type"@ + "\":"@ + json_quoted("integer"@),
        ),
        p.kind is Text ==> has_text(parameter_text(p), "\""@ + "type"@ + "\":"@ + json_quoted("string"@)),
        p.kind matches ParameterKind::Choice { first, second } ==> has_text(
            parameter_text(p),
            "\""@ + "enum"@ + "\":"@ + strings_text(seq![first@, second@]),
        ) && has_text(parameter_text(p), "\""@ + "type"@ + "\":"@ + json_quoted("string"@)),
{
    match p.kind {
        ParameterKind::Integer { minimum, maximum } => {
            let m = seq![
                member("description"@, json_quoted(p.description@)),
                member("maximum"@, decimal(maximum as nat)),
                member("minimum"@, decimal(minimum as nat)),
                member("type"@, json_quoted("integer"@)),
            ];
            lemma_member_told(m, 0);
            lemma_member_told(m, 1);
            lemma_member_told(m, 2);
            lemma_member_told(m, 3);
        },
        ParameterKind::Text => {
            let m = seq![
                member("description"@, json_quoted(p.description@)),
                member("type"@, json_quoted("string"@)),
            ];
            lemma_member_told(m, 0);
            lemma_member_told(m, 1);
        },
        ParameterKind::Choice { first, second } => {
            let m = seq![
                member("description"@, json_quoted(p.description@)),
                member("enum"@, strings_text(seq![first@, second@])),
                member("type"@, json_quoted("string"@)),
            ];
            lemma_member_told(m, 0);
            lemma_member_told(m, 1);
            lemma_member_told(m, 2);
        },
    }
}

/// A request holds the whole conversation so far, the model that is asked and every tool.
pub proof fn lemma_request_holds(agent: Seq<char>, messages: Seq<MessageView>, tools: Seq<ToolDefinition>, i: int)
    ensures
        has_text(request_text(agent, messages, tools), "\""@ + "model"@ + "\":"@ + json_quoted(agent)),
        has_text(request_text(agent, messages, tools), "\""@ + "stream"@ + "\":"@ + "false"@),
        has_text(request_text(agent, messages, tools), "\""@ + "tool_choice"@ + "\":"@ + json_quoted("auto"@)),
        0 <= i < messages.len() ==> has_text(request_text(agent, messages, tools), message_text(messages[i])),
        0 <= i < tools.len() ==> has_text(request_text(agent, messages, tools), tool_text(tools[i])),
{
    let said = messages.map_values(|m: MessageView| message_text(m));
    let known = tools.map_values(|t: ToolDefinition| tool_text(t));
    let m = seq![
        member("messages"@, array_text(said)),
        member("model"@, json_quoted(agent)),
        member("stream"@, bool_text(false)),
        member("tool_choice"@, json_quoted("auto"@)),
        member("tools"@, array_text(known)),
    ];
    lemma_member_told(m, 1);
    lemma_member_told(m, 2);
    lemma_member_told(m, 3);
    lemma_within_member(m, 0, "messages"@, array_text(said));
    lemma_within_member(m, 4, "tools"@, array_text(known));
    if 0 <= i < messages.len() {
        lemma_value_told(said, i);
        lemma_text_in_text(object_text(m), array_text(said), said[i]);
    }
    if 0 <= i < tools.len() {
        lemma_value_told(known, i);
        lemma_text_in_text(object_text(m), array_text(known), known[i]);
    }
}

/// What follows a reply: tools are called if the assistant asks for any, and otherwise its text is the
/// answer; a reply without a message or with neither is an error.
pub proof fn lemma_step_follows(message: Option<Seq<char>>, content: Option<Seq<char>>, calls: Seq<CallView>)
    ensures
        step_of(message, content, calls) is Call <==> message is Some && calls.len() > 0,
        step_of(message, content, calls) matches StepView::Call(c) ==> c == calls,
        step_of(message, content, calls) is Answer <==> message is Some && calls.len() == 0 && content is Some,
        step_of(message, content, calls) matches StepView::Answer(text) ==> content == Some(text),
{
}

/// After tools were called, the conversation goes on with the answer to each call, in the order of the
/// calls, and nothing that was said is lost; only after the last turn is it over.
pub proof fn lemma_turn_goes_on(
    before: Conversation,
    calls: Seq<ToolCall>,
    results: Seq<Result<ToolResult, String>>,
    over: Option<String>,
    after: Conversation,
    i: int,
)
    requires
        before.resulted(calls, results, over, after),
        calls.len() == results.len(),
    ensures
        after.messages@.len() == before.messages@.len() + calls.len(),
        0 <= i < before.messages@.len() ==> after.messages@[i]@ == before.messages@[i]@,
        0 <= i < calls.len() ==> after.messages@[before.messages@.len() + i]@ == MessageView::Tool(
            calls[i].id@,
            told_of(results[i]),
        ),
        over is Some <==> before.turns == 8,
        over is None ==> before.turns < 8,
        after.turns == before.turns,
{
    let x = transcript(before.messages@);
    let y = transcript(after.messages@);
    assert(y.len() == after.messages@.len());
    if 0 <= i < before.messages@.len() {
        assert(y[i] == x[i]);
        assert(y[i] == after.messages@[i]@);
    }
    if 0 <= i < calls.len() {
        assert(y[x.len() + i] == after.messages@[x.len() + i]@);
    }
}

/// A long answer is told by its first two hundred characters, a shorter one as it is.
pub proof fn lemma_snippet(body: Seq<char>)
    ensures
        body.len() <= 200 ==> snippet_of(body) == body,
        body.len() > 200 ==> snippet_of(body).len() == 201 && snippet_of(body).last() == '…' && snippet_of(
            body,
        ).drop_last() == body.take(200),
{
    if body.len() > 200 {
        assert(snippet_of(body).drop_last() =~= body.take(200));
    }
}

/// Asking a server works out exactly if it answers with a status between 200 and 299; what it answers
/// otherwise is told with its status.
pub proof fn lemma_probe_decided(url: Seq<char>, probe: Probe)
    ensures
        probe_error(url, probe) is None <==> (probe matches Probe::Answered { status, .. } && 200 <= status && status
            < 300),
        probe matches Probe::Answered { status, status_text, body } ==> (status < 200 || status >= 300) ==> has_prefix(
            probe_error(url, probe)->0,
            "The server answered "@ + status_text@,
        ),
        probe matches Probe::Unsent { invalid_url, error } ==> !invalid_url ==> probe_error(url, probe) == Some(
            "Connection failed: "@ + error@,
        ),
{
    if let Probe::Answered { status, status_text, body } = probe {
        let head = "The server answered "@ + status_text@;
        let report = status_report(status_text@, body@);
        assert(report.take(head.len() as int) =~= head);
    }
}

/// The address of a server is used without white space around it and without slashes at its end.
pub proof fn lemma_base_address(url: Seq<char>)
    ensures
        has_prefix(trimmed(url), base_address(url)),
        base_address(url).len() > 0 ==> base_address(url).last() != '/',
        trimmed(url).len() > 0 && trimmed(url).last() != '/' ==> base_address(url) == trimmed(url),
{
    lemma_stripped(trimmed(url), |c: char| c == '/');
}

proof fn lemma_stripped(s: Seq<char>, p: spec_fn(char) -> bool)
    ensures
        has_prefix(s, strip_back(s, p)),
        strip_back(s, p).len() > 0 ==> !p(strip_back(s, p).last()),
    decreases s.len(),
{
    if s.len() > 0 && p(s.last()) {
        lemma_stripped(s.drop_last(), p);
        let t = strip_back(s, p);
        assert(s.take(t.len() as int) =~= s.drop_last().take(t.len() as int));
    } else {
        assert(s.take(s.len() as int) =~= s);
    }
}

/// The models of a server are listed in the order of their names, and each that has a name is there.
pub proof fn lemma_models_listed(found: Seq<Option<Seq<char>>>, id: Seq<char>, i: int, j: int)
    ensures
        sorted_texts(present(found)).contains(id) <==> exists|k: int| 0 <= k < found.len() && found[k] == Some(id),
        0 <= i < j < sorted_texts(present(found)).len() ==> text_le(
            sorted_texts(present(found))[i],
            sorted_texts(present(found))[j],
        ),
{
    let v = present(found);
    let order = text_order(v);
    let sorted = sorted_texts(v);
    lemma_texts_ordered();
    lemma_key_order_arranges(v);
    lemma_key_order_sorts(v);
    lemma_present(found, id);
    if 0 <= i < j < sorted.len() {
        assert(in_key_order(v, key_order(v)[i], key_order(v)[j]));
    }
    if sorted.contains(id) {
        let k = choose|k: int| 0 <= k < sorted.len() && sorted[k] == id;
        assert(0 <= order[k] < v.len());
        assert(v[order[k]] == id);
    }
    if v.contains(id) {
        let k = choose|k: int| 0 <= k < v.len() && v[k] == id;
        assert(order.contains(k));
        let l = choose|l: int| 0 <= l < order.len() && order[l] == k;
        assert(sorted[l] == id);
    }
}

proof fn lemma_present(found: Seq<Option<Seq<char>>>, id: Seq<char>)
    ensures
        present(found).contains(id) <==> exists|k: int| 0 <= k < found.len() && found[k] == Some(id),
    decreases found.len(),
{
    if found.len() > 0 {
        let rest = found.drop_last();
        lemma_present(rest, id);
        let v = present(found);
        let w = present(rest);
        if w.contains(id) {
            let k = choose|k: int| 0 <= k < w.len() && w[k] == id;
            assert(v[k] == id);
            let l = choose|l: int| 0 <= l < rest.len() && rest[l] == Some(id);
            assert(found[l] == Some(id));
        }
        if found.last() == Some(id) {
            assert(v.last() == id);
            assert(v[v.len() - 1] == id);
            assert(found[found.len() - 1] == Some(id));
        }
        if v.contains(id) {
            let k = choose|k: int| 0 <= k < v.len() && v[k] == id;
            if k < w.len() {
                assert(w[k] == id);
            } else {
                assert(found.last() == Some(id));
                assert(found[found.len() - 1] == Some(id));
            }
        }
        if exists|k: int| 0 <= k < found.len() && found[k] == Some(id) {
            let k = choose|k: int| 0 <= k < found.len() && found[k] == Some(id);
            if k < rest.len() {
                assert(rest[k] == Some(id));
            }
        }
    }
}

/// Encoding goes byte by byte: letters, digits and four marks stay, and any other byte becomes a percent
/// sign with its two digits, whose letters are capital.
pub proof fn lemma_encoded_apart(a: Seq<u8>, b: Seq<u8>, c: u8)
    ensures
        encoded_bytes(a + b) == encoded_bytes(a) + encoded_bytes(b),
        encoded_bytes(seq![c]) == encoded_byte(c),
        (('a' as u8) <= c <= ('z' as u8) || ('A' as u8) <= c <= ('Z' as u8) || ('0' as u8) <= c <= ('9' as u8) || c == (
        '-' as u8) || c == ('_' as u8) || c == ('.' as u8) || c == ('~' as u8)) <==> encoded_byte(c) == seq![c as char],
        encoded_byte(c).len() == 1 || (encoded_byte(c).len() == 3 && encoded_byte(c)[0] == '%'),
        encoded_byte(c).len() == 3 ==> forall|i: int|
            1 <= i < 3 ==> ('0' <= #[trigger] encoded_byte(c)[i] <= '9' || 'A' <= encoded_byte(c)[i] <= 'F'),
    decreases a.len(),
{
    if a.len() == 0 {
        assert(a + b =~= b);
        assert(encoded_bytes(a) + encoded_bytes(b) =~= encoded_bytes(b));
    } else {
        lemma_encoded_apart(a.skip(1), b, c);
        assert((a + b).skip(1) =~= a.skip(1) + b);
        assert(encoded_bytes(a + b) =~= encoded_bytes(a) + encoded_bytes(b));
    }
    assert(seq![c].skip(1) =~= Seq::<u8>::empty());
    reveal_with_fuel(encoded_bytes, 2);
    assert(encoded_bytes(seq![c]) =~= encoded_byte(c));
    if !unreserved(c) {
        assert(encoded_byte(c).len() == 3);
        assert(seq![c as char].len() == 1);
    }
}

/// A failed answer is told by its status, and by its text unless that is blank.
pub proof fn lemma_status_told(status: Seq<char>, body: Seq<char>)
    ensures
        blank(snippet_of(body)) ==> status_report(status, body) == "The server answered "@ + status,
        !blank(snippet_of(body)) ==> ({
            let told = " — "@ + snippet_of(body);
            let report = status_report(status, body);
            report.len() >= told.len() && report.skip(report.len() - told.len()) == told
        }),
{
    let told = " — "@ + snippet_of(body);
    let report = status_report(status, body);
    if !blank(snippet_of(body)) {
        assert(report.skip(report.len() - told.len()) =~= told);
    }
}

} // verus!
