//! A conversation with the assistant: what is asked, which tools are offered, and what follows from
//! each reply.

use crate::assistant_tools::MAX_LIMIT;
use crate::encodings::{json_array_at, json_array_len, json_string};
use crate::encodings::{json_string_at, json_value, json_value_at};
use crate::model::text_of;
use crate::text::{blank, decimal, decimal_text, is_blank};
use crate::tool_results::{result_content, told_of, ToolResult};
use vstd::prelude::*;

verus! {

/// What the assistant is told first.
pub const SYSTEM_PROMPT: &'static str = "You are Lookout's local assistant, helping the user work with their own email, contacts, tasks, and calendar. Use the provided tools to look up their real data whenever the question involves specific messages, people, tasks, or events. Answer plainly from what the tools return; if a tool fails or finds nothing, say so. Never claim access to anything the tools don't cover. Format your answer with markdown: headings, **bold**, lists, `code`, links, and tables where they help. Each `#` or `##` heading starts a new visual card in the chat view, so use them to separate distinct topics in a multi-part answer, and reserve `###`/`####` for sub-headings within a single topic; a short, single-topic answer doesn't need a heading at all. When you mention a specific email or calendar event a tool returned, link to it using that item's own `link` field verbatim as the markdown link's URL, e.g. `[Team sync](<link value>)` - never invent, alter, or guess a link; only use a `link` value a tool actually returned. For graphics (charts, diagrams, icons), use markdown images or inline SVG inside a ```html fenced block - never scripts.";

/// How often the assistant may call tools in one conversation.
pub const MAX_TOOL_TURNS: usize = 8;

/// What kind of value a tool takes.
#[derive(Debug)]
pub enum ParameterKind {
    /// A whole number between two bounds.
    Integer { minimum: u64, maximum: u64 },
    /// A text.
    Text,
    /// One of two texts.
    Choice { first: &'static str, second: &'static str },
}

/// A value that a tool takes.
#[derive(Debug)]
pub struct ToolParameter {
    pub name: &'static str,
    pub kind: ParameterKind,
    pub description: &'static str,
    pub required: bool,
}

/// A tool that the assistant may call.
#[derive(Debug)]
pub struct ToolDefinition {
    pub name: &'static str,
    pub description: &'static str,
    pub parameters: Vec<ToolParameter>,
}

pub const RECENT_EMAILS_TEXT: &'static str = "The most recent cached email messages across all connected accounts, newest first. Each entry has the subject, sender, recipients, date, a preview, and whether it's unread. Only covers messages already synced locally.";

pub const SEARCH_EMAILS_TEXT: &'static str = "Full-text search over the locally cached emails: subject, sender, recipients, and body text. Returns matching messages newest first.";

pub const TOP_CONTACTS_TEXT: &'static str = "The people you've corresponded with most across all connected mail accounts, from lifetime email history, most-contacted first with each person's count.";

pub const LIST_CONTACTS_TEXT: &'static str = "The contacts from the address books of all connected contacts accounts: names and email addresses. An optional query narrows it to people whose name or email contains the text.";

pub const LIST_TASKS_TEXT: &'static str = "The tasks from every connected task source (CalDAV, Google Tasks, and on-device). By default only outstanding (not completed) tasks are returned, soonest-due first.";

pub const UPCOMING_EVENTS_TEXT: &'static str = "Upcoming calendar events from every synced, currently-visible calendar (accounts, webcal subscriptions, birthdays), soonest first. Only covers events already synced locally within the app's sync horizon.";

pub const MESSAGES_LIMIT_TEXT: &'static str = "How many messages to return (default 10, at most 50)";

pub const PEOPLE_LIMIT_TEXT: &'static str = "How many people to return (default 10, at most 50)";

pub const CONTACTS_LIMIT_TEXT: &'static str = "How many contacts to return (default 10, at most 50)";

pub const TASKS_LIMIT_TEXT: &'static str = "How many tasks to return (default 10, at most 50)";

pub const EVENTS_LIMIT_TEXT: &'static str = "How many events to return (default 10, at most 50)";

pub const SEARCH_QUERY_TEXT: &'static str = "The words or phrase to search for";

pub const CONTACTS_QUERY_TEXT: &'static str = "Optional text to match against names and email addresses";

pub const STATUS_TEXT: &'static str = "\"outstanding\" (the default) hides completed tasks; \"all\" includes them";

pub const DAYS_TEXT: &'static str = "How many days ahead to look (default 14, at most 90)";

/// A number of rows, from one to the most.
pub open spec fn is_limit(p: ToolParameter, description: Seq<char>) -> bool {
    &&& p.name@ == "limit"@
    &&& p.kind == (ParameterKind::Integer { minimum: 1, maximum: MAX_LIMIT as u64 })
    &&& p.description@ == description
    &&& !p.required
}

/// A text to look for.
pub open spec fn is_query(p: ToolParameter, description: Seq<char>, required: bool) -> bool {
    &&& p.name@ == "query"@
    &&& p.kind is Text
    &&& p.description@ == description
    &&& p.required == required
}

/// Which tasks to tell.
pub open spec fn is_status(p: ToolParameter) -> bool {
    &&& p.name@ == "status"@
    &&& p.kind matches ParameterKind::Choice { first, second }
    &&& first@ == "outstanding"@
    &&& second@ == "all"@
    &&& p.description@ == STATUS_TEXT@
    &&& !p.required
}

/// How many days to look ahead.
pub open spec fn is_days(p: ToolParameter) -> bool {
    &&& p.name@ == "days"@
    &&& p.kind == (ParameterKind::Integer { minimum: 1, maximum: 90 })
    &&& p.description@ == DAYS_TEXT@
    &&& !p.required
}

/// A tool with this name and this description.
pub open spec fn is_tool(d: ToolDefinition, name: Seq<char>, description: Seq<char>) -> bool {
    d.name@ == name && d.description@ == description
}

fn limit_parameter(description: &'static str) -> (r: ToolParameter)
    ensures
        is_limit(r, description@),
{
    ToolParameter {
        name: "limit",
        kind: ParameterKind::Integer { minimum: 1, maximum: 50 },
        description,
        required: false,
    }
}

fn query_parameter(description: &'static str, required: bool) -> (r: ToolParameter)
    ensures
        is_query(r, description@, required),
{
    ToolParameter { name: "query", kind: ParameterKind::Text, description, required }
}

fn tool(
    name: &'static str,
    description: &'static str,
    first: Option<ToolParameter>,
    last: ToolParameter,
) -> (r: ToolDefinition)
    ensures
        is_tool(r, name@, description@),
        r.parameters@ == (match first {
            Some(p) => seq![p, last],
            None => seq![last],
        }),
{
    let mut parameters: Vec<ToolParameter> = Vec::new();
    match first {
        Some(p) => {
            parameters.push(p);
            parameters.push(last);
            assert(parameters@ =~= seq![p, last]);
        },
        None => {
            parameters.push(last);
            assert(parameters@ =~= seq![last]);
        },
    }
    ToolDefinition { name, description, parameters }
}

/// The tools that the assistant may call.
pub fn tool_definitions() -> (r: Vec<ToolDefinition>)
    ensures
        r@.len() == 6,
        is_tool(r@[0], "recent_emails"@, RECENT_EMAILS_TEXT@),
        r@[0].parameters@.len() == 1,
        is_limit(r@[0].parameters@[0], MESSAGES_LIMIT_TEXT@),
        is_tool(r@[1], "search_emails"@, SEARCH_EMAILS_TEXT@),
        r@[1].parameters@.len() == 2,
        is_query(r@[1].parameters@[0], SEARCH_QUERY_TEXT@, true),
        is_limit(r@[1].parameters@[1], MESSAGES_LIMIT_TEXT@),
        is_tool(r@[2], "top_contacts"@, TOP_CONTACTS_TEXT@),
        r@[2].parameters@.len() == 1,
        is_limit(r@[2].parameters@[0], PEOPLE_LIMIT_TEXT@),
        is_tool(r@[3], "list_contacts"@, LIST_CONTACTS_TEXT@),
        r@[3].parameters@.len() == 2,
        is_query(r@[3].parameters@[0], CONTACTS_QUERY_TEXT@, false),
        is_limit(r@[3].parameters@[1], CONTACTS_LIMIT_TEXT@),
        is_tool(r@[4], "list_tasks"@, LIST_TASKS_TEXT@),
        r@[4].parameters@.len() == 2,
        is_status(r@[4].parameters@[0]),
        is_limit(r@[4].parameters@[1], TASKS_LIMIT_TEXT@),
        is_tool(r@[5], "upcoming_events"@, UPCOMING_EVENTS_TEXT@),
        r@[5].parameters@.len() == 2,
        is_days(r@[5].parameters@[0]),
        is_limit(r@[5].parameters@[1], EVENTS_LIMIT_TEXT@),
{
    let mut tools: Vec<ToolDefinition> = Vec::new();
    tools.push(tool("recent_emails", RECENT_EMAILS_TEXT, None, limit_parameter(MESSAGES_LIMIT_TEXT)));
    tools.push(
        tool(
            "search_emails",
            SEARCH_EMAILS_TEXT,
            Some(query_parameter(SEARCH_QUERY_TEXT, true)),
            limit_parameter(MESSAGES_LIMIT_TEXT),
        ),
    );
    tools.push(tool("top_contacts", TOP_CONTACTS_TEXT, None, limit_parameter(PEOPLE_LIMIT_TEXT)));
    tools.push(
        tool(
            "list_contacts",
            LIST_CONTACTS_TEXT,
            Some(query_parameter(CONTACTS_QUERY_TEXT, false)),
            limit_parameter(CONTACTS_LIMIT_TEXT),
        ),
    );
    let status = ToolParameter {
        name: "status",
        kind: ParameterKind::Choice { first: "outstanding", second: "all" },
        description: STATUS_TEXT,
        required: false,
    };
    tools.push(tool("list_tasks", LIST_TASKS_TEXT, Some(status), limit_parameter(TASKS_LIMIT_TEXT)));
    let days = ToolParameter {
        name: "days",
        kind: ParameterKind::Integer { minimum: 1, maximum: 90 },
        description: DAYS_TEXT,
        required: false,
    };
    tools.push(
        tool("upcoming_events", UPCOMING_EVENTS_TEXT, Some(days), limit_parameter(EVENTS_LIMIT_TEXT)),
    );
    tools
}

/// A message of a conversation.
#[derive(Debug)]
pub enum ChatMessage {
    /// What the assistant is told first.
    System(String),
    /// What the user asked.
    User(String),
    /// What the assistant said, as JSON.
    Assistant(String),
    /// What a call of a tool gave.
    Tool { call_id: String, content: String },
}

/// A message of a conversation, as text.
pub enum MessageView {
    System(Seq<char>),
    User(Seq<char>),
    Assistant(Seq<char>),
    Tool(Seq<char>, Seq<char>),
}

impl View for ChatMessage {
    type V = MessageView;

    open spec fn view(&self) -> MessageView {
        match self {
            ChatMessage::System(s) => MessageView::System(s@),
            ChatMessage::User(s) => MessageView::User(s@),
            ChatMessage::Assistant(s) => MessageView::Assistant(s@),
            ChatMessage::Tool { call_id, content } => MessageView::Tool(call_id@, content@),
        }
    }
}

/// Messages as text.
pub open spec fn transcript(v: Seq<ChatMessage>) -> Seq<MessageView> {
    v.map_values(|m: ChatMessage| m@)
}

/// A conversation: what was said, and how many replies there were.
#[derive(Debug)]
pub struct Conversation {
    pub messages: Vec<ChatMessage>,
    pub turns: usize,
}

/// A call of a tool.
#[derive(Debug)]
pub struct ToolCall {
    pub id: String,
    pub name: String,
    /// What should be a JSON document.
    pub arguments: String,
}

/// A call of a tool, as text.
pub struct CallView {
    pub id: Seq<char>,
    pub name: Seq<char>,
    pub arguments: Seq<char>,
}

/// Calls as text.
pub open spec fn call_views(v: Seq<ToolCall>) -> Seq<CallView> {
    v.map_values(|c: ToolCall| CallView { id: c.id@, name: c.name@, arguments: c.arguments@ })
}

/// What a reply says.
#[derive(Debug)]
pub struct Reply {
    /// The message, as JSON, if there is one.
    pub message: Option<String>,
    /// The text of the message, if there is one.
    pub content: Option<String>,
    /// The tools that the message calls.
    pub calls: Vec<ToolCall>,
}

/// What follows from a reply.
#[derive(Debug)]
pub enum ChatStep {
    /// The assistant answered.
    Answer(String),
    /// The conversation failed.
    Fail(String),
    /// The assistant calls tools.
    Call(Vec<ToolCall>),
}

/// What follows from a reply, as text.
pub enum StepView {
    Answer(Seq<char>),
    Fail(Seq<char>),
    Call(Seq<CallView>),
}

impl View for ChatStep {
    type V = StepView;

    open spec fn view(&self) -> StepView {
        match self {
            ChatStep::Answer(s) => StepView::Answer(s@),
            ChatStep::Fail(s) => StepView::Fail(s@),
            ChatStep::Call(calls) => StepView::Call(call_views(calls@)),
        }
    }
}

/// Begins a conversation, unless nothing is asked.
pub fn begin_chat(system: &str, prompt: &str) -> (r: Result<Conversation, String>)
    ensures
        match r {
            Ok(c) => !blank(prompt@) && c.turns == 0 && transcript(c.messages@) == seq![
                MessageView::System(system@),
                MessageView::User(prompt@),
            ],
            Err(e) => blank(prompt@) && e@ == "Type something to ask the assistant"@,
        },
{
    if is_blank(prompt) {
        return Err("Type something to ask the assistant".to_owned());
    }
    let mut messages: Vec<ChatMessage> = Vec::new();
    messages.push(ChatMessage::System(system.to_owned()));
    messages.push(ChatMessage::User(prompt.to_owned()));
    assert(transcript(messages@) =~= seq![MessageView::System(system@), MessageView::User(prompt@)]);
    Ok(Conversation { messages, turns: 0 })
}

/// What follows from a reply with the given parts: it has to have a message; if that calls no tool,
/// its text is the answer, which has to be there.
pub open spec fn step_of(
    message: Option<Seq<char>>,
    content: Option<Seq<char>>,
    calls: Seq<CallView>,
) -> StepView {
    if message is None {
        StepView::Fail("The server's chat reply had no message"@)
    } else if calls.len() > 0 {
        StepView::Call(calls)
    } else {
        match content {
            Some(text) => StepView::Answer(text),
            None => StepView::Fail("The server's chat reply had no message content"@),
        }
    }
}

impl Conversation {
    /// There was no reply too many.
    pub open spec fn valid(self) -> bool {
        self.turns <= MAX_TOOL_TURNS
    }

    /// What the server wrote was taken in: what follows from it, and what became of the conversation.
    pub open spec fn replied(self, body: Seq<char>, step: StepView, after: Conversation) -> bool {
        &&& step == step_of(
            message_in(body),
            json_string_at(body, "/choices/0/message/content"@),
            calls_in(body),
        )
        &&& after.valid()
        &&& after.turns == self.turns + 1
        &&& transcript(after.messages@) == (if step is Call {
            transcript(self.messages@).push(MessageView::Assistant(message_in(body)->0))
        } else {
            transcript(self.messages@)
        })
    }

    /// What the called tools gave was taken in: whether the conversation is over, and what became of
    /// it.
    pub open spec fn resulted(
        self,
        calls: Seq<ToolCall>,
        results: Seq<Result<ToolResult, String>>,
        over: Option<String>,
        after: Conversation,
    ) -> bool {
        &&& after.turns == self.turns
        &&& transcript(after.messages@) == transcript(self.messages@) + Seq::new(
            calls.len(),
            |i: int| MessageView::Tool(calls[i].id@, told_of(results[i])),
        )
        &&& match over {
            None => self.turns < MAX_TOOL_TURNS,
            Some(e) => self.turns == MAX_TOOL_TURNS && e@
                == "The assistant made too many tool calls (limit "@ + decimal(MAX_TOOL_TURNS as nat)
                + ") - please ask a narrower question."@,
        }
    }

    /// Takes a reply in. A message that calls tools becomes part of the conversation.
    pub fn take_reply(&mut self, reply: Reply) -> (r: ChatStep)
        requires
            old(self).valid(),
            old(self).turns < MAX_TOOL_TURNS,
        ensures
            r@ == step_of(text_of(reply.message), text_of(reply.content), call_views(reply.calls@)),
            final(self).valid(),
            final(self).turns == old(self).turns + 1,
            transcript(final(self).messages@) == (if r@ is Call {
                transcript(old(self).messages@).push(MessageView::Assistant(reply.message->0@))
            } else {
                transcript(old(self).messages@)
            }),
    {
        self.turns += 1;
        let ghost before = transcript(self.messages@);
        let message = match reply.message {
            Some(m) => m,
            None => return ChatStep::Fail("The server's chat reply had no message".to_owned()),
        };
        assert(call_views(reply.calls@).len() == reply.calls@.len());
        if reply.calls.is_empty() {
            return match reply.content {
                Some(text) => ChatStep::Answer(text),
                None => ChatStep::Fail("The server's chat reply had no message content".to_owned()),
            };
        }
        let ghost text = message@;
        self.messages.push(ChatMessage::Assistant(message));
        assert(transcript(self.messages@) =~= before.push(MessageView::Assistant(text)));
        ChatStep::Call(reply.calls)
    }

    /// Takes in what the called tools gave, in the order of the calls. A tool that failed is told of
    /// like any other. Nothing is said if the conversation goes on; after too many replies it is
    /// over.
    pub fn take_results(
        &mut self,
        calls: &Vec<ToolCall>,
        results: &Vec<Result<ToolResult, String>>,
    ) -> (r: Option<String>)
        requires
            old(self).valid(),
            calls@.len() == results@.len(),
        ensures
            old(self).resulted(calls@, results@, r, *final(self)),
    {
        let ghost start = transcript(self.messages@);
        let ghost want = Seq::new(
            calls@.len(),
            |i: int| MessageView::Tool(calls@[i].id@, told_of(results@[i])),
        );
        let ghost turns = self.turns;
        let mut i: usize = 0;
        assert(transcript(self.messages@) =~= start + want.take(0));
        while i < calls.len()
            invariant
                i <= calls.len() == results@.len(),
                self.turns == turns,
                want == Seq::new(
                    calls@.len(),
                    |i: int| MessageView::Tool(calls@[i].id@, told_of(results@[i])),
                ),
                transcript(self.messages@) == start + want.take(i as int),
            decreases calls.len() - i,
        {
            let ghost before = transcript(self.messages@);
            let m = ChatMessage::Tool { call_id: calls[i].id.clone(), content: result_content(&results[i]) };
            assert(m@ == want[i as int]);
            self.messages.push(m);
            assert(transcript(self.messages@) =~= before.push(m@));
            assert(transcript(self.messages@) =~= start + want.take(i + 1));
            i += 1;
        }
        assert(want.take(i as int) =~= want);
        if self.turns < MAX_TOOL_TURNS {
            None
        } else {
            let mut e = "The assistant made too many tool calls (limit ".to_owned();
            e.push_str(&decimal_text(MAX_TOOL_TURNS as u64));
            e.push_str(") - please ask a narrower question.");
            Some(e)
        }
    }
}

/// The place of a part of a called tool in a reply.
pub open spec fn call_pointer(i: int, part: Seq<char>) -> Seq<char> {
    "/choices/0/message/tool_calls/"@ + decimal(i as nat) + part
}

/// A text, or nothing.
pub open spec fn or_nothing(o: Option<Seq<char>>) -> Seq<char> {
    match o {
        Some(s) => s,
        None => Seq::empty(),
    }
}

/// A call of a tool in a reply.
pub open spec fn call_in(body: Seq<char>, i: int) -> CallView {
    CallView {
        id: or_nothing(json_string_at(body, call_pointer(i, "/id"@))),
        name: or_nothing(json_string_at(body, call_pointer(i, "/function/name"@))),
        arguments: or_nothing(json_string_at(body, call_pointer(i, "/function/arguments"@))),
    }
}

/// The calls of tools in a reply.
pub open spec fn calls_in(body: Seq<char>) -> Seq<CallView> {
    match json_array_at(body, "/choices/0/message/tool_calls"@) {
        Some(n) => Seq::new(n as nat, |i: int| call_in(body, i)),
        None => Seq::empty(),
    }
}

/// The message of a reply: that of the first choice, if there is a list of choices.
pub open spec fn message_in(body: Seq<char>) -> Option<Seq<char>> {
    match json_array_at(body, "/choices"@) {
        Some(_) => json_value_at(body, "/choices/0/message"@),
        None => None,
    }
}

fn call_part(body: &str, i: usize, part: &str) -> (r: String)
    ensures
        r@ == or_nothing(json_string_at(body@, call_pointer(i as int, part@))),
{
    let mut pointer = "/choices/0/message/tool_calls/".to_owned();
    pointer.push_str(&decimal_text(i as u64));
    pointer.push_str(part);
    match json_string(body, &pointer) {
        Some(s) => s,
        None => String::new(),
    }
}

/// What a reply says.
pub fn read_reply(body: &str) -> (r: Reply)
    ensures
        text_of(r.message) == message_in(body@),
        text_of(r.content) == json_string_at(body@, "/choices/0/message/content"@),
        call_views(r.calls@) == calls_in(body@),
{
    let message = match json_array_len(body, "/choices") {
        Some(_) => json_value(body, "/choices/0/message"),
        None => None,
    };
    let content = json_string(body, "/choices/0/message/content");
    let n: usize = match json_array_len(body, "/choices/0/message/tool_calls") {
        Some(n) => n,
        None => 0,
    };
    let ghost want = calls_in(body@);
    let mut calls: Vec<ToolCall> = Vec::new();
    let mut i: usize = 0;
    assert(call_views(calls@) =~= want.take(0));
    while i < n
        invariant
            i <= n == want.len(),
            want == calls_in(body@),
            call_views(calls@) == want.take(i as int),
        decreases n - i,
    {
        let ghost before = call_views(calls@);
        let call = ToolCall {
            id: call_part(body, i, "/id"),
            name: call_part(body, i, "/function/name"),
            arguments: call_part(body, i, "/function/arguments"),
        };
        calls.push(call);
        assert(call_views(calls@) =~= before.push(call_in(body@, i as int)));
        assert(want.take(i + 1) =~= want.take(i as int).push(want[i as int]));
        i += 1;
    }
    assert(want.take(i as int) =~= want);
    Reply { message, content, calls }
}

/// What follows from what the server wrote.
pub fn chat_with_tools(conversation: &mut Conversation, body: &str) -> (r: ChatStep)
    requires
        old(conversation).valid(),
        old(conversation).turns < MAX_TOOL_TURNS,
    ensures
        old(conversation).replied(body@, r@, *final(conversation)),
{
    let reply = read_reply(body);
    conversation.take_reply(reply)
}

} // verus!
