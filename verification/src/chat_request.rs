//! What is sent to the assistant's server, as JSON.

use crate::assistant_chat::{transcript, ChatMessage, Conversation, MessageView, ParameterKind};
use crate::assistant_chat::{ToolDefinition, ToolParameter};
use crate::encodings::{json_quote, json_quoted};
use crate::model::texts_of;
use crate::text::{decimal, decimal_text};
use crate::tool_results::{array_of, array_text, bool_text, member, object_of, object_text, push_member};
use crate::tool_results::{strings_json, strings_text};
use vstd::prelude::*;

verus! {

/// A message of a conversation as JSON. What the assistant said goes back as it came.
pub open spec fn message_text(m: MessageView) -> Seq<char> {
    match m {
        MessageView::System(text) => object_text(
            seq![member("content"@, json_quoted(text)), member("role"@, json_quoted("system"@))],
        ),
        MessageView::User(text) => object_text(
            seq![member("content"@, json_quoted(text)), member("role"@, json_quoted("user"@))],
        ),
        MessageView::Assistant(json) => json,
        MessageView::Tool(call_id, content) => object_text(
            seq![
                member("content"@, json_quoted(content)),
                member("role"@, json_quoted("tool"@)),
                member("tool_call_id"@, json_quoted(call_id)),
            ],
        ),
    }
}

fn spoken_json(role: &str, text: &str) -> (r: String)
    ensures
        r@ == object_text(
            seq![member("content"@, json_quoted(text@)), member("role"@, json_quoted(role@))],
        ),
{
    let mut members: Vec<String> = Vec::new();
    push_member(&mut members, "content", &json_quote(text));
    push_member(&mut members, "role", &json_quote(role));
    assert(texts_of(members@) =~= seq![
        member("content"@, json_quoted(text@)),
        member("role"@, json_quoted(role@)),
    ]);
    object_of(&members)
}

/// A message of a conversation as JSON.
pub fn message_json(m: &ChatMessage) -> (r: String)
    ensures
        r@ == message_text(m@),
{
    match m {
        ChatMessage::System(text) => spoken_json("system", text),
        ChatMessage::User(text) => spoken_json("user", text),
        ChatMessage::Assistant(json) => json.clone(),
        ChatMessage::Tool { call_id, content } => {
            let mut members: Vec<String> = Vec::new();
            push_member(&mut members, "content", &json_quote(content));
            push_member(&mut members, "role", &json_quote("tool"));
            push_member(&mut members, "tool_call_id", &json_quote(call_id));
            assert(texts_of(members@) =~= seq![
                member("content"@, json_quoted(content@)),
                member("role"@, json_quoted("tool"@)),
                member("tool_call_id"@, json_quoted(call_id@)),
            ]);
            object_of(&members)
        },
    }
}

/// What a value that a tool takes has to be, as JSON.
pub open spec fn parameter_text(p: ToolParameter) -> Seq<char> {
    match p.kind {
        ParameterKind::Integer { minimum, maximum } => object_text(
            seq![
                member("description"@, json_quoted(p.description@)),
                member("maximum"@, decimal(maximum as nat)),
                member("minimum"@, decimal(minimum as nat)),
                member("type"@, json_quoted("integer"@)),
            ],
        ),
        ParameterKind::Text => object_text(
            seq![
                member("description"@, json_quoted(p.description@)),
                member("type"@, json_quoted("string"@)),
            ],
        ),
        ParameterKind::Choice { first, second } => object_text(
            seq![
                member("description"@, json_quoted(p.description@)),
                member("enum"@, strings_text(seq![first@, second@])),
                member("type"@, json_quoted("string"@)),
            ],
        ),
    }
}

fn parameter_json(p: &ToolParameter) -> (r: String)
    ensures
        r@ == parameter_text(*p),
{
    let mut members: Vec<String> = Vec::new();
    push_member(&mut members, "description", &json_quote(p.description));
    match &p.kind {
        ParameterKind::Integer { minimum, maximum } => {
            push_member(&mut members, "maximum", &decimal_text(*maximum));
            push_member(&mut members, "minimum", &decimal_text(*minimum));
            push_member(&mut members, "type", &json_quote("integer"));
            assert(texts_of(members@) =~= seq![
                member("description"@, json_quoted(p.description@)),
                member("maximum"@, decimal(*maximum as nat)),
                member("minimum"@, decimal(*minimum as nat)),
                member("type"@, json_quoted("integer"@)),
            ]);
        },
        ParameterKind::Text => {
            push_member(&mut members, "type", &json_quote("string"));
            assert(texts_of(members@) =~= seq![
                member("description"@, json_quoted(p.description@)),
                member("type"@, json_quoted("string"@)),
            ]);
        },
        ParameterKind::Choice { first, second } => {
            let mut choices: Vec<String> = Vec::new();
            choices.push((*first).to_owned());
            choices.push((*second).to_owned());
            assert(texts_of(choices@) =~= seq![first@, second@]);
            push_member(&mut members, "enum", &strings_json(&choices));
            push_member(&mut members, "type", &json_quote("string"));
            assert(texts_of(members@) =~= seq![
                member("description"@, json_quoted(p.description@)),
                member("enum"@, strings_text(seq![first@, second@])),
                member("type"@, json_quoted("string"@)),
            ]);
        },
    }
    object_of(&members)
}

/// The values that a tool takes, each by its name.
pub open spec fn properties(parameters: Seq<ToolParameter>) -> Seq<Seq<char>> {
    parameters.map_values(|p: ToolParameter| member(p.name@, parameter_text(p)))
}

/// Picks the values that a tool cannot do without.
pub open spec fn is_required() -> spec_fn(ToolParameter) -> bool {
    |p: ToolParameter| p.required
}

/// The names of the values that a tool cannot do without.
pub open spec fn required_names(parameters: Seq<ToolParameter>) -> Seq<Seq<char>> {
    parameters.filter(is_required()).map_values(|p: ToolParameter| p.name@)
}

/// What a tool takes, as JSON: an object with no other members, of which those it cannot do without
/// are named if there are any.
pub open spec fn parameters_text(parameters: Seq<ToolParameter>) -> Seq<char> {
    let names = required_names(parameters);
    object_text(
        seq![
            member("additionalProperties"@, bool_text(false)),
            member("properties"@, object_text(properties(parameters))),
        ] + (if names.len() > 0 {
            seq![member("required"@, strings_text(names))]
        } else {
            Seq::empty()
        }) + seq![member("type"@, json_quoted("object"@))],
    )
}

/// A tool, as JSON.
pub open spec fn tool_text(tool: ToolDefinition) -> Seq<char> {
    object_text(
        seq![
            member(
                "function"@,
                object_text(
                    seq![
                        member("description"@, json_quoted(tool.description@)),
                        member("name"@, json_quoted(tool.name@)),
                        member("parameters"@, parameters_text(tool.parameters@)),
                    ],
                ),
            ),
            member("type"@, json_quoted("function"@)),
        ],
    )
}

fn parameters_json(parameters: &Vec<ToolParameter>) -> (r: String)
    ensures
        r@ == parameters_text(parameters@),
{
    let ghost want = properties(parameters@);
    let mut written: Vec<String> = Vec::new();
    let mut names: Vec<String> = Vec::new();
    let mut i: usize = 0;
    assert(parameters@.take(0).filter(is_required()) =~= Seq::<ToolParameter>::empty());
    assert(texts_of(names@) =~= required_names(parameters@.take(0)));
    while i < parameters.len()
        invariant
            i <= parameters.len(),
            want == properties(parameters@),
            texts_of(written@) == want.take(i as int),
            texts_of(names@) == required_names(parameters@.take(i as int)),
        decreases parameters.len() - i,
    {
        let ghost before = texts_of(written@);
        let ghost named = texts_of(names@);
        let p = &parameters[i];
        push_member(&mut written, p.name, &parameter_json(p));
        proof {
            assert(want.take(i + 1) =~= before.push(want[i as int]));
            assert(parameters@.take(i + 1) =~= parameters@.take(i as int).push(parameters@[i as int]));
            parameters@.take(i as int).lemma_filter_push(parameters@[i as int], is_required());
        }
        if p.required {
            names.push(p.name.to_owned());
            assert(texts_of(names@) =~= named.push(p.name@));
            assert(required_names(parameters@.take(i + 1)) =~= named.push(p.name@));
        }
        i += 1;
    }
    assert(want.take(i as int) =~= want);
    assert(parameters@.take(i as int) =~= parameters@);
    assert(texts_of(names@).len() == names@.len());
    let mut members: Vec<String> = Vec::new();
    push_member(&mut members, "additionalProperties", "false");
    push_member(&mut members, "properties", &object_of(&written));
    if names.len() > 0 {
        push_member(&mut members, "required", &strings_json(&names));
    }
    push_member(&mut members, "type", &json_quote("object"));
    assert(texts_of(members@) =~= seq![
        member("additionalProperties"@, bool_text(false)),
        member("properties"@, object_text(properties(parameters@))),
    ] + (if names@.len() > 0 {
        seq![member("required"@, strings_text(required_names(parameters@)))]
    } else {
        Seq::empty()
    }) + seq![member("type"@, json_quoted("object"@))]);
    object_of(&members)
}

/// A tool, as JSON.
pub fn tool_json(tool: &ToolDefinition) -> (r: String)
    ensures
        r@ == tool_text(*tool),
{
    let mut function: Vec<String> = Vec::new();
    push_member(&mut function, "description", &json_quote(tool.description));
    push_member(&mut function, "name", &json_quote(tool.name));
    push_member(&mut function, "parameters", &parameters_json(&tool.parameters));
    assert(texts_of(function@) =~= seq![
        member("description"@, json_quoted(tool.description@)),
        member("name"@, json_quoted(tool.name@)),
        member("parameters"@, parameters_text(tool.parameters@)),
    ]);
    let mut members: Vec<String> = Vec::new();
    push_member(&mut members, "function", &object_of(&function));
    push_member(&mut members, "type", &json_quote("function"));
    assert(texts_of(members@) =~= seq![
        member(
            "function"@,
            object_text(
                seq![
                    member("description"@, json_quoted(tool.description@)),
                    member("name"@, json_quoted(tool.name@)),
                    member("parameters"@, parameters_text(tool.parameters@)),
                ],
            ),
        ),
        member("type"@, json_quoted("function"@)),
    ]);
    object_of(&members)
}

/// A request to go on with a conversation, with tools, as JSON.
pub open spec fn request_text(
    agent: Seq<char>,
    messages: Seq<MessageView>,
    tools: Seq<ToolDefinition>,
) -> Seq<char> {
    object_text(
        seq![
            member("messages"@, array_text(messages.map_values(|m: MessageView| message_text(m)))),
            member("model"@, json_quoted(agent)),
            member("stream"@, bool_text(false)),
            member("tool_choice"@, json_quoted("auto"@)),
            member("tools"@, array_text(tools.map_values(|t: ToolDefinition| tool_text(t)))),
        ],
    )
}

fn messages_json(messages: &Vec<ChatMessage>) -> (r: String)
    ensures
        r@ == array_text(transcript(messages@).map_values(|m: MessageView| message_text(m))),
{
    let ghost want = transcript(messages@).map_values(|m: MessageView| message_text(m));
    let mut written: Vec<String> = Vec::new();
    let mut i: usize = 0;
    while i < messages.len()
        invariant
            i <= messages.len(),
            want == transcript(messages@).map_values(|m: MessageView| message_text(m)),
            texts_of(written@) == want.take(i as int),
        decreases messages.len() - i,
    {
        let ghost before = texts_of(written@);
        let json = message_json(&messages[i]);
        written.push(json);
        assert(texts_of(written@) =~= before.push(json@));
        assert(want.take(i + 1) =~= before.push(want[i as int]));
        i += 1;
    }
    assert(want.take(i as int) =~= want);
    array_of(&written)
}

fn tools_json(tools: &Vec<ToolDefinition>) -> (r: String)
    ensures
        r@ == array_text(tools@.map_values(|t: ToolDefinition| tool_text(t))),
{
    let ghost want = tools@.map_values(|t: ToolDefinition| tool_text(t));
    let mut written: Vec<String> = Vec::new();
    let mut i: usize = 0;
    while i < tools.len()
        invariant
            i <= tools.len(),
            want == tools@.map_values(|t: ToolDefinition| tool_text(t)),
            texts_of(written@) == want.take(i as int),
        decreases tools.len() - i,
    {
        let ghost before = texts_of(written@);
        let json = tool_json(&tools[i]);
        written.push(json);
        assert(texts_of(written@) =~= before.push(json@));
        assert(want.take(i + 1) =~= before.push(want[i as int]));
        i += 1;
    }
    assert(want.take(i as int) =~= want);
    array_of(&written)
}

/// A request to go on with a conversation, as JSON, given the tools to offer.
pub fn request_json(agent: &str, conversation: &Conversation, tools: &Vec<ToolDefinition>) -> (r: String)
    ensures
        r@ == request_text(agent@, transcript(conversation.messages@), tools@),
{
    let mut members: Vec<String> = Vec::new();
    push_member(&mut members, "messages", &messages_json(&conversation.messages));
    push_member(&mut members, "model", &json_quote(agent));
    push_member(&mut members, "stream", "false");
    push_member(&mut members, "tool_choice", &json_quote("auto"));
    push_member(&mut members, "tools", &tools_json(tools));
    assert(texts_of(members@) =~= seq![
        member(
            "messages"@,
            array_text(
                transcript(conversation.messages@).map_values(|m: MessageView| message_text(m)),
            ),
        ),
        member("model"@, json_quoted(agent@)),
        member("stream"@, bool_text(false)),
        member("tool_choice"@, json_quoted("auto"@)),
        member("tools"@, array_text(tools@.map_values(|t: ToolDefinition| tool_text(t)))),
    ]);
    object_of(&members)
}

} // verus!
