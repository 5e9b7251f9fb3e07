//! The assistant: its server, its tools and its conversations.

use lookout::assistant::{connection_result, model_ids, model_list, models_request, models_url, request_error, snippet, sorted_ids};
use lookout::assistant::{status_error, token_attributes, Probe};
use lookout::assistant_chat::{begin_chat, chat_with_tools, read_reply, tool_definitions};
use lookout::assistant_chat::{ChatMessage, ChatStep, ParameterKind, MAX_TOOL_TURNS, SYSTEM_PROMPT};
use lookout::assistant_tools::{arg_limit, bounded_days, check_counts, email_entries, event_entry, execute_tool};
use lookout::assistant_tools::{list_contacts, list_tasks, tool_request, top_contacts, upcoming_events};
use lookout::assistant_tools::{AddressCount, CalendarTask, ContactSource, TaskStatus, ToolArguments, ToolRequest};
use lookout::assistant_tools::{DEFAULT_LIMIT, MAX_LIMIT};
use lookout::assistant_tools::{ContactEntry, EmailEntry, EventEntry, TaskEntry, TopContact};
use lookout::chat_request::{request_json, tool_json};
use lookout::contacts::{ContactRecord, ContactsAccountSnapshot, EmailField, VCard};
use lookout::dates::{Date, DateTime, Instant, Moment, EPOCH_DAY};
use lookout::model::{EmailAddress, EmailSummary, EventOccurrence, EventSensitivity, EventTransparency};
use lookout::tool_results::{result_content, ToolResult};
use lookout::tool_runs::{finish_call, run_tool, ToolData};

const NOW: i64 = 1_780_000_000;

fn after(hours: i64) -> Instant {
    Instant { secs: NOW + hours * 3600, nanos: 0 }
}

fn moment(at: Instant) -> Moment {
    let days = at.secs.div_euclid(86400);
    let date = Date { number: EPOCH_DAY + days as i32 };
    Moment { instant: at, local: DateTime { date, secs: at.secs.rem_euclid(86400) as u32 } }
}

fn answered(status: u16, status_text: &str, body: &str) -> Probe {
    Probe::Answered { status, status_text: status_text.to_string(), body: body.to_string() }
}

fn task(summary: &str, due: Option<Instant>, completed: bool) -> CalendarTask {
    CalendarTask {
        calendar_id: "cal".to_string(),
        summary: Some(summary.to_string()),
        due,
        status: if completed { TaskStatus::Completed } else { TaskStatus::NeedsAction },
        priority: 0,
        categories: Vec::new(),
    }
}

#[test]
fn a_probe_asks_for_the_models_with_the_bearer_token() {
    let request = models_request("http://127.0.0.1:80", "sk-test").unwrap();
    assert_eq!(request.bearer.as_deref(), Some("sk-test"));
    assert!(models_request("http://127.0.0.1:80", "").unwrap().bearer.is_none());
    assert!(models_request(" ", "sk-test").unwrap_err().contains("URL"));
    let url = request.url;
    assert_eq!(url, "http://127.0.0.1:80/models");
    assert!(connection_result(&url, &answered(200, "200 OK", "{}")).is_ok());
}

#[test]
fn trailing_slash_is_tolerated() {
    let url = models_url("http://127.0.0.1:80/").unwrap();
    assert_eq!(url, "http://127.0.0.1:80/models");
    assert_eq!(models_url("  http://h//  ").unwrap(), "http://h/models");
}

#[test]
fn non_2xx_answers_are_errors_with_status_and_body_snippet() {
    let message = connection_result("u", &answered(401, "401 Unauthorized", "{\"error\":\"bad key\"}")).unwrap_err();
    assert!(message.contains("401"), "the status must be in the message: {message}");
    assert!(message.contains("bad key"), "a short body snippet must ride along: {message}");
    assert_eq!(status_error("500 Internal Server Error", "  "), "The server answered 500 Internal Server Error");
    assert_eq!(status_error("500", "oops"), "The server answered 500 — oops");
}

#[test]
fn empty_or_blank_urls_are_rejected_before_any_network_io() {
    assert!(models_url("").unwrap_err().contains("URL"));
    assert!(models_url("   ").unwrap_err().contains("URL"));
    assert!(models_url(" / ").unwrap_err().contains("URL"));
}

#[test]
fn model_list_parses_data_ids_sorted() {
    let body = r#"{"data":[{"id":"gpt-4o"},{"id":"llama-3.1"},{"id":"gpt-4o-mini"}]}"#;
    let models = model_list("u", &answered(200, "200 OK", body), "").unwrap();
    assert_eq!(models, vec!["gpt-4o", "gpt-4o-mini", "llama-3.1"]);
    assert_eq!(sorted_ids(&vec![Some("b".to_string()), None, Some("a".to_string())]), vec!["a", "b"]);
}

#[test]
fn model_list_tolerates_a_missing_or_empty_data_array() {
    assert_eq!(model_ids(r#"{"object":"list","data":[]}"#), Some(vec![]));
    assert_eq!(model_ids(r#"{"object":"list"}"#), Some(vec![]));
    assert_eq!(model_ids(r#"{"data":[{"name":"x"},{"id":3},{"id":"m"}]}"#), Some(vec!["m".to_string()]));
    let malformed = model_list("u", &answered(200, "200 OK", "not json"), "expected ident");
    assert_eq!(malformed.unwrap_err(), "The server's answer wasn't a JSON /models list: expected ident");
}

#[test]
fn model_list_reports_non_2xx_with_status_and_snippet() {
    let message = model_list("u", &answered(403, "403 Forbidden", "{\"error\":\"no access\"}"), "").unwrap_err();
    assert!(message.contains("403"), "the status must be in the message: {message}");
    assert!(message.contains("no access"), "a short body snippet must ride along: {message}");
}

#[test]
fn requests_that_cannot_be_sent_are_explained() {
    assert_eq!(request_error("a\"b", true, "bad"), "Invalid API URL \"a\\\"b\": bad");
    assert_eq!(request_error("u", false, "down"), "Connection failed: down");
    let probe = Probe::Unsent { invalid_url: false, error: "down".to_string() };
    assert_eq!(model_list("u", &probe, "").unwrap_err(), "Connection failed: down");
    let long: String = "é".repeat(201);
    assert_eq!(snippet(&long), format!("{}…", "é".repeat(200)));
    assert_eq!(snippet("short"), "short");
    let attrs = token_attributes();
    assert_eq!(attrs[0], ("application", "io.github.gavindi.Lookout"));
    assert_eq!(attrs[1], ("account", "assistant"));
    assert_eq!(attrs[2], ("protocol", "api-token"));
}

#[test]
fn tool_definitions_cover_all_six_tools() {
    let definitions = tool_definitions();
    let names: Vec<&str> = definitions.iter().map(|tool| tool.name).collect();
    assert_eq!(
        names,
        vec!["recent_emails", "search_emails", "top_contacts", "list_contacts", "list_tasks", "upcoming_events"]
    );
    let required: Vec<&str> = definitions[1].parameters.iter().filter(|p| p.required).map(|p| p.name).collect();
    assert_eq!(required[0], "query");
    for tool in &definitions {
        let limit = tool.parameters.iter().find(|p| p.name == "limit").unwrap();
        match limit.kind {
            ParameterKind::Integer { maximum, .. } => {
                assert!(maximum as u64 <= MAX_LIMIT as u64, "limits must stay within {MAX_LIMIT}")
            }
            _ => panic!("a limit is a number"),
        }
    }
}

#[test]
fn arg_limit_defaults_clamps_and_tolerates_garbage() {
    assert_eq!(arg_limit("{}"), DEFAULT_LIMIT);
    assert_eq!(arg_limit("{\"limit\": 3}"), 3);
    assert_eq!(arg_limit("{\"limit\": 0}"), 1);
    assert_eq!(arg_limit("{\"limit\": 5000}"), MAX_LIMIT);
    assert_eq!(arg_limit("{\"limit\": \"lots\"}"), DEFAULT_LIMIT);
    assert_eq!(arg_limit("not json"), DEFAULT_LIMIT);
    assert_eq!(bounded_days(Some(-4)), 1);
    assert_eq!(bounded_days(Some(400)), 90);
    assert_eq!(bounded_days(None), 14);
}

#[test]
fn list_tasks_filters_completed_sorts_by_due_and_limits() {
    let tasks = vec![
        task("later", Some(after(24 * 5)), false),
        task("done", Some(after(-24)), true),
        task("soon", Some(after(1)), false),
        task("undated", None, false),
    ];
    let outstanding = list_tasks(&tasks, false, DEFAULT_LIMIT);
    let summaries: Vec<&str> = outstanding.iter().map(|entry| entry.summary.as_str()).collect();
    assert_eq!(summaries, vec!["soon", "later", "undated"]);
    assert_eq!(outstanding[2].due, None);

    let all = list_tasks(&tasks, true, 2);
    assert_eq!(all.len(), 2);
    assert_eq!(all[0].summary, "done");
}

fn occurrence(uid: &str, start: Instant) -> EventOccurrence {
    EventOccurrence {
        uid: uid.to_string(),
        calendar_id: "cal-1".to_string(),
        summary: Some(uid.to_string()),
        description: None,
        location: None,
        start: moment(start),
        end: moment(Instant { secs: start.secs + 3600, nanos: 0 }),
        all_day: false,
        rrule: None,
        recurrence_id: None,
        exdates: Vec::new(),
        master_start: None,
        master_end: None,
        href: None,
        etag: None,
        master_href: None,
        master_etag: None,
        attendees: Vec::new(),
        organizer: None,
        categories: Vec::new(),
        sensitivity: EventSensitivity::default(),
        transparency: EventTransparency::default(),
        reminder_minutes_before: None,
        conference_url: None,
    }
}

#[test]
fn upcoming_events_filters_to_checked_calendars_sorts_and_carries_a_link() {
    let soon = occurrence("soon", after(1));
    let later = occurrence("later", after(48));
    let mut hidden = occurrence("hidden", after(2));
    hidden.calendar_id = "cal-hidden".to_string();
    let occurrences = vec![later, hidden, soon];
    let checked = vec!["cal-1".to_string()];
    let found = upcoming_events(&occurrences, after(0), &checked, 14, DEFAULT_LIMIT);
    let entries: Vec<_> = found.iter().map(|o| event_entry(o, "{\"uid\":1}")).collect();
    assert_eq!(entries.len(), 2, "the unchecked calendar's event is excluded");
    assert_eq!(entries[0].summary, "soon", "soonest first");
    assert_eq!(entries[1].summary, "later");
    assert!(entries[0].link.starts_with("lookout-action:open-event?data="));
    assert_eq!(upcoming_events(&occurrences, after(0), &checked, 1, DEFAULT_LIMIT).len(), 1);
    assert_eq!(upcoming_events(&occurrences, after(2), &checked, 14, DEFAULT_LIMIT).len(), 1);
}

#[test]
fn times_are_written_by_rfc_3339() {
    let entry = event_entry(&occurrence("x", Instant { secs: 0, nanos: 5_000_000 }), "");
    assert_eq!(entry.start, "1970-01-01T00:00:00.005+00:00");
    assert_eq!(entry.end, "1970-01-01T01:00:00+00:00");
}

#[test]
fn list_tasks_rejects_unknown_tools() {
    let error = execute_tool("drop_database", "").unwrap_err();
    assert_eq!(error, "Unknown tool \"drop_database\"");
}

#[test]
fn calls_are_read_from_their_arguments() {
    assert!(matches!(execute_tool("recent_emails", "{\"limit\":2}"), Ok(ToolRequest::RecentEmails { limit: 2 })));
    assert!(matches!(execute_tool("search_emails", "{\"query\":\" a \"}"), Ok(ToolRequest::SearchEmails { query, limit: 10 }) if query == "a"));
    assert!(execute_tool("search_emails", "{\"query\":\"  \"}").unwrap_err().contains("non-empty"));
    assert!(matches!(execute_tool("list_contacts", "{\"query\":\"ADA\"}"), Ok(ToolRequest::ListContacts { query, .. }) if query == "ada"));
    assert!(matches!(execute_tool("list_tasks", "{\"status\":\"all\"}"), Ok(ToolRequest::ListTasks { all: true, .. })));
    assert!(matches!(execute_tool("list_tasks", "{}"), Ok(ToolRequest::ListTasks { all: false, .. })));
    assert!(matches!(execute_tool("upcoming_events", "{\"days\":3}"), Ok(ToolRequest::UpcomingEvents { days: 3, limit: 10 })));
    let args = ToolArguments { limit: Some(500), query: None, status: None, days: None };
    assert!(matches!(tool_request("top_contacts", &args), Ok(ToolRequest::TopContacts { limit: 50 })));
}

fn contact(uid: &str, name: &str, email: &str) -> ContactRecord {
    ContactRecord {
        href: format!("{uid}.vcf"),
        etag: None,
        card: VCard {
            version: "4.0".to_string(),
            kind: None,
            uid: Some(uid.to_string()),
            full_name: Some(name.to_string()),
            name: None,
            organization: None,
            title: None,
            emails: vec![EmailField { types: vec!["work".to_string()], address: email.to_string() }],
            telephones: Vec::new(),
            addresses: Vec::new(),
            urls: Vec::new(),
            note: None,
            birthday: None,
            categories: Vec::new(),
            other: Vec::new(),
        },
    }
}

fn source(contacts: Vec<ContactRecord>) -> ContactSource {
    ContactSource {
        account_id: "/test/books".to_string(),
        snapshot: ContactsAccountSnapshot {
            display_name: "Test".to_string(),
            books: vec![],
            contacts,
            suggestions: vec![],
        },
    }
}

#[test]
fn list_contacts_matches_by_name_and_email() {
    let sources = vec![
        source(vec![contact("c1", "Ada Lovelace", "ada@example.org")]),
        source(vec![contact("c2", "Grace Hopper", "grace@example.org")]),
    ];
    let query = |args: &str| match execute_tool("list_contacts", args) {
        Ok(ToolRequest::ListContacts { query, limit }) => list_contacts(&sources, &query, limit),
        other => panic!("{other:?}"),
    };
    let all = query("{}");
    assert_eq!(all.len(), 2, "no query returns everyone");
    assert_eq!(all[0].name, "Ada Lovelace");
    assert_eq!(all[0].emails[0], "Ada Lovelace <ada@example.org>");

    let by_name = query("{\"query\": \"hopper\"}");
    assert_eq!(by_name.len(), 1);
    assert_eq!(by_name[0].name, "Grace Hopper");

    let by_email = query("{\"query\": \"ADA@\"}");
    assert_eq!(by_email.len(), 1, "email matching is case-insensitive");
    assert_eq!(query("{\"limit\": 1}").len(), 1);
}

fn email(uid: u32, subject: &str, from: (&str, &str), date: Instant, unread: bool) -> EmailSummary {
    EmailSummary {
        uid,
        mailbox: "/test/account:INBOX".to_string(),
        subject: Some(subject.to_string()),
        from: vec![EmailAddress { name: Some(from.0.to_string()), address: from.1.to_string() }],
        to: vec![EmailAddress { name: None, address: "me@example.org".to_string() }],
        cc: Vec::new(),
        date,
        unread,
        preview: None,
    }
}

fn cached() -> Vec<Option<Vec<EmailSummary>>> {
    vec![
        Some(vec![
            email(1, "Truffle weekly roundup", ("Truffle Security", "no-reply@truffle.example"), after(-48), true),
            email(2, "Lunch on Friday?", ("Ada Lovelace", "ada@example.org"), after(0), false),
        ]),
        None,
    ]
}

#[test]
fn recent_emails_returns_newest_first_with_labels() {
    let entries = email_entries(&cached(), DEFAULT_LIMIT);
    assert_eq!(entries.len(), 2);
    assert_eq!(entries[0].subject, "Lunch on Friday?", "newest first");
    assert!(!entries[0].unread, "the seen flag rides along");
    assert!(entries[1].unread);
    assert_eq!(entries[0].from, "Ada Lovelace <ada@example.org>");
    assert_eq!(entries[0].to, vec!["me@example.org"]);
    assert_eq!(entries[0].mailbox, "/test/account:INBOX");
    assert!(entries[0].link.starts_with("lookout-action:open-message?data="));
    assert_eq!(email_entries(&cached(), 1).len(), 1);
}

#[test]
fn top_contacts_sums_across_caches_and_ranks() {
    let count = |name: Option<&str>, address: &str, count: u64| AddressCount {
        address: EmailAddress { name: name.map(str::to_string), address: address.to_string() },
        count,
    };
    let found = vec![
        Some(vec![
            count(None, "me@example.org", 2),
            count(Some("Ada Lovelace"), "ada@example.org", 1),
            count(Some("Truffle Security"), "no-reply@truffle.example", 1),
        ]),
        None,
        Some(vec![count(Some("Ada"), "ada@example.org", 1)]),
    ];
    assert!(check_counts(&found));
    let entries = top_contacts(&found, DEFAULT_LIMIT);
    let ada = entries.iter().find(|entry| entry.address == "ada@example.org").unwrap();
    assert_eq!(ada.count, 2, "the same address in two caches counts once");
    assert_eq!(ada.name, "Ada Lovelace");
    assert!(entries[0].count >= entries[1].count, "ranked by count, descending");
    let first: Vec<&str> = entries.iter().take(2).map(|entry| entry.address.as_str()).collect();
    assert_eq!(first, vec!["ada@example.org", "me@example.org"]);
    assert!(!check_counts(&vec![Some(vec![count(None, "a", u64::MAX), count(None, "b", 1)])]));
}

#[test]
fn chat_with_tools_executes_tool_calls_and_returns_the_final_answer() {
    let mut chat = begin_chat(SYSTEM_PROMPT, "What's new in my inbox?").unwrap();
    assert_eq!(chat.messages.len(), 2);
    let body = r#"{"choices":[{"message":{"role":"assistant","content":null,"tool_calls":[{"id":"call_1","type":"function","function":{"name":"recent_emails","arguments":"{}"}}]}}]}"#;
    let calls = match chat_with_tools(&mut chat, body) {
        ChatStep::Call(calls) => calls,
        other => panic!("{other:?}"),
    };
    assert_eq!(calls.len(), 1);
    assert_eq!((calls[0].id.as_str(), calls[0].name.as_str(), calls[0].arguments.as_str()), ("call_1", "recent_emails", "{}"));
    let (messages, counts, contacts, tasks, occurrences, json, checked) = (cached(), vec![], vec![], vec![], vec![], vec![], vec![]);
    let data = ToolData {
        messages: &messages,
        counts: &counts,
        contacts: &contacts,
        tasks: &tasks,
        occurrences: &occurrences,
        occurrence_json: &json,
        checked_calendars: &checked,
        now: after(0),
    };
    let result = finish_call(execute_tool(&calls[0].name, &calls[0].arguments), Ok(data));
    assert!(chat.take_results(&calls, &vec![result]).is_none());
    assert!(matches!(&chat.messages[2], ChatMessage::Assistant(m) if m.contains("\"role\":\"assistant\"")));
    assert!(matches!(&chat.messages[3], ChatMessage::Tool { call_id, .. } if call_id == "call_1"));
    let request = request_json("gpt-4o", &chat, &tool_definitions());
    assert!(request.contains("\"role\":\"tool\""), "a tool message must follow the call");
    assert!(request.contains("\"tool_call_id\":\"call_1\""));
    assert!(request.contains("Truffle weekly roundup"), "the executed cache result must ride along");
    assert!(request.contains("\"role\":\"assistant\""), "the assistant's tool-call message must stay in the transcript");
    let body = r#"{"choices":[{"message":{"role":"assistant","content":"You have 2 recent messages."}}]}"#;
    match chat_with_tools(&mut chat, body) {
        ChatStep::Answer(text) => assert_eq!(text, "You have 2 recent messages."),
        other => panic!("{other:?}"),
    }
}

#[test]
fn chat_with_tools_reports_a_reply_without_content() {
    let mut chat = begin_chat("s", "p").unwrap();
    match chat_with_tools(&mut chat, r#"{"choices":[{"message":{"role":"assistant"}}]}"#) {
        ChatStep::Fail(e) => assert!(e.contains("no message content")),
        other => panic!("{other:?}"),
    }
    let mut chat = begin_chat("s", "p").unwrap();
    match chat_with_tools(&mut chat, r#"{"choices":[]}"#) {
        ChatStep::Fail(e) => assert_eq!(e, "The server's chat reply had no message"),
        other => panic!("{other:?}"),
    }
    assert!(read_reply(r#"{"choices":{"0":{"message":{}}}}"#).message.is_none());
}

#[test]
fn chat_with_tools_rejects_a_blank_prompt_before_any_network_io() {
    assert!(begin_chat(SYSTEM_PROMPT, "  ").unwrap_err().contains("Type something"));
}

#[test]
fn a_conversation_ends_after_too_many_calls() {
    let mut chat = begin_chat("s", "p").unwrap();
    let body = r#"{"choices":[{"message":{"tool_calls":[{"id":"x"}]}}]}"#;
    let mut ended = None;
    for turn in 1..=MAX_TOOL_TURNS {
        let calls = match chat_with_tools(&mut chat, body) {
            ChatStep::Call(calls) => calls,
            other => panic!("{other:?}"),
        };
        let error = execute_tool(&calls[0].name, &calls[0].arguments).unwrap_err();
        ended = chat.take_results(&calls, &vec![Err(error)]);
        assert_eq!(ended.is_some(), turn == MAX_TOOL_TURNS);
    }
    assert_eq!(ended.unwrap(), "The assistant made too many tool calls (limit 8) - please ask a narrower question.");
    assert_eq!(result_content(&Err("a\"b".to_string())), "{\"error\":\"a\\\"b\"}");
}

#[test]
fn found_mail_is_told_and_a_blank_query_is_refused() {
    let found: Vec<Option<Vec<EmailSummary>>> = vec![Some(vec![cached().remove(0).unwrap().remove(0)])];
    let by_subject = email_entries(&found, DEFAULT_LIMIT);
    assert_eq!(by_subject.len(), 1);
    assert_eq!(by_subject[0].subject, "Truffle weekly roundup");
    assert!(execute_tool("search_emails", "{\"query\": \"  \"}").is_err(), "a blank query is an error, not a full dump");
}

#[test]
fn each_result_is_told_as_json() {
    let email = EmailEntry {
        subject: "A \"b\"".to_string(),
        from: "Ada <a@x>".to_string(),
        to: vec!["b@x".to_string(), "c@x".to_string()],
        date: "2026-01-02T00:00:00+00:00".to_string(),
        unread: true,
        preview: String::new(),
        mailbox: "acc:INBOX".to_string(),
        uid: 7,
        link: "l".to_string(),
    };
    assert_eq!(
        result_content(&Ok(ToolResult::Emails(vec![email]))),
        r#"[{"date":"2026-01-02T00:00:00+00:00","from":"Ada <a@x>","link":"l","mailbox":"acc:INBOX","preview":"","subject":"A \"b\"","to":["b@x","c@x"],"uid":7,"unread":true}]"#
    );
    let person = |name: &str, count: u64| TopContact { name: name.to_string(), address: "a@x".to_string(), count };
    assert_eq!(
        result_content(&Ok(ToolResult::People(vec![person("A", 2), person("", 0)]))),
        r#"[{"address":"a@x","count":2,"name":"A"},{"address":"a@x","count":0,"name":""}]"#
    );
    let contact = ContactEntry { account: "acc".to_string(), name: "Ada".to_string(), emails: vec![] };
    assert_eq!(
        result_content(&Ok(ToolResult::Contacts(vec![contact]))),
        r#"[{"account":"acc","emails":[],"name":"Ada"}]"#
    );
    let task = |due: Option<&str>, status: TaskStatus| TaskEntry {
        summary: "t".to_string(),
        due: due.map(str::to_string),
        status,
        priority: 5,
        categories: vec!["x".to_string()],
        calendar: "cal".to_string(),
    };
    assert_eq!(
        result_content(&Ok(ToolResult::Tasks(vec![task(Some("d"), TaskStatus::NeedsAction), task(None, TaskStatus::Completed)]))),
        concat_texts(&[
            r#"[{"calendar":"cal","categories":["x"],"due":"d","priority":5,"status":"NeedsAction","summary":"t"},"#,
            r#"{"calendar":"cal","categories":["x"],"due":null,"priority":5,"status":"Completed","summary":"t"}]"#,
        ])
    );
    let event = EventEntry {
        summary: "e".to_string(),
        start: "s".to_string(),
        end: "z".to_string(),
        all_day: false,
        location: None,
        link: "l".to_string(),
    };
    assert_eq!(
        result_content(&Ok(ToolResult::Events(vec![event]))),
        r#"[{"all_day":false,"end":"z","link":"l","location":null,"start":"s","summary":"e"}]"#
    );
    assert_eq!(result_content(&Ok(ToolResult::Events(vec![]))), "[]");
}

fn concat_texts(v: &[&str]) -> String {
    v.concat()
}

#[test]
fn a_request_carries_the_conversation_and_the_tools() {
    let chat = begin_chat("s", "p \"q\"").unwrap();
    let request = request_json("m", &chat, &vec![]);
    assert_eq!(
        request,
        r#"{"messages":[{"content":"s","role":"system"},{"content":"p \"q\"","role":"user"}],"model":"m","stream":false,"tool_choice":"auto","tools":[]}"#
    );
    let read: serde_json::Value = serde_json::from_str(&request_json("m", &chat, &tool_definitions())).unwrap();
    assert_eq!(read["tools"].as_array().unwrap().len(), 6);
    assert_eq!(read["tools"][1]["type"], "function");
    assert_eq!(read["tools"][1]["function"]["name"], "search_emails");
    let parameters = &read["tools"][1]["function"]["parameters"];
    assert_eq!(parameters["required"][0], "query");
    assert_eq!(parameters["type"], "object");
    assert_eq!(parameters["additionalProperties"], false);
    assert_eq!(parameters["properties"]["limit"]["maximum"], 50);
    assert_eq!(parameters["properties"]["limit"]["minimum"], 1);
    assert_eq!(parameters["properties"]["limit"]["type"], "integer");
    assert!(read["tools"][0]["function"]["parameters"].get("required").is_none());
    assert_eq!(read["tools"][4]["function"]["parameters"]["properties"]["status"]["enum"][1], "all");
    assert!(tool_json(&tool_definitions()[5]).contains(r#""days":{"description":"How many days ahead to look (default 14, at most 90)","maximum":90,"minimum":1,"type":"integer"}"#));
}

#[test]
fn a_query_has_to_match_the_name_or_one_address() {
    let mut c = contact("c1", "Ada Lovelace", "ada@example.org");
    c.card.emails.push(EmailField { types: vec![], address: "zoe@other.org".to_string() });
    let sources = vec![source(vec![c])];
    assert_eq!(list_contacts(&sources, "lovelace", 10).len(), 1);
    assert_eq!(list_contacts(&sources, "zoe@", 10).len(), 1);
    assert_eq!(list_contacts(&sources, "lovelace ada", 10).len(), 0);
    assert_eq!(list_contacts(&sources, "org zoe", 10).len(), 0);
}

#[test]
fn each_tool_is_answered_from_its_own_data() {
    let messages = cached();
    let counts = vec![Some(vec![AddressCount { address: EmailAddress { name: None, address: "a@x".to_string() }, count: 3 }])];
    let contacts = vec![source(vec![contact("c1", "Ada", "ada@x"), contact("c2", "Bob", "bob@x")])];
    let tasks = vec![task("done", None, true), task("open", Some(after(1)), false)];
    let occurrences = vec![occurrence("b", after(5)), occurrence("a", after(2))];
    let json = vec!["{\"b\":1}".to_string(), "{\"a\":1}".to_string()];
    let checked = vec![occurrences[0].calendar_id.clone()];
    let data = ToolData {
        messages: &messages,
        counts: &counts,
        contacts: &contacts,
        tasks: &tasks,
        occurrences: &occurrences,
        occurrence_json: &json,
        checked_calendars: &checked,
        now: after(0),
    };
    let run = |request: ToolRequest| run_tool(&request, &data);
    assert!(matches!(run(ToolRequest::RecentEmails { limit: 1 }), ToolResult::Emails(v) if v.len() == 1));
    assert!(matches!(run(ToolRequest::SearchEmails { query: "q".to_string(), limit: 9 }), ToolResult::Emails(v) if v.len() == 2));
    assert!(matches!(run(ToolRequest::TopContacts { limit: 9 }), ToolResult::People(v) if v.len() == 1 && v[0].count == 3));
    assert!(matches!(run(ToolRequest::ListContacts { query: "bob".to_string(), limit: 9 }), ToolResult::Contacts(v) if v.len() == 1 && v[0].name == "Bob"));
    assert!(matches!(run(ToolRequest::ListTasks { all: false, limit: 9 }), ToolResult::Tasks(v) if v.len() == 1 && v[0].summary == "open"));
    match run(ToolRequest::UpcomingEvents { days: 14, limit: 9 }) {
        ToolResult::Events(v) => {
            assert_eq!(v.len(), 2);
            assert_eq!(v[0].link, event_entry(&occurrences[1], &json[1]).link);
            assert_eq!(v[1].link, event_entry(&occurrences[0], &json[0]).link);
        }
        other => panic!("{other:?}"),
    }
    assert_eq!(finish_call(Err("no tool".to_string()), Ok(data)).unwrap_err(), "no tool");
    let request = execute_tool("list_tasks", "{}");
    assert_eq!(finish_call(request, Err("no data".to_string())).unwrap_err(), "no data");
}
