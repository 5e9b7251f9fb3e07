//! Writing mails: replies, drafts and the rich-text editor.

use lookout::compose::{build_forward_prefill, build_reply_prefill, header_value, quote_lines, reply_threading};
use lookout::compose::{sender_label, strip_angle_brackets, with_prefix_once, ReplyMode};
use lookout::compose_html::{append_signature, editor_document, escape_html, html_document, table_html};
use lookout::compose_html::{text_to_html, uri_is_local};
use lookout::composer::{attachment_label, blocks_load, color_argument, content_type, draft_saved_text};
use lookout::composer::{font_family_argument, font_size_argument, insert_signature, link_argument, open_composer};
use lookout::composer::{remove_attachment, LoadKind, Signature, SignatureInsert};
use lookout::dates::{Date, Instant, EPOCH_DAY};
use lookout::drafts::{draft_is_trivial, kept_selection, outgoing_body, parse_recipients, prepare_send};
use lookout::drafts::{prepare_cancel, CancelStep};
use lookout::drafts::{selected_identity, Autosave, ComposerPlace, DraftSnapshot, PendingAttachment, SendFields, SendStep};
use lookout::editor_content::{append_html_script, image_data_uri, insert_html_script, insert_image_script};
use lookout::editor_content::{read_content, EditorContent, InlineImage};
use lookout::model::{EmailAddress, EmailBody, EmailSummary, Identity};

fn address(name: Option<&str>, address: &str) -> EmailAddress {
    EmailAddress { name: name.map(str::to_string), address: address.to_string() }
}

fn noon(year: i32, month: u32, day: u32) -> Instant {
    let date = Date::from_ymd_opt(year, month, day).unwrap();
    Instant { secs: (date.number as i64 - EPOCH_DAY as i64) * 86400 + 12 * 3600, nanos: 0 }
}

fn sample_summary() -> EmailSummary {
    EmailSummary {
        uid: 1,
        mailbox: "/test/account:INBOX".to_string(),
        subject: Some("Hello there".to_string()),
        from: vec![address(Some("Ada Lovelace"), "ada@example.com")],
        to: vec![address(None, "me@example.com"), address(None, "other@example.com")],
        cc: vec![address(None, "cc-person@example.com")],
        date: noon(2026, 7, 30),
        unread: true,
        preview: None,
    }
}

fn sample_body(headers: Vec<(String, String)>, text_body: Option<&str>) -> EmailBody {
    EmailBody { text_body: text_body.map(str::to_string), headers }
}

fn header(name: &str, value: &str) -> (String, String) {
    (name.to_string(), value.to_string())
}

#[test]
fn header_value_matches_case_insensitively() {
    let headers = vec![header("Message-ID", "<abc@example.com>")];
    assert_eq!(header_value(&headers, "message-id"), Some("<abc@example.com>"));
    assert_eq!(header_value(&headers, "Message-Id"), Some("<abc@example.com>"));
    assert_eq!(header_value(&headers, "subject"), None);
}

#[test]
fn subject_prefix_is_not_doubled_when_already_present() {
    assert_eq!(with_prefix_once("Hello", "Re: "), "Re: Hello");
    assert_eq!(with_prefix_once("Re: Hello", "Re: "), "Re: Hello");
    assert_eq!(with_prefix_once("re: Hello", "Re: "), "re: Hello");
}

#[test]
fn a_prefix_goes_before_any_subject_that_can_be_cut_there() {
    assert_eq!(with_prefix_once("Re:é", "Re: "), "Re: Re:é");
    assert_eq!(with_prefix_once("日本語", "Re: "), "Re: 日本語");
    assert_eq!(with_prefix_once("re: 日本語", "Re: "), "re: 日本語");
    assert_eq!(with_prefix_once("", "Re: "), "Re: ");
}

#[test]
fn reply_threading_strips_angle_brackets_and_appends_original_id() {
    let headers = vec![
        header("Message-ID", "<orig@example.com>"),
        header("References", "<older@example.com> <older2@example.com>"),
    ];
    let body = sample_body(headers, Some("hi"));
    let (in_reply_to, references) = reply_threading(&body);
    assert_eq!(in_reply_to, Some("orig@example.com".to_string()));
    assert_eq!(
        references,
        vec!["older@example.com".to_string(), "older2@example.com".to_string(), "orig@example.com".to_string()]
    );
}

#[test]
fn reply_threading_with_no_references_header_falls_back_to_just_message_id() {
    let body = sample_body(vec![header("Message-ID", "<orig@example.com>")], Some("hi"));
    let (in_reply_to, references) = reply_threading(&body);
    assert_eq!(in_reply_to, Some("orig@example.com".to_string()));
    assert_eq!(references, vec!["orig@example.com".to_string()]);
}

#[test]
fn reply_excludes_other_recipients_reply_all_includes_them_minus_own_address() {
    let summary = sample_summary();
    let body = sample_body(vec![header("Message-ID", "<orig@example.com>")], Some("original text"));

    let reply = build_reply_prefill(&summary, &body, "me@example.com", ReplyMode::Reply);
    assert_eq!(reply.to.as_deref(), Some("ada@example.com"));
    assert_eq!(reply.cc, None);

    let reply_all = build_reply_prefill(&summary, &body, "me@example.com", ReplyMode::ReplyAll);
    assert_eq!(reply_all.to.as_deref(), Some("ada@example.com, other@example.com"));
    assert_eq!(reply_all.cc.as_deref(), Some("cc-person@example.com"));
}

#[test]
fn a_reply_quotes_the_mail_below_who_wrote_it_when() {
    let summary = sample_summary();
    let body = sample_body(vec![header("Message-ID", "<orig@example.com>")], Some("one\ntwo"));
    let reply = build_reply_prefill(&summary, &body, "me@example.com", ReplyMode::Reply);
    assert_eq!(reply.subject.as_deref(), Some("Re: Hello there"));
    let text = reply.body.unwrap();
    assert!(text.contains("Thu, Jul 30, 2026 at 12:00 PM"), "{text}");
    assert!(text.contains("Ada Lovelace"), "{text}");
    assert!(text.contains("> one\n> two"), "{text}");
    assert_eq!(quote_lines("a\nb"), "> a\n> b");
    assert_eq!(sender_label(&summary), "Ada Lovelace");
}

#[test]
fn forward_prefill_has_no_threading_and_blank_recipients() {
    let summary = sample_summary();
    let body = sample_body(vec![header("Message-ID", "<orig@example.com>")], Some("original text"));
    let forward = build_forward_prefill(&summary, &body);
    assert_eq!(forward.to, None);
    assert_eq!(forward.cc, None);
    assert_eq!(forward.in_reply_to, None);
    assert!(forward.references.is_empty());
    assert_eq!(forward.subject.as_deref(), Some("Fwd: Hello there"));
    assert!(forward.body.unwrap().contains("original text"));
}

#[test]
fn text_to_html_escapes_special_characters() {
    assert_eq!(text_to_html("a < b & c > d"), "<p>a &lt; b &amp; c &gt; d</p>");
    assert_eq!(text_to_html("\"quoted\" and 'apostrophe'"), "<p>&quot;quoted&quot; and &#39;apostrophe&#39;</p>");
}

#[test]
fn text_to_html_quotes_become_blockquote() {
    assert_eq!(text_to_html("> quoted\n> still quoted"), "<blockquote>quoted<br>still quoted</blockquote>");
    assert_eq!(text_to_html("> one"), "<blockquote>one</blockquote>");
}

#[test]
fn text_to_html_paragraphs_and_breaks() {
    assert_eq!(text_to_html("first line\nsecond line\n\nnew para"), "<p>first line<br>second line</p><p>new para</p>");
    assert_eq!(text_to_html("just one"), "<p>just one</p>");
}

#[test]
fn text_to_html_horizontal_rules() {
    assert_eq!(text_to_html("---"), "<hr>");
    assert_eq!(text_to_html("text\n\n***"), "<p>text</p><hr>");
    assert_eq!(text_to_html("___"), "<hr>");
    assert_eq!(text_to_html("--"), "<p>--</p>");
}

#[test]
fn text_to_html_empty_and_blank() {
    assert_eq!(text_to_html(""), "");
    assert_eq!(text_to_html("\n\n"), "");
}

#[test]
fn text_to_html_mixed_quote_and_text() {
    assert_eq!(
        text_to_html("intro\n\n> quoted line\n> second quote"),
        "<p>intro</p><blockquote>quoted line<br>second quote</blockquote>"
    );
}

#[test]
fn escaped_text_holds_no_markup() {
    let escaped = escape_html("<b a=\"1\" c='2'>&</b>");
    assert_eq!(escaped, "&lt;b a=&quot;1&quot; c=&#39;2&#39;&gt;&amp;&lt;/b&gt;");
    assert!(!escaped.contains('<') && !escaped.contains('>') && !escaped.contains('"'));
}

#[test]
fn documents_tables_and_signatures_are_written_out() {
    assert!(html_document("<p>x</p>").ends_with("<body><p>x</p></body></html>"));
    assert!(editor_document("  ").ends_with("<body><p><br></p></body></html>"));
    assert_eq!(table_html(2, 1).matches("<tr>").count(), 2);
    assert_eq!(table_html(1, 3).matches("<td").count(), 3);
    assert!(uri_is_local("data:image/png;base64,AA"));
    assert!(uri_is_local("cid:img-1"));
    assert!(!uri_is_local("https://example.com/x.png"));
    assert_eq!(append_signature("body", "  Ada \n"), "body\nAda\n");
    assert_eq!(append_signature("", "Ada"), "Ada\n");
    assert_eq!(append_signature("body", "   "), "body");
}

#[test]
fn parse_recipients_splits_trims_and_drops_blanks() {
    assert_eq!(parse_recipients("a@example.com, b@example.com"), vec!["a@example.com", "b@example.com"]);
    assert_eq!(parse_recipients("  only@example.com  "), vec!["only@example.com"]);
    assert_eq!(parse_recipients("a@example.com,, ,b@example.com,"), vec!["a@example.com", "b@example.com"]);
    assert!(parse_recipients("").is_empty());
    assert!(parse_recipients(" , ").is_empty());
    assert_eq!(parse_recipients("\"Lovelace, Ada\" <ada@example.com>"), vec!["\"Lovelace, Ada\" <ada@example.com>"]);
}

fn snapshot(to: &str, subject: &str, body_text: &str) -> DraftSnapshot {
    DraftSnapshot {
        from: "me@example.com".to_string(),
        to: to.to_string(),
        cc: String::new(),
        bcc: String::new(),
        subject: subject.to_string(),
        rich: false,
        read_receipt: false,
        body: body_text.to_string(),
        body_text: body_text.to_string(),
        attachments: vec![],
        inline_images: vec![],
    }
}

#[test]
fn empty_composer_is_trivial_and_never_autosaved() {
    assert!(draft_is_trivial(&snapshot("", "", "")));
    assert!(draft_is_trivial(&snapshot("  ", "", "\n  ")));
    let mut autosave = Autosave::new("id@x".to_string());
    assert!(autosave.attempt());
    let identity = Identity::new("a", "Me", "me@example.com");
    let saved = autosave.save_if_changed(Some(snapshot("", "", "")), &identity, &None, &vec![]);
    assert!(saved.is_none());
}

#[test]
fn any_recipient_subject_or_body_makes_a_draft_worth_saving() {
    assert!(!draft_is_trivial(&snapshot("a@example.com", "", "")));
    assert!(!draft_is_trivial(&snapshot("", "subject", "")));
    assert!(!draft_is_trivial(&snapshot("", "", "body")));
    let mut bcc_only = snapshot("", "", "");
    bcc_only.bcc = "hidden@example.com".to_string();
    assert!(!draft_is_trivial(&bcc_only));
}

#[test]
fn an_attachment_or_inline_image_alone_makes_a_draft_worth_saving() {
    let mut with_attachment = snapshot("", "", "");
    with_attachment.attachments = vec![PendingAttachment {
        filename: "photo.png".to_string(),
        content_type: "image/png".to_string(),
        pick: 0,
        bytes: vec![0u8; 4],
    }];
    assert!(!draft_is_trivial(&with_attachment));

    let mut with_image = snapshot("", "", "");
    with_image.inline_images = vec![InlineImage {
        cid: "img-1@lookout.local".to_string(),
        content_type: "image/png".to_string(),
        bytes: vec![0u8; 4],
    }];
    assert!(!draft_is_trivial(&with_image));
}

#[test]
fn rich_blank_document_is_trivial() {
    let snap = DraftSnapshot {
        from: String::new(),
        to: String::new(),
        cc: String::new(),
        bcc: String::new(),
        subject: String::new(),
        rich: true,
        read_receipt: false,
        body: "<p><br></p>".to_string(),
        body_text: "\n".to_string(),
        attachments: vec![],
        inline_images: vec![],
    };
    assert!(draft_is_trivial(&snap));
}

#[test]
fn drafts_are_saved_one_at_a_time_and_only_when_changed() {
    let identity = Identity::new("a", "Me", "me@example.com");
    let mut autosave = Autosave::new("id@x".to_string());
    assert!(autosave.attempt());
    assert!(!autosave.attempt());
    let first = autosave.save_if_changed(Some(snapshot("a@x", "s", "b")), &identity, &None, &vec![]).unwrap();
    assert!(!first.replace);
    assert_eq!(first.msg.message_id.as_deref(), Some("id@x"));
    assert!(autosave.attempt());
    assert!(autosave.save_if_changed(Some(snapshot("a@x", "s", "b")), &identity, &None, &vec![]).is_none());
    assert!(autosave.attempt());
    let second = autosave.save_if_changed(Some(snapshot("a@x", "s", "bb")), &identity, &None, &vec![]).unwrap();
    assert!(second.replace);
    assert_eq!(second.msg.message_id.as_deref(), Some("id@x"));
}

#[test]
fn a_message_needs_a_recipient_and_deletes_its_draft() {
    let identity = Identity::new("a", "Me", "me@example.com");
    let mut autosave = Autosave::new("id@x".to_string());
    let fields = |to: Vec<String>| SendFields {
        to,
        cc: vec![],
        bcc: vec![],
        subject: "s".to_string(),
        attachments: vec![],
        read_receipt: true,
        in_reply_to: None,
        references: vec![],
    };
    let body = || outgoing_body(false, None, String::new(), "plain".to_string());
    assert!(prepare_send(fields(vec![]), body(), &identity, &autosave).is_empty());
    let unsaved = prepare_send(fields(vec!["b@x".to_string()]), body(), &identity, &autosave);
    assert!(matches!(&unsaved[0], SendStep::Announce { subject } if subject == "s"));
    assert_eq!(unsaved.len(), 4);
    autosave.draft_queued = true;
    assert!(prepare_send(fields(vec![]), body(), &identity, &autosave).is_empty());
    let steps = prepare_send(fields(vec!["b@x".to_string()]), body(), &identity, &autosave);
    assert_eq!(steps.len(), 5);
    assert!(matches!(&steps[0], SendStep::DeleteDraft { message_id } if message_id == "id@x"));
    assert!(matches!(&steps[1], SendStep::Announce { subject } if subject == "s"));
    let SendStep::Send { msg } = &steps[2] else { panic!("the message is not sent") };
    assert_eq!(msg.text_body, "plain");
    assert!(msg.request_read_receipt);
    assert_eq!(msg.from, "me@example.com");
    assert_eq!(msg.message_id, None);
    assert!(matches!(&steps[3], SendStep::Close));
    assert!(matches!(&steps[4], SendStep::Done));
}

#[test]
fn a_rich_body_is_sent_with_its_text_and_its_html() {
    let content = EditorContent { html: "<p>hi</p>".to_string(), text: "hi".to_string(), images: vec![] };
    let body = outgoing_body(true, Some(content), "opened".to_string(), String::new());
    assert_eq!(body.text, "hi");
    assert!(body.html.unwrap().contains("<p>hi</p>"));
    let blank = EditorContent { html: "<p><br></p>".to_string(), text: "\n".to_string(), images: vec![] };
    assert_eq!(outgoing_body(true, Some(blank), "opened".to_string(), String::new()).html, None);
    assert_eq!(outgoing_body(true, None, "opened".to_string(), String::new()).text, "opened");
}

#[test]
fn the_editor_answers_in_json_with_images_in_base64() {
    let answer = "{\"html\":\"<p>hi</p>\",\"text\":\"hi\",\"images\":[{\"cid\":\"c1\",\"contentType\":\"image/png\",\"data\":\"AQID\"},{\"cid\":\"c2\"}]}";
    let content = read_content(answer).unwrap();
    assert_eq!(content.html, "<p>hi</p>");
    assert_eq!(content.text, "hi");
    assert_eq!(content.images.len(), 1);
    assert_eq!(content.images[0].bytes, vec![1, 2, 3]);
    assert!(read_content("not json").is_none());
    assert_eq!(image_data_uri("image/png", &vec![1, 2, 3]), "data:image/png;base64,AQID");
    assert!(insert_image_script("data:x").contains("\"data:x\""));
    assert!(insert_html_script("<b>\"</b>").contains("\"<b>\\\"</b>\""));
    assert!(append_html_script("<i/>").contains("\"<i/>\""));
}

#[test]
fn identities_are_picked_by_number() {
    let identities = vec![Identity::new("a", "One", "1@x"), Identity::new("a", "Two", "2@x")];
    assert_eq!(selected_identity(&identities, 1).email, "2@x");
    assert_eq!(selected_identity(&identities, 7).email, "1@x");
    assert_eq!(selected_identity(&vec![], 0).email, "");
    assert_eq!(kept_selection(1, 2), 1);
    assert_eq!(kept_selection(5, 2), 0);
}

#[test]
fn a_composer_that_is_taken_out_of_its_window_is_done_unless_it_moves() {
    let mut place = ComposerPlace::new();
    assert!(place.pop_out());
    assert_eq!(place.root_changed(false), None);
    assert!(!place.closed);
    place.moved();
    assert_eq!(place.root_changed(true), Some(false));
    place.root_changed(false);
    assert!(place.closed);
}

#[test]
fn cancel_saves_once_more_and_then_closes() {
    assert_eq!(prepare_cancel(), vec![CancelStep::Save, CancelStep::Close, CancelStep::Done]);
    let mut place = ComposerPlace::new();
    assert!(place.ticks());
    place.finish();
    assert!(place.closed && !place.ticks());
    place.pop_out();
    place.moved();
    place.root_changed(true);
    assert!(!place.ticks());
}

fn signature() -> Signature {
    Signature { name: "Work".to_string(), text: " Ada \n".to_string(), html: "<b>Ada</b>".to_string() }
}

#[test]
fn a_composer_opens_with_the_prefill_and_the_signature() {
    let summary = sample_summary();
    let body = sample_body(vec![], Some("hi"));
    let mut prefill = build_reply_prefill(&summary, &body, "me@example.com", ReplyMode::ReplyAll);
    prefill.body = Some("> hi".to_string());
    let opening = open_composer(&prefill, &Some(signature()), true);
    assert_eq!(opening.to, "ada@example.com, other@example.com");
    assert!(opening.cc_shown && opening.rich);
    assert_eq!(opening.plain_body, "> hi\nAda\n");
    assert!(opening.rich_document.contains("<body><blockquote>hi</blockquote></body>"));
    assert!(opening.signature_script.unwrap().contains("\"<b>Ada</b>\""));
    prefill.cc = Some("  ".to_string());
    prefill.body = None;
    let opening = open_composer(&prefill, &None, false);
    assert!(!opening.cc_shown && !opening.rich);
    assert_eq!(opening.plain_body, "");
    assert!(opening.rich_document.contains("<p><br></p>"));
    assert_eq!(opening.signature_script, None);
}

#[test]
fn buttons_of_the_editor_map_to_its_commands() {
    assert_eq!(font_size_argument(3), Some("7"));
    assert_eq!(font_size_argument(4), None);
    assert_eq!(font_family_argument(2), Some("monospace"));
    assert_eq!(font_family_argument(9), None);
    assert_eq!(color_argument(255, 0, 10), "#ff000a");
    assert_eq!(link_argument("insert", "https://x").as_deref(), Some("https://x"));
    assert_eq!(link_argument("insert", ""), None);
    assert_eq!(link_argument("cancel", "https://x"), None);
    assert!(matches!(insert_signature(false, &signature()), SignatureInsert::Text(t) if t == " Ada \n"));
    assert!(matches!(insert_signature(true, &signature()), SignatureInsert::Script(s) if s.contains("insertHTML")));
}

#[test]
fn nothing_is_fetched_while_composing() {
    assert!(blocks_load(LoadKind::Navigation, Some("https://example.com")));
    assert!(!blocks_load(LoadKind::Navigation, Some("about:blank")));
    assert!(blocks_load(LoadKind::Response { main_resource: false }, Some("http://x/i.png")));
    assert!(!blocks_load(LoadKind::Response { main_resource: true }, Some("http://x/")));
    assert!(!blocks_load(LoadKind::Other, Some("http://x/")));
    assert!(!blocks_load(LoadKind::Navigation, None));
}

#[test]
fn attachments_and_drafts_are_told_apart() {
    let pick = |n: u64| PendingAttachment {
        filename: format!("{n}.txt"),
        content_type: content_type(None, false),
        pick: n,
        bytes: vec![],
    };
    let mut list = vec![pick(1), pick(2)];
    remove_attachment(&mut list, 5);
    assert_eq!(list.len(), 2);
    remove_attachment(&mut list, 0);
    assert_eq!(list[0].filename, "2.txt");
    assert_eq!(list[0].content_type, "application/octet-stream");
    assert_eq!(content_type(None, true), "image/png");
    assert_eq!(content_type(Some("text/plain".to_string()), true), "text/plain");
    assert_eq!(attachment_label("a.txt", "1 KB"), "a.txt  ·  1 KB");
    assert_eq!(draft_saved_text("a", "a"), Some("Draft saved"));
    assert_eq!(draft_saved_text("a", "b"), None);
}

#[test]
fn one_pair_of_angle_brackets_comes_off_an_id() {
    assert_eq!(strip_angle_brackets(" <a@b> "), "a@b");
    assert_eq!(strip_angle_brackets("a@b"), "a@b");
    assert_eq!(strip_angle_brackets("<<a@b>>"), "<a@b>");
    assert_eq!(strip_angle_brackets("<a@b"), "a@b");
    assert_eq!(strip_angle_brackets("<"), "");
}
