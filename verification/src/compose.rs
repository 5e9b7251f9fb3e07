//! Replying to and forwarding mail: what the composer opens with.

use crate::dates::{formatted, Instant};
use crate::model::{addresses, display_labels, label_of, labels_of, text_of, texts_of};
use crate::model::{EmailAddress, EmailBody, EmailSummary};
use crate::pieces::{eq_ignore_ascii_case, join, joined, lines, lines_of, same_ignoring_case, words, words_of};
use crate::text::{blank, chars_of, has_prefix, lemma_trimmed_ends, lemma_trimmed_fixed, trim, trimmed, white};
use vstd::prelude::*;

verus! {

/// What the composer opens with.
#[derive(Debug)]
pub struct ComposePrefill {
    pub to: Option<String>,
    pub cc: Option<String>,
    pub subject: Option<String>,
    pub body: Option<String>,
    /// The id of the mail that is answered, without angle brackets.
    pub in_reply_to: Option<String>,
    /// The ids of the conversation, oldest first, without angle brackets.
    pub references: Vec<String>,
}

impl Default for ComposePrefill {
    fn default() -> (r: Self)
        ensures
            r.to is None,
            r.cc is None,
            r.subject is None,
            r.body is None,
            r.in_reply_to is None,
            r.references@.len() == 0,
    {
        ComposePrefill {
            to: None,
            cc: None,
            subject: None,
            body: None,
            in_reply_to: None,
            references: Vec::new(),
        }
    }
}

/// Whom a reply goes to: the sender, or everybody.
#[derive(Clone, Copy, PartialEq, Eq, Structural, Debug)]
pub enum ReplyMode {
    Reply,
    ReplyAll,
}

/// A message id without white space and one pair of angle brackets around it.
pub open spec fn bare_id(id: Seq<char>) -> Seq<char> {
    let t = trimmed(id);
    let from: int = if t.len() > 0 && t[0] == '<' {
        1
    } else {
        0
    };
    let to: int = if t.len() > from && t.last() == '>' {
        t.len() - 1
    } else {
        t.len() as int
    };
    t.subrange(from, to)
}

/// Takes the white space and one pair of angle brackets off a message id.
pub fn strip_angle_brackets(id: &str) -> (r: &str)
    ensures
        r@ == bare_id(id@),
{
    let t = trim(id);
    let v = chars_of(t);
    let from: usize = if v.len() > 0 && v[0] == '<' {
        1
    } else {
        0
    };
    let to: usize = if v.len() > from && v[v.len() - 1] == '>' {
        v.len() - 1
    } else {
        v.len()
    };
    t.substring_char(from, to)
}

/// Whether an address is the user's own.
pub fn own_address_matches(address: &str, own_email: &str) -> (r: bool)
    ensures
        r == same_ignoring_case(address@, own_email@),
{
    eq_ignore_ascii_case(address, own_email)
}

/// A subject starts with a prefix, whatever the case of its letters.
pub open spec fn has_subject_prefix(subject: Seq<char>, prefix: Seq<char>) -> bool {
    subject.len() >= prefix.len() && same_ignoring_case(subject.take(prefix.len() as int), prefix)
}

/// A subject without white space around it and with a prefix, which is not put before a subject
/// that has it already.
pub open spec fn prefixed(subject: Seq<char>, prefix: Seq<char>) -> Seq<char> {
    if has_subject_prefix(trimmed(subject), prefix) {
        trimmed(subject)
    } else {
        prefix + trimmed(subject)
    }
}

/// Puts a prefix before a subject that does not have it yet.
pub fn with_prefix_once(subject: &str, prefix: &str) -> (r: String)
    ensures
        r@ == prefixed(subject@, prefix@),
{
    let t = trim(subject);
    let n = prefix.unicode_len();
    if t.unicode_len() >= n {
        let head = t.substring_char(0, n);
        assert(head@ =~= t@.take(n as int));
        if eq_ignore_ascii_case(head, prefix) {
            return t.to_owned();
        }
    }
    let mut out = prefix.to_owned();
    out.push_str(t);
    out
}

/// Putting a prefix before a subject twice does the same as doing it once, for a prefix that does
/// not start with white space and a subject that is not blank.
pub proof fn lemma_prefix_not_doubled(subject: Seq<char>, prefix: Seq<char>)
    requires
        prefix.len() > 0,
        !white(prefix[0]),
        !blank(subject),
    ensures
        prefixed(prefixed(subject, prefix), prefix) == prefixed(subject, prefix),
{
    let t = trimmed(subject);
    let once = prefixed(subject, prefix);
    lemma_trimmed_ends(subject);
    if !has_subject_prefix(t, prefix) {
        assert(once.last() == t.last());
        assert(once.take(prefix.len() as int) =~= prefix);
    }
    lemma_trimmed_fixed(once);
}

/// A line as a quoted line.
pub open spec fn quoted_line(line: Seq<char>) -> Seq<char> {
    "> "@ + line
}

/// A text with every line quoted.
pub open spec fn quoted(text: Seq<char>) -> Seq<char> {
    joined(lines_of(text).map_values(|l: Seq<char>| quoted_line(l)), "\n"@)
}

/// Quotes every line of a text.
pub fn quote_lines(text: &str) -> (r: String)
    ensures
        r@ == quoted(text@),
{
    let all = lines(text);
    let ghost want = lines_of(text@).map_values(|l: Seq<char>| quoted_line(l));
    let mut out: Vec<String> = Vec::new();
    let mut i: usize = 0;
    assert(texts_of(all@).len() == all@.len());
    assert(texts_of(out@) =~= want.take(0));
    while i < all.len()
        invariant
            i <= all.len(),
            texts_of(all@) == lines_of(text@),
            texts_of(all@).len() == all@.len(),
            want == lines_of(text@).map_values(|l: Seq<char>| quoted_line(l)),
            texts_of(out@) == want.take(i as int),
        decreases all.len() - i,
    {
        assert(texts_of(all@)[i as int] == all@[i as int]@);
        let mut line = "> ".to_owned();
        line.push_str(&all[i]);
        let ghost before = texts_of(out@);
        out.push(line);
        assert(texts_of(out@) =~= before.push(line@));
        assert(want.take(i + 1) =~= want.take(i as int).push(line@));
        i += 1;
    }
    assert(want.take(i as int) =~= want);
    join(&out, "\n")
}

/// What the sender of a mail is called.
pub open spec fn sender(summary: EmailSummary) -> Seq<char> {
    if summary.from@.len() > 0 {
        label_of(summary.from@[0]@)
    } else {
        "someone"@
    }
}

/// What the sender of a mail is called.
pub fn sender_label(summary: &EmailSummary) -> (r: String)
    ensures
        r@ == sender(*summary),
{
    if summary.from.len() > 0 {
        summary.from[0].display_label()
    } else {
        "someone".to_owned()
    }
}

/// The value of the first header with a name, whatever the case of its letters.
pub open spec fn header(headers: Seq<(String, String)>, name: Seq<char>) -> Option<Seq<char>>
    decreases headers.len(),
{
    if headers.len() == 0 {
        None
    } else if same_ignoring_case(headers[0].0@, name) {
        Some(headers[0].1@)
    } else {
        header(headers.skip(1), name)
    }
}

/// The value of the first header with a name.
pub fn header_value<'a>(headers: &'a Vec<(String, String)>, name: &str) -> (r: Option<&'a str>)
    ensures
        match r {
            Some(v) => header(headers@, name@) == Some(v@),
            None => header(headers@, name@) is None,
        },
{
    let mut i: usize = 0;
    assert(headers@.skip(0) =~= headers@);
    while i < headers.len()
        invariant
            i <= headers.len(),
            header(headers@, name@) == header(headers@.skip(i as int), name@),
        decreases headers.len() - i,
    {
        assert(headers@.skip(i as int).skip(1) =~= headers@.skip(i + 1));
        if eq_ignore_ascii_case(&headers[i].0, name) {
            return Some(headers[i].1.as_str());
        }
        i += 1;
    }
    None
}

/// The id of a mail, if it has one.
pub open spec fn message_id(body: EmailBody) -> Option<Seq<char>> {
    match header(body.headers@, "message-id"@) {
        Some(v) => Some(bare_id(v)),
        None => None,
    }
}

/// The ids of the conversation that a reply to a mail continues: those that the mail refers to,
/// then its own.
pub open spec fn conversation(body: EmailBody) -> Seq<Seq<char>> {
    let earlier = match header(body.headers@, "references"@) {
        Some(v) => words_of(v).map_values(|w: Seq<char>| bare_id(w)),
        None => Seq::empty(),
    };
    match message_id(body) {
        Some(id) => earlier.push(id),
        None => earlier,
    }
}

/// The id that a reply answers, and the ids of the conversation it continues.
pub fn reply_threading(body: &EmailBody) -> (r: (Option<String>, Vec<String>))
    ensures
        text_of(r.0) == message_id(*body),
        texts_of(r.1@) == conversation(*body),
{
    let original = match header_value(&body.headers, "message-id") {
        Some(v) => Some(strip_angle_brackets(v).to_owned()),
        None => None,
    };
    let mut references: Vec<String> = Vec::new();
    assert(texts_of(references@) =~= Seq::<Seq<char>>::empty());
    if let Some(v) = header_value(&body.headers, "references") {
        let all = words(v);
        let ghost bare = |w: Seq<char>| bare_id(w);
        let ghost want = words_of(v@).map_values(bare);
        let mut i: usize = 0;
        assert(texts_of(all@).len() == all@.len());
        assert(texts_of(references@) =~= want.take(0));
        while i < all.len()
            invariant
                i <= all.len(),
                bare == |w: Seq<char>| bare_id(w),
                texts_of(all@) == words_of(v@),
                texts_of(all@).len() == all@.len(),
                want == words_of(v@).map_values(bare),
                texts_of(references@) == want.take(i as int),
            decreases all.len() - i,
        {
            assert(texts_of(all@)[i as int] == all@[i as int]@);
            let id = strip_angle_brackets(&all[i]).to_owned();
            let ghost before = texts_of(references@);
            references.push(id);
            assert(texts_of(references@) =~= before.push(id@));
            assert(want.take(i + 1) =~= want.take(i as int).push(id@));
            i += 1;
        }
        assert(want.take(i as int) =~= want);
    }
    let ghost before = texts_of(references@);
    if let Some(id) = &original {
        references.push(id.clone());
        assert(texts_of(references@) =~= before.push(id@));
    }
    (original, references)
}

/// A point in time as a quotation's heading shows it.
pub open spec fn quote_date(date: Instant) -> Seq<char> {
    formatted(date.utc_day(), date.utc_secs(), "%a, %b %d, %Y at %I:%M %p"@)
}

/// An address is not the user's own.
pub open spec fn not_own(own: Seq<char>) -> spec_fn(Seq<char>) -> bool {
    |a: Seq<char>| !same_ignoring_case(a, own)
}

/// Whom a reply goes to.
pub open spec fn reply_to(summary: EmailSummary, own: Seq<char>, mode: ReplyMode) -> Seq<Seq<char>> {
    let others = if mode == ReplyMode::ReplyAll {
        addresses(summary.to@)
    } else {
        Seq::empty()
    };
    (addresses(summary.from@) + others).filter(not_own(own))
}

/// Who gets a copy of a reply.
pub open spec fn reply_cc(summary: EmailSummary, own: Seq<char>, mode: ReplyMode) -> Seq<Seq<char>> {
    if mode == ReplyMode::ReplyAll {
        addresses(summary.cc@).filter(not_own(own))
    } else {
        Seq::empty()
    }
}

/// The subject of a mail with a prefix; the prefix alone if it has none.
pub open spec fn subject_with(summary: EmailSummary, prefix: Seq<char>) -> Seq<char> {
    match text_of(summary.subject) {
        Some(s) => prefixed(s, prefix),
        None => prefix,
    }
}

/// A text, or the empty one.
pub open spec fn or_empty(o: Option<Seq<char>>) -> Seq<char> {
    match o {
        Some(s) => s,
        None => Seq::empty(),
    }
}

/// The body that a reply opens with.
pub open spec fn reply_body(summary: EmailSummary, body: EmailBody) -> Seq<char> {
    "\n\nOn "@ + quote_date(summary.date) + ", "@ + sender(summary) + " wrote:\n"@ + quoted(
        or_empty(text_of(body.text_body)),
    )
}

/// Appends the addresses of a list that are not the user's own.
fn push_others(out: &mut Vec<String>, list: &Vec<EmailAddress>, own_email: &str)
    ensures
        texts_of(final(out)@) == texts_of(old(out)@) + addresses(list@).filter(not_own(own_email@)),
{
    let ghost start = texts_of(out@);
    let ghost keep = not_own(own_email@);
    let ghost all = addresses(list@);
    let mut i: usize = 0;
    assert(all.take(0).filter(keep) =~= Seq::<Seq<char>>::empty());
    assert(texts_of(out@) =~= start + all.take(0).filter(keep));
    while i < list.len()
        invariant
            i <= list.len(),
            keep == not_own(own_email@),
            all == addresses(list@),
            texts_of(out@) == start + all.take(i as int).filter(keep),
        decreases list.len() - i,
    {
        let ghost a = list@[i as int].address@;
        let ghost before = texts_of(out@);
        proof {
            assert(all[i as int] == a);
            assert(all.take(i + 1) =~= all.take(i as int).push(a));
            all.take(i as int).lemma_filter_push(a, keep);
        }
        if !own_address_matches(&list[i].address, own_email) {
            out.push(list[i].address.clone());
            assert(texts_of(out@) =~= before.push(a));
            assert(texts_of(out@) =~= start + all.take(i as int).filter(keep).push(a));
        }
        i += 1;
    }
    assert(all.take(i as int) =~= all);
}

fn prefixed_subject(summary: &EmailSummary, prefix: &str) -> (r: String)
    ensures
        r@ == subject_with(*summary, prefix@),
{
    match &summary.subject {
        Some(s) => with_prefix_once(s, prefix),
        None => prefix.to_owned(),
    }
}

/// What the composer opens with for a reply: the addresses of the sender, for a reply to all also
/// those of the other recipients, the user's own left out; the subject with `Re: `; the text
/// quoted; and the ids that keep the conversation together.
pub fn build_reply_prefill(summary: &EmailSummary, body: &EmailBody, own_email: &str, mode: ReplyMode) -> (r:
    ComposePrefill)
    requires
        summary.date.in_range(),
    ensures
        text_of(r.to) == Some(joined(reply_to(*summary, own_email@, mode), ", "@)),
        text_of(r.cc) == if reply_cc(*summary, own_email@, mode).len() == 0 {
            None
        } else {
            Some(joined(reply_cc(*summary, own_email@, mode), ", "@))
        },
        text_of(r.subject) == Some(subject_with(*summary, "Re: "@)),
        text_of(r.body) == Some(reply_body(*summary, *body)),
        text_of(r.in_reply_to) == message_id(*body),
        texts_of(r.references@) == conversation(*body),
{
    let mut to: Vec<String> = Vec::new();
    let mut cc: Vec<String> = Vec::new();
    let ghost keep = not_own(own_email@);
    push_others(&mut to, &summary.from, own_email);
    let ghost from = addresses(summary.from@).filter(keep);
    assert(texts_of(to@) =~= from);
    proof {
        Seq::filter_distributes_over_add(addresses(summary.from@), addresses(summary.to@), keep);
        assert(addresses(summary.from@) + Seq::<Seq<char>>::empty() =~= addresses(summary.from@));
    }
    assert(texts_of(cc@) =~= Seq::<Seq<char>>::empty());
    match mode {
        ReplyMode::Reply => {},
        ReplyMode::ReplyAll => {
            push_others(&mut to, &summary.to, own_email);
            push_others(&mut cc, &summary.cc, own_email);
            assert(texts_of(cc@) =~= addresses(summary.cc@).filter(keep));
        },
    }
    let subject = prefixed_subject(summary, "Re: ");
    let mut text = "\n\nOn ".to_owned();
    text.push_str(&summary.date.utc().format("%a, %b %d, %Y at %I:%M %p"));
    text.push_str(", ");
    text.push_str(&sender_label(summary));
    text.push_str(" wrote:\n");
    match &body.text_body {
        Some(original) => {
            text.push_str(&quote_lines(original));
        },
        None => {
            text.push_str(&quote_lines(""));
            proof {
                reveal_strlit("");
                assert(""@ =~= Seq::<char>::empty());
            }
        },
    }
    let (in_reply_to, references) = reply_threading(body);
    assert(texts_of(cc@).len() == cc@.len());
    ComposePrefill {
        to: Some(join(&to, ", ")),
        cc: if cc.is_empty() {
            None
        } else {
            Some(join(&cc, ", "))
        },
        subject: Some(subject),
        body: Some(text),
        in_reply_to,
        references,
    }
}

/// The body that a forwarded mail opens with.
pub open spec fn forward_body(summary: EmailSummary, body: EmailBody) -> Seq<char> {
    "\n\n---------- Forwarded message ----------\nFrom: "@ + joined(labels_of(summary.from@), ", "@)
        + "\nDate: "@ + quote_date(summary.date) + "\nSubject: "@ + or_empty(text_of(summary.subject))
        + "\nTo: "@ + joined(labels_of(summary.to@), ", "@) + "\n\n"@ + or_empty(
        text_of(body.text_body),
    )
}

/// What the composer opens with for forwarding a mail: no recipients, the subject with `Fwd: `, and
/// the text below a heading that says where it comes from. It starts a conversation of its own.
pub fn build_forward_prefill(summary: &EmailSummary, body: &EmailBody) -> (r: ComposePrefill)
    requires
        summary.date.in_range(),
    ensures
        r.to is None,
        r.cc is None,
        text_of(r.subject) == Some(subject_with(*summary, "Fwd: "@)),
        text_of(r.body) == Some(forward_body(*summary, *body)),
        r.in_reply_to is None,
        r.references@.len() == 0,
{
    let subject = prefixed_subject(summary, "Fwd: ");
    let mut text = "\n\n---------- Forwarded message ----------\nFrom: ".to_owned();
    text.push_str(&join(&display_labels(&summary.from), ", "));
    text.push_str("\nDate: ");
    text.push_str(&summary.date.utc().format("%a, %b %d, %Y at %I:%M %p"));
    text.push_str("\nSubject: ");
    let ghost before = text@;
    if let Some(s) = &summary.subject {
        text.push_str(s);
    }
    assert(text@ =~= before + or_empty(text_of(summary.subject)));
    text.push_str("\nTo: ");
    text.push_str(&join(&display_labels(&summary.to), ", "));
    text.push_str("\n\n");
    let ghost before = text@;
    if let Some(original) = &body.text_body {
        text.push_str(original);
    }
    assert(text@ =~= before + or_empty(text_of(body.text_body)));
    ComposePrefill {
        to: None,
        cc: None,
        subject: Some(subject),
        body: Some(text),
        in_reply_to: None,
        references: Vec::new(),
    }
}

/// A reply never goes to the user's own address, neither directly nor as a copy.
pub proof fn lemma_reply_leaves_own_address_out(
    summary: EmailSummary,
    own: Seq<char>,
    mode: ReplyMode,
    i: int,
)
    ensures
        0 <= i < reply_to(summary, own, mode).len() ==> !same_ignoring_case(
            reply_to(summary, own, mode)[i],
            own,
        ),
        0 <= i < reply_cc(summary, own, mode).len() ==> !same_ignoring_case(
            reply_cc(summary, own, mode)[i],
            own,
        ),
{
    broadcast use Seq::lemma_filter_pred;

}

/// Who gets a reply: whoever wrote the mail, and for a reply to all whoever it was addressed to, but
/// never the user. Who gets a copy of it: for a reply to all whoever got a copy of the mail.
pub proof fn lemma_reply_recipients(summary: EmailSummary, own: Seq<char>, mode: ReplyMode, a: Seq<char>)
    ensures
        reply_to(summary, own, mode).contains(a) <==> !same_ignoring_case(a, own) && (written_to(summary.from@, a)
            || (mode == ReplyMode::ReplyAll && written_to(summary.to@, a))),
        reply_cc(summary, own, mode).contains(a) <==> !same_ignoring_case(a, own) && mode == ReplyMode::ReplyAll
            && written_to(summary.cc@, a),
{
    let keep = not_own(own);
    let from = addresses(summary.from@);
    let others = if mode == ReplyMode::ReplyAll {
        addresses(summary.to@)
    } else {
        Seq::empty()
    };
    let all = from + others;
    lemma_written_to(summary.from@, a);
    lemma_written_to(summary.to@, a);
    lemma_written_to(summary.cc@, a);
    assert(all.contains(a) <==> from.contains(a) || others.contains(a)) by {
        if from.contains(a) {
            let i = choose|i: int| 0 <= i < from.len() && from[i] == a;
            assert(all[i] == a);
        }
        if others.contains(a) {
            let i = choose|i: int| 0 <= i < others.len() && others[i] == a;
            assert(all[from.len() + i] == a);
        }
    }
    lemma_filtered(all, keep, a);
    lemma_filtered(addresses(summary.cc@), keep, a);
}

/// One of the addresses in a list is this one.
pub open spec fn written_to(list: Seq<EmailAddress>, a: Seq<char>) -> bool {
    exists|i: int| 0 <= i < list.len() && (#[trigger] list[i]).address@ == a
}

proof fn lemma_written_to(list: Seq<EmailAddress>, a: Seq<char>)
    ensures
        addresses(list).contains(a) <==> written_to(list, a),
{
    if written_to(list, a) {
        let i = choose|i: int| 0 <= i < list.len() && (#[trigger] list[i]).address@ == a;
        assert(addresses(list)[i] == a);
    }
    if addresses(list).contains(a) {
        let i = choose|i: int| 0 <= i < addresses(list).len() && addresses(list)[i] == a;
        assert(list[i].address@ == a);
    }
}

proof fn lemma_filtered(s: Seq<Seq<char>>, keep: spec_fn(Seq<char>) -> bool, a: Seq<char>)
    ensures
        s.filter(keep).contains(a) <==> s.contains(a) && keep(a),
{
    if s.filter(keep).contains(a) {
        s.lemma_filter_contains_rev(keep, a);
        let i = choose|i: int| 0 <= i < s.filter(keep).len() && s.filter(keep)[i] == a;
        s.lemma_filter_pred(keep, i);
    }
    if s.contains(a) && keep(a) {
        let i = choose|i: int| 0 <= i < s.len() && s[i] == a;
        s.lemma_filter_contains(keep, i);
    }
}

/// A reply to the only sender of a mail goes to that sender alone.
pub proof fn lemma_reply_goes_back(summary: EmailSummary, own: Seq<char>)
    requires
        summary.from@.len() == 1,
        !same_ignoring_case(summary.from@[0].address@, own),
    ensures
        reply_to(summary, own, ReplyMode::Reply) == seq![summary.from@[0].address@],
        reply_cc(summary, own, ReplyMode::Reply).len() == 0,
{
    let a = summary.from@[0].address@;
    let all = addresses(summary.from@) + Seq::<Seq<char>>::empty();
    assert(all =~= Seq::<Seq<char>>::empty().push(a));
    Seq::<Seq<char>>::empty().lemma_filter_push(a, not_own(own));
    assert(Seq::<Seq<char>>::empty().filter(not_own(own)) =~= Seq::<Seq<char>>::empty());
    assert(all.filter(not_own(own)) =~= seq![a]);
}

/// A reply carries the ids of the conversation on: it ends with the id of the mail that it answers,
/// and before that come those that the mail itself refers to, as many as it names and in that order.
pub proof fn lemma_conversation_goes_on(body: EmailBody)
    ensures
        message_id(body) matches Some(id) ==> conversation(body).len() > 0 && conversation(body).last() == id,
        ({
            let earlier = match header(body.headers@, "references"@) {
                Some(v) => words_of(v),
                None => Seq::empty(),
            };
            &&& conversation(body).len() == earlier.len() + (if header(body.headers@, "message-id"@) is Some {
                1int
            } else {
                0int
            })
            &&& forall|i: int|
                0 <= i < earlier.len() ==> #[trigger] conversation(body)[i] == bare_id(earlier[i])
        }),
        header(body.headers@, "message-id"@) matches Some(v) ==> message_id(body) == Some(bare_id(v)),
{
}

/// The text that is quoted or forwarded stands at the end of the body, and above it who wrote it. A
/// forwarded mail says who wrote it, when and about what, and last to whom; a reply says who wrote it,
/// by the same name.
pub proof fn lemma_bodies_say_who_wrote(summary: EmailSummary, body: EmailBody)
    requires
        summary.from@.len() == 1,
    ensures
        has_prefix(
            forward_body(summary, body),
            "\n\n---------- Forwarded message ----------\nFrom: "@ + sender(summary) + "\nDate: "@,
        ),
        has_prefix(
            reply_body(summary, body),
            "\n\nOn "@ + quote_date(summary.date) + ", "@ + sender(summary) + " wrote:\n"@,
        ),
        sender(summary) == label_of(summary.from@[0]@),
{
    let names = labels_of(summary.from@);
    assert(names.len() == 1 && names[0] == sender(summary));
    assert(joined(names, ", "@) == sender(summary));
    let head = "\n\n---------- Forwarded message ----------\nFrom: "@ + sender(summary) + "\nDate: "@;
    assert(forward_body(summary, body).take(head.len() as int) =~= head);
    let head = "\n\nOn "@ + quote_date(summary.date) + ", "@ + sender(summary) + " wrote:\n"@;
    assert(reply_body(summary, body).take(head.len() as int) =~= head);
}

/// The heading of a forwarded mail: first who wrote it, all of them, and last to whom it was written,
/// right above the text, which is as it was.
pub proof fn lemma_forward_heading(summary: EmailSummary, body: EmailBody)
    ensures
        has_prefix(
            forward_body(summary, body),
            "\n\n---------- Forwarded message ----------\nFrom: "@ + joined(labels_of(summary.from@), ", "@)
                + "\nDate: "@ + quote_date(summary.date) + "\nSubject: "@,
        ),
        ({
            let tail = "\nTo: "@ + joined(labels_of(summary.to@), ", "@) + "\n\n"@ + (match body.text_body {
                Some(t) => t@,
                None => Seq::empty(),
            });
            let all = forward_body(summary, body);
            all.len() >= tail.len() && all.skip(all.len() - tail.len()) == tail
        }),
        ({
            let head = "\n\n---------- Forwarded message ----------\nFrom: "@ + joined(
                labels_of(summary.from@),
                ", "@,
            ) + "\nDate: "@ + quote_date(summary.date) + "\nSubject: "@;
            summary.subject matches Some(s) ==> has_prefix(forward_body(summary, body), head + s@ + "\nTo: "@)
        }),
{
    let all = forward_body(summary, body);
    let head = "\n\n---------- Forwarded message ----------\nFrom: "@ + joined(labels_of(summary.from@), ", "@)
        + "\nDate: "@ + quote_date(summary.date) + "\nSubject: "@;
    assert(all.take(head.len() as int) =~= head);
    let text = or_empty(text_of(body.text_body));
    let tail = "\nTo: "@ + joined(labels_of(summary.to@), ", "@) + "\n\n"@ + text;
    assert(all.skip(all.len() - tail.len()) =~= tail);
    if let Some(s) = summary.subject {
        let longer = head + s@ + "\nTo: "@;
        assert(all.take(longer.len() as int) =~= longer);
    }
}

/// A reply ends with the text of the mail, quoted.
pub proof fn lemma_reply_quotes(summary: EmailSummary, body: EmailBody)
    ensures
        ({
            let tail = " wrote:\n"@ + quoted(
                match body.text_body {
                    Some(t) => t@,
                    None => Seq::empty(),
                },
            );
            let all = reply_body(summary, body);
            all.len() >= tail.len() && all.skip(all.len() - tail.len()) == tail
        }),
{
    let all = reply_body(summary, body);
    let tail = " wrote:\n"@ + quoted(or_empty(text_of(body.text_body)));
    assert(all.skip(all.len() - tail.len()) =~= tail);
}

/// Quoting puts a mark before every line and changes nothing else: taking the marks off gives the
/// lines back.
pub proof fn lemma_quoted_lines(text: Seq<char>)
    ensures
        ({
            let marked = lines_of(text).map_values(|l: Seq<char>| "> "@ + l);
            quoted(text) == joined(marked, "\n"@) && marked.len() == lines_of(text).len() && forall|i: int|
                0 <= i < marked.len() ==> (#[trigger] marked[i]).skip(2) == lines_of(text)[i] && marked[i][0] == '>'
                    && marked[i][1] == ' '
        }),
{
    reveal_strlit("> ");
    let marked = lines_of(text).map_values(|l: Seq<char>| "> "@ + l);
    assert(marked =~= lines_of(text).map_values(|l: Seq<char>| quoted_line(l)));
    assert forall|i: int| 0 <= i < marked.len() implies (#[trigger] marked[i]).skip(2) == lines_of(text)[i]
        && marked[i][0] == '>' && marked[i][1] == ' ' by {
        assert(marked[i].skip(2) =~= lines_of(text)[i]);
    }
}

/// A subject keeps its words and gets the prefix: what comes out ends with the subject and starts with
/// the prefix, in some case of its letters, and is the subject itself only if that had the prefix.
pub proof fn lemma_prefixed_subject(subject: Seq<char>, prefix: Seq<char>)
    ensures
        ({
            let r = prefixed(subject, prefix);
            let t = trimmed(subject);
            &&& r.len() >= t.len() && r.skip(r.len() - t.len()) == t
            &&& r.len() >= prefix.len() && same_ignoring_case(r.take(prefix.len() as int), prefix)
            &&& r.len() == t.len() || r.len() == prefix.len() + t.len()
            &&& t.len() >= prefix.len() && same_ignoring_case(t.take(prefix.len() as int), prefix) ==> r == t
        }),
{
    let r = prefixed(subject, prefix);
    let t = trimmed(subject);
    assert(r.skip(r.len() - t.len()) =~= t);
    if !has_subject_prefix(t, prefix) {
        assert(r.take(prefix.len() as int) =~= prefix);
    }
}

/// A message id without its brackets is what stood between them.
pub proof fn lemma_brackets_come_off(id: Seq<char>)
    requires
        id.len() > 0,
        !white(id[0]),
        !white(id.last()),
        id[0] != '<',
        id.last() != '>',
    ensures
        bare_id(id) == id,
        bare_id("<"@ + id + ">"@) == id,
{
    reveal_strlit("<");
    reveal_strlit(">");
    lemma_trimmed_fixed(id);
    let wrapped = "<"@ + id + ">"@;
    assert(wrapped[0] == '<' && wrapped.last() == '>');
    lemma_trimmed_fixed(wrapped);
    assert(bare_id(id) =~= id);
    assert(wrapped.subrange(1, wrapped.len() - 1) =~= id);
}

/// An answer keeps the subject behind its prefix; without a subject the prefix stands alone.
pub proof fn lemma_subject_kept(summary: EmailSummary, prefix: Seq<char>)
    ensures
        summary.subject matches Some(s) ==> subject_with(summary, prefix) == prefixed(s@, prefix),
        summary.subject is None ==> subject_with(summary, prefix) == prefix,
{
}

} // verus!
