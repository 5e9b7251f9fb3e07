//! What the assistant's tools promise.

use crate::assistant_tools::{coming_rows, contact_views, due_rows, first_rows, limit_of, days_of, matches_upto};
use crate::assistant_tools::{account_matches, contact_matches, contact_of, newest_rows, ranking, read_counts};
use crate::assistant_tools::{read_messages, request_of, soonest_rows, tally, tells_email, tells_event, tells_task};
use crate::assistant_tools::{seen_address, to_come, told, top_views, AddressCount, CalendarTask};
use crate::assistant_tools::{lemma_newest_first, lemma_ranking_descends, ContactEntry, ContactSource, CountView};
use crate::assistant_tools::{EmailEntry, EventEntry, RequestView, TaskEntry, ToolRequest, TopContact};
use crate::assistant_chat::{is_days, is_limit, is_query, is_status, CallView, ParameterKind, ToolParameter};
use crate::chat_links::{encoded, lemma_link_parts_of_link, lemma_message_target_reads_back, link, link_parts};
use crate::chat_links::{message_target, target_message};
use crate::contacts::VCard;
use crate::dates::{rfc3339, Instant};
use crate::encodings::{json_signed_at, json_string_at, json_unsigned_at};
use crate::model::{full_label, text_of, texts_of, EmailAddress, EmailAddressView, EmailSummary, EventOccurrence};
use crate::sorting::{in_key_order, key_order, lemma_key_order_arranges, lemma_key_order_sorts, ordered_keys};
use crate::sorting::Soonest;
use crate::text::{has_text, lowercase, text_le, trimmed};
use crate::tool_results::ToolResult;
use crate::tool_runs::{requested, tells, ToolData};
use vstd::prelude::*;

verus! {

/// A text that is there, or nothing.
pub open spec fn said(o: Option<String>) -> Seq<char> {
    match o {
        Some(s) => s@,
        None => Seq::empty(),
    }
}

/// The number of rows that is asked for is taken as near as the bounds allow: of all numbers from 1
/// to 50 the nearest one. Ten if none is asked for. In the same way the days to look ahead, from 1
/// to 90; fourteen if none are asked for.
pub proof fn lemma_bounds_taken(rows: u64, days: i64, other: int)
    ensures
        limit_of(None) == 10,
        days_of(None) == 14,
        1 <= limit_of(Some(rows)) <= 50,
        1 <= days_of(Some(days)) <= 90,
        1 <= other <= 50 ==> (limit_of(Some(rows)) - rows) * (limit_of(Some(rows)) - rows) <= (other - rows) * (other
            - rows),
        1 <= rows <= 50 ==> limit_of(Some(rows)) == rows,
        rows > 50 ==> limit_of(Some(rows)) == 50,
        1 <= days <= 90 ==> days_of(Some(days)) == days,
        days > 90 ==> days_of(Some(days)) == 90,
        days < 1 ==> days_of(Some(days)) == 1,
{
    if 1 <= other <= 50 {
        let r = limit_of(Some(rows)) as int;
        let n = rows as int;
        assert((r - n) * (r - n) <= (other - n) * (other - n)) by (nonlinear_arith)
            requires
                (r == n) || (n == 0 && r == 1 && other >= 1) || (n > 50 && r == 50 && other <= 50),
        ;
    }
}

/// Each tool does what its name says, with what was asked for; only a search without a text, and a
/// tool that there is not, are refused.
pub proof fn lemma_each_tool_by_name(
    name: Seq<char>,
    limit: Option<u64>,
    query: Option<Seq<char>>,
    status: Option<Seq<char>>,
    days: Option<i64>,
)
    ensures
        ({
            let n = limit_of(limit) as int;
            let asked = match query {
                Some(q) => trimmed(q),
                None => Seq::empty(),
            };
            let r = request_of(name, limit, query, status, days);
            &&& r == Ok::<RequestView, Seq<char>>(RequestView::RecentEmails(n)) <==> name == "recent_emails"@
            &&& r == Ok::<RequestView, Seq<char>>(RequestView::TopContacts(n)) <==> name == "top_contacts"@
            &&& name == "search_emails"@ && asked.len() > 0 ==> r == Ok::<RequestView, Seq<char>>(
                RequestView::SearchEmails(asked, n),
            )
            &&& name == "list_contacts"@ ==> r == Ok::<RequestView, Seq<char>>(
                RequestView::ListContacts(lowercase(asked), n),
            )
            &&& name == "list_tasks"@ ==> r == Ok::<RequestView, Seq<char>>(
                RequestView::ListTasks(status == Some("all"@), n),
            )
            &&& name == "upcoming_events"@ ==> r == Ok::<RequestView, Seq<char>>(
                RequestView::UpcomingEvents(days_of(days) as int, n),
            )
            &&& r is Err <==> (name == "search_emails"@ && asked.len() == 0) || (name != "recent_emails"@ && name
                != "search_emails"@ && name != "top_contacts"@ && name != "list_contacts"@ && name != "list_tasks"@
                && name != "upcoming_events"@)
        }),
{
    reveal_strlit("recent_emails");
    reveal_strlit("search_emails");
    reveal_strlit("top_contacts");
    reveal_strlit("list_contacts");
    reveal_strlit("list_tasks");
    reveal_strlit("upcoming_events");
    assert("recent_emails"@[0] == 'r' && "search_emails"@[0] == 's' && "top_contacts"@[0] == 't');
    assert("list_contacts"@.len() == 13 && "list_tasks"@.len() == 10 && "upcoming_events"@[0] == 'u');
    assert("list_contacts"@[0] == 'l' && "list_tasks"@[0] == 'l');
}

/// An entry says what is to be known of a task, each thing under its own name.
pub proof fn lemma_entry_says_task(e: TaskEntry, t: CalendarTask)
    requires
        tells_task(e, t),
    ensures
        e.summary@ == said(t.summary),
        e.status == t.status,
        e.priority == t.priority,
        e.calendar@ == t.calendar_id@,
        e.due is Some <==> t.due is Some,
        t.due matches Some(at) ==> (e.due->0)@ == rfc3339(at.secs as int, at.nanos as int),
        e.categories@.len() == t.categories@.len(),
        forall|i: int| 0 <= i < e.categories@.len() ==> (#[trigger] e.categories@[i])@ == t.categories@[i]@,
{
    assert(texts_of(e.categories@).len() == e.categories@.len());
    assert(texts_of(t.categories@).len() == t.categories@.len());
    assert forall|i: int| 0 <= i < e.categories@.len() implies (#[trigger] e.categories@[i])@ == t.categories@[i]@ by {
        assert(texts_of(e.categories@)[i] == texts_of(t.categories@)[i]);
    }
}

/// Which tasks are told. With room for all of them, every task that is not completed has an entry,
/// however far it has come, and if all are asked for every task has one. A completed task is told
/// only if all are asked for, and nothing is told that is no task.
pub proof fn lemma_outstanding_tasks_told(
    tasks: Seq<CalendarTask>,
    all: bool,
    limit: usize,
    entries: Seq<TaskEntry>,
    k: int,
    i: int,
)
    requires
        ({
            let shown = tasks.filter(told(all));
            let rows = first_rows(due_rows(shown), limit);
            &&& entries.len() == rows.len()
            &&& forall|i: int| 0 <= i < entries.len() ==> tells_task(#[trigger] entries[i], shown[rows[i]])
        }),
    ensures
        entries.len() <= limit,
        0 <= k < tasks.len() && tasks.len() <= limit && (all || tasks[k].status is NeedsAction || tasks[k].status is InProcess
            || tasks[k].status is Cancelled) ==> exists|j: int|
            0 <= j < entries.len() && tells_task(#[trigger] entries[j], tasks[k]),
        0 <= i < entries.len() ==> exists|j: int|
            0 <= j < tasks.len() && tells_task(entries[i], #[trigger] tasks[j]),
        0 <= i < entries.len() && !all ==> !(entries[i].status is Completed),
{
    let keep = told(all);
    let shown = tasks.filter(keep);
    let keys = shown.map_values(|t: CalendarTask| crate::assistant_tools::due_key(t));
    let order = due_rows(shown);
    let rows = first_rows(order, limit);
    lemma_key_order_arranges(keys);
    tasks.lemma_filter_len(keep);
    if 0 <= k < tasks.len() && tasks.len() <= limit && keep(tasks[k]) {
        tasks.lemma_filter_contains(keep, k);
        let x = choose|x: int| 0 <= x < shown.len() && shown[x] == tasks[k];
        assert(order.contains(x));
        let j = choose|j: int| 0 <= j < order.len() && order[j] == x;
        assert(rows == order);
        assert(tells_task(entries[j], shown[rows[j]]));
    }
    if 0 <= i < entries.len() {
        let x = rows[i];
        assert(x == order[i]);
        assert(0 <= x < shown.len());
        assert(tells_task(entries[i], shown[x]));
        assert(shown.contains(shown[x]));
        tasks.lemma_filter_contains_rev(keep, shown[x]);
        tasks.lemma_filter_pred(keep, x);
        let j = choose|j: int| 0 <= j < tasks.len() && tasks[j] == shown[x];
        assert(tells_task(entries[i], tasks[j]));
    }
}

/// Tasks are told in the order in which they are due: of two that are due, the one that is told
/// first is not due later.
pub proof fn lemma_tasks_by_due(tasks: Seq<CalendarTask>, a: int, b: int)
    requires
        0 <= a < b < tasks.len(),
    ensures
        ({
            let x = tasks[due_rows(tasks)[a]];
            let y = tasks[due_rows(tasks)[b]];
            x.due is Some && y.due is Some ==> (x.due->0).secs < (y.due->0).secs || ((x.due->0).secs == (y.due->0).secs
                && (x.due->0).nanos <= (y.due->0).nanos)
        }),
        0 <= due_rows(tasks)[a] < tasks.len(),
        due_rows(tasks)[a] != due_rows(tasks)[b],
{
    let keys = tasks.map_values(|t: CalendarTask| crate::assistant_tools::due_key(t));
    assert(ordered_keys::<Soonest>());
    lemma_key_order_sorts(keys);
    lemma_key_order_arranges(keys);
    let rows = due_rows(tasks);
    assert(in_key_order(keys, rows[a], rows[b]));
    assert(0 <= rows[a] < tasks.len() && 0 <= rows[b] < tasks.len());
}

/// An entry says what is to be known of a mail, each thing under its own name, and its link leads to
/// that mail.
pub proof fn lemma_entry_says_email(e: EmailEntry, m: EmailSummary)
    requires
        tells_email(e, m),
    ensures
        e.subject@ == said(m.subject),
        e.preview@ == said(m.preview),
        m.from@.len() > 0 ==> e.from@ == full_label(m.from@[0]@),
        m.from@.len() == 0 ==> e.from@.len() == 0,
        e.to@.len() == m.to@.len(),
        forall|i: int| 0 <= i < e.to@.len() ==> (#[trigger] e.to@[i])@ == full_label(m.to@[i]@),
        e.unread == m.unread,
        e.mailbox@ == m.mailbox@,
        e.uid == m.uid,
        e.date@ == rfc3339(m.date.secs as int, m.date.nanos as int),
        link_parts(e.link@) == Some(("open-message"@, encoded(message_target(m.mailbox@, m.uid)))),
        target_message(message_target(m.mailbox@, m.uid)) == Some((m.uid, m.mailbox@)),
{
    let labels = m.to@.map_values(|a: EmailAddress| full_label(a@));
    assert(texts_of(e.to@).len() == e.to@.len());
    assert(labels.len() == m.to@.len());
    assert forall|i: int| 0 <= i < e.to@.len() implies (#[trigger] e.to@[i])@ == full_label(m.to@[i]@) by {
        assert(texts_of(e.to@)[i] == labels[i]);
    }
    reveal_strlit("open-message");
    let action = "open-message"@;
    assert(!action.contains('?')) by {
        if action.contains('?') {
            let i = choose|i: int| 0 <= i < action.len() && action[i] == '?';
        }
    }
    lemma_link_parts_of_link(action, message_target(m.mailbox@, m.uid));
    lemma_message_target_reads_back(m.mailbox@, m.uid);
}

proof fn lemma_read_message(found: Seq<Option<Vec<EmailSummary>>>, c: int, k: int)
    requires
        0 <= c < found.len(),
        found[c] is Some,
        0 <= k < (found[c]->0)@.len(),
    ensures
        read_messages(found).contains((found[c]->0)@[k]),
    decreases found.len(),
{
    let m = (found[c]->0)@[k];
    let before = read_messages(found.drop_last());
    let all = read_messages(found);
    if c == found.len() - 1 {
        assert(all[before.len() + k] == m);
    } else {
        assert(found.drop_last()[c] == found[c]);
        lemma_read_message(found.drop_last(), c, k);
        let i = choose|i: int| 0 <= i < before.len() && before[i] == m;
        assert(all[i] == m);
    }
}

/// Which mails are told. With room for all of them, every mail that a cache gave has an entry,
/// whatever the other caches gave; and of two entries the first one is of a mail that is not older.
pub proof fn lemma_all_mails_told(
    found: Seq<Option<Vec<EmailSummary>>>,
    limit: usize,
    entries: Seq<EmailEntry>,
    c: int,
    k: int,
    a: int,
    b: int,
)
    requires
        ({
            let all = read_messages(found);
            let rows = first_rows(newest_rows(all), limit);
            &&& entries.len() == rows.len()
            &&& forall|i: int| 0 <= i < entries.len() ==> tells_email(#[trigger] entries[i], all[rows[i]])
        }),
    ensures
        entries.len() == (if read_messages(found).len() <= limit {
            read_messages(found).len() as int
        } else {
            limit as int
        }),
        0 <= c < found.len() && found[c] is Some && 0 <= k < (found[c]->0)@.len() && read_messages(found).len() <= limit
            ==> exists|j: int|
            0 <= j < entries.len() && tells_email(#[trigger] entries[j], (found[c]->0)@[k]),
        0 <= a < b < entries.len() ==> ({
            let x = read_messages(found)[newest_rows(read_messages(found))[a]].date;
            let y = read_messages(found)[newest_rows(read_messages(found))[b]].date;
            x.secs > y.secs || (x.secs == y.secs && x.nanos >= y.nanos)
        }),
        0 <= a < entries.len() ==> tells_email(
            entries[a],
            read_messages(found)[newest_rows(read_messages(found))[a]],
        ),
{
    let all = read_messages(found);
    let keys = all.map_values(|m: EmailSummary| crate::sorting::Newest { date: m.date });
    let order = newest_rows(all);
    lemma_key_order_arranges(keys);
    if 0 <= c < found.len() && found[c] is Some && 0 <= k < (found[c]->0)@.len() && all.len() <= limit {
        lemma_read_message(found, c, k);
        let m = (found[c]->0)@[k];
        let x = choose|x: int| 0 <= x < all.len() && all[x] == m;
        assert(order.contains(x));
        let j = choose|j: int| 0 <= j < order.len() && order[j] == x;
        assert(tells_email(entries[j], all[order[j]]));
    }
    if 0 <= a < b < entries.len() {
        lemma_newest_first(all, a, b);
    }
    if 0 <= a < entries.len() {
        assert(tells_email(entries[a], all[first_rows(order, limit)[a]]));
    }
}

/// How often an address was counted, over all counts.
pub open spec fn counted(counts: Seq<CountView>, address: Seq<char>) -> nat
    decreases counts.len(),
{
    if counts.len() == 0 {
        0
    } else {
        counted(counts.drop_last(), address) + (if counts.last().address == address {
            counts.last().count
        } else {
            0
        })
    }
}

proof fn lemma_tally_counts(counts: Seq<CountView>, i: int)
    requires
        0 <= i < tally(counts).len(),
    ensures
        tally(counts)[i].count == counted(counts, tally(counts)[i].address),
        exists|k: int| 0 <= k < counts.len() && (#[trigger] counts[k]).address == tally(counts)[i].address,
    decreases counts.len(),
{
    let rest = counts.drop_last();
    let before = tally(rest);
    let c = counts.last();
    assert(counts[counts.len() - 1] == c);
    if i < before.len() {
        lemma_tally_counts(rest, i);
        let k = choose|k: int| 0 <= k < rest.len() && (#[trigger] rest[k]).address == before[i].address;
        assert(counts[k] == rest[k]);
        assert(tally(counts)[i].address == before[i].address);
        if !seen_address(before, c.address) {
            assert(before[i].address != c.address);
        }
    } else {
        assert(!seen_address(before, c.address));
        lemma_not_counted(rest, c.address);
    }
}

proof fn lemma_not_counted(counts: Seq<CountView>, address: Seq<char>)
    requires
        !seen_address(tally(counts), address),
    ensures
        counted(counts, address) == 0,
        forall|k: int| 0 <= k < counts.len() ==> (#[trigger] counts[k]).address != address,
    decreases counts.len(),
{
    if counts.len() > 0 {
        let rest = counts.drop_last();
        let before = tally(rest);
        let now = tally(counts);
        if seen_address(before, address) {
            let i = choose|i: int| 0 <= i < before.len() && (#[trigger] before[i]).address == address;
            assert(now[i].address == address);
        }
        lemma_not_counted(rest, address);
        if counts.last().address == address {
            if seen_address(before, address) {
            } else {
                assert(now[before.len() as int].address == address);
            }
        }
        assert forall|k: int| 0 <= k < counts.len() implies (#[trigger] counts[k]).address != address by {
            if k < rest.len() {
                assert(rest[k] == counts[k]);
            }
        }
    }
}

/// Whom mail was exchanged with: each person stands once, with all the counts of the address added
/// up; with room for all, everybody who was counted stands there; and nobody stands above anybody
/// with more mails.
pub proof fn lemma_people_ranked(counts: Seq<CountView>, limit: usize, k: int, a: int, b: int)
    ensures
        ranking(counts, limit).len() <= limit,
        0 <= a < ranking(counts, limit).len() ==> ranking(counts, limit)[a].count == counted(
            counts,
            ranking(counts, limit)[a].address,
        ),
        0 <= a < b < ranking(counts, limit).len() ==> {
            &&& ranking(counts, limit)[a].count >= ranking(counts, limit)[b].count
            &&& ranking(counts, limit)[a].count == ranking(counts, limit)[b].count ==> text_le(
                ranking(counts, limit)[a].address,
                ranking(counts, limit)[b].address,
            )
            &&& ranking(counts, limit)[a].address != ranking(counts, limit)[b].address
        },
        0 <= k < counts.len() && tally(counts).len() <= limit ==> exists|j: int|
            0 <= j < ranking(counts, limit).len() && (#[trigger] ranking(counts, limit)[j]).address
                == counts[k].address,
{
    let all = tally(counts);
    let order = key_order(all);
    lemma_key_order_arranges(all);
    if 0 <= a < b < ranking(counts, limit).len() {
        lemma_ranking_descends(counts, limit, a, b);
    }
    if 0 <= a < ranking(counts, limit).len() {
        assert(0 <= order[a] < all.len());
        lemma_tally_counts(counts, order[a]);
        assert(ranking(counts, limit)[a] == all[order[a]]);
    }
    if 0 <= k < counts.len() && all.len() <= limit {
        assert(seen_address(all, counts[k].address)) by {
            if !seen_address(all, counts[k].address) {
                lemma_not_counted(counts, counts[k].address);
                assert(counts[k].address != counts[k].address);
            }
        }
        let x = choose|x: int| 0 <= x < all.len() && (#[trigger] all[x]).address == counts[k].address;
        assert(order.contains(x));
        let j = choose|j: int| 0 <= j < order.len() && order[j] == x;
        assert(ranking(counts, limit)[j] == all[x]);
    }
}

/// What a person is called and how often they were counted stands in the entry of their address.
pub proof fn lemma_person_entry(v: Seq<TopContact>, counts: Seq<CountView>, limit: usize, i: int)
    requires
        top_views(v) == ranking(counts, limit),
        0 <= i < v.len(),
    ensures
        v[i].address@ == ranking(counts, limit)[i].address,
        v[i].name@ == ranking(counts, limit)[i].name,
        v[i].count == ranking(counts, limit)[i].count,
{
    assert(top_views(v)[i] == ranking(counts, limit)[i]);
}

/// What was counted is read as it is: each address with its name and its count.
pub proof fn lemma_counts_read(found: Seq<Option<Vec<AddressCount>>>, c: int, k: int)
    requires
        0 <= c < found.len(),
        found[c] is Some,
        0 <= k < (found[c]->0)@.len(),
    ensures
        ({
            let x = (found[c]->0)@[k];
            exists|i: int|
                0 <= i < read_counts(found).len() && (#[trigger] read_counts(found)[i]).address
                    == x.address.address@ && read_counts(found)[i].count == x.count && read_counts(found)[i].name
                    == said(x.address.name)
        }),
    decreases found.len(),
{
    let before = read_counts(found.drop_last());
    let all = read_counts(found);
    let x = (found[c]->0)@[k];
    if c == found.len() - 1 {
        assert(all[before.len() + k].address == x.address.address@);
    } else {
        assert(found.drop_last()[c] == found[c]);
        lemma_counts_read(found.drop_last(), c, k);
        let i = choose|i: int|
            0 <= i < before.len() && (#[trigger] before[i]).address == x.address.address@ && before[i].count == x.count
                && before[i].name == said(x.address.name);
        assert(all[i] == before[i]);
    }
}

/// A contact is found by a text that is in its name or in one of its addresses, in lower case, and by
/// nothing else; without a text every contact is.
pub proof fn lemma_contact_found(account: Seq<char>, card: VCard, query: Seq<char>)
    ensures
        contact_matches(contact_of(account, card), query) <==> query.len() == 0 || has_text(
            lowercase(said(card.full_name)),
            query,
        ) || exists|i: int|
            0 <= i < card.emails@.len() && has_text(
                lowercase(
                    full_label(
                        EmailAddressView {
                            name: text_of(card.full_name),
                            address: (#[trigger] card.emails@[i]).address@,
                        },
                    ),
                ),
                query,
            ),
        contact_of(account, card).account == account,
        contact_of(account, card).name == said(card.full_name),
        contact_of(account, card).emails.len() == card.emails@.len(),
{
    let c = contact_of(account, card);
    assert(c.emails.len() == card.emails@.len());
    assert forall|i: int| 0 <= i < card.emails@.len() implies c.emails[i] == full_label(
        EmailAddressView { name: text_of(card.full_name), address: (#[trigger] card.emails@[i]).address@ },
    ) by {}
    if exists|i: int| 0 <= i < c.emails.len() && has_text(lowercase(#[trigger] c.emails[i]), query) {
        let i = choose|i: int| 0 <= i < c.emails.len() && has_text(lowercase(#[trigger] c.emails[i]), query);
        assert(has_text(
            lowercase(
                full_label(EmailAddressView { name: text_of(card.full_name), address: card.emails@[i].address@ }),
            ),
            query,
        ));
    }
    if exists|i: int|
        0 <= i < card.emails@.len() && has_text(
            lowercase(
                full_label(
                    EmailAddressView {
                        name: text_of(card.full_name),
                        address: (#[trigger] card.emails@[i]).address@,
                    },
                ),
            ),
            query,
        ) {
        let i = choose|i: int|
            0 <= i < card.emails@.len() && has_text(
                lowercase(
                    full_label(
                        EmailAddressView {
                            name: text_of(card.full_name),
                            address: (#[trigger] card.emails@[i]).address@,
                        },
                    ),
                ),
                query,
            );
        assert(has_text(lowercase(c.emails[i]), query));
    }
}

proof fn lemma_account_lists(source: ContactSource, query: Seq<char>, n: int, k: int)
    requires
        0 <= k < n <= source.snapshot.contacts@.len(),
        contact_matches(contact_of(source.account_id@, source.snapshot.contacts@[k].card), query),
    ensures
        account_matches(source, query, n).contains(
            contact_of(source.account_id@, source.snapshot.contacts@[k].card),
        ),
    decreases n,
{
    let c = contact_of(source.account_id@, source.snapshot.contacts@[k].card);
    let before = account_matches(source, query, n - 1);
    let now = account_matches(source, query, n);
    if k == n - 1 {
        assert(now[before.len() as int] == c);
    } else {
        lemma_account_lists(source, query, n - 1, k);
        let i = choose|i: int| 0 <= i < before.len() && before[i] == c;
        assert(now[i] == c);
    }
}

/// Every contact of every account that is found is listed, if there is room.
pub proof fn lemma_contacts_listed(sources: Seq<ContactSource>, query: Seq<char>, n: int, s: int, k: int)
    requires
        0 <= s < n <= sources.len(),
        0 <= k < sources[s].snapshot.contacts@.len(),
        contact_matches(contact_of(sources[s].account_id@, sources[s].snapshot.contacts@[k].card), query),
    ensures
        matches_upto(sources, query, n).contains(
            contact_of(sources[s].account_id@, sources[s].snapshot.contacts@[k].card),
        ),
    decreases n,
{
    let c = contact_of(sources[s].account_id@, sources[s].snapshot.contacts@[k].card);
    let before = matches_upto(sources, query, n - 1);
    let own = account_matches(sources[n - 1], query, sources[n - 1].snapshot.contacts@.len() as int);
    let now = matches_upto(sources, query, n);
    if s == n - 1 {
        lemma_account_lists(sources[s], query, sources[s].snapshot.contacts@.len() as int, k);
        let i = choose|i: int| 0 <= i < own.len() && own[i] == c;
        assert(now[before.len() + i] == c);
    } else {
        lemma_contacts_listed(sources, query, n - 1, s, k);
        let i = choose|i: int| 0 <= i < before.len() && before[i] == c;
        assert(now[i] == c);
    }
}

proof fn lemma_account_only_matches(source: ContactSource, query: Seq<char>, n: int, i: int)
    requires
        0 <= n <= source.snapshot.contacts@.len(),
        0 <= i < account_matches(source, query, n).len(),
    ensures
        contact_matches(account_matches(source, query, n)[i], query),
    decreases n,
{
    let before = account_matches(source, query, n - 1);
    if i < before.len() {
        lemma_account_only_matches(source, query, n - 1, i);
    }
}

/// Only contacts that are found are listed.
pub proof fn lemma_only_found_contacts(sources: Seq<ContactSource>, query: Seq<char>, n: int, i: int)
    requires
        0 <= n <= sources.len(),
        0 <= i < matches_upto(sources, query, n).len(),
    ensures
        contact_matches(matches_upto(sources, query, n)[i], query),
    decreases n,
{
    let before = matches_upto(sources, query, n - 1);
    if i < before.len() {
        lemma_only_found_contacts(sources, query, n - 1, i);
    } else {
        lemma_account_only_matches(
            sources[n - 1],
            query,
            sources[n - 1].snapshot.contacts@.len() as int,
            i - before.len(),
        );
    }
}

/// The entry of a contact says its account, its name and its addresses.
pub proof fn lemma_contact_entry(v: Seq<ContactEntry>, i: int)
    requires
        0 <= i < v.len(),
    ensures
        contact_views(v)[i].account == v[i].account@,
        contact_views(v)[i].name == v[i].name@,
        contact_views(v)[i].emails == texts_of(v[i].emails@),
{
}

/// An occurrence is on a shown calendar and starts from now on, within the days that are looked ahead.
pub open spec fn coming(o: EventOccurrence, checked: Seq<String>, now: Instant, days: int) -> bool {
    let at = o.start.instant;
    &&& exists|i: int| 0 <= i < checked.len() && (#[trigger] checked[i])@ == o.calendar_id@
    &&& now.secs < at.secs || (now.secs == at.secs && now.nanos <= at.nanos)
    &&& at.secs < now.secs + days * 86400 || (at.secs == now.secs + days * 86400 && at.nanos <= now.nanos)
}

/// Which occurrences are to come: those on a shown calendar that start from now on and within the
/// days that are looked ahead. With room for all of them every one of them is told, and of two the
/// sooner one first.
pub proof fn lemma_events_to_come(
    occurrences: Seq<EventOccurrence>,
    checked: Seq<String>,
    now: Instant,
    days: int,
    limit: usize,
    k: int,
    a: int,
    b: int,
)
    requires
        now.in_range(),
        1 <= days <= 90,
    ensures
        ({
            let rows = soonest_rows(occurrences, coming_rows(occurrences, checked, now, days), limit);
            &&& rows.len() <= limit
            &&& rows.contains(k) ==> 0 <= k < occurrences.len() && coming(occurrences[k], checked, now, days)
            &&& 0 <= k < occurrences.len() && coming(occurrences[k], checked, now, days) && occurrences.len() <= limit
                ==> rows.contains(k)
            &&& 0 <= a < rows.len() ==> 0 <= rows[a] < occurrences.len()
            &&& 0 <= a < b < rows.len() ==> {
                let x = occurrences[rows[a]].start.instant;
                let y = occurrences[rows[b]].start.instant;
                x.secs < y.secs || (x.secs == y.secs && x.nanos <= y.nanos)
            }
            &&& 0 <= a < b < rows.len() ==> rows[a] != rows[b]
        }),
{
    let all = Seq::new(occurrences.len(), |i: int| i);
    let keep = |i: int| to_come(checked, now, days)(occurrences[i]);
    let picked = coming_rows(occurrences, checked, now, days);
    assert(picked == all.filter(keep));
    let keys = picked.map_values(|i: int| Soonest { at: occurrences[i].start.instant });
    let order = key_order(keys);
    let rows = soonest_rows(occurrences, picked, limit);
    lemma_key_order_arranges(keys);
    assert(ordered_keys::<Soonest>());
    lemma_key_order_sorts(keys);
    all.lemma_filter_len(keep);
    assert forall|x: int| 0 <= x < picked.len() implies 0 <= #[trigger] picked[x] < occurrences.len() && keep(
        picked[x],
    ) by {
        assert(picked.contains(picked[x]));
        all.lemma_filter_contains_rev(keep, picked[x]);
        all.lemma_filter_pred(keep, x);
        let j = choose|j: int| 0 <= j < all.len() && all[j] == picked[x];
        assert(all[j] == j);
    }
    if rows.contains(k) {
        let i = choose|i: int| 0 <= i < rows.len() && rows[i] == k;
        assert(rows[i] == picked[order[i]]);
        assert(0 <= order[i] < picked.len());
        assert(keep(k));
    }
    if 0 <= k < occurrences.len() && keep(k) {
        assert(all[k] == k);
        all.lemma_filter_contains(keep, k);
        let x = choose|x: int| 0 <= x < picked.len() && picked[x] == k;
        assert(order.contains(x));
        let j = choose|j: int| 0 <= j < order.len() && order[j] == x;
        if occurrences.len() <= limit {
            assert(rows[j] == picked[x]);
        }
    }
    if 0 <= a < rows.len() {
        assert(rows[a] == picked[order[a]]);
        assert(0 <= order[a] < picked.len());
    }
    if 0 <= a < b < rows.len() {
        assert(in_key_order(keys, order[a], order[b]));
        assert(rows[b] == picked[order[b]]);
        assert(0 <= order[b] < picked.len() && order[a] != order[b]);
        lemma_picked_apart(occurrences.len() as int, keep, order[a], order[b]);
    }
}

proof fn lemma_picked_apart(n: int, keep: spec_fn(int) -> bool, a: int, b: int)
    requires
        0 <= n,
        0 <= a < Seq::new(n as nat, |i: int| i).filter(keep).len(),
        0 <= b < Seq::new(n as nat, |i: int| i).filter(keep).len(),
        a != b,
    ensures
        Seq::new(n as nat, |i: int| i).filter(keep)[a] != Seq::new(n as nat, |i: int| i).filter(keep)[b],
{
    if a < b {
        crate::contacts_sync::lemma_rows_ascend(n, keep, a, b);
    } else {
        crate::contacts_sync::lemma_rows_ascend(n, keep, b, a);
    }
}

/// An entry says what is to be known of an occurrence, each thing under its own name, and its link
/// carries the occurrence.
pub proof fn lemma_entry_says_event(e: EventEntry, o: EventOccurrence, json: Seq<char>)
    requires
        tells_event(e, o, json),
    ensures
        e.summary@ == said(o.summary),
        e.start@ == rfc3339(o.start.instant.secs as int, o.start.instant.nanos as int),
        e.end@ == rfc3339(o.end.instant.secs as int, o.end.instant.nanos as int),
        e.all_day == o.all_day,
        e.location is Some <==> o.location is Some,
        o.location matches Some(place) ==> (e.location->0)@ == place@,
        link_parts(e.link@) == Some(("open-event"@, encoded(json))),
{
    reveal_strlit("open-event");
    let action = "open-event"@;
    assert(!action.contains('?')) by {
        if action.contains('?') {
            let i = choose|i: int| 0 <= i < action.len() && action[i] == '?';
        }
    }
    lemma_link_parts_of_link(action, json);
}

/// What a call for tasks is answered: with room for all of them, every task that is not completed, and
/// every task at all if all are asked for; nothing that is no task; and none that is completed unless all
/// are asked for.
pub proof fn lemma_tasks_answered<'a>(data: ToolData<'a>, all: bool, limit: usize, v: Vec<TaskEntry>, k: int, i: int)
    requires
        tells(ToolRequest::ListTasks { all, limit }, data, ToolResult::Tasks(v)),
    ensures
        v@.len() <= limit,
        0 <= k < data.tasks@.len() && data.tasks@.len() <= limit && (all || !(data.tasks@[k].status is Completed))
            ==> exists|j: int| 0 <= j < v@.len() && tells_task(#[trigger] v@[j], data.tasks@[k]),
        0 <= i < v@.len() ==> exists|j: int|
            0 <= j < data.tasks@.len() && tells_task(v@[i], #[trigger] data.tasks@[j]),
        0 <= i < v@.len() && !all ==> !(v@[i].status is Completed),
{
    lemma_outstanding_tasks_told(data.tasks@, all, limit, v@, k, i);
}

/// What a call for mails is answered: with room for all of them, every mail that a cache gave, and of two
/// the newer one first, whether they were looked for or not.
pub proof fn lemma_mails_answered<'a>(
    data: ToolData<'a>,
    query: String,
    limit: usize,
    v: Vec<EmailEntry>,
    c: int,
    k: int,
    a: int,
    b: int,
)
    requires
        tells(ToolRequest::RecentEmails { limit }, data, ToolResult::Emails(v)) || tells(
            ToolRequest::SearchEmails { query, limit },
            data,
            ToolResult::Emails(v),
        ),
    ensures
        v@.len() <= limit,
        0 <= c < data.messages@.len() && data.messages@[c] is Some && 0 <= k < (data.messages@[c]->0)@.len()
            && read_messages(data.messages@).len() <= limit ==> exists|j: int|
            0 <= j < v@.len() && tells_email(#[trigger] v@[j], (data.messages@[c]->0)@[k]),
        0 <= a < b < v@.len() ==> exists|x: EmailSummary, y: EmailSummary|
            #[trigger] tells_email(v@[a], x) && #[trigger] tells_email(v@[b], y) && (x.date.secs > y.date.secs || (
            x.date.secs == y.date.secs && x.date.nanos >= y.date.nanos)),
{
    lemma_all_mails_told(data.messages@, limit, v@, c, k, a, b);
    lemma_all_mails_told(data.messages@, limit, v@, c, k, b, b);
}

/// What a call for people is answered: nobody with more mails is told after anybody with fewer, and
/// everyone with all the counts of their address.
pub proof fn lemma_people_answered<'a>(data: ToolData<'a>, limit: usize, v: Vec<TopContact>, k: int, a: int, b: int)
    requires
        tells(ToolRequest::TopContacts { limit }, data, ToolResult::People(v)),
    ensures
        v@.len() <= limit,
        0 <= a < b < v@.len() ==> v@[a].count >= v@[b].count && v@[a].address@ != v@[b].address@,
        0 <= a < v@.len() ==> v@[a].count == counted(read_counts(data.counts@), v@[a].address@),
        0 <= k < read_counts(data.counts@).len() && tally(read_counts(data.counts@)).len() <= limit ==> exists|j: int|
            0 <= j < v@.len() && (#[trigger] v@[j]).address@ == read_counts(data.counts@)[k].address,
{
    let counts = read_counts(data.counts@);
    lemma_people_ranked(counts, limit, k, a, b);
    assert(top_views(v@).len() == v@.len());
    if 0 <= a < v@.len() {
        lemma_person_entry(v@, counts, limit, a);
    }
    if 0 <= b < v@.len() {
        lemma_person_entry(v@, counts, limit, b);
    }
    if 0 <= k < counts.len() && tally(counts).len() <= limit {
        let j = choose|j: int|
            0 <= j < ranking(counts, limit).len() && (#[trigger] ranking(counts, limit)[j]).address == counts[k].address;
        lemma_person_entry(v@, counts, limit, j);
        assert(v@[j].address@ == counts[k].address);
    }
}

/// What a call for contacts is answered: only such as are found, and if there is room all of them.
pub proof fn lemma_contacts_answered<'a>(
    data: ToolData<'a>,
    query: String,
    limit: usize,
    v: Vec<ContactEntry>,
    s: int,
    k: int,
    i: int,
)
    requires
        tells(ToolRequest::ListContacts { query, limit }, data, ToolResult::Contacts(v)),
    ensures
        v@.len() <= limit,
        0 <= i < v@.len() ==> contact_matches(contact_views(v@)[i], query@),
        0 <= s < data.contacts@.len() && 0 <= k < data.contacts@[s].snapshot.contacts@.len() && contact_matches(
            contact_of(data.contacts@[s].account_id@, data.contacts@[s].snapshot.contacts@[k].card),
            query@,
        ) && v@.len() < limit ==> contact_views(v@).contains(
            contact_of(data.contacts@[s].account_id@, data.contacts@[s].snapshot.contacts@[k].card),
        ),
{
    let n = data.contacts@.len() as int;
    let all = matches_upto(data.contacts@, query@, n);
    assert(contact_views(v@).len() == v@.len());
    if 0 <= i < v@.len() {
        lemma_only_found_contacts(data.contacts@, query@, n, i);
        assert(contact_views(v@)[i] == all[i]);
    }
    if 0 <= s < n && 0 <= k < data.contacts@[s].snapshot.contacts@.len() && contact_matches(
        contact_of(data.contacts@[s].account_id@, data.contacts@[s].snapshot.contacts@[k].card),
        query@,
    ) {
        lemma_contacts_listed(data.contacts@, query@, n, s, k);
    }
}

/// What a call for events is answered: with room for all of them, every occurrence on a shown calendar
/// that starts from now on and within the days that are looked ahead; nothing that is none; and of two
/// the sooner one first.
pub proof fn lemma_events_answered<'a>(
    data: ToolData<'a>,
    days: i64,
    limit: usize,
    v: Vec<EventEntry>,
    k: int,
    a: int,
    b: int,
)
    requires
        tells(ToolRequest::UpcomingEvents { days, limit }, data, ToolResult::Events(v)),
        data.now.in_range(),
        1 <= days <= 90,
    ensures
        v@.len() <= limit,
        0 <= k < data.occurrences@.len() && data.occurrences@.len() <= limit && coming(
            data.occurrences@[k],
            data.checked_calendars@,
            data.now,
            days as int,
        ) ==> exists|j: int|
            0 <= j < v@.len() && tells_event(#[trigger] v@[j], data.occurrences@[k], data.occurrence_json@[k]@),
        0 <= a < v@.len() ==> exists|j: int|
            0 <= j < data.occurrences@.len() && coming(
                #[trigger] data.occurrences@[j],
                data.checked_calendars@,
                data.now,
                days as int,
            ) && tells_event(v@[a], data.occurrences@[j], data.occurrence_json@[j]@),
{
    let occurrences = data.occurrences@;
    let rows = soonest_rows(
        occurrences,
        coming_rows(occurrences, data.checked_calendars@, data.now, days as int),
        limit,
    );
    lemma_events_to_come(occurrences, data.checked_calendars@, data.now, days as int, limit, k, a, b);
    if 0 <= k < occurrences.len() && occurrences.len() <= limit && coming(
        occurrences[k],
        data.checked_calendars@,
        data.now,
        days as int,
    ) {
        let j = choose|j: int| 0 <= j < rows.len() && rows[j] == k;
        assert(tells_event(v@[j], occurrences[rows[j]], data.occurrence_json@[rows[j]]@));
    }
    if 0 <= a < v@.len() {
        lemma_events_to_come(occurrences, data.checked_calendars@, data.now, days as int, limit, rows[a], a, b);
        assert(rows.contains(rows[a]));
        assert(coming(occurrences[rows[a]], data.checked_calendars@, data.now, days as int));
        assert(tells_event(v@[a], occurrences[rows[a]], data.occurrence_json@[rows[a]]@));
    }
}

/// What a tool says it takes is taken as it is: every number of rows and of days within the bounds that
/// are told, and the two words for which tasks are meant.
pub proof fn lemma_tool_takes_what_it_says(
    p: ToolParameter,
    description: Seq<char>,
    rows: u64,
    days: i64,
    limit: Option<u64>,
)
    ensures
        is_limit(p, description) ==> (p.kind matches ParameterKind::Integer { minimum, maximum } && (minimum <= rows && rows
            <= maximum ==> limit_of(Some(rows)) == rows) && (rows < minimum ==> limit_of(Some(rows)) == minimum) && (rows
            > maximum ==> limit_of(Some(rows)) == maximum)),
        is_days(p) ==> (p.kind matches ParameterKind::Integer { minimum, maximum } && (minimum <= days && days <= maximum
            ==> days_of(Some(days)) == days)),
        is_status(p) ==> (p.kind matches ParameterKind::Choice { first, second } && request_of(
            "list_tasks"@,
            limit,
            None,
            Some(first@),
            None,
        ) == Ok::<RequestView, Seq<char>>(RequestView::ListTasks(false, limit_of(limit) as int)) && request_of(
            "list_tasks"@,
            limit,
            None,
            Some(second@),
            None,
        ) == Ok::<RequestView, Seq<char>>(RequestView::ListTasks(true, limit_of(limit) as int))),
        is_limit(p, description) || is_days(p) || is_status(p) ==> !p.required,
        is_limit(p, description) ==> "/"@ + p.name@ == "/limit"@,
        is_days(p) ==> "/"@ + p.name@ == "/days"@,
        is_status(p) ==> "/"@ + p.name@ == "/status"@,
        is_query(p, description, true) || is_query(p, description, false) ==> "/"@ + p.name@ == "/query"@,
{
    lemma_each_tool_by_name("list_tasks"@, limit, None, Some("outstanding"@), None);
    lemma_each_tool_by_name("list_tasks"@, limit, None, Some("all"@), None);
    reveal_strlit("outstanding");
    reveal_strlit("all");
    assert("outstanding"@.len() != "all"@.len());
    reveal_strlit("/");
    reveal_strlit("limit");
    reveal_strlit("/limit");
    reveal_strlit("days");
    reveal_strlit("/days");
    reveal_strlit("status");
    reveal_strlit("/status");
    reveal_strlit("query");
    reveal_strlit("/query");
    assert("/"@ + "limit"@ =~= "/limit"@);
    assert("/"@ + "days"@ =~= "/days"@);
    assert("/"@ + "status"@ =~= "/status"@);
    assert("/"@ + "query"@ =~= "/query"@);
}

/// A call is read from its name and the members of its arguments, each for what it is named.
pub proof fn lemma_call_read(call: CallView)
    ensures
        call.name == "recent_emails"@ ==> requested(call) == Ok::<RequestView, Seq<char>>(
            RequestView::RecentEmails(limit_of(json_unsigned_at(call.arguments, "/limit"@)) as int),
        ),
        call.name == "list_tasks"@ ==> requested(call) == Ok::<RequestView, Seq<char>>(
            RequestView::ListTasks(
                json_string_at(call.arguments, "/status"@) == Some("all"@),
                limit_of(json_unsigned_at(call.arguments, "/limit"@)) as int,
            ),
        ),
        call.name == "upcoming_events"@ ==> requested(call) == Ok::<RequestView, Seq<char>>(
            RequestView::UpcomingEvents(
                days_of(json_signed_at(call.arguments, "/days"@)) as int,
                limit_of(json_unsigned_at(call.arguments, "/limit"@)) as int,
            ),
        ),
        call.name == "search_emails"@ && json_string_at(call.arguments, "/query"@) is None ==> requested(call) is Err,
        call.name == "search_emails"@ && json_string_at(call.arguments, "/query"@) is Some && trimmed(
            json_string_at(call.arguments, "/query"@)->0,
        ).len() > 0 ==> requested(call) == Ok::<RequestView, Seq<char>>(
            RequestView::SearchEmails(
                trimmed(json_string_at(call.arguments, "/query"@)->0),
                limit_of(json_unsigned_at(call.arguments, "/limit"@)) as int,
            ),
        ),
{
    lemma_each_tool_by_name(
        call.name,
        json_unsigned_at(call.arguments, "/limit"@),
        json_string_at(call.arguments, "/query"@),
        json_string_at(call.arguments, "/status"@),
        json_signed_at(call.arguments, "/days"@),
    );
}

} // verus!
