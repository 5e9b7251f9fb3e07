//! The assistant's tools: what a call asks for, and what the mail, the contacts, the tasks and the
//! calendar answer.

use crate::chat_links::{link, message_target, open_event_link, open_message_link};
use crate::contacts::{email_addresses, address_views, named_addresses, ContactsAccountSnapshot, VCard};
use crate::dates::{rfc3339, Instant, DAY_SECONDS};
use crate::encodings::{debug_quote, debug_quoted, json_i64, json_signed_at, json_string};
use crate::encodings::{json_string_at, json_u64, json_unsigned_at};
use crate::model::{address_label, clone_strings, full_label, text_of, texts_of, EmailAddress};
use crate::model::{EmailAddressView, EmailSummary, EventOccurrence};
use crate::sorting::{as_rows, in_key_order, key_order, lemma_key_order_arranges};
use crate::sorting::{lemma_key_order_sorts, lemma_same_order, ordered_keys, sort_rows};
use crate::sorting::{Newest, Ranked, Soonest, SortKey};
use crate::text::{contains, has_text, lemma_text_le_total, lemma_text_le_transitive, lowercase};
use crate::text::{no_later_text, same, text_le, trim, trimmed};
use vstd::prelude::*;

verus! {

/// How many rows a tool gives unless it is asked for another number.
pub const DEFAULT_LIMIT: usize = 10;

/// How many rows a tool gives at most.
pub const MAX_LIMIT: usize = 50;

/// How many days ahead the calendar is looked at unless another number is asked for.
pub const DEFAULT_EVENT_HORIZON_DAYS: i64 = 14;

/// How many days ahead the calendar is looked at, at most.
pub const MAX_EVENT_HORIZON_DAYS: i64 = 90;

/// The number of rows to give, for the number that was asked for.
pub open spec fn limit_of(asked: Option<u64>) -> usize {
    match asked {
        Some(n) => if n < 1 {
            1
        } else if n > MAX_LIMIT {
            MAX_LIMIT
        } else {
            n as usize
        },
        None => DEFAULT_LIMIT,
    }
}

/// The number of rows to give, for the number that was asked for.
pub fn bounded_limit(asked: Option<u64>) -> (r: usize)
    ensures
        r == limit_of(asked),
        1 <= r <= MAX_LIMIT,
{
    match asked {
        Some(n) => if n < 1 {
            1
        } else if n > 50 {
            MAX_LIMIT
        } else {
            n as usize
        },
        None => DEFAULT_LIMIT,
    }
}

/// The number of rows that a call asks for. Arguments that are no JSON ask for nothing.
pub fn arg_limit(args: &str) -> (r: usize)
    ensures
        r == limit_of(json_unsigned_at(args@, "/limit"@)),
        1 <= r <= MAX_LIMIT,
{
    bounded_limit(json_u64(args, "/limit"))
}

/// The number of days to look ahead, for the number that was asked for.
pub open spec fn days_of(asked: Option<i64>) -> i64 {
    match asked {
        Some(n) => if n < 1 {
            1
        } else if n > MAX_EVENT_HORIZON_DAYS {
            MAX_EVENT_HORIZON_DAYS
        } else {
            n
        },
        None => DEFAULT_EVENT_HORIZON_DAYS,
    }
}

/// The number of days to look ahead, for the number that was asked for.
pub fn bounded_days(asked: Option<i64>) -> (r: i64)
    ensures
        r == days_of(asked),
        1 <= r <= MAX_EVENT_HORIZON_DAYS,
{
    match asked {
        Some(n) => if n < 1 {
            1
        } else if n > MAX_EVENT_HORIZON_DAYS {
            MAX_EVENT_HORIZON_DAYS
        } else {
            n
        },
        None => DEFAULT_EVENT_HORIZON_DAYS,
    }
}

/// What a call asks of a tool.
#[derive(Debug)]
pub enum ToolRequest {
    RecentEmails { limit: usize },
    SearchEmails { query: String, limit: usize },
    TopContacts { limit: usize },
    ListContacts { query: String, limit: usize },
    ListTasks { all: bool, limit: usize },
    UpcomingEvents { days: i64, limit: usize },
}

/// What a call asks of a tool, as text.
pub enum RequestView {
    RecentEmails(int),
    SearchEmails(Seq<char>, int),
    TopContacts(int),
    ListContacts(Seq<char>, int),
    ListTasks(bool, int),
    UpcomingEvents(int, int),
}

impl View for ToolRequest {
    type V = RequestView;

    open spec fn view(&self) -> RequestView {
        match self {
            ToolRequest::RecentEmails { limit } => RequestView::RecentEmails(*limit as int),
            ToolRequest::SearchEmails { query, limit } => RequestView::SearchEmails(
                query@,
                *limit as int,
            ),
            ToolRequest::TopContacts { limit } => RequestView::TopContacts(*limit as int),
            ToolRequest::ListContacts { query, limit } => RequestView::ListContacts(
                query@,
                *limit as int,
            ),
            ToolRequest::ListTasks { all, limit } => RequestView::ListTasks(*all, *limit as int),
            ToolRequest::UpcomingEvents { days, limit } => RequestView::UpcomingEvents(
                *days as int,
                *limit as int,
            ),
        }
    }
}

/// The arguments of a call, as far as some tool reads them.
#[derive(Debug)]
pub struct ToolArguments {
    pub limit: Option<u64>,
    pub query: Option<String>,
    pub status: Option<String>,
    pub days: Option<i64>,
}

/// A text without white space around it, or nothing.
pub open spec fn query_of(query: Option<Seq<char>>) -> Seq<char> {
    match query {
        Some(q) => trimmed(q),
        None => Seq::empty(),
    }
}

/// What a call asks of a tool, or why it cannot be answered.
pub open spec fn request_of(
    name: Seq<char>,
    limit: Option<u64>,
    query: Option<Seq<char>>,
    status: Option<Seq<char>>,
    days: Option<i64>,
) -> Result<RequestView, Seq<char>> {
    let n = limit_of(limit) as int;
    if name == "recent_emails"@ {
        Ok(RequestView::RecentEmails(n))
    } else if name == "search_emails"@ {
        if query_of(query).len() == 0 {
            Err("search_emails needs a non-empty \"query\" argument"@)
        } else {
            Ok(RequestView::SearchEmails(query_of(query), n))
        }
    } else if name == "top_contacts"@ {
        Ok(RequestView::TopContacts(n))
    } else if name == "list_contacts"@ {
        Ok(RequestView::ListContacts(lowercase(query_of(query)), n))
    } else if name == "list_tasks"@ {
        Ok(RequestView::ListTasks(status == Some("all"@), n))
    } else if name == "upcoming_events"@ {
        Ok(RequestView::UpcomingEvents(days_of(days) as int, n))
    } else {
        Err("Unknown tool "@ + debug_quoted(name))
    }
}

/// What was asked for, or why it cannot be answered, as text.
pub open spec fn request_view(r: Result<ToolRequest, String>) -> Result<RequestView, Seq<char>> {
    match r {
        Ok(request) => Ok(request@),
        Err(e) => Err(e@),
    }
}

fn trimmed_query(query: &Option<String>) -> (r: String)
    ensures
        r@ == query_of(text_of(*query)),
{
    match query {
        Some(q) => trim(q).to_owned(),
        None => String::new(),
    }
}

/// A request is within the bounds that every request is within.
pub open spec fn in_bounds(request: ToolRequest) -> bool {
    match request {
        ToolRequest::ListContacts { limit, .. } => limit > 0,
        ToolRequest::UpcomingEvents { days, .. } => 1 <= days <= MAX_EVENT_HORIZON_DAYS,
        _ => true,
    }
}

/// What a call with the given arguments asks of a tool, or why it cannot be answered.
pub fn tool_request(name: &str, args: &ToolArguments) -> (r: Result<ToolRequest, String>)
    ensures
        request_view(r) == request_of(
            name@,
            args.limit,
            text_of(args.query),
            text_of(args.status),
            args.days,
        ),
        r matches Ok(request) ==> in_bounds(request),
{
    let limit: usize = bounded_limit(args.limit);
    if same(name, "recent_emails") {
        Ok(ToolRequest::RecentEmails { limit })
    } else if same(name, "search_emails") {
        let query = trimmed_query(&args.query);
        if query.as_str().is_empty() {
            return Err("search_emails needs a non-empty \"query\" argument".to_owned());
        }
        Ok(ToolRequest::SearchEmails { query, limit })
    } else if same(name, "top_contacts") {
        Ok(ToolRequest::TopContacts { limit })
    } else if same(name, "list_contacts") {
        let query = trimmed_query(&args.query).as_str().to_lowercase();
        Ok(ToolRequest::ListContacts { query, limit })
    } else if same(name, "list_tasks") {
        let all = match &args.status {
            Some(status) => same(status, "all"),
            None => false,
        };
        Ok(ToolRequest::ListTasks { all, limit })
    } else if same(name, "upcoming_events") {
        Ok(ToolRequest::UpcomingEvents { days: bounded_days(args.days), limit })
    } else {
        let mut e = "Unknown tool ".to_owned();
        e.push_str(&debug_quote(name));
        Err(e)
    }
}

/// What a call asks of a tool, its arguments being a JSON document, or why it cannot be answered.
/// A text that is no JSON document stands for no arguments.
pub fn execute_tool(name: &str, args: &str) -> (r: Result<ToolRequest, String>)
    ensures
        request_view(r) == request_of(
            name@,
            json_unsigned_at(args@, "/limit"@),
            json_string_at(args@, "/query"@),
            json_string_at(args@, "/status"@),
            json_signed_at(args@, "/days"@),
        ),
        r matches Ok(request) ==> in_bounds(request),
{
    let arguments = ToolArguments {
        limit: json_u64(args, "/limit"),
        query: json_string(args, "/query"),
        status: json_string(args, "/status"),
        days: json_i64(args, "/days"),
    };
    tool_request(name, &arguments)
}

/// No tool is ever asked for no row or for more rows than the most, nor looks further ahead than the
/// most.
pub proof fn lemma_requests_bounded(
    name: Seq<char>,
    limit: Option<u64>,
    query: Option<Seq<char>>,
    status: Option<Seq<char>>,
    days: Option<i64>,
)
    ensures
        match request_of(name, limit, query, status, days) {
            Ok(RequestView::RecentEmails(n)) => 1 <= n <= MAX_LIMIT,
            Ok(RequestView::SearchEmails(q, n)) => 1 <= n <= MAX_LIMIT && q.len() > 0,
            Ok(RequestView::TopContacts(n)) => 1 <= n <= MAX_LIMIT,
            Ok(RequestView::ListContacts(_, n)) => 1 <= n <= MAX_LIMIT,
            Ok(RequestView::ListTasks(_, n)) => 1 <= n <= MAX_LIMIT,
            Ok(RequestView::UpcomingEvents(d, n)) => 1 <= n <= MAX_LIMIT && 1 <= d <= MAX_EVENT_HORIZON_DAYS,
            Err(_) => true,
        },
{
}

/// The first rows, at most `limit` of them.
pub open spec fn first_rows<T>(s: Seq<T>, limit: usize) -> Seq<T> {
    if s.len() <= limit {
        s
    } else {
        s.take(limit as int)
    }
}

/// The mails of the caches that could be read, one after the other.
pub open spec fn read_messages(found: Seq<Option<Vec<EmailSummary>>>) -> Seq<EmailSummary>
    decreases found.len(),
{
    if found.len() == 0 {
        Seq::empty()
    } else {
        read_messages(found.drop_last()) + (match found.last() {
            Some(messages) => messages@,
            None => Seq::empty(),
        })
    }
}

/// What the assistant learns of a mail.
#[derive(Debug)]
pub struct EmailEntry {
    pub subject: String,
    pub from: String,
    pub to: Vec<String>,
    pub date: String,
    pub unread: bool,
    pub preview: String,
    pub mailbox: String,
    pub uid: u32,
    pub link: String,
}

/// A text, or nothing.
pub open spec fn or_empty(o: Option<String>) -> Seq<char> {
    match o {
        Some(s) => s@,
        None => Seq::empty(),
    }
}

/// An entry says what is to be known of a mail.
pub open spec fn tells_email(e: EmailEntry, m: EmailSummary) -> bool {
    &&& e.subject@ == or_empty(m.subject)
    &&& e.from@ == (if m.from@.len() > 0 {
        full_label(m.from@[0]@)
    } else {
        Seq::empty()
    })
    &&& texts_of(e.to@) == m.to@.map_values(|a: EmailAddress| full_label(a@))
    &&& e.date@ == rfc3339(m.date.secs as int, m.date.nanos as int)
    &&& e.unread == m.unread
    &&& e.preview@ == or_empty(m.preview)
    &&& e.mailbox@ == m.mailbox@
    &&& e.uid == m.uid
    &&& e.link@ == link("open-message"@, message_target(m.mailbox@, m.uid))
}

/// The mails are dated.
pub open spec fn dated_messages(s: Seq<EmailSummary>) -> bool {
    forall|i: int| 0 <= i < s.len() ==> (#[trigger] s[i]).date.valid()
}

fn owned_or_empty(o: &Option<String>) -> (r: String)
    ensures
        r@ == or_empty(*o),
{
    match o {
        Some(s) => s.clone(),
        None => String::new(),
    }
}

fn labels(v: &Vec<EmailAddress>) -> (r: Vec<String>)
    ensures
        texts_of(r@) == v@.map_values(|a: EmailAddress| full_label(a@)),
{
    let ghost want = v@.map_values(|a: EmailAddress| full_label(a@));
    let mut out: Vec<String> = Vec::new();
    let mut i: usize = 0;
    while i < v.len()
        invariant
            i <= v.len(),
            want == v@.map_values(|a: EmailAddress| full_label(a@)),
            texts_of(out@) == want.take(i as int),
        decreases v.len() - i,
    {
        let ghost before = texts_of(out@);
        let label = address_label(&v[i]);
        out.push(label);
        assert(texts_of(out@) =~= before.push(label@));
        assert(want.take(i + 1) =~= want.take(i as int).push(want[i as int]));
        i += 1;
    }
    assert(want.take(i as int) =~= want);
    out
}

/// What the assistant learns of a mail.
pub fn email_entry(m: &EmailSummary) -> (r: EmailEntry)
    requires
        m.date.valid(),
    ensures
        tells_email(r, *m),
{
    let from = if m.from.len() > 0 {
        address_label(&m.from[0])
    } else {
        String::new()
    };
    EmailEntry {
        subject: owned_or_empty(&m.subject),
        from,
        to: labels(&m.to),
        date: m.date.to_rfc3339(),
        unread: m.unread,
        preview: owned_or_empty(&m.preview),
        mailbox: m.mailbox.clone(),
        uid: m.uid,
        link: open_message_link(&m.mailbox, m.uid),
    }
}

/// The mails in the order in which they are told: the newest first.
pub open spec fn newest_rows(s: Seq<EmailSummary>) -> Seq<int> {
    key_order(s.map_values(|m: EmailSummary| Newest { date: m.date }))
}

fn gather<'a>(found: &'a Vec<Option<Vec<EmailSummary>>>) -> (r: Vec<&'a EmailSummary>)
    ensures
        r@.unref() == read_messages(found@),
{
    let mut out: Vec<&'a EmailSummary> = Vec::new();
    let mut i: usize = 0;
    assert(found@.take(0) =~= Seq::<Option<Vec<EmailSummary>>>::empty());
    assert(out@.unref() =~= read_messages(found@.take(0)));
    while i < found.len()
        invariant
            i <= found.len(),
            out@.unref() == read_messages(found@.take(i as int)),
        decreases found.len() - i,
    {
        assert(found@.take(i + 1).drop_last() =~= found@.take(i as int));
        let ghost start = out@.unref();
        match &found[i] {
            Some(messages) => {
                let mut k: usize = 0;
                assert(out@.unref() =~= start + messages@.take(0));
                while k < messages.len()
                    invariant
                        k <= messages.len(),
                        out@.unref() == start + messages@.take(k as int),
                    decreases messages.len() - k,
                {
                    let ghost before = out@.unref();
                    out.push(&messages[k]);
                    assert(out@.unref() =~= before.push(messages@[k as int]));
                    assert(out@.unref() =~= start + messages@.take(k + 1));
                    k += 1;
                }
                assert(messages@.take(k as int) =~= messages@);
            },
            None => {
                assert(out@.unref() =~= start + Seq::<EmailSummary>::empty());
            },
        }
        assert(out@.unref() == read_messages(found@.take(i + 1)));
        i += 1;
    }
    assert(found@.take(i as int) =~= found@);
    out
}

/// What the assistant learns of the mails that several caches gave: the newest first, at most
/// `limit` of them. A cache that could not be read gives none.
pub fn email_entries(found: &Vec<Option<Vec<EmailSummary>>>, limit: usize) -> (r: Vec<EmailEntry>)
    requires
        dated_messages(read_messages(found@)),
    ensures
        ({
            let all = read_messages(found@);
            let rows = first_rows(newest_rows(all), limit);
            &&& r@.len() == rows.len()
            &&& forall|i: int| 0 <= i < r@.len() ==> tells_email(#[trigger] r@[i], all[rows[i]])
        }),
{
    let messages = gather(found);
    let ghost all = read_messages(found@);
    assert(all.len() == messages@.len());
    let ghost wanted = all.map_values(|m: EmailSummary| Newest { date: m.date });
    let mut keys: Vec<Newest> = Vec::new();
    let mut i: usize = 0;
    while i < messages.len()
        invariant
            i <= messages.len(),
            messages@.unref() == all,
            all.len() == messages@.len(),
            wanted == all.map_values(|m: EmailSummary| Newest { date: m.date }),
            keys@ == wanted.take(i as int),
        decreases messages.len() - i,
    {
        assert(all[i as int] == *messages@[i as int]);
        keys.push(Newest { date: messages[i].date });
        assert(keys@ =~= wanted.take(i + 1));
        i += 1;
    }
    assert(keys@ =~= wanted);
    let order = sort_rows(&keys);
    let ghost rows = first_rows(newest_rows(all), limit);
    assert(as_rows(order@).len() == order@.len());
    let mut out: Vec<EmailEntry> = Vec::new();
    let mut j: usize = 0;
    while j < order.len() && j < limit
        invariant
            j <= order.len(),
            j <= limit,
            order@.len() == messages@.len() == all.len(),
            messages@.unref() == all,
            dated_messages(all),
            as_rows(order@) == newest_rows(all),
            rows == first_rows(newest_rows(all), limit),
            forall|k: int| 0 <= k < order@.len() ==> #[trigger] order@[k] < messages@.len(),
            out@.len() == j,
            forall|k: int| 0 <= k < j ==> tells_email(#[trigger] out@[k], all[rows[k]]),
        decreases order.len() - j,
    {
        let k: usize = order[j];
        assert(as_rows(order@)[j as int] == k);
        assert(all[k as int] == *messages@[k as int]);
        assert(all[k as int].date.valid());
        out.push(email_entry(messages[k]));
        j += 1;
    }
    out
}

/// Mails are told with the newest first: none is older than one that follows it.
pub proof fn lemma_newest_first(all: Seq<EmailSummary>, a: int, b: int)
    requires
        0 <= a < b < all.len(),
    ensures
        all[newest_rows(all)[b]].date.le(all[newest_rows(all)[a]].date),
{
    let keys = all.map_values(|m: EmailSummary| Newest { date: m.date });
    assert(ordered_keys::<Newest>());
    lemma_key_order_sorts(keys);
    lemma_key_order_arranges(keys);
    let rows = newest_rows(all);
    assert(in_key_order(keys, key_order(keys)[a], key_order(keys)[b]));
    assert(0 <= rows[a] < all.len());
    assert(0 <= rows[b] < all.len());
}

/// How often an address occurred in the mails of an account.
#[derive(Debug)]
pub struct AddressCount {
    pub address: EmailAddress,
    pub count: u64,
}

/// An address, the name that it came with and how often it occurred.
pub struct CountView {
    pub address: Seq<char>,
    pub name: Seq<char>,
    pub count: nat,
}

/// An address with its name, if it has one, and how often it occurred.
pub open spec fn count_view(c: AddressCount) -> CountView {
    CountView { address: c.address.address@, name: or_empty(c.address.name), count: c.count as nat }
}

/// The addresses of the caches that could be read, one after the other.
pub open spec fn read_counts(found: Seq<Option<Vec<AddressCount>>>) -> Seq<CountView>
    decreases found.len(),
{
    if found.len() == 0 {
        Seq::empty()
    } else {
        read_counts(found.drop_last()) + (match found.last() {
            Some(counts) => counts@.map_values(|c: AddressCount| count_view(c)),
            None => Seq::empty(),
        })
    }
}

/// One of the addresses is this one.
pub open spec fn seen_address(v: Seq<CountView>, address: Seq<char>) -> bool {
    exists|i: int| 0 <= i < v.len() && (#[trigger] v[i]).address == address
}

/// An address with everything that was counted of it: the sum, and the first name that is not
/// empty. Its place is that of its first occurrence.
pub open spec fn tally(v: Seq<CountView>) -> Seq<CountView>
    decreases v.len(),
{
    if v.len() == 0 {
        Seq::empty()
    } else {
        add_count(tally(v.drop_last()), v.last())
    }
}

/// A tally with one more count.
pub open spec fn add_count(before: Seq<CountView>, c: CountView) -> Seq<CountView> {
    if seen_address(before, c.address) {
        before.map_values(
            |t: CountView|
                if t.address == c.address {
                    CountView {
                        address: t.address,
                        name: if t.name.len() == 0 {
                            c.name
                        } else {
                            t.name
                        },
                        count: t.count + c.count,
                    }
                } else {
                    t
                },
        )
    } else {
        before.push(c)
    }
}

/// The sum of all counts.
pub open spec fn total(v: Seq<CountView>) -> nat
    decreases v.len(),
{
    if v.len() == 0 {
        0
    } else {
        total(v.drop_last()) + v.last().count
    }
}

/// A person that mail was exchanged with.
#[derive(Debug)]
pub struct TopContact {
    pub name: String,
    pub address: String,
    pub count: u64,
}

/// A person by address, name and count.
pub open spec fn top_view(t: TopContact) -> CountView {
    CountView { address: t.address@, name: t.name@, count: t.count as nat }
}

/// Persons by address, name and count.
pub open spec fn top_views(v: Seq<TopContact>) -> Seq<CountView> {
    v.map_values(|t: TopContact| top_view(t))
}

/// The larger count goes first; of equal ones, the lesser address.
pub open spec fn ranks_before(a: CountView, b: CountView) -> bool {
    a.count > b.count || (a.count == b.count && text_le(a.address, b.address))
}

impl Ranked for CountView {
    open spec fn goes_before(self, other: CountView) -> bool {
        ranks_before(self, other)
    }
}

impl Ranked for TopContact {
    open spec fn goes_before(self, other: TopContact) -> bool {
        ranks_before(top_view(self), top_view(other))
    }
}

impl SortKey for TopContact {
    fn ahead_of(&self, other: &TopContact) -> (r: bool) {
        self.count > other.count || (self.count == other.count && no_later_text(
            &self.address,
            &other.address,
        ))
    }
}

/// Who mail was exchanged with, most often first, at most `limit` persons.
pub open spec fn ranking(counts: Seq<CountView>, limit: usize) -> Seq<CountView> {
    let all = tally(counts);
    first_rows(key_order(all), limit).map_values(|i: int| all[i])
}

proof fn lemma_total_of_part(v: Seq<CountView>, i: int)
    requires
        0 <= i < v.len(),
    ensures
        v[i].count <= total(v),
    decreases v.len(),
{
    if i < v.len() - 1 {
        lemma_total_of_part(v.drop_last(), i);
    }
}

proof fn lemma_total_of_added(before: Seq<CountView>, c: CountView)
    requires
        forall|i: int, j: int|
            0 <= i < j < before.len() ==> (#[trigger] before[i]).address != (#[trigger] before[j]).address,
    ensures
        total(add_count(before, c)) == total(before) + c.count,
        forall|i: int, j: int|
            0 <= i < j < add_count(before, c).len() ==> (#[trigger] add_count(before, c)[i]).address != (
            #[trigger] add_count(before, c)[j]).address,
    decreases before.len(),
{
    let after = add_count(before, c);
    if seen_address(before, c.address) {
        let k = choose|k: int| 0 <= k < before.len() && (#[trigger] before[k]).address == c.address;
        let head = before.drop_last();
        assert forall|i: int, j: int| 0 <= i < j < head.len() implies (#[trigger] head[i]).address != (
        #[trigger] head[j]).address by {
            assert(head[i] == before[i] && head[j] == before[j]);
        }
        lemma_total_of_added(head, c);
        if k == before.len() - 1 {
            assert(after.drop_last() =~= head) by {
                assert forall|i: int| 0 <= i < head.len() implies after[i] == head[i] by {
                    assert(before[i].address != before[k].address);
                }
            }
        } else {
            assert(head[k] == before[k]);
            assert(seen_address(head, c.address));
            assert(after.drop_last() =~= add_count(head, c));
            assert(before[k].address != before[before.len() - 1].address);
            assert(after.last() == before.last());
        }
    } else {
        assert(after.drop_last() =~= before);
        assert forall|i: int, j: int| 0 <= i < j < after.len() implies (#[trigger] after[i]).address != (
        #[trigger] after[j]).address by {
            if j == before.len() {
                assert(before[i].address != c.address);
            }
        }
    }
}

fn count_in(tops: &mut Vec<TopContact>, c: &AddressCount)
    requires
        total(top_views(old(tops)@)) + c.count <= u64::MAX,
        forall|i: int, j: int|
            0 <= i < j < top_views(old(tops)@).len() ==> (#[trigger] top_views(old(tops)@)[i]).address != (
            #[trigger] top_views(old(tops)@)[j]).address,
    ensures
        top_views(final(tops)@) == add_count(top_views(old(tops)@), count_view(*c)),
{
    let ghost before = top_views(tops@);
    let ghost all = tops@;
    let ghost seen = count_view(*c);
    let mut i: usize = 0;
    while i < tops.len()
        invariant
            i <= tops.len(),
            tops@ == all,
            before == top_views(all),
            seen == count_view(*c),
            total(before) + c.count <= u64::MAX,
            forall|k: int, j: int|
                0 <= k < j < before.len() ==> (#[trigger] before[k]).address != (#[trigger] before[j]).address,
            forall|k: int| 0 <= k < i ==> (#[trigger] before[k]).address != seen.address,
        ensures
            i <= tops.len(),
            tops@ == all,
            i == tops.len() ==> forall|k: int|
                0 <= k < before.len() ==> (#[trigger] before[k]).address != seen.address,
            i < tops.len() ==> before[i as int].address == seen.address,
        decreases tops.len() - i,
    {
        assert(before[i as int] == top_view(tops@[i as int]));
        if same(&tops[i].address, &c.address.address) {
            break;
        }
        i += 1;
    }
    if i < tops.len() {
        let ghost at = i as int;
        proof {
            assert(before[at] == top_view(all[at]));
            lemma_total_of_part(before, at);
            assert(seen_address(before, seen.address));
        }
        let count: u64 = tops[i].count + c.count;
        let name: String = if tops[i].name.as_str().is_empty() {
            owned_or_empty(&c.address.name)
        } else {
            tops[i].name.clone()
        };
        let address: String = tops[i].address.clone();
        tops.set(i, TopContact { name, address, count });
        proof {
            let after = add_count(before, seen);
            assert forall|k: int| 0 <= k < after.len() implies #[trigger] top_views(tops@)[k] == after[k] by {
                assert(before[k] == top_view(all[k]));
                if k < at {
                    assert(before[k].address != before[at].address);
                } else if k > at {
                    assert(before[at].address != before[k].address);
                }
            }
            assert(top_views(tops@) =~= after);
        }
    } else {
        let top = TopContact {
            name: owned_or_empty(&c.address.name),
            address: c.address.address.clone(),
            count: c.count,
        };
        tops.push(top);
        assert(top_views(tops@) =~= before.push(seen));
        assert(!seen_address(before, seen.address));
    }
}

/// The sum of all counts fits into 64 bits.
pub open spec fn counts_fit(found: Seq<Option<Vec<AddressCount>>>) -> bool {
    total(read_counts(found)) <= u64::MAX
}

proof fn lemma_tally_total(v: Seq<CountView>)
    ensures
        total(tally(v)) == total(v),
        forall|i: int, j: int|
            0 <= i < j < tally(v).len() ==> (#[trigger] tally(v)[i]).address != (#[trigger] tally(v)[j]).address,
    decreases v.len(),
{
    if v.len() > 0 {
        lemma_tally_total(v.drop_last());
        lemma_total_of_added(tally(v.drop_last()), v.last());
    }
}

proof fn lemma_total_grows(v: Seq<CountView>, n: int)
    requires
        0 <= n <= v.len(),
    ensures
        total(v.take(n)) <= total(v),
    decreases v.len() - n,
{
    if n < v.len() {
        lemma_total_grows(v, n + 1);
        assert(v.take(n + 1).drop_last() =~= v.take(n));
    } else {
        assert(v.take(n) =~= v);
    }
}

proof fn lemma_counts_prefix(found: Seq<Option<Vec<AddressCount>>>, n: int)
    requires
        0 <= n <= found.len(),
    ensures
        read_counts(found.take(n)).len() <= read_counts(found).len(),
        read_counts(found).take(read_counts(found.take(n)).len() as int) == read_counts(found.take(n)),
    decreases found.len() - n,
{
    if n < found.len() {
        lemma_counts_prefix(found, n + 1);
        assert(found.take(n + 1).drop_last() =~= found.take(n));
        let a = read_counts(found.take(n));
        let b = read_counts(found.take(n + 1));
        assert(b.take(a.len() as int) =~= a);
        assert(read_counts(found).take(a.len() as int) =~= read_counts(found).take(b.len() as int).take(
            a.len() as int,
        ));
    } else {
        assert(found.take(n) =~= found);
        assert(read_counts(found).take(read_counts(found).len() as int) =~= read_counts(found));
    }
}

fn tallied(found: &Vec<Option<Vec<AddressCount>>>) -> (r: Vec<TopContact>)
    requires
        counts_fit(found@),
    ensures
        top_views(r@) == tally(read_counts(found@)),
{
    let ghost whole = read_counts(found@);
    let mut tops: Vec<TopContact> = Vec::new();
    let mut i: usize = 0;
    assert(found@.take(0) =~= Seq::<Option<Vec<AddressCount>>>::empty());
    assert(top_views(tops@) =~= tally(read_counts(found@.take(0))));
    while i < found.len()
        invariant
            i <= found.len(),
            whole == read_counts(found@),
            total(whole) <= u64::MAX,
            top_views(tops@) == tally(read_counts(found@.take(i as int))),
        decreases found.len() - i,
    {
        let ghost start = read_counts(found@.take(i as int));
        proof {
            assert(found@.take(i + 1).drop_last() =~= found@.take(i as int));
            lemma_counts_prefix(found@, i + 1);
        }
        match &found[i] {
            Some(counts) => {
                let ghost views = counts@.map_values(|c: AddressCount| count_view(c));
                let ghost here = start + views;
                let mut k: usize = 0;
                assert(start + views.take(0) =~= start);
                assert(here == read_counts(found@.take(i + 1)));
                while k < counts.len()
                    invariant
                        k <= counts.len(),
                        total(whole) <= u64::MAX,
                        views == counts@.map_values(|c: AddressCount| count_view(c)),
                        here == start + views,
                        here.len() <= whole.len(),
                        whole.take(here.len() as int) == here,
                        top_views(tops@) == tally(start + views.take(k as int)),
                    decreases counts.len() - k,
                {
                    let ghost now = start + views.take(k as int);
                    let ghost next = start + views.take(k + 1);
                    proof {
                        assert(next =~= now.push(count_view(counts@[k as int])));
                        assert(next.drop_last() =~= now);
                        lemma_tally_total(now);
                        assert(next =~= here.take(next.len() as int));
                        assert(next =~= whole.take(next.len() as int));
                        lemma_total_grows(whole, next.len() as int);
                    }
                    count_in(&mut tops, &counts[k]);
                    k += 1;
                }
                assert(views.take(k as int) =~= views);
            },
            None => {
                assert(start + Seq::<CountView>::empty() =~= start);
            },
        }
        i += 1;
    }
    assert(found@.take(i as int) =~= found@);
    tops
}

/// Who mail was exchanged with over all accounts, most often first, at most `limit` persons. A cache
/// that could not be read counts for nothing.
pub fn top_contacts(found: &Vec<Option<Vec<AddressCount>>>, limit: usize) -> (r: Vec<TopContact>)
    requires
        counts_fit(found@),
    ensures
        top_views(r@) == ranking(read_counts(found@), limit),
{
    let tops = tallied(found);
    let order = sort_rows(&tops);
    let ghost all = tally(read_counts(found@));
    proof {
        assert(all.len() == tops@.len());
        assert forall|i: int, j: int| 0 <= i < tops@.len() && 0 <= j < tops@.len() implies (
        #[trigger] tops@[i].goes_before(tops@[j])) == all[i].goes_before(all[j]) by {
            assert(all[i] == top_view(tops@[i]));
            assert(all[j] == top_view(tops@[j]));
        }
        lemma_same_order(tops@, all);
        assert(as_rows(order@).len() == order@.len());
    }
    let ghost want = ranking(read_counts(found@), limit);
    let mut out: Vec<TopContact> = Vec::new();
    let mut j: usize = 0;
    assert(top_views(out@) =~= want.take(0));
    while j < order.len() && j < limit
        invariant
            j <= order.len(),
            j <= limit,
            order@.len() == tops@.len() == all.len(),
            top_views(tops@) == all,
            as_rows(order@) == key_order(all),
            all == tally(read_counts(found@)),
            want == ranking(read_counts(found@), limit),
            forall|k: int| 0 <= k < order@.len() ==> #[trigger] order@[k] < tops@.len(),
            top_views(out@) == want.take(j as int),
        decreases order.len() - j,
    {
        let k: usize = order[j];
        let ghost before = top_views(out@);
        let top = TopContact {
            name: tops[k].name.clone(),
            address: tops[k].address.clone(),
            count: tops[k].count,
        };
        proof {
            assert(as_rows(order@)[j as int] == k);
            assert(all[k as int] == top_view(tops@[k as int]));
            assert(want[j as int] == top_view(top));
        }
        out.push(top);
        assert(top_views(out@) =~= before.push(top_view(top)));
        assert(want.take(j + 1) =~= want.take(j as int).push(want[j as int]));
        j += 1;
    }
    assert(want.take(j as int) =~= want);
    out
}

/// Whether the sum of all counts fits into 64 bits.
pub fn check_counts(found: &Vec<Option<Vec<AddressCount>>>) -> (r: bool)
    ensures
        r == counts_fit(found@),
{
    let ghost whole = read_counts(found@);
    let mut sum: u64 = 0;
    let mut i: usize = 0;
    assert(found@.take(0) =~= Seq::<Option<Vec<AddressCount>>>::empty());
    while i < found.len()
        invariant
            i <= found.len(),
            whole == read_counts(found@),
            sum == total(read_counts(found@.take(i as int))),
        decreases found.len() - i,
    {
        let ghost start = read_counts(found@.take(i as int));
        proof {
            assert(found@.take(i + 1).drop_last() =~= found@.take(i as int));
            lemma_counts_prefix(found@, i + 1);
        }
        match &found[i] {
            Some(counts) => {
                let ghost views = counts@.map_values(|c: AddressCount| count_view(c));
                let ghost here = start + views;
                let mut k: usize = 0;
                assert(start + views.take(0) =~= start);
                assert(here == read_counts(found@.take(i + 1)));
                while k < counts.len()
                    invariant
                        k <= counts.len(),
                        whole == read_counts(found@),
                        views == counts@.map_values(|c: AddressCount| count_view(c)),
                        here == start + views,
                        here.len() <= whole.len(),
                        whole.take(here.len() as int) == here,
                        sum == total(start + views.take(k as int)),
                    decreases counts.len() - k,
                {
                    let ghost now = start + views.take(k as int);
                    let ghost next = start + views.take(k + 1);
                    proof {
                        assert(next =~= now.push(count_view(counts@[k as int])));
                        assert(next.drop_last() =~= now);
                        assert(next =~= here.take(next.len() as int));
                        assert(next =~= whole.take(next.len() as int));
                        lemma_total_grows(whole, next.len() as int);
                    }
                    if counts[k].count > u64::MAX - sum {
                        return false;
                    }
                    sum += counts[k].count;
                    k += 1;
                }
                assert(views.take(k as int) =~= views);
            },
            None => {
                assert(start + Seq::<CountView>::empty() =~= start);
            },
        }
        i += 1;
    }
    assert(found@.take(i as int) =~= found@);
    true
}

/// Ranked persons follow each other by count, the most frequent first, and by address where the
/// counts are equal; no address occurs twice.
pub proof fn lemma_ranking_descends(counts: Seq<CountView>, limit: usize, a: int, b: int)
    requires
        0 <= a < b < ranking(counts, limit).len(),
    ensures
        ranks_before(ranking(counts, limit)[a], ranking(counts, limit)[b]),
        ranking(counts, limit)[a].address != ranking(counts, limit)[b].address,
{
    let all = tally(counts);
    assert(ordered_keys::<CountView>()) by {
        assert forall|x: CountView, y: CountView| #![auto] x.goes_before(y) || y.goes_before(x) by {
            lemma_text_le_total(x.address, y.address);
        }
        assert forall|x: CountView, y: CountView, z: CountView|
            #![trigger x.goes_before(y), y.goes_before(z)]
            x.goes_before(y) && y.goes_before(z) implies x.goes_before(z) by {
            if x.count == y.count && y.count == z.count {
                lemma_text_le_transitive(x.address, y.address, z.address);
            }
        }
    }
    lemma_key_order_sorts(all);
    lemma_key_order_arranges(all);
    lemma_tally_total(counts);
    let rows = key_order(all);
    assert(in_key_order(all, rows[a], rows[b]));
    assert(0 <= rows[a] < all.len());
    assert(0 <= rows[b] < all.len());
    assert(rows[a] != rows[b]);
    if rows[a] < rows[b] {
        assert(all[rows[a]].address != all[rows[b]].address);
    } else {
        assert(all[rows[b]].address != all[rows[a]].address);
    }
}

/// The contacts of one account.
#[derive(Debug)]
pub struct ContactSource {
    pub account_id: String,
    pub snapshot: ContactsAccountSnapshot,
}

/// What the assistant learns of a contact.
#[derive(Debug)]
pub struct ContactEntry {
    pub account: String,
    pub name: String,
    pub emails: Vec<String>,
}

/// What the assistant learns of a contact, as text.
pub struct ContactView {
    pub account: Seq<char>,
    pub name: Seq<char>,
    pub emails: Seq<Seq<char>>,
}

/// Contacts as text.
pub open spec fn contact_views(v: Seq<ContactEntry>) -> Seq<ContactView> {
    v.map_values(
        |e: ContactEntry| ContactView { account: e.account@, name: e.name@, emails: texts_of(e.emails@) },
    )
}

/// What the assistant learns of a contact.
pub open spec fn contact_of(account: Seq<char>, card: VCard) -> ContactView {
    ContactView {
        account,
        name: or_empty(card.full_name),
        emails: named_addresses(card).map_values(|a: EmailAddressView| full_label(a)),
    }
}

/// A contact has a text in its name or in one of its mail addresses.
pub open spec fn contact_matches(c: ContactView, query: Seq<char>) -> bool {
    ||| query.len() == 0
    ||| has_text(lowercase(c.name), query)
    ||| exists|i: int| 0 <= i < c.emails.len() && has_text(lowercase(#[trigger] c.emails[i]), query)
}

/// The contacts of the first `n` cards of an account that have a text.
pub open spec fn account_matches(source: ContactSource, query: Seq<char>, n: int) -> Seq<ContactView>
    decreases n,
{
    if n <= 0 {
        Seq::empty()
    } else {
        let before = account_matches(source, query, n - 1);
        let c = contact_of(source.account_id@, source.snapshot.contacts@[n - 1].card);
        if contact_matches(c, query) {
            before.push(c)
        } else {
            before
        }
    }
}

/// The contacts of the first `n` accounts that have a text.
pub open spec fn matches_upto(sources: Seq<ContactSource>, query: Seq<char>, n: int) -> Seq<ContactView>
    decreases n,
{
    if n <= 0 {
        Seq::empty()
    } else {
        matches_upto(sources, query, n - 1) + account_matches(
            sources[n - 1],
            query,
            sources[n - 1].snapshot.contacts@.len() as int,
        )
    }
}

fn contact_entry(account: &str, card: &VCard) -> (r: ContactEntry)
    ensures
        (ContactView { account: r.account@, name: r.name@, emails: texts_of(r.emails@) }) == contact_of(
            account@,
            *card,
        ),
{
    let addresses = email_addresses(card);
    let emails = labels(&addresses);
    assert(texts_of(emails@) =~= named_addresses(*card).map_values(|a: EmailAddressView| full_label(a)))
        by {
        assert(address_views(addresses@) == named_addresses(*card));
        assert forall|i: int| 0 <= i < addresses@.len() implies #[trigger] texts_of(emails@)[i]
            == full_label(named_addresses(*card)[i]) by {
            assert(address_views(addresses@)[i] == addresses@[i]@);
        }
        assert(texts_of(emails@).len() == address_views(addresses@).len());
    }
    ContactEntry { account: account.to_owned(), name: owned_or_empty(&card.full_name), emails }
}

fn entry_matches(e: &ContactEntry, query: &str) -> (r: bool)
    ensures
        r == contact_matches(
            (ContactView { account: e.account@, name: e.name@, emails: texts_of(e.emails@) }),
            query@,
        ),
{
    if query.is_empty() {
        return true;
    }
    if contains(&e.name.as_str().to_lowercase(), query) {
        return true;
    }
    let ghost view = ContactView { account: e.account@, name: e.name@, emails: texts_of(e.emails@) };
    let mut i: usize = 0;
    while i < e.emails.len()
        invariant
            i <= e.emails.len(),
            view == (ContactView { account: e.account@, name: e.name@, emails: texts_of(e.emails@) }),
            forall|k: int| 0 <= k < i ==> !has_text(lowercase(#[trigger] view.emails[k]), query@),
        decreases e.emails.len() - i,
    {
        if contains(&e.emails[i].as_str().to_lowercase(), query) {
            assert(has_text(lowercase(view.emails[i as int]), query@));
            assert(contact_matches(view, query@));
            return true;
        }
        i += 1;
    }
    false
}

proof fn lemma_account_matches_grow(source: ContactSource, query: Seq<char>, a: int, b: int)
    requires
        0 <= a <= b,
    ensures
        account_matches(source, query, a).len() <= account_matches(source, query, b).len(),
        account_matches(source, query, b).take(account_matches(source, query, a).len() as int)
            == account_matches(source, query, a),
    decreases b - a,
{
    let x = account_matches(source, query, a);
    let z = account_matches(source, query, b);
    if a < b {
        lemma_account_matches_grow(source, query, a, b - 1);
        let y = account_matches(source, query, b - 1);
        assert(z.take(x.len() as int) =~= y.take(x.len() as int));
    } else {
        assert(z.take(x.len() as int) =~= x);
    }
}

proof fn lemma_matches_grow(sources: Seq<ContactSource>, query: Seq<char>, a: int, b: int)
    requires
        0 <= a <= b,
    ensures
        matches_upto(sources, query, a).len() <= matches_upto(sources, query, b).len(),
        matches_upto(sources, query, b).take(matches_upto(sources, query, a).len() as int)
            == matches_upto(sources, query, a),
    decreases b - a,
{
    let x = matches_upto(sources, query, a);
    let z = matches_upto(sources, query, b);
    if a < b {
        lemma_matches_grow(sources, query, a, b - 1);
        let y = matches_upto(sources, query, b - 1);
        assert(z.take(x.len() as int) =~= y.take(x.len() as int));
    } else {
        assert(z.take(x.len() as int) =~= x);
    }
}

/// What the assistant learns of the contacts of all accounts that have a text in their name or their
/// mail addresses, at most `limit` of them. The text is in lower case.
pub fn list_contacts(sources: &Vec<ContactSource>, query: &str, limit: usize) -> (r: Vec<ContactEntry>)
    requires
        limit > 0,
    ensures
        contact_views(r@) == first_rows(
            matches_upto(sources@, query@, sources@.len() as int),
            limit,
        ),
{
    let mut out: Vec<ContactEntry> = Vec::new();
    let mut i: usize = 0;
    assert(contact_views(out@) =~= matches_upto(sources@, query@, 0));
    while i < sources.len()
        invariant
            i <= sources.len(),
            limit > 0,
            out@.len() < limit,
            contact_views(out@) == matches_upto(sources@, query@, i as int),
        decreases sources.len() - i,
    {
        let source = &sources[i];
        let ghost start = contact_views(out@);
        let mut k: usize = 0;
        assert(contact_views(out@) =~= start + account_matches(*source, query@, 0));
        while k < source.snapshot.contacts.len()
            invariant
                i < sources.len(),
                k <= source.snapshot.contacts.len(),
                *source == sources@[i as int],
                limit > 0,
                out@.len() < limit,
                start == matches_upto(sources@, query@, i as int),
                contact_views(out@) == start + account_matches(*source, query@, k as int),
            decreases source.snapshot.contacts.len() - k,
        {
            let ghost before = contact_views(out@);
            let e = contact_entry(&source.account_id, &source.snapshot.contacts[k].card);
            let ghost view = contact_of(source.account_id@, source.snapshot.contacts@[k as int].card);
            if entry_matches(&e, query) {
                out.push(e);
                assert(contact_views(out@) =~= before.push(view));
                assert(contact_views(out@) =~= start + account_matches(*source, query@, k + 1));
                if out.len() >= limit {
                    proof {
                        let n = source.snapshot.contacts@.len() as int;
                        let all = matches_upto(sources@, query@, sources@.len() as int);
                        let here = matches_upto(sources@, query@, i + 1);
                        lemma_account_matches_grow(*source, query@, k + 1, n);
                        lemma_matches_grow(sources@, query@, i + 1, sources@.len() as int);
                        let part = account_matches(*source, query@, k + 1);
                        assert(here == start + account_matches(*source, query@, n));
                        assert(contact_views(out@).len() == out@.len());
                        assert(here.take(limit as int) =~= start + part);
                        assert(all.take(limit as int) =~= here.take(limit as int));
                        if all.len() <= limit {
                            assert(all.take(limit as int) =~= all);
                        }
                    }
                    return out;
                }
            }
            k += 1;
        }
        i += 1;
    }
    assert(contact_views(out@).len() == out@.len());
    out
}

/// How far a task has come.
#[derive(Clone, Copy, PartialEq, Eq, Structural, Debug)]
pub enum TaskStatus {
    NeedsAction,
    InProcess,
    Completed,
    Cancelled,
}

/// A task.
#[derive(Debug)]
pub struct CalendarTask {
    pub calendar_id: String,
    pub summary: Option<String>,
    pub due: Option<Instant>,
    pub status: TaskStatus,
    pub priority: u8,
    pub categories: Vec<String>,
}

/// The last point in time that there is.
pub open spec fn end_of_time() -> Instant {
    Instant { secs: 8_210_266_876_799, nanos: 999_999_999 }
}

/// What the assistant learns of a task.
#[derive(Debug)]
pub struct TaskEntry {
    pub summary: String,
    pub due: Option<String>,
    pub status: TaskStatus,
    pub priority: u8,
    pub categories: Vec<String>,
    pub calendar: String,
}

/// An entry says what is to be known of a task.
pub open spec fn tells_task(e: TaskEntry, t: CalendarTask) -> bool {
    &&& e.summary@ == or_empty(t.summary)
    &&& text_of(e.due) == (match t.due {
        Some(at) => Some(rfc3339(at.secs as int, at.nanos as int)),
        None => None,
    })
    &&& e.status == t.status
    &&& e.priority == t.priority
    &&& texts_of(e.categories@) == texts_of(t.categories@)
    &&& e.calendar@ == t.calendar_id@
}

/// Picks the tasks to tell: all, or those that are not completed.
pub open spec fn told(all: bool) -> spec_fn(CalendarTask) -> bool {
    |t: CalendarTask| all || t.status != TaskStatus::Completed
}

/// When a task is due; one without a date at the end of time.
pub open spec fn due_key(t: CalendarTask) -> Soonest {
    Soonest {
        at: match t.due {
            Some(at) => at,
            None => end_of_time(),
        },
    }
}

/// Tasks in the order in which they are told: the first due first.
pub open spec fn due_rows(s: Seq<CalendarTask>) -> Seq<int> {
    key_order(s.map_values(|t: CalendarTask| due_key(t)))
}

/// The due dates of tasks are points in time that there are.
pub open spec fn dated_tasks(s: Seq<CalendarTask>) -> bool {
    forall|i: int| 0 <= i < s.len() ==> ((#[trigger] s[i]).due matches Some(at) ==> at.valid())
}

fn task_entry(t: &CalendarTask) -> (r: TaskEntry)
    requires
        t.due matches Some(at) ==> at.valid(),
    ensures
        tells_task(r, *t),
{
    let due: Option<String> = match t.due {
        Some(at) => Some(at.to_rfc3339()),
        None => None,
    };
    TaskEntry {
        summary: owned_or_empty(&t.summary),
        due,
        status: t.status,
        priority: t.priority,
        categories: clone_strings(&t.categories),
        calendar: t.calendar_id.clone(),
    }
}

fn told_tasks<'a>(tasks: &'a Vec<CalendarTask>, all: bool) -> (r: Vec<&'a CalendarTask>)
    ensures
        r@.unref() == tasks@.filter(told(all)),
{
    let ghost keep = told(all);
    let mut out: Vec<&'a CalendarTask> = Vec::new();
    let mut i: usize = 0;
    assert(tasks@.take(0).filter(keep) =~= Seq::<CalendarTask>::empty());
    assert(out@.unref() =~= tasks@.take(0).filter(keep));
    while i < tasks.len()
        invariant
            i <= tasks.len(),
            keep == told(all),
            out@.unref() == tasks@.take(i as int).filter(keep),
        decreases tasks.len() - i,
    {
        let ghost before = out@.unref();
        proof {
            assert(tasks@.take(i + 1) =~= tasks@.take(i as int).push(tasks@[i as int]));
            tasks@.take(i as int).lemma_filter_push(tasks@[i as int], keep);
        }
        if all || tasks[i].status != TaskStatus::Completed {
            out.push(&tasks[i]);
            assert(out@.unref() =~= before.push(tasks@[i as int]));
        }
        i += 1;
    }
    assert(tasks@.take(i as int) =~= tasks@);
    out
}

/// What the assistant learns of the tasks, those due first, at most `limit` of them: all, or those
/// that are not completed.
pub fn list_tasks(tasks: &Vec<CalendarTask>, all: bool, limit: usize) -> (r: Vec<TaskEntry>)
    requires
        dated_tasks(tasks@.filter(told(all))),
    ensures
        ({
            let shown = tasks@.filter(told(all));
            let rows = first_rows(due_rows(shown), limit);
            &&& r@.len() == rows.len()
            &&& forall|i: int| 0 <= i < r@.len() ==> tells_task(#[trigger] r@[i], shown[rows[i]])
        }),
{
    let kept = told_tasks(tasks, all);
    let ghost shown = tasks@.filter(told(all));
    assert(shown.len() == kept@.len());
    let ghost wanted = shown.map_values(|t: CalendarTask| due_key(t));
    let mut keys: Vec<Soonest> = Vec::new();
    let mut i: usize = 0;
    while i < kept.len()
        invariant
            i <= kept.len(),
            kept@.unref() == shown,
            shown.len() == kept@.len(),
            wanted == shown.map_values(|t: CalendarTask| due_key(t)),
            keys@ == wanted.take(i as int),
        decreases kept.len() - i,
    {
        assert(shown[i as int] == *kept@[i as int]);
        let at = match kept[i].due {
            Some(at) => at,
            None => Instant { secs: 8_210_266_876_799, nanos: 999_999_999 },
        };
        keys.push(Soonest { at });
        assert(keys@ =~= wanted.take(i + 1));
        i += 1;
    }
    assert(keys@ =~= wanted);
    let order = sort_rows(&keys);
    let ghost rows = first_rows(due_rows(shown), limit);
    assert(as_rows(order@).len() == order@.len());
    let mut out: Vec<TaskEntry> = Vec::new();
    let mut j: usize = 0;
    while j < order.len() && j < limit
        invariant
            j <= order.len(),
            j <= limit,
            order@.len() == kept@.len() == shown.len(),
            kept@.unref() == shown,
            dated_tasks(shown),
            as_rows(order@) == due_rows(shown),
            rows == first_rows(due_rows(shown), limit),
            forall|k: int| 0 <= k < order@.len() ==> #[trigger] order@[k] < kept@.len(),
            out@.len() == j,
            forall|k: int| 0 <= k < j ==> tells_task(#[trigger] out@[k], shown[rows[k]]),
        decreases order.len() - j,
    {
        let k: usize = order[j];
        assert(as_rows(order@)[j as int] == k);
        assert(shown[k as int] == *kept@[k as int]);
        out.push(task_entry(kept[k]));
        j += 1;
    }
    out
}

/// Tasks without a date are told after those that have one before the end of time.
pub proof fn lemma_undated_last(s: Seq<CalendarTask>, a: int, b: int)
    requires
        0 <= a < b < s.len(),
        s[due_rows(s)[a]].due is None,
    ensures
        s[due_rows(s)[b]].due matches Some(at) ==> end_of_time().le(at),
{
    let keys = s.map_values(|t: CalendarTask| due_key(t));
    assert(ordered_keys::<Soonest>());
    lemma_key_order_sorts(keys);
    lemma_key_order_arranges(keys);
    assert(in_key_order(keys, key_order(keys)[a], key_order(keys)[b]));
    assert(0 <= due_rows(s)[a] < s.len());
    assert(0 <= due_rows(s)[b] < s.len());
}

/// One of the calendars is this one.
pub open spec fn is_checked(checked: Seq<String>, calendar: Seq<char>) -> bool {
    exists|i: int| 0 <= i < checked.len() && (#[trigger] checked[i])@ == calendar
}

/// The point in time some days after another one.
pub open spec fn days_after(now: Instant, days: int) -> Instant {
    Instant { secs: (now.secs + days * DAY_SECONDS) as i64, nanos: now.nanos }
}

/// Picks what is to come: what starts on a shown calendar from now on, within some days.
pub open spec fn to_come(checked: Seq<String>, now: Instant, days: int) -> spec_fn(EventOccurrence) -> bool {
    |o: EventOccurrence|
        is_checked(checked, o.calendar_id@) && now.le(o.start.instant) && o.start.instant.le(
            days_after(now, days),
        )
}

/// The numbers of the occurrences to come.
pub open spec fn coming_rows(
    occurrences: Seq<EventOccurrence>,
    checked: Seq<String>,
    now: Instant,
    days: int,
) -> Seq<int> {
    Seq::new(occurrences.len(), |i: int| i).filter(
        |i: int| to_come(checked, now, days)(occurrences[i]),
    )
}

/// The numbers of occurrences in the order in which they are told: the soonest first, at most
/// `limit` of them.
pub open spec fn soonest_rows(occurrences: Seq<EventOccurrence>, rows: Seq<int>, limit: usize) -> Seq<int> {
    first_rows(
        key_order(rows.map_values(|i: int| Soonest { at: occurrences[i].start.instant })),
        limit,
    ).map_values(|k: int| rows[k])
}

fn calendar_checked(checked: &Vec<String>, calendar: &str) -> (r: bool)
    ensures
        r == is_checked(checked@, calendar@),
{
    let mut i: usize = 0;
    while i < checked.len()
        invariant
            i <= checked.len(),
            forall|k: int| 0 <= k < i ==> (#[trigger] checked@[k])@ != calendar@,
        decreases checked.len() - i,
    {
        if same(&checked[i], calendar) {
            assert(checked@[i as int]@ == calendar@);
            return true;
        }
        i += 1;
    }
    false
}

/// The numbers of the occurrences to come on the shown calendars within some days, the soonest
/// first, at most `limit` of them.
pub fn upcoming_rows(
    occurrences: &Vec<EventOccurrence>,
    now: Instant,
    checked: &Vec<String>,
    days: i64,
    limit: usize,
) -> (r: Vec<usize>)
    requires
        now.in_range(),
        1 <= days <= MAX_EVENT_HORIZON_DAYS,
    ensures
        as_rows(r@) == soonest_rows(
            occurrences@,
            coming_rows(occurrences@, checked@, now, days as int),
            limit,
        ),
        forall|k: int| 0 <= k < r@.len() ==> #[trigger] r@[k] < occurrences@.len(),
{
    let ghost all = Seq::new(occurrences@.len(), |i: int| i);
    let ghost keep = |i: int| to_come(checked@, now, days as int)(occurrences@[i]);
    let last = Instant { secs: now.secs + days * 86400, nanos: now.nanos };
    let mut kept: Vec<usize> = Vec::new();
    let mut keys: Vec<Soonest> = Vec::new();
    let mut i: usize = 0;
    assert(all.take(0).filter(keep) =~= Seq::<int>::empty());
    assert(as_rows(kept@) =~= all.take(0).filter(keep));
    while i < occurrences.len()
        invariant
            i <= occurrences.len(),
            all == Seq::new(occurrences@.len(), |i: int| i),
            keep == |i: int| to_come(checked@, now, days as int)(occurrences@[i]),
            last == days_after(now, days as int),
            as_rows(kept@) == all.take(i as int).filter(keep),
            kept@.len() == keys@.len(),
            forall|k: int| 0 <= k < kept@.len() ==> #[trigger] kept@[k] < occurrences@.len(),
            forall|k: int| 0 <= k < keys@.len() ==> #[trigger] keys@[k] == (Soonest {
                at: occurrences@[kept@[k] as int].start.instant,
            }),
        decreases occurrences.len() - i,
    {
        let ghost before = as_rows(kept@);
        let o = &occurrences[i];
        proof {
            assert(all.take(i + 1) =~= all.take(i as int).push(i as int));
            all.take(i as int).lemma_filter_push(i as int, keep);
        }
        if calendar_checked(checked, &o.calendar_id) && now.no_later_than(o.start.instant)
            && o.start.instant.no_later_than(last) {
            kept.push(i);
            keys.push(Soonest { at: o.start.instant });
            assert(as_rows(kept@) =~= before.push(i as int));
        }
        i += 1;
    }
    assert(all.take(i as int) =~= all);
    let ghost rows = coming_rows(occurrences@, checked@, now, days as int);
    assert(rows.len() == kept@.len());
    assert(keys@ =~= rows.map_values(|i: int| Soonest { at: occurrences@[i].start.instant })) by {
        assert forall|k: int| 0 <= k < keys@.len() implies rows[k] == kept@[k] by {
            assert(as_rows(kept@)[k] == kept@[k]);
        }
    }
    let order = sort_rows(&keys);
    let ghost ranks = key_order(keys@);
    let ghost want = soonest_rows(occurrences@, rows, limit);
    assert(as_rows(order@).len() == order@.len());
    let mut out: Vec<usize> = Vec::new();
    let mut j: usize = 0;
    assert(as_rows(out@) =~= want.take(0));
    while j < order.len() && j < limit
        invariant
            j <= order.len(),
            j <= limit,
            order@.len() == kept@.len() == rows.len(),
            as_rows(kept@) == rows,
            as_rows(order@) == ranks,
            want == first_rows(ranks, limit).map_values(|k: int| rows[k]),
            forall|k: int| 0 <= k < order@.len() ==> #[trigger] order@[k] < kept@.len(),
            forall|k: int| 0 <= k < kept@.len() ==> #[trigger] kept@[k] < occurrences@.len(),
            forall|k: int| 0 <= k < out@.len() ==> #[trigger] out@[k] < occurrences@.len(),
            as_rows(out@) == want.take(j as int),
        decreases order.len() - j,
    {
        let k: usize = order[j];
        let ghost before = as_rows(out@);
        assert(as_rows(order@)[j as int] == k);
        assert(as_rows(kept@)[k as int] == kept@[k as int]);
        out.push(kept[k]);
        assert(as_rows(out@) =~= before.push(rows[k as int]));
        assert(want.take(j + 1) =~= want.take(j as int).push(want[j as int]));
        j += 1;
    }
    assert(want.take(j as int) =~= want);
    out
}

/// The occurrences to come on the shown calendars within some days, the soonest first, at most
/// `limit` of them.
pub fn upcoming_events<'a>(
    occurrences: &'a Vec<EventOccurrence>,
    now: Instant,
    checked: &Vec<String>,
    days: i64,
    limit: usize,
) -> (r: Vec<&'a EventOccurrence>)
    requires
        now.in_range(),
        1 <= days <= MAX_EVENT_HORIZON_DAYS,
    ensures
        r@.unref() == soonest_rows(
            occurrences@,
            coming_rows(occurrences@, checked@, now, days as int),
            limit,
        ).map_values(|i: int| occurrences@[i]),
{
    let rows = upcoming_rows(occurrences, now, checked, days, limit);
    let ghost want = as_rows(rows@).map_values(|i: int| occurrences@[i]);
    let mut out: Vec<&'a EventOccurrence> = Vec::new();
    let mut i: usize = 0;
    assert(as_rows(rows@).len() == rows@.len());
    assert(out@.unref() =~= want.take(0));
    while i < rows.len()
        invariant
            i <= rows.len() == want.len(),
            want == as_rows(rows@).map_values(|i: int| occurrences@[i]),
            forall|k: int| 0 <= k < rows@.len() ==> #[trigger] rows@[k] < occurrences@.len(),
            out@.unref() == want.take(i as int),
        decreases rows.len() - i,
    {
        let ghost before = out@.unref();
        assert(as_rows(rows@)[i as int] == rows@[i as int]);
        out.push(&occurrences[rows[i]]);
        assert(out@.unref() =~= before.push(occurrences@[rows@[i as int] as int]));
        assert(want.take(i + 1) =~= want.take(i as int).push(want[i as int]));
        i += 1;
    }
    assert(want.take(i as int) =~= want);
    out
}

/// What the assistant learns of an occurrence.
#[derive(Debug)]
pub struct EventEntry {
    pub summary: String,
    pub start: String,
    pub end: String,
    pub all_day: bool,
    pub location: Option<String>,
    pub link: String,
}

/// An entry says what is to be known of an occurrence, whose JSON form its link carries.
pub open spec fn tells_event(e: EventEntry, o: EventOccurrence, json: Seq<char>) -> bool {
    &&& e.summary@ == or_empty(o.summary)
    &&& e.start@ == rfc3339(o.start.instant.secs as int, o.start.instant.nanos as int)
    &&& e.end@ == rfc3339(o.end.instant.secs as int, o.end.instant.nanos as int)
    &&& e.all_day == o.all_day
    &&& text_of(e.location) == text_of(o.location)
    &&& e.link@ == link("open-event"@, json)
}

/// What the assistant learns of an occurrence. Its link carries the occurrence's JSON form.
pub fn event_entry(o: &EventOccurrence, json: &str) -> (r: EventEntry)
    requires
        o.start.instant.valid(),
        o.end.instant.valid(),
    ensures
        tells_event(r, *o, json@),
{
    EventEntry {
        summary: owned_or_empty(&o.summary),
        start: o.start.instant.to_rfc3339(),
        end: o.end.instant.to_rfc3339(),
        all_day: o.all_day,
        location: o.location.clone(),
        link: open_event_link(json),
    }
}

} // verus!
