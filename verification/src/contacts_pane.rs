//! The people screen: which buckets of contacts there are, and who is in them.

use crate::contacts::{address_views, contact_identity, dedupe_addresses, display_name, distinct, identity};
use crate::contacts::{limited, matches_prefix, merge_contact_suggestions, push_matching, vcard_display_name};
use crate::contacts::{ContactsAccountSnapshot, VCard};
use crate::model::{text_of, EmailAddress, EmailAddressView};
use crate::sorting::{as_rows, key_texts, sort_texts, text_order, TextKey};
use crate::text::{lemma_trimmed_ends, lemma_trimmed_fixed, lowercase, same, trim, trimmed};
use vstd::prelude::*;

verus! {

/// A connected account: what is known of its contacts, and the cards that went missing on its
/// server.
#[derive(Debug)]
pub struct PaneAccount {
    pub account_id: String,
    pub snapshot: ContactsAccountSnapshot,
    pub deleted: Vec<VCard>,
}

/// A card of an account: one on its server, or one that went missing there.
#[derive(Clone, Copy, PartialEq, Eq, Structural, Debug)]
pub enum Member {
    Live { account: usize, contact: usize },
    Deleted { account: usize, card: usize },
}

/// What a bucket of contacts holds.
#[derive(Debug)]
pub enum ContactsBucketKind {
    AllContacts,
    Favourites,
    ContactLists,
    Deleted,
    Category(String),
}

/// What a bucket of contacts holds, as text.
pub enum BucketView {
    AllContacts,
    Favourites,
    ContactLists,
    Deleted,
    Category(Seq<char>),
}

impl View for ContactsBucketKind {
    type V = BucketView;

    open spec fn view(&self) -> BucketView {
        match self {
            ContactsBucketKind::AllContacts => BucketView::AllContacts,
            ContactsBucketKind::Favourites => BucketView::Favourites,
            ContactsBucketKind::ContactLists => BucketView::ContactLists,
            ContactsBucketKind::Deleted => BucketView::Deleted,
            ContactsBucketKind::Category(name) => BucketView::Category(name@),
        }
    }
}

/// A bucket and the contacts in it.
#[derive(Debug)]
pub struct ContactsCategoryChoice {
    pub kind: ContactsBucketKind,
    pub contacts: Vec<Member>,
}

/// A bucket and the contacts in it.
pub struct ChoiceView {
    pub kind: BucketView,
    pub contacts: Seq<Member>,
}

impl View for ContactsCategoryChoice {
    type V = ChoiceView;

    open spec fn view(&self) -> ChoiceView {
        ChoiceView { kind: self.kind@, contacts: self.contacts@ }
    }
}

/// A row of the left pane: a header, or a bucket by its number.
#[derive(Debug)]
pub enum PaneRow {
    Header(String),
    Choice(String, usize),
}

/// A row of the left pane.
pub enum RowView {
    Header(Seq<char>),
    Choice(Seq<char>, int),
}

impl View for PaneRow {
    type V = RowView;

    open spec fn view(&self) -> RowView {
        match self {
            PaneRow::Header(label) => RowView::Header(label@),
            PaneRow::Choice(label, index) => RowView::Choice(label@, *index as int),
        }
    }
}

/// The name of a bucket.
pub open spec fn bucket_label(kind: BucketView) -> Seq<char> {
    match kind {
        BucketView::AllContacts => "Your Contacts"@,
        BucketView::Favourites => "Favourites"@,
        BucketView::ContactLists => "Your contact lists"@,
        BucketView::Deleted => "Deleted"@,
        BucketView::Category(name) => name,
    }
}

/// The name of a bucket.
pub fn contacts_bucket_label(kind: &ContactsBucketKind) -> (r: String)
    ensures
        r@ == bucket_label(kind@),
{
    match kind {
        ContactsBucketKind::AllContacts => "Your Contacts".to_owned(),
        ContactsBucketKind::Favourites => "Favourites".to_owned(),
        ContactsBucketKind::ContactLists => "Your contact lists".to_owned(),
        ContactsBucketKind::Deleted => "Deleted".to_owned(),
        ContactsBucketKind::Category(name) => name.clone(),
    }
}

/// A member stands for a card that is there.
pub open spec fn valid_member(accounts: Seq<PaneAccount>, m: Member) -> bool {
    match m {
        Member::Live { account, contact } => account < accounts.len() && contact
            < accounts[account as int].snapshot.contacts@.len(),
        Member::Deleted { account, card } => account < accounts.len() && card
            < accounts[account as int].deleted@.len(),
    }
}

/// All members stand for cards that are there.
pub open spec fn valid_members(accounts: Seq<PaneAccount>, s: Seq<Member>) -> bool {
    forall|i: int| 0 <= i < s.len() ==> valid_member(accounts, #[trigger] s[i])
}

/// The buckets hold only cards that are there.
pub open spec fn valid_choices(accounts: Seq<PaneAccount>, choices: Seq<ContactsCategoryChoice>) -> bool {
    forall|i: int| 0 <= i < choices.len() ==> valid_members(accounts, (#[trigger] choices[i]).contacts@)
}

/// The card that a member stands for.
pub open spec fn member_card(accounts: Seq<PaneAccount>, m: Member) -> VCard {
    match m {
        Member::Live { account, contact } => accounts[account as int].snapshot.contacts@[contact as int].card,
        Member::Deleted { account, card } => accounts[account as int].deleted@[card as int],
    }
}

/// The account of a member.
pub open spec fn member_account(m: Member) -> int {
    match m {
        Member::Live { account, .. } => account as int,
        Member::Deleted { account, .. } => account as int,
    }
}

/// The accounts by name, in any case.
pub open spec fn account_order(accounts: Seq<PaneAccount>) -> Seq<int> {
    text_order(accounts.map_values(|a: PaneAccount| lowercase(a.snapshot.display_name@)))
}

/// The cards on an account's server.
pub open spec fn live_members(accounts: Seq<PaneAccount>, a: int) -> Seq<Member> {
    Seq::new(
        accounts[a].snapshot.contacts@.len(),
        |c: int| Member::Live { account: a as usize, contact: c as usize },
    )
}

/// The cards that went missing on an account's server.
pub open spec fn deleted_members(accounts: Seq<PaneAccount>, a: int) -> Seq<Member> {
    Seq::new(
        accounts[a].deleted@.len(),
        |c: int| Member::Deleted { account: a as usize, card: c as usize },
    )
}

/// A card that stands for a list of contacts.
pub open spec fn is_contact_list(card: VCard) -> bool {
    card.kind matches Some(kind) && kind@ == "group"@
}

/// Picks the contact lists.
pub open spec fn lists_in(accounts: Seq<PaneAccount>) -> spec_fn(Member) -> bool {
    |m: Member| is_contact_list(member_card(accounts, m))
}

/// The buckets that every account has.
pub open spec fn account_choices(accounts: Seq<PaneAccount>, a: int) -> Seq<ChoiceView> {
    seq![
        ChoiceView { kind: BucketView::AllContacts, contacts: live_members(accounts, a) },
        ChoiceView { kind: BucketView::Favourites, contacts: live_members(accounts, a) },
        ChoiceView {
            kind: BucketView::ContactLists,
            contacts: live_members(accounts, a).filter(lists_in(accounts)),
        },
        ChoiceView { kind: BucketView::Deleted, contacts: deleted_members(accounts, a) },
    ]
}

/// The buckets of the first `n` accounts in order.
pub open spec fn choices_upto(accounts: Seq<PaneAccount>, order: Seq<int>, n: int) -> Seq<ChoiceView>
    decreases n,
{
    if n <= 0 {
        Seq::empty()
    } else {
        choices_upto(accounts, order, n - 1) + account_choices(accounts, order[n - 1])
    }
}

/// The rows of an account whose first bucket has number `base`.
pub open spec fn account_rows(name: Seq<char>, base: int) -> Seq<RowView> {
    seq![
        RowView::Header(name),
        RowView::Choice("Your Contacts"@, base),
        RowView::Choice("Favourites"@, base + 1),
        RowView::Choice("Your contact lists"@, base + 2),
        RowView::Choice("Deleted"@, base + 3),
    ]
}

/// The rows of the first `n` accounts in order.
pub open spec fn rows_upto(accounts: Seq<PaneAccount>, order: Seq<int>, n: int) -> Seq<RowView>
    decreases n,
{
    if n <= 0 {
        Seq::empty()
    } else {
        rows_upto(accounts, order, n - 1) + account_rows(
            accounts[order[n - 1]].snapshot.display_name@,
            4 * (n - 1),
        )
    }
}

/// A tag and a card that carries it.
#[derive(Debug)]
pub struct Tagged {
    pub tag: String,
    pub member: Member,
}

/// Tags and the cards that carry them.
pub open spec fn tag_views(v: Seq<Tagged>) -> Seq<(Seq<char>, Member)> {
    v.map_values(|t: Tagged| (t.tag@, t.member))
}

/// The tags of one card.
pub open spec fn card_tags(accounts: Seq<PaneAccount>, a: int, c: int) -> Seq<(Seq<char>, Member)> {
    accounts[a].snapshot.contacts@[c].card.categories@.map_values(
        |t: String| (t@, Member::Live { account: a as usize, contact: c as usize }),
    )
}

/// The tags of the first `n` cards of an account.
pub open spec fn account_tags(accounts: Seq<PaneAccount>, a: int, n: int) -> Seq<(Seq<char>, Member)>
    decreases n,
{
    if n <= 0 {
        Seq::empty()
    } else {
        account_tags(accounts, a, n - 1) + card_tags(accounts, a, n - 1)
    }
}

/// The tags of the first `n` accounts in order.
pub open spec fn tags_upto(accounts: Seq<PaneAccount>, order: Seq<int>, n: int) -> Seq<(Seq<char>, Member)>
    decreases n,
{
    if n <= 0 {
        Seq::empty()
    } else {
        tags_upto(accounts, order, n - 1) + account_tags(
            accounts,
            order[n - 1],
            accounts[order[n - 1]].snapshot.contacts@.len() as int,
        )
    }
}

/// Each tag once.
pub open spec fn tag_names(tags: Seq<(Seq<char>, Member)>) -> Seq<Seq<char>>
    decreases tags.len(),
{
    if tags.len() == 0 {
        Seq::empty()
    } else {
        let before = tag_names(tags.drop_last());
        if before.contains(tags.last().0) {
            before
        } else {
            before.push(tags.last().0)
        }
    }
}

/// The tags in the order of their rows: by name, in any case.
pub open spec fn tag_order(names: Seq<Seq<char>>) -> Seq<int> {
    text_order(names.map_values(|s: Seq<char>| lowercase(s)))
}

/// Picks one tag.
pub open spec fn tagged_with(name: Seq<char>) -> spec_fn((Seq<char>, Member)) -> bool {
    |t: (Seq<char>, Member)| t.0 == name
}

/// The cards that carry a tag.
pub open spec fn tag_members(tags: Seq<(Seq<char>, Member)>, name: Seq<char>) -> Seq<Member> {
    tags.filter(tagged_with(name)).map_values(|t: (Seq<char>, Member)| t.1)
}

/// One bucket for each tag.
pub open spec fn category_choices(tags: Seq<(Seq<char>, Member)>) -> Seq<ChoiceView> {
    let names = tag_names(tags);
    tag_order(names).map_values(
        |i: int|
            ChoiceView {
                kind: BucketView::Category(names[i]),
                contacts: tag_members(tags, names[i]),
            },
    )
}

/// The row of each tag, below a header, unless there is no tag.
pub open spec fn category_rows(tags: Seq<(Seq<char>, Member)>, base: int) -> Seq<RowView> {
    let names = tag_names(tags);
    let order = tag_order(names);
    if names.len() == 0 {
        Seq::empty()
    } else {
        seq![RowView::Header("Categories"@)] + Seq::new(
            order.len(),
            |j: int| RowView::Choice(names[order[j]], base + j),
        )
    }
}

/// Every tag, in the order of the accounts.
pub open spec fn pane_tags(accounts: Seq<PaneAccount>) -> Seq<(Seq<char>, Member)> {
    tags_upto(accounts, account_order(accounts), accounts.len() as int)
}

/// The buckets of the left pane: those of each account, then one for each tag.
pub open spec fn pane_choices(accounts: Seq<PaneAccount>) -> Seq<ChoiceView> {
    choices_upto(accounts, account_order(accounts), accounts.len() as int) + category_choices(
        pane_tags(accounts),
    )
}

/// The rows of the left pane.
pub open spec fn pane_rows(accounts: Seq<PaneAccount>) -> Seq<RowView> {
    rows_upto(accounts, account_order(accounts), accounts.len() as int) + category_rows(
        pane_tags(accounts),
        4 * accounts.len() as int,
    )
}

/// Buckets as values.
pub open spec fn choice_views(v: Seq<ContactsCategoryChoice>) -> Seq<ChoiceView> {
    v.map_values(|c: ContactsCategoryChoice| c@)
}

/// Rows as values.
pub open spec fn row_views(v: Seq<PaneRow>) -> Seq<RowView> {
    v.map_values(|r: PaneRow| r@)
}

/// The accounts by name, in any case.
pub fn sorted_accounts(accounts: &Vec<PaneAccount>) -> (r: Vec<usize>)
    ensures
        as_rows(r@) == account_order(accounts@),
        r@.len() == accounts@.len(),
        forall|i: int| 0 <= i < r@.len() ==> #[trigger] r@[i] < accounts@.len(),
{
    let ghost want = accounts@.map_values(|a: PaneAccount| lowercase(a.snapshot.display_name@));
    let mut keys: Vec<TextKey> = Vec::new();
    let mut i: usize = 0;
    while i < accounts.len()
        invariant
            i <= accounts.len(),
            want == accounts@.map_values(|a: PaneAccount| lowercase(a.snapshot.display_name@)),
            key_texts(keys@) == want.take(i as int),
        decreases accounts.len() - i,
    {
        let ghost before = key_texts(keys@);
        let key = TextKey { text: accounts[i].snapshot.display_name.as_str().to_lowercase() };
        keys.push(key);
        assert(key_texts(keys@) =~= before.push(key.text@));
        assert(want.take(i + 1) =~= want.take(i as int).push(want[i as int]));
        i += 1;
    }
    assert(want.take(i as int) =~= want);
    assert(key_texts(keys@).len() == keys@.len());
    sort_texts(&keys)
}

fn live(accounts: &Vec<PaneAccount>, a: usize) -> (r: Vec<Member>)
    requires
        a < accounts@.len(),
    ensures
        r@ == live_members(accounts@, a as int),
        valid_members(accounts@, r@),
{
    let mut out: Vec<Member> = Vec::new();
    let n: usize = accounts[a].snapshot.contacts.len();
    let mut c: usize = 0;
    while c < n
        invariant
            c <= n == accounts@[a as int].snapshot.contacts@.len(),
            a < accounts@.len(),
            out@ == live_members(accounts@, a as int).take(c as int),
            valid_members(accounts@, out@),
        decreases n - c,
    {
        out.push(Member::Live { account: a, contact: c });
        assert(out@ =~= live_members(accounts@, a as int).take(c + 1));
        c += 1;
    }
    assert(out@ =~= live_members(accounts@, a as int));
    out
}

fn gone(accounts: &Vec<PaneAccount>, a: usize) -> (r: Vec<Member>)
    requires
        a < accounts@.len(),
    ensures
        r@ == deleted_members(accounts@, a as int),
        valid_members(accounts@, r@),
{
    let mut out: Vec<Member> = Vec::new();
    let n: usize = accounts[a].deleted.len();
    let mut c: usize = 0;
    while c < n
        invariant
            c <= n == accounts@[a as int].deleted@.len(),
            a < accounts@.len(),
            out@ == deleted_members(accounts@, a as int).take(c as int),
            valid_members(accounts@, out@),
        decreases n - c,
    {
        out.push(Member::Deleted { account: a, card: c });
        assert(out@ =~= deleted_members(accounts@, a as int).take(c + 1));
        c += 1;
    }
    assert(out@ =~= deleted_members(accounts@, a as int));
    out
}

fn contact_list_card(card: &VCard) -> (r: bool)
    ensures
        r == is_contact_list(*card),
{
    match &card.kind {
        Some(kind) => same(kind, "group"),
        None => false,
    }
}

fn lists(accounts: &Vec<PaneAccount>, a: usize) -> (r: Vec<Member>)
    requires
        a < accounts@.len(),
    ensures
        r@ == live_members(accounts@, a as int).filter(lists_in(accounts@)),
        valid_members(accounts@, r@),
{
    let mut out: Vec<Member> = Vec::new();
    let ghost all = live_members(accounts@, a as int);
    let ghost keep = lists_in(accounts@);
    let n: usize = accounts[a].snapshot.contacts.len();
    let mut c: usize = 0;
    assert(all.take(0).filter(keep) =~= Seq::<Member>::empty());
    while c < n
        invariant
            c <= n == accounts@[a as int].snapshot.contacts@.len(),
            a < accounts@.len(),
            all == live_members(accounts@, a as int),
            keep == lists_in(accounts@),
            out@ == all.take(c as int).filter(keep),
            valid_members(accounts@, out@),
        decreases n - c,
    {
        proof {
            assert(all.take(c + 1) =~= all.take(c as int).push(all[c as int]));
            all.take(c as int).lemma_filter_push(all[c as int], keep);
        }
        if contact_list_card(&accounts[a].snapshot.contacts[c].card) {
            out.push(Member::Live { account: a, contact: c });
        }
        c += 1;
    }
    assert(all.take(c as int) =~= all);
    out
}

fn push_choice(choices: &mut Vec<ContactsCategoryChoice>, kind: ContactsBucketKind, contacts: Vec<Member>)
    ensures
        final(choices)@.len() == old(choices)@.len() + 1,
        choice_views(final(choices)@) == choice_views(old(choices)@).push(
            (ChoiceView { kind: kind@, contacts: contacts@ }),
        ),
        forall|accounts: Seq<PaneAccount>|
            valid_choices(accounts, old(choices)@) && valid_members(accounts, contacts@)
                ==> #[trigger] valid_choices(accounts, final(choices)@),
{
    let ghost before = choice_views(choices@);
    let choice = ContactsCategoryChoice { kind, contacts };
    choices.push(choice);
    assert(choice_views(choices@) =~= before.push(choice@));
}

fn push_row(rows: &mut Vec<PaneRow>, row: PaneRow)
    ensures
        row_views(final(rows)@) == row_views(old(rows)@).push(row@),
{
    let ghost before = row_views(rows@);
    rows.push(row);
    assert(row_views(rows@) =~= before.push(row@));
}

fn push_account(
    accounts: &Vec<PaneAccount>,
    a: usize,
    choices: &mut Vec<ContactsCategoryChoice>,
    rows: &mut Vec<PaneRow>,
)
    requires
        a < accounts@.len(),
        valid_choices(accounts@, old(choices)@),
    ensures
        final(choices)@.len() == old(choices)@.len() + 4,
        choice_views(final(choices)@) == choice_views(old(choices)@) + account_choices(
            accounts@,
            a as int,
        ),
        row_views(final(rows)@) == row_views(old(rows)@) + account_rows(
            accounts@[a as int].snapshot.display_name@,
            old(choices)@.len() as int,
        ),
        valid_choices(accounts@, final(choices)@),
{
    let ghost first = choice_views(choices@);
    let ghost first_rows = row_views(rows@);
    let all = live(accounts, a);
    let again = live(accounts, a);
    let listed = lists(accounts, a);
    let missing = gone(accounts, a);
    push_row(rows, PaneRow::Header(accounts[a].snapshot.display_name.clone()));
    let n: usize = choices.len();
    push_choice(choices, ContactsBucketKind::AllContacts, all);
    let label = contacts_bucket_label(&ContactsBucketKind::AllContacts);
    push_row(rows, PaneRow::Choice(label, choices.len() - 1));
    push_choice(choices, ContactsBucketKind::Favourites, again);
    let label = contacts_bucket_label(&ContactsBucketKind::Favourites);
    push_row(rows, PaneRow::Choice(label, choices.len() - 1));
    push_choice(choices, ContactsBucketKind::ContactLists, listed);
    let label = contacts_bucket_label(&ContactsBucketKind::ContactLists);
    push_row(rows, PaneRow::Choice(label, choices.len() - 1));
    push_choice(choices, ContactsBucketKind::Deleted, missing);
    let label = contacts_bucket_label(&ContactsBucketKind::Deleted);
    push_row(rows, PaneRow::Choice(label, choices.len() - 1));
    assert(choice_views(choices@) =~= first + account_choices(accounts@, a as int));
    assert(row_views(rows@) =~= first_rows + account_rows(
        accounts@[a as int].snapshot.display_name@,
        n as int,
    ));
}

/// The cards that carry tags are there.
pub open spec fn valid_tags(accounts: Seq<PaneAccount>, tags: Seq<Tagged>) -> bool {
    forall|i: int| 0 <= i < tags.len() ==> valid_member(accounts, (#[trigger] tags[i]).member)
}

fn push_tags(accounts: &Vec<PaneAccount>, a: usize, tags: &mut Vec<Tagged>)
    requires
        a < accounts@.len(),
        valid_tags(accounts@, old(tags)@),
    ensures
        tag_views(final(tags)@) == tag_views(old(tags)@) + account_tags(
            accounts@,
            a as int,
            accounts@[a as int].snapshot.contacts@.len() as int,
        ),
        valid_tags(accounts@, final(tags)@),
{
    let ghost start = tag_views(tags@);
    let n: usize = accounts[a].snapshot.contacts.len();
    let mut c: usize = 0;
    assert(tag_views(tags@) =~= start + account_tags(accounts@, a as int, 0));
    while c < n
        invariant
            c <= n == accounts@[a as int].snapshot.contacts@.len(),
            a < accounts@.len(),
            tag_views(tags@) == start + account_tags(accounts@, a as int, c as int),
            valid_tags(accounts@, tags@),
        decreases n - c,
    {
        let categories = &accounts[a].snapshot.contacts[c].card.categories;
        let ghost want = card_tags(accounts@, a as int, c as int);
        let ghost here = tag_views(tags@);
        let mut k: usize = 0;
        assert(tag_views(tags@) =~= here + want.take(0));
        while k < categories.len()
            invariant
                k <= categories.len(),
                c < accounts@[a as int].snapshot.contacts@.len(),
                a < accounts@.len(),
                *categories == accounts@[a as int].snapshot.contacts@[c as int].card.categories,
                want == card_tags(accounts@, a as int, c as int),
                tag_views(tags@) == here + want.take(k as int),
                valid_tags(accounts@, tags@),
            decreases categories.len() - k,
        {
            let ghost before = tag_views(tags@);
            let t = Tagged { tag: categories[k].clone(), member: Member::Live { account: a, contact: c } };
            assert(want[k as int] == (t.tag@, t.member));
            tags.push(t);
            assert(tag_views(tags@) =~= before.push((t.tag@, t.member)));
            assert(tag_views(tags@) =~= here + want.take(k + 1));
            k += 1;
        }
        assert(want.take(k as int) =~= want);
        assert(tag_views(tags@) =~= start + account_tags(accounts@, a as int, c + 1));
        c += 1;
    }
}

fn names_of(tags: &Vec<Tagged>) -> (r: Vec<String>)
    ensures
        r@.map_values(|s: String| s@) == tag_names(tag_views(tags@)),
{
    let mut out: Vec<String> = Vec::new();
    let ghost all = tag_views(tags@);
    let ghost f = |s: String| s@;
    let mut i: usize = 0;
    assert(all.take(0) =~= Seq::<(Seq<char>, Member)>::empty());
    assert(out@.map_values(f) =~= tag_names(all.take(0)));
    while i < tags.len()
        invariant
            i <= tags.len(),
            f == |s: String| s@,
            all == tag_views(tags@),
            out@.map_values(f) == tag_names(all.take(i as int)),
        decreases tags.len() - i,
    {
        assert(all.take(i + 1).drop_last() =~= all.take(i as int));
        let ghost before = out@.map_values(f);
        let ghost name = tags@[i as int].tag@;
        let mut known = false;
        let mut k: usize = 0;
        while k < out.len() && !known
            invariant
                k <= out.len(),
                i < tags.len(),
                name == tags@[i as int].tag@,
                f == |s: String| s@,
                before == out@.map_values(f),
                known ==> before.contains(name),
                !known ==> forall|j: int| 0 <= j < k ==> #[trigger] before[j] != name,
            decreases out.len() - k + if known { 0int } else { 1int },
        {
            if same(&out[k], &tags[i].tag) {
                assert(before[k as int] == name);
                known = true;
            } else {
                k += 1;
            }
        }
        if !known {
            let s = tags[i].tag.clone();
            out.push(s);
            assert(out@.map_values(f) =~= before.push(s@));
        }
        i += 1;
    }
    assert(all.take(i as int) =~= all);
    out
}

fn members_of(accounts: Ghost<Seq<PaneAccount>>, tags: &Vec<Tagged>, name: &str) -> (r: Vec<Member>)
    requires
        valid_tags(accounts@, tags@),
    ensures
        r@ == tag_members(tag_views(tags@), name@),
        valid_members(accounts@, r@),
{
    let mut out: Vec<Member> = Vec::new();
    let ghost all = tag_views(tags@);
    let ghost keep = tagged_with(name@);
    let ghost f = |t: (Seq<char>, Member)| t.1;
    let mut i: usize = 0;
    assert(all.take(0).filter(keep) =~= Seq::<(Seq<char>, Member)>::empty());
    assert(out@ =~= all.take(0).filter(keep).map_values(f));
    while i < tags.len()
        invariant
            i <= tags.len(),
            f == |t: (Seq<char>, Member)| t.1,
            keep == tagged_with(name@),
            all == tag_views(tags@),
            out@ == all.take(i as int).filter(keep).map_values(f),
            valid_tags(accounts@, tags@),
            valid_members(accounts@, out@),
        decreases tags.len() - i,
    {
        proof {
            assert(all.take(i + 1) =~= all.take(i as int).push(all[i as int]));
            all.take(i as int).lemma_filter_push(all[i as int], keep);
        }
        if same(&tags[i].tag, name) {
            out.push(tags[i].member);
            assert(out@ =~= all.take(i as int).filter(keep).push(all[i as int]).map_values(f));
        }
        i += 1;
    }
    assert(all.take(i as int) =~= all);
    out
}

fn sorted_names(names: &Vec<String>) -> (r: Vec<usize>)
    ensures
        as_rows(r@) == tag_order(names@.map_values(|s: String| s@)),
        r@.len() == names@.len(),
        forall|i: int| 0 <= i < r@.len() ==> #[trigger] r@[i] < names@.len(),
{
    let ghost want = names@.map_values(|s: String| s@).map_values(|s: Seq<char>| lowercase(s));
    let mut keys: Vec<TextKey> = Vec::new();
    let mut i: usize = 0;
    while i < names.len()
        invariant
            i <= names.len(),
            want == names@.map_values(|s: String| s@).map_values(|s: Seq<char>| lowercase(s)),
            key_texts(keys@) == want.take(i as int),
        decreases names.len() - i,
    {
        let ghost before = key_texts(keys@);
        let key = TextKey { text: names[i].as_str().to_lowercase() };
        keys.push(key);
        assert(key_texts(keys@) =~= before.push(key.text@));
        assert(want.take(i + 1) =~= want.take(i as int).push(want[i as int]));
        i += 1;
    }
    assert(want.take(i as int) =~= want);
    assert(key_texts(keys@).len() == keys@.len());
    sort_texts(&keys)
}

fn categories_of(accounts: Ghost<Seq<PaneAccount>>, tags: &Vec<Tagged>) -> (r: Vec<ContactsCategoryChoice>)
    requires
        valid_tags(accounts@, tags@),
    ensures
        choice_views(r@) == category_choices(tag_views(tags@)),
        r@.len() == tag_names(tag_views(tags@)).len(),
        valid_choices(accounts@, r@),
{
    let names = names_of(tags);
    let order = sorted_names(&names);
    let ghost all = names@.map_values(|s: String| s@);
    let ghost want = category_choices(tag_views(tags@));
    let mut out: Vec<ContactsCategoryChoice> = Vec::new();
    let mut j: usize = 0;
    proof {
        assert(as_rows(order@).len() == order@.len());
        assert(all.len() == names@.len());
        assert(choice_views(out@) =~= want.take(0));
    }
    while j < order.len()
        invariant
            j <= order.len(),
            order@.len() == names@.len() == want.len(),
            out@.len() == j,
            as_rows(order@) == tag_order(all),
            all == names@.map_values(|s: String| s@),
            all == tag_names(tag_views(tags@)),
            want == category_choices(tag_views(tags@)),
            forall|i: int| 0 <= i < order@.len() ==> #[trigger] order@[i] < names@.len(),
            choice_views(out@) == want.take(j as int),
            valid_tags(accounts@, tags@),
            valid_choices(accounts@, out@),
        decreases order.len() - j,
    {
        let i: usize = order[j];
        assert(as_rows(order@)[j as int] == i);
        assert(all[i as int] == names@[i as int]@);
        let members = members_of(accounts, tags, &names[i]);
        push_choice(&mut out, ContactsBucketKind::Category(names[i].clone()), members);
        assert(choice_views(out@) =~= want.take(j + 1));
        j += 1;
    }
    assert(want.take(j as int) =~= want);
    out
}

/// The left pane: its buckets and its rows.
pub fn contacts_pane(accounts: &Vec<PaneAccount>) -> (r: (Vec<ContactsCategoryChoice>, Vec<PaneRow>))
    ensures
        choice_views(r.0@) == pane_choices(accounts@),
        row_views(r.1@) == pane_rows(accounts@),
        valid_choices(accounts@, r.0@),
{
    let order = sorted_accounts(accounts);
    let ghost rank = account_order(accounts@);
    let mut choices: Vec<ContactsCategoryChoice> = Vec::new();
    let mut rows: Vec<PaneRow> = Vec::new();
    let mut tags: Vec<Tagged> = Vec::new();
    let mut i: usize = 0;
    assert(choice_views(choices@) =~= choices_upto(accounts@, rank, 0));
    assert(row_views(rows@) =~= rows_upto(accounts@, rank, 0));
    assert(tag_views(tags@) =~= tags_upto(accounts@, rank, 0));
    while i < order.len()
        invariant
            i <= order.len() == accounts@.len(),
            rank == as_rows(order@),
            forall|k: int| 0 <= k < order@.len() ==> #[trigger] order@[k] < accounts@.len(),
            choices@.len() == 4 * i,
            choice_views(choices@) == choices_upto(accounts@, rank, i as int),
            row_views(rows@) == rows_upto(accounts@, rank, i as int),
            tag_views(tags@) == tags_upto(accounts@, rank, i as int),
            valid_tags(accounts@, tags@),
            valid_choices(accounts@, choices@),
        decreases order.len() - i,
    {
        let a: usize = order[i];
        assert(rank[i as int] == a);
        push_tags(accounts, a, &mut tags);
        push_account(accounts, a, &mut choices, &mut rows);
        i += 1;
    }
    let groups = categories_of(Ghost(accounts@), &tags);
    push_categories(accounts, groups, Ghost(tag_views(tags@)), &mut choices, &mut rows);
    (choices, rows)
}

fn push_categories(
    accounts: &Vec<PaneAccount>,
    groups: Vec<ContactsCategoryChoice>,
    tags: Ghost<Seq<(Seq<char>, Member)>>,
    choices: &mut Vec<ContactsCategoryChoice>,
    rows: &mut Vec<PaneRow>,
)
    requires
        choice_views(groups@) == category_choices(tags@),
        groups@.len() == tag_names(tags@).len(),
        valid_choices(accounts@, groups@),
        valid_choices(accounts@, old(choices)@),
    ensures
        choice_views(final(choices)@) == choice_views(old(choices)@) + category_choices(tags@),
        row_views(final(rows)@) == row_views(old(rows)@) + category_rows(
            tags@,
            old(choices)@.len() as int,
        ),
        valid_choices(accounts@, final(choices)@),
{
    let ghost start = choice_views(choices@);
    let ghost start_rows = row_views(rows@);
    let ghost base = choices@.len() as int;
    let ghost want = category_choices(tags@);
    let ghost listed = category_rows(tags@, base);
    let mut left = groups;
    if left.is_empty() {
        assert(choice_views(choices@) =~= start + want);
        assert(row_views(rows@) =~= start_rows + listed);
        return;
    }
    push_row(rows, PaneRow::Header("Categories".to_owned()));
    let n: usize = left.len();
    let mut j: usize = 0;
    assert(choice_views(left@).len() == n);
    assert(choice_views(choices@) =~= start + want.take(0));
    assert(row_views(rows@) =~= start_rows + listed.take(1));
    assert(want.skip(0) =~= want);
    while j < n
        invariant
            j <= n,
            left@.len() == n - j,
            n == want.len(),
            n == tag_names(tags@).len(),
            n > 0,
            listed.len() == n + 1,
            want == category_choices(tags@),
            listed == category_rows(tags@, base),
            choices@.len() == base + j,
            choice_views(left@) == want.skip(j as int),
            choice_views(choices@) == start + want.take(j as int),
            row_views(rows@) == start_rows + listed.take(j + 1),
            valid_choices(accounts@, left@),
            valid_choices(accounts@, choices@),
        decreases n - j,
    {
        let ghost rest = left@;
        let choice = left.remove(0);
        proof {
            assert(choice == rest[0]);
            assert(left@ =~= rest.skip(1));
            assert(choice_views(rest)[0] == want.skip(j as int)[0]);
            assert(choice@ == want[j as int]);
            assert forall|i: int| 0 <= i < left@.len() implies valid_members(
                accounts@,
                (#[trigger] left@[i]).contacts@,
            ) by {
                assert(left@[i] == rest[i + 1]);
            }
            assert(choice_views(left@) =~= want.skip(j + 1)) by {
                assert forall|i: int| 0 <= i < left@.len() implies #[trigger] choice_views(left@)[i]
                    == want.skip(j + 1)[i] by {
                    assert(choice_views(rest)[i + 1] == want.skip(j as int)[i + 1]);
                }
            }
        }
        let ghost before = choice_views(choices@);
        let label = contacts_bucket_label(&choice.kind);
        push_row(rows, PaneRow::Choice(label, choices.len()));
        choices.push(choice);
        assert(choice_views(choices@) =~= before.push(choice@));
        assert(choice_views(choices@) =~= start + want.take(j + 1));
        assert(row_views(rows@) =~= start_rows + listed.take(j + 2));
        j += 1;
    }
    assert(want.take(j as int) =~= want);
    assert(listed.take(j + 1) =~= listed);
}

/// The order of accounts in which they were given.
pub open spec fn given_order(n: nat) -> Seq<int> {
    Seq::new(n, |i: int| i)
}

/// The groups and the cards that carry them, over all accounts.
pub fn managed_groups(accounts: &Vec<PaneAccount>) -> (r: Vec<ContactsCategoryChoice>)
    ensures
        choice_views(r@) == category_choices(
            tags_upto(accounts@, given_order(accounts@.len()), accounts@.len() as int),
        ),
        valid_choices(accounts@, r@),
{
    let mut tags: Vec<Tagged> = Vec::new();
    let ghost rank = given_order(accounts@.len());
    let mut i: usize = 0;
    assert(tag_views(tags@) =~= tags_upto(accounts@, rank, 0));
    while i < accounts.len()
        invariant
            i <= accounts.len(),
            rank == given_order(accounts@.len()),
            tag_views(tags@) == tags_upto(accounts@, rank, i as int),
            valid_tags(accounts@, tags@),
        decreases accounts.len() - i,
    {
        push_tags(accounts, i, &mut tags);
        i += 1;
    }
    categories_of(Ghost(accounts@), &tags)
}

/// A favourite: a contact of an account.
#[derive(Debug)]
pub struct Star {
    pub account_id: String,
    pub identity: String,
}

/// The favourites.
pub open spec fn stars_of(v: Seq<Star>) -> Set<(Seq<char>, Seq<char>)> {
    Set::new(
        |s: (Seq<char>, Seq<char>)|
            exists|i: int| 0 <= i < v.len() && (#[trigger] v[i]).account_id@ == s.0 && v[i].identity@ == s.1,
    )
}

/// Whether a contact is a favourite.
pub fn is_starred(stars: &Vec<Star>, account_id: &str, identity: &str) -> (r: bool)
    ensures
        r == stars_of(stars@).contains((account_id@, identity@)),
{
    let mut i: usize = 0;
    while i < stars.len()
        invariant
            i <= stars.len(),
            forall|k: int|
                0 <= k < i ==> !((#[trigger] stars@[k]).account_id@ == account_id@ && stars@[k].identity@
                    == identity@),
        decreases stars.len() - i,
    {
        if same(&stars[i].account_id, account_id) && same(&stars[i].identity, identity) {
            assert(stars@[i as int].account_id@ == account_id@);
            return true;
        }
        i += 1;
    }
    false
}

/// Makes a contact a favourite, or no longer one.
pub fn set_starred(stars: &mut Vec<Star>, account_id: &str, identity: &str, starred: bool)
    ensures
        stars_of(final(stars)@) == (if starred {
            stars_of(old(stars)@).insert((account_id@, identity@))
        } else {
            stars_of(old(stars)@).remove((account_id@, identity@))
        }),
{
    let ghost before = stars_of(stars@);
    if starred {
        let ghost all = stars@;
        stars.push(Star { account_id: account_id.to_owned(), identity: identity.to_owned() });
        let ghost key = (account_id@, identity@);
        assert forall|s: (Seq<char>, Seq<char>)| stars_of(stars@).contains(s) == before.insert(
            key,
        ).contains(s) by {
            if before.contains(s) {
                let i = choose|i: int|
                    0 <= i < all.len() && (#[trigger] all[i]).account_id@ == s.0 && all[i].identity@ == s.1;
                assert(stars@[i].account_id@ == s.0);
            }
            if s == key {
                assert(stars@[all.len() as int].account_id@ == s.0);
            }
            if stars_of(stars@).contains(s) {
                let i = choose|i: int|
                    0 <= i < stars@.len() && (#[trigger] stars@[i]).account_id@ == s.0 && stars@[i].identity@
                        == s.1;
                if i < all.len() {
                    assert(all[i].account_id@ == s.0);
                }
            }
        }
        assert(stars_of(stars@) =~= before.insert(key));
        return;
    }
    let ghost key = (account_id@, identity@);
    let mut i: usize = 0;
    while i < stars.len()
        invariant
            i <= stars.len(),
            key == (account_id@, identity@),
            stars_of(stars@).remove(key) == before.remove(key),
            forall|k: int|
                0 <= k < i ==> !((#[trigger] stars@[k]).account_id@ == account_id@ && stars@[k].identity@
                    == identity@),
        decreases stars.len() - i,
    {
        if same(&stars[i].account_id, account_id) && same(&stars[i].identity, identity) {
            let ghost all = stars@;
            stars.remove(i);
            proof {
                assert forall|s: (Seq<char>, Seq<char>)| s != key implies stars_of(stars@).contains(s)
                    == stars_of(all).contains(s) by {
                    if stars_of(all).contains(s) {
                        let k = choose|k: int|
                            0 <= k < all.len() && (#[trigger] all[k]).account_id@ == s.0 && all[k].identity@
                                == s.1;
                        if k < i {
                            assert(stars@[k] == all[k]);
                        } else {
                            assert(stars@[k - 1] == all[k]);
                        }
                    }
                    if stars_of(stars@).contains(s) {
                        let k = choose|k: int|
                            0 <= k < stars@.len() && (#[trigger] stars@[k]).account_id@ == s.0
                                && stars@[k].identity@ == s.1;
                        if k < i {
                            assert(stars@[k] == all[k]);
                        } else {
                            assert(stars@[k] == all[k + 1]);
                        }
                    }
                }
                assert(stars_of(stars@).remove(key) =~= stars_of(all).remove(key));
                assert forall|k: int| 0 <= k < i implies !((#[trigger] stars@[k]).account_id@
                    == account_id@ && stars@[k].identity@ == identity@) by {
                    assert(stars@[k] == all[k]);
                }
            }
        } else {
            i += 1;
        }
    }
    assert(!stars_of(stars@).contains(key));
    assert(stars_of(stars@) =~= stars_of(stars@).remove(key));
}

/// A contact in the list: where it belongs, what it is and where it is stored. A card that went
/// missing on the server is stored nowhere.
#[derive(Debug)]
pub struct ContactsListEntry<'a> {
    pub account_id: &'a str,
    pub account_label: &'a str,
    pub category_label: String,
    pub card: &'a VCard,
    pub href: &'a str,
    pub etag: Option<&'a str>,
}

/// A contact in the list.
pub struct EntryView {
    pub account_id: Seq<char>,
    pub account_label: Seq<char>,
    pub category_label: Seq<char>,
    pub card: VCard,
    pub href: Seq<char>,
    pub etag: Option<Seq<char>>,
}

impl<'a> View for ContactsListEntry<'a> {
    type V = EntryView;

    open spec fn view(&self) -> EntryView {
        EntryView {
            account_id: self.account_id@,
            account_label: self.account_label@,
            category_label: self.category_label@,
            card: *self.card,
            href: self.href@,
            etag: match self.etag {
                Some(etag) => Some(etag@),
                None => None,
            },
        }
    }
}

/// The entry of a card in a bucket.
pub open spec fn entry_of(accounts: Seq<PaneAccount>, m: Member, label: Seq<char>) -> EntryView {
    let account = accounts[member_account(m)];
    EntryView {
        account_id: account.account_id@,
        account_label: account.snapshot.display_name@,
        category_label: label,
        card: member_card(accounts, m),
        href: match m {
            Member::Live { contact, .. } => account.snapshot.contacts@[contact as int].href@,
            Member::Deleted { .. } => Seq::empty(),
        },
        etag: match m {
            Member::Live { contact, .. } => text_of(account.snapshot.contacts@[contact as int].etag),
            Member::Deleted { .. } => None,
        },
    }
}

/// Picks the cards that a bucket shows: in the favourites only those with a star.
pub open spec fn shown_in(
    accounts: Seq<PaneAccount>,
    kind: BucketView,
    stars: Set<(Seq<char>, Seq<char>)>,
) -> spec_fn(Member) -> bool {
    |m: Member|
        kind is Favourites ==> stars.contains(
            (accounts[member_account(m)].account_id@, identity(member_card(accounts, m))),
        )
}

/// The contacts of a bucket, by name in any case.
pub open spec fn listed_entries(
    accounts: Seq<PaneAccount>,
    choice: ChoiceView,
    stars: Set<(Seq<char>, Seq<char>)>,
) -> Seq<EntryView> {
    let shown = choice.contacts.filter(shown_in(accounts, choice.kind, stars));
    let order = text_order(
        shown.map_values(|m: Member| lowercase(display_name(member_card(accounts, m)))),
    );
    order.map_values(|i: int| entry_of(accounts, shown[i], bucket_label(choice.kind)))
}

fn card_of<'a>(accounts: &'a Vec<PaneAccount>, m: Member) -> (r: &'a VCard)
    requires
        valid_member(accounts@, m),
    ensures
        *r == member_card(accounts@, m),
{
    match m {
        Member::Live { account, contact } => &accounts[account].snapshot.contacts[contact].card,
        Member::Deleted { account, card } => &accounts[account].deleted[card],
    }
}

fn account_of(m: Member) -> (r: usize)
    ensures
        r == member_account(m),
{
    match m {
        Member::Live { account, .. } => account,
        Member::Deleted { account, .. } => account,
    }
}

fn list_entry<'a>(accounts: &'a Vec<PaneAccount>, m: Member, label: &str) -> (r: ContactsListEntry<'a>)
    requires
        valid_member(accounts@, m),
    ensures
        r@ == entry_of(accounts@, m, label@),
{
    let account = &accounts[account_of(m)];
    let (href, etag): (&'a str, Option<&'a str>) = match m {
        Member::Live { contact, .. } => {
            let record = &account.snapshot.contacts[contact];
            let etag: Option<&'a str> = match &record.etag {
                Some(e) => Some(e.as_str()),
                None => None,
            };
            (record.href.as_str(), etag)
        },
        Member::Deleted { .. } => ("", None),
    };
    proof {
        reveal_strlit("");
        assert(""@ =~= Seq::<char>::empty());
    }
    ContactsListEntry {
        account_id: account.account_id.as_str(),
        account_label: account.snapshot.display_name.as_str(),
        category_label: label.to_owned(),
        card: card_of(accounts, m),
        href,
        etag,
    }
}

fn shown(accounts: &Vec<PaneAccount>, choice: &ContactsCategoryChoice, stars: &Vec<Star>) -> (r: Vec<Member>)
    requires
        valid_members(accounts@, choice.contacts@),
    ensures
        r@ == choice@.contacts.filter(shown_in(accounts@, choice.kind@, stars_of(stars@))),
        valid_members(accounts@, r@),
{
    let mut out: Vec<Member> = Vec::new();
    let ghost keep = shown_in(accounts@, choice.kind@, stars_of(stars@));
    let ghost all = choice.contacts@;
    let favourites_only = matches!(choice.kind, ContactsBucketKind::Favourites);
    let mut i: usize = 0;
    assert(all.take(0).filter(keep) =~= Seq::<Member>::empty());
    while i < choice.contacts.len()
        invariant
            i <= choice.contacts.len(),
            all == choice.contacts@,
            favourites_only == choice.kind@ is Favourites,
            keep == shown_in(accounts@, choice.kind@, stars_of(stars@)),
            out@ == all.take(i as int).filter(keep),
            valid_members(accounts@, all),
            valid_members(accounts@, out@),
        decreases choice.contacts.len() - i,
    {
        proof {
            assert(all.take(i + 1) =~= all.take(i as int).push(all[i as int]));
            all.take(i as int).lemma_filter_push(all[i as int], keep);
        }
        let m = choice.contacts[i];
        assert(valid_member(accounts@, all[i as int]));
        if !favourites_only || is_starred(
            stars,
            &accounts[account_of(m)].account_id,
            &contact_identity(card_of(accounts, m)),
        ) {
            out.push(m);
        }
        i += 1;
    }
    assert(all.take(i as int) =~= all);
    out
}

/// The contacts of a bucket, by name in any case.
pub fn contact_entries<'a>(
    accounts: &'a Vec<PaneAccount>,
    choice: &ContactsCategoryChoice,
    stars: &Vec<Star>,
) -> (r: Vec<ContactsListEntry<'a>>)
    requires
        valid_members(accounts@, choice.contacts@),
    ensures
        r@.map_values(|e: ContactsListEntry<'a>| e@) == listed_entries(
            accounts@,
            choice@,
            stars_of(stars@),
        ),
{
    let members = shown(accounts, choice, stars);
    let label = contacts_bucket_label(&choice.kind);
    let ghost names = members@.map_values(
        |m: Member| lowercase(display_name(member_card(accounts@, m))),
    );
    let mut keys: Vec<TextKey> = Vec::new();
    let mut i: usize = 0;
    while i < members.len()
        invariant
            i <= members.len(),
            names == members@.map_values(
                |m: Member| lowercase(display_name(member_card(accounts@, m))),
            ),
            valid_members(accounts@, members@),
            key_texts(keys@) == names.take(i as int),
        decreases members.len() - i,
    {
        let ghost before = key_texts(keys@);
        assert(valid_member(accounts@, members@[i as int]));
        let key = TextKey { text: vcard_display_name(card_of(accounts, members[i])).as_str().to_lowercase() };
        keys.push(key);
        assert(key_texts(keys@) =~= before.push(key.text@));
        assert(names.take(i + 1) =~= names.take(i as int).push(names[i as int]));
        i += 1;
    }
    assert(names.take(i as int) =~= names);
    assert(key_texts(keys@).len() == keys@.len());
    let order = sort_texts(&keys);
    let ghost want = listed_entries(accounts@, choice@, stars_of(stars@));
    let ghost f = |e: ContactsListEntry<'a>| e@;
    let mut out: Vec<ContactsListEntry<'a>> = Vec::new();
    let mut j: usize = 0;
    assert(as_rows(order@).len() == order@.len());
    assert(out@.map_values(f) =~= want.take(0));
    while j < order.len()
        invariant
            j <= order.len() == want.len(),
            f == |e: ContactsListEntry<'a>| e@,
            as_rows(order@) == text_order(names),
            names == members@.map_values(
                |m: Member| lowercase(display_name(member_card(accounts@, m))),
            ),
            members@ == choice@.contacts.filter(shown_in(accounts@, choice.kind@, stars_of(stars@))),
            want == listed_entries(accounts@, choice@, stars_of(stars@)),
            label@ == bucket_label(choice.kind@),
            forall|k: int| 0 <= k < order@.len() ==> #[trigger] order@[k] < members@.len(),
            valid_members(accounts@, members@),
            out@.map_values(f) == want.take(j as int),
        decreases order.len() - j,
    {
        let k: usize = order[j];
        let ghost before = out@.map_values(f);
        assert(as_rows(order@)[j as int] == k);
        assert(valid_member(accounts@, members@[k as int]));
        let e = list_entry(accounts, members[k], &label);
        out.push(e);
        assert(out@.map_values(f) =~= before.push(e@));
        assert(want.take(j + 1) =~= want.take(j as int).push(want[j as int]));
        j += 1;
    }
    assert(want.take(j as int) =~= want);
    out
}

/// The bucket to show of `n`: the one asked for, as near as there is one; none if there is no
/// bucket.
pub fn desired_choice(selected: Option<i32>, n: usize) -> (r: Option<usize>)
    ensures
        r == (match selected {
            _ if n == 0 => None,
            Some(k) if k >= n => Some((n - 1) as usize),
            Some(k) if k >= 0 => Some(k as usize),
            _ => Some(0usize),
        }),
{
    if n == 0 {
        return None;
    }
    match selected {
        Some(k) => if k < 0 {
            Some(0)
        } else if k as usize >= n {
            Some(n - 1)
        } else {
            Some(k as usize)
        },
        None => Some(0),
    }
}

/// The first account by name that has an address book.
pub open spec fn writable_account(accounts: Seq<PaneAccount>, from: int) -> Option<int>
    decreases accounts.len() - from,
{
    let order = account_order(accounts);
    if from >= accounts.len() {
        None
    } else if accounts[order[from]].snapshot.books@.len() > 0 {
        Some(order[from])
    } else {
        writable_account(accounts, from + 1)
    }
}

/// The account that a new contact goes to: the first by name that has an address book.
pub fn new_contact_account(accounts: &Vec<PaneAccount>) -> (r: Option<usize>)
    ensures
        (match r {
            Some(a) => Some(a as int),
            None => None,
        }) == writable_account(accounts@, 0),
        r matches Some(a) ==> a < accounts@.len() && accounts@[a as int].snapshot.books@.len() > 0,
{
    let order = sorted_accounts(accounts);
    let mut i: usize = 0;
    while i < order.len()
        invariant
            i <= order.len() == accounts@.len(),
            as_rows(order@) == account_order(accounts@),
            forall|k: int| 0 <= k < order@.len() ==> #[trigger] order@[k] < accounts@.len(),
            writable_account(accounts@, 0) == writable_account(accounts@, i as int),
        decreases order.len() - i,
    {
        let a: usize = order[i];
        assert(as_rows(order@)[i as int] == a);
        if accounts[a].snapshot.books.len() > 0 {
            return Some(a);
        }
        i += 1;
    }
    None
}

/// An address book that contacts can be imported into.
#[derive(Debug)]
pub struct ImportBook {
    pub account: usize,
    pub href: String,
    pub label: String,
}

/// The account, place and label of an address book.
pub open spec fn import_book(accounts: Seq<PaneAccount>, a: int, b: int) -> (int, Seq<char>, Seq<char>) {
    let snapshot = accounts[a].snapshot;
    (a, snapshot.books@[b].href@, snapshot.display_name@ + " · "@ + snapshot.books@[b].display_name@)
}

/// The address books of the first `n` accounts in order.
pub open spec fn books_upto(accounts: Seq<PaneAccount>, n: int) -> Seq<(int, Seq<char>, Seq<char>)>
    decreases n,
{
    if n <= 0 {
        Seq::empty()
    } else {
        let a = account_order(accounts)[n - 1];
        books_upto(accounts, n - 1) + Seq::new(
            accounts[a].snapshot.books@.len(),
            |b: int| import_book(accounts, a, b),
        )
    }
}

/// Address books as values.
pub open spec fn book_views(v: Seq<ImportBook>) -> Seq<(int, Seq<char>, Seq<char>)> {
    v.map_values(|b: ImportBook| (b.account as int, b.href@, b.label@))
}

/// The address books that contacts can be imported into, each behind the name of its account.
pub fn import_books(accounts: &Vec<PaneAccount>) -> (r: Vec<ImportBook>)
    ensures
        book_views(r@) == books_upto(accounts@, accounts@.len() as int),
        forall|i: int| 0 <= i < r@.len() ==> (#[trigger] r@[i]).account < accounts@.len(),
{
    let order = sorted_accounts(accounts);
    let mut out: Vec<ImportBook> = Vec::new();
    let mut i: usize = 0;
    assert(book_views(out@) =~= books_upto(accounts@, 0));
    while i < order.len()
        invariant
            i <= order.len() == accounts@.len(),
            as_rows(order@) == account_order(accounts@),
            forall|k: int| 0 <= k < order@.len() ==> #[trigger] order@[k] < accounts@.len(),
            book_views(out@) == books_upto(accounts@, i as int),
            forall|k: int| 0 <= k < out@.len() ==> (#[trigger] out@[k]).account < accounts@.len(),
        decreases order.len() - i,
    {
        let a: usize = order[i];
        assert(as_rows(order@)[i as int] == a);
        let snapshot = &accounts[a].snapshot;
        let ghost here = book_views(out@);
        let ghost want = Seq::new(
            snapshot.books@.len(),
            |b: int| import_book(accounts@, a as int, b),
        );
        let mut b: usize = 0;
        assert(book_views(out@) =~= here + want.take(0));
        while b < snapshot.books.len()
            invariant
                b <= snapshot.books.len(),
                a < accounts@.len(),
                *snapshot == accounts@[a as int].snapshot,
                want == Seq::new(
                    snapshot.books@.len(),
                    |b: int| import_book(accounts@, a as int, b),
                ),
                book_views(out@) == here + want.take(b as int),
                forall|k: int| 0 <= k < out@.len() ==> (#[trigger] out@[k]).account < accounts@.len(),
            decreases snapshot.books.len() - b,
        {
            let mut label = snapshot.display_name.clone();
            label.push_str(" · ");
            label.push_str(&snapshot.books[b].display_name);
            let ghost before = book_views(out@);
            let book = ImportBook { account: a, href: snapshot.books[b].href.clone(), label };
            assert(want[b as int] == (book.account as int, book.href@, book.label@));
            out.push(book);
            assert(book_views(out@) =~= before.push((book.account as int, book.href@, book.label@)));
            assert(book_views(out@) =~= here + want.take(b + 1));
            b += 1;
        }
        assert(want.take(b as int) =~= want);
        i += 1;
    }
    out
}

/// A row that stands for a bucket carries its name, and a later row stands for a later bucket.
pub proof fn lemma_rows_number_choices(accounts: Seq<PaneAccount>, i: int, j: int)
    requires
        0 <= i < pane_rows(accounts).len(),
        0 <= j < pane_rows(accounts).len(),
        pane_rows(accounts)[i] is Choice,
        pane_rows(accounts)[j] is Choice,
    ensures
        0 <= pane_rows(accounts)[i]->Choice_1 < pane_choices(accounts).len(),
        pane_rows(accounts)[i]->Choice_0 == bucket_label(
            pane_choices(accounts)[pane_rows(accounts)[i]->Choice_1].kind,
        ),
        i < j ==> pane_rows(accounts)[i]->Choice_1 < pane_rows(accounts)[j]->Choice_1,
{
    let order = account_order(accounts);
    let n = accounts.len() as int;
    let tags = pane_tags(accounts);
    lemma_account_rows(accounts, order, n);
    let split = rows_upto(accounts, order, n).len();
    if i < split {
        lemma_account_row_at(accounts, order, n, i);
    }
    if j < split {
        lemma_account_row_at(accounts, order, n, j);
    }
}

proof fn lemma_account_rows(accounts: Seq<PaneAccount>, order: Seq<int>, n: int)
    requires
        0 <= n,
    ensures
        rows_upto(accounts, order, n).len() == 5 * n,
        choices_upto(accounts, order, n).len() == 4 * n,
    decreases n,
{
    if n > 0 {
        lemma_account_rows(accounts, order, n - 1);
    }
}

proof fn lemma_account_row_at(accounts: Seq<PaneAccount>, order: Seq<int>, n: int, i: int)
    requires
        0 <= i < 5 * n,
    ensures
        rows_upto(accounts, order, n).len() == 5 * n,
        choices_upto(accounts, order, n).len() == 4 * n,
        rows_upto(accounts, order, n)[i] is Choice <==> i % 5 != 0,
        rows_upto(accounts, order, n)[i] matches RowView::Choice(label, k) ==> k == 4 * (i / 5) + i % 5 - 1
            && label == bucket_label(choices_upto(accounts, order, n)[k].kind),
    decreases n,
{
    lemma_account_rows(accounts, order, n);
    lemma_account_rows(accounts, order, n - 1);
    if i < 5 * (n - 1) {
        lemma_account_row_at(accounts, order, n - 1, i);
    }
}

/// Suggests addresses from the contacts of one account, or of all of them.
#[derive(Debug)]
pub struct SnapshotContactsProvider {
    pub account: Option<String>,
}

impl SnapshotContactsProvider {
    /// An account is searched.
    pub open spec fn covers(self, account: PaneAccount) -> bool {
        match self.account {
            Some(id) => account.account_id@ == id@,
            None => true,
        }
    }

    /// The suggestions of the accounts that are searched, one account after the other.
    pub open spec fn candidates(self, accounts: Seq<PaneAccount>) -> Seq<EmailAddressView>
        decreases accounts.len(),
    {
        if accounts.len() == 0 {
            Seq::empty()
        } else if self.covers(accounts.last()) {
            self.candidates(accounts.drop_last()) + address_views(accounts.last().snapshot.suggestions@)
        } else {
            self.candidates(accounts.drop_last())
        }
    }

    /// The suggestions that match what was typed; each one once.
    pub fn search_contacts(&self, accounts: &Vec<PaneAccount>, prefix: &str, limit: usize) -> (r: Vec<
        EmailAddress,
    >)
        ensures
            address_views(r@) == limited(
                distinct(
                    self.candidates(accounts@).filter(
                        |a: EmailAddressView| matches_prefix(a, trimmed(prefix@)),
                    ),
                ),
                limit,
            ),
    {
        let p = trim(prefix);
        let ghost keep = |a: EmailAddressView| matches_prefix(a, p@);
        let mut found: Vec<EmailAddress> = Vec::new();
        let mut i: usize = 0;
        assert(accounts@.take(0) =~= Seq::<PaneAccount>::empty());
        assert(self.candidates(accounts@.take(0)).filter(keep) =~= Seq::<EmailAddressView>::empty());
        assert(address_views(found@) =~= self.candidates(accounts@.take(0)).filter(keep));
        while i < accounts.len()
            invariant
                i <= accounts.len(),
                keep == |a: EmailAddressView| matches_prefix(a, p@),
                address_views(found@) == self.candidates(accounts@.take(i as int)).filter(keep),
            decreases accounts.len() - i,
        {
            proof {
                assert(accounts@.take(i + 1).drop_last() =~= accounts@.take(i as int));
                Seq::filter_distributes_over_add(
                    self.candidates(accounts@.take(i as int)),
                    address_views(accounts@[i as int].snapshot.suggestions@),
                    keep,
                );
            }
            let searched = match &self.account {
                Some(id) => same(&accounts[i].account_id, id),
                None => true,
            };
            if searched {
                push_matching(&mut found, &accounts[i].snapshot.suggestions, p);
            }
            i += 1;
        }
        assert(accounts@.take(i as int) =~= accounts@);
        dedupe_addresses(found, limit)
    }
}

/// How many suggestions are offered for an invitation.
pub const ATTENDEE_LIMIT: usize = 8;

/// Whom to suggest for an invitation: the addresses from the mail history, then those of the
/// contacts of all accounts.
pub fn calendar_attendee_suggestions(
    mail_history: Vec<EmailAddress>,
    accounts: &Vec<PaneAccount>,
    typed: &str,
) -> (r: Vec<EmailAddress>)
    ensures
        address_views(r@) == limited(
            distinct(
                address_views(mail_history@) + limited(
                    distinct(
                        (SnapshotContactsProvider { account: None }).candidates(accounts@).filter(
                            |a: EmailAddressView| matches_prefix(a, trimmed(typed@)),
                        ),
                    ),
                    ATTENDEE_LIMIT,
                ).filter(|a: EmailAddressView| matches_prefix(a, trimmed(typed@))),
            ),
            ATTENDEE_LIMIT,
        ),
{
    let prefix = trim(typed);
    proof {
        lemma_trimmed_ends(typed@);
        lemma_trimmed_fixed(trimmed(typed@));
    }
    let provider = SnapshotContactsProvider { account: None };
    let found = provider.search_contacts(accounts, prefix, ATTENDEE_LIMIT);
    merge_contact_suggestions(mail_history, &found, prefix, ATTENDEE_LIMIT)
}

} // verus!
