//! What becomes of the known contacts when their server was looked at, and of the cards of a group
//! when the group is renamed or removed.

use crate::card_views::{copied_text, CardView, Copied};
use crate::contacts::{identity, ContactRecord, ContactsAccountSnapshot, VCard};
use crate::contacts_pane::{valid_member, valid_members, Member, PaneAccount};
use crate::contacts_sync::{holds, holds_card, lemma_no_contact_lost, lemma_rows_ascend, missing_rows};
use crate::contacts_sync::{newly_deleted, remove_group, rename_group, renamed, sync_failure_text};
use crate::contacts_sync::{went_missing, without_group, ContactCommand};
use crate::model::text_of;
use vstd::prelude::*;

verus! {

/// What to do on the screen after the server was looked at.
#[derive(Debug)]
pub enum SyncEffect {
    /// Show the contacts anew.
    Refresh,
    /// Say that it failed.
    Announce(String),
    /// Nothing.
    Nothing,
}

/// The cards of the records that went missing.
pub open spec fn missing_cards(
    previous: Seq<ContactRecord>,
    present: Seq<ContactRecord>,
    known: Seq<VCard>,
) -> Seq<VCard> {
    missing_rows(previous, present, known).map_values(|i: int| previous[i].card)
}

fn cards_at(records: Vec<ContactRecord>, rows: &Vec<usize>) -> (r: Vec<VCard>)
    requires
        forall|a: int, b: int| 0 <= a < b < rows@.len() ==> rows@[a] < rows@[b],
        forall|a: int| 0 <= a < rows@.len() ==> #[trigger] rows@[a] < records@.len(),
    ensures
        r@ == rows@.map_values(|i: usize| records@[i as int].card),
{
    let ghost all = records@;
    assert(all.len() == records.len());
    let ghost want = rows@.map_values(|i: usize| all[i as int].card);
    let mut out: Vec<VCard> = Vec::new();
    let mut next: usize = 0;
    let mut i: usize = 0;
    for record in it: records
        invariant
            i == it.index(),
            it.seq() == all,
            i <= all.len() <= usize::MAX,
            next <= rows@.len(),
            forall|a: int, b: int| 0 <= a < b < rows@.len() ==> rows@[a] < rows@[b],
            forall|a: int| next <= a < rows@.len() ==> i <= #[trigger] rows@[a] < all.len(),
            want == rows@.map_values(|i: usize| all[i as int].card),
            out@ == want.take(next as int),
    {
        if next < rows.len() && rows[next] == i {
            out.push(record.card);
            assert(want.take(next + 1) =~= want.take(next as int).push(want[next as int]));
            next += 1;
        }
        i += 1;
    }
    assert(next == rows@.len()) by {
        if next < rows@.len() {
            assert(i <= rows@[next as int] < all.len());
        }
    }
    assert(want.take(next as int) =~= want);
    out
}

/// Takes in what came of looking at an account's server. Contacts that came take the place of those
/// there were, of which each one that went missing is put with the cards that were known to be
/// missing; a failure changes nothing, and is announced the first time.
pub fn take_sync(
    known: Option<PaneAccount>,
    account_id: &str,
    label: &str,
    result: Result<ContactsAccountSnapshot, String>,
    first: bool,
) -> (r: (Option<PaneAccount>, SyncEffect))
    ensures
        match result {
            Ok(snapshot) => {
                &&& r.1 is Refresh
                &&& r.0 is Some
                &&& r.0->0.snapshot == snapshot
                &&& match known {
                    Some(k) => r.0->0.account_id == k.account_id && r.0->0.deleted@ == k.deleted@
                        + missing_cards(k.snapshot.contacts@, snapshot.contacts@, k.deleted@),
                    None => r.0->0.account_id@ == account_id@ && r.0->0.deleted@.len() == 0,
                }
            },
            Err(message) => {
                &&& r.0 == known
                &&& match r.1 {
                    SyncEffect::Announce(text) => first && text@ == label@ + ": "@ + message@,
                    SyncEffect::Nothing => !first,
                    SyncEffect::Refresh => false,
                }
            },
        },
{
    match result {
        Ok(snapshot) => match known {
            Some(k) => {
                let rows = newly_deleted(&k.snapshot.contacts, &snapshot.contacts, &k.deleted);
                let ghost keep = went_missing(k.snapshot.contacts@, snapshot.contacts@, k.deleted@);
                let ghost places = missing_rows(k.snapshot.contacts@, snapshot.contacts@, k.deleted@);
                let ghost old_contacts = k.snapshot.contacts@;
                proof {
                    assert(places.len() == rows@.len());
                    assert forall|a: int, b: int| 0 <= a < b < rows@.len() implies rows@[a] < rows@[b] by {
                        lemma_rows_ascend(old_contacts.len() as int, keep, a, b);
                        assert(places[a] == rows@[a] && places[b] == rows@[b]);
                    }
                    assert(rows@.map_values(|i: usize| old_contacts[i as int].card) =~= missing_cards(
                        old_contacts,
                        snapshot.contacts@,
                        k.deleted@,
                    )) by {
                        assert forall|a: int| 0 <= a < rows@.len() implies places[a] == rows@[a] by {
                            assert(rows@.map_values(|i: usize| i as int)[a] == rows@[a]);
                        }
                    }
                }
                let mut deleted = k.deleted;
                let mut gone = cards_at(k.snapshot.contacts, &rows);
                deleted.append(&mut gone);
                (Some(PaneAccount { account_id: k.account_id, snapshot, deleted }), SyncEffect::Refresh)
            },
            None => (
                Some(PaneAccount { account_id: account_id.to_owned(), snapshot, deleted: Vec::new() }),
                SyncEffect::Refresh,
            ),
        },
        Err(message) => match sync_failure_text(first, label, &message) {
            Some(text) => (known, SyncEffect::Announce(text)),
            None => (known, SyncEffect::Nothing),
        },
    }
}

/// After contacts came, the cards that are known to be missing are those that were, and those of the
/// contacts that there were and that did not come. None that was known is dropped.
pub proof fn lemma_missing_after_sync(
    previous: Seq<ContactRecord>,
    present: Seq<ContactRecord>,
    known: Seq<VCard>,
    id: Seq<char>,
)
    ensures
        holds_card(known + missing_cards(previous, present, known), id) <==> holds_card(known, id) || (
        holds(previous, id) && !holds(present, id)),
{
    let rows = missing_rows(previous, present, known);
    let gone = missing_cards(previous, present, known);
    let after = known + gone;
    if holds_card(known, id) {
        let i = choose|i: int| 0 <= i < known.len() && identity(#[trigger] known[i]) == id;
        assert(after[i] == known[i]);
    }
    if !holds_card(known, id) && holds(previous, id) && !holds(present, id) {
        let i = choose|i: int| 0 <= i < previous.len() && identity((#[trigger] previous[i]).card) == id;
        lemma_no_contact_lost(previous, present, known, i);
        let k = choose|k: int|
            0 <= k < rows.len() && identity(previous[#[trigger] rows[k]].card) == id;
        assert(after[known.len() + k] == gone[k]);
        assert(gone[k] == previous[rows[k]].card);
    }
    if holds_card(after, id) && !holds_card(known, id) {
        let i = choose|i: int| 0 <= i < after.len() && identity(#[trigger] after[i]) == id;
        if i < known.len() {
            assert(known[i] == after[i]);
        }
        let k = i - known.len();
        let all = Seq::new(previous.len(), |i: int| i);
        let keep = went_missing(previous, present, known);
        broadcast use vstd::seq_lib::group_filter_ensures;
        assert(after[i] == gone[k] && gone[k] == previous[rows[k]].card);
        assert(rows.contains(rows[k]));
        all.lemma_filter_contains_rev(keep, rows[k]);
        assert(all.contains(rows[k]) && keep(rows[k]));
    }
}

/// A command for the server of an account.
#[derive(Debug)]
pub struct Routed {
    pub account_id: String,
    pub command: ContactCommand,
}

/// Picks the cards that are on a server.
pub open spec fn is_live() -> spec_fn(Member) -> bool {
    |m: Member| m is Live
}

/// The record that a member on a server stands for.
pub open spec fn live_record(accounts: Seq<PaneAccount>, m: Member) -> ContactRecord {
    accounts[m->Live_account as int].snapshot.contacts@[m->contact as int]
}

/// The groups of a card after one was renamed, or removed if it gets no new name.
pub open spec fn regrouped(groups: Seq<Seq<char>>, name: Seq<char>, new_name: Option<Seq<char>>) -> Seq<
    Seq<char>,
> {
    match new_name {
        Some(n) => renamed(groups, name, n),
        None => without_group(groups, name),
    }
}

/// The command puts the card of a member back in its place with other groups.
pub open spec fn regroups(
    accounts: Seq<PaneAccount>,
    m: Member,
    name: Seq<char>,
    new_name: Option<Seq<char>>,
    r: Routed,
) -> bool {
    let record = live_record(accounts, m);
    &&& r.account_id@ == accounts[m->Live_account as int].account_id@
    &&& match r.command {
        ContactCommand::Update { href, etag, card } => {
            &&& href@ == record.href@
            &&& text_of(etag) == text_of(record.etag)
            &&& card@ == (CardView {
                categories: regrouped(record.card@.categories, name, new_name),
                ..record.card@
            })
        },
        _ => false,
    }
}

/// The commands put the cards of the members on servers back, one for each, with other groups.
pub open spec fn regroup_all(
    accounts: Seq<PaneAccount>,
    members: Seq<Member>,
    name: Seq<char>,
    new_name: Option<Seq<char>>,
    commands: Seq<Routed>,
) -> bool {
    let live = members.filter(is_live());
    commands.len() == live.len() && forall|i: int|
        0 <= i < live.len() ==> regroups(accounts, live[i], name, new_name, #[trigger] commands[i])
}

fn regroup_commands(
    accounts: &Vec<PaneAccount>,
    members: &Vec<Member>,
    name: &str,
    new_name: Option<&str>,
) -> (r: Vec<Routed>)
    requires
        valid_members(accounts@, members@),
    ensures
        regroup_all(
            accounts@,
            members@,
            name@,
            match new_name {
                Some(n) => Some(n@),
                None => None,
            },
            r@,
        ),
{
    let ghost to: Option<Seq<char>> = match new_name {
        Some(n) => Some(n@),
        None => None,
    };
    let mut out: Vec<Routed> = Vec::new();
    let mut i: usize = 0;
    assert(members@.take(0).filter(is_live()) =~= Seq::<Member>::empty());
    while i < members.len()
        invariant
            i <= members.len(),
            valid_members(accounts@, members@),
            to == (match new_name {
                Some(n) => Some(n@),
                None => None,
            }),
            regroup_all(accounts@, members@.take(i as int), name@, to, out@),
        decreases members.len() - i,
    {
        proof {
            assert(members@.take(i + 1) =~= members@.take(i as int).push(members@[i as int]));
            members@.take(i as int).lemma_filter_push(members@[i as int], is_live());
            assert(valid_member(accounts@, members@[i as int]));
        }
        if let Member::Live { account, contact } = members[i] {
            let record = &accounts[account].snapshot.contacts[contact];
            let mut card = record.card.copied();
            card.categories = match new_name {
                Some(n) => rename_group(&record.card.categories, name, n),
                None => remove_group(&record.card.categories, name),
            };
            out.push(
                Routed {
                    account_id: accounts[account].account_id.clone(),
                    command: ContactCommand::Update {
                        href: record.href.clone(),
                        etag: copied_text(&record.etag),
                        card,
                    },
                },
            );
        }
        i += 1;
    }
    assert(members@.take(i as int) =~= members@);
    out
}

/// The commands that rename a group: each of its cards that is on a server is put back with the new
/// name in the place of the old one.
pub fn rename_commands(
    accounts: &Vec<PaneAccount>,
    members: &Vec<Member>,
    old_name: &str,
    new_name: &str,
) -> (r: Vec<Routed>)
    requires
        valid_members(accounts@, members@),
    ensures
        regroup_all(accounts@, members@, old_name@, Some(new_name@), r@),
{
    regroup_commands(accounts, members, old_name, Some(new_name))
}

/// The commands that remove a group: each of its cards that is on a server is put back without it.
pub fn remove_commands(accounts: &Vec<PaneAccount>, members: &Vec<Member>, name: &str) -> (r: Vec<Routed>)
    requires
        valid_members(accounts@, members@),
    ensures
        regroup_all(accounts@, members@, name@, None, r@),
{
    regroup_commands(accounts, members, name, None)
}

} // verus!
