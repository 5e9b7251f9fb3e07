//! What holds of the people screen, of the contact editor and of the contact picker.

use crate::card_views::{AddressView, CardView, TypedView};
use crate::contact_picker::{by_label, picks, found_by, label_keys, picked_in};
use crate::contacts::{all_suggestions, display_name, Birthday, identity};
use crate::contacts_editor::{blank_form, kept_birthday, new_card, seed, ContactEditorPrefill};
use crate::contacts_editor::{acceptable, birthday_of, field_type, fields_of, postal_addresses_of, saved_card};
use crate::contacts_editor::{type_number, untouched_address, untouched_field, AddressRow, ContactForm, FieldRow};
use crate::contacts_pane::{account_choices, account_order, account_tags, bucket_label, card_tags, choices_upto};
use crate::contacts_pane::{category_choices, entry_of, listed_entries, lists_in, live_members, member_account};
use crate::contacts_pane::{member_card, pane_choices, pane_tags, shown_in, tag_members, tag_names, tagged_with};
use crate::contacts_pane::{tags_upto, writable_account, BucketView, ChoiceView, Member, PaneAccount};
use crate::contacts_pane::{books_upto, import_book, stars_of, Star};
use crate::contacts_pane::SnapshotContactsProvider;
use crate::contacts::address_views;
use crate::dates::{civil, date_written, lemma_civil_of_day_number, lemma_civil_of_number, valid_civil};
use crate::model::{label_of, text_of, EmailAddress, EmailAddressView};
use crate::pieces::{joined, same_ignoring_case, tags_of};
use crate::sorting::{in_key_order, key_order, lemma_key_order_arranges, lemma_key_order_sorts, lemma_texts_ordered};
use crate::sorting::text_order;
use crate::text::{blank, has_text, lowercase, text_le, trimmed};
use vstd::prelude::*;

verus! {

proof fn lemma_choices_of_account(accounts: Seq<PaneAccount>, order: Seq<int>, n: int, k: int, j: int)
    requires
        0 <= k < n,
        0 <= j < 4,
    ensures
        choices_upto(accounts, order, n).len() == 4 * n,
        choices_upto(accounts, order, n)[4 * k + j] == account_choices(accounts, order[k])[j],
    decreases n,
{
    lemma_choices_len(accounts, order, n - 1);
    lemma_choices_len(accounts, order, n);
    if k < n - 1 {
        lemma_choices_of_account(accounts, order, n - 1, k, j);
    }
}

proof fn lemma_choices_len(accounts: Seq<PaneAccount>, order: Seq<int>, n: int)
    requires
        0 <= n,
    ensures
        choices_upto(accounts, order, n).len() == 4 * n,
    decreases n,
{
    if n > 0 {
        lemma_choices_len(accounts, order, n - 1);
    }
}

/// The buckets of an account: all its contacts, each once and in their order; the same for the
/// favourites to be picked from; the contacts that are lists; and the cards that went missing. The
/// accounts follow each other by name.
pub proof fn lemma_buckets_of_account(accounts: Seq<PaneAccount>, n: int, c: int)
    requires
        0 <= n < accounts.len() <= usize::MAX,
        0 <= c <= usize::MAX,
    ensures
        ({
            let a = account_order(accounts)[n];
            let choices = pane_choices(accounts);
            let contacts = accounts[a].snapshot.contacts@;
            &&& 0 <= a < accounts.len()
            &&& choices[4 * n].kind is AllContacts
            &&& choices[4 * n].contacts.len() == contacts.len()
            &&& c < contacts.len() ==> choices[4 * n].contacts[c] == (Member::Live {
                account: a as usize,
                contact: c as usize,
            })
            &&& choices[4 * n + 1].kind is Favourites
            &&& choices[4 * n + 1].contacts == choices[4 * n].contacts
            &&& choices[4 * n + 2].kind is ContactLists
            &&& c < contacts.len() ==> (choices[4 * n + 2].contacts.contains(
                Member::Live { account: a as usize, contact: c as usize },
            ) <==> (contacts[c].card.kind matches Some(kind) && kind@ == "group"@))
            &&& choices[4 * n + 3].kind is Deleted
            &&& choices[4 * n + 3].contacts.len() == accounts[a].deleted@.len()
            &&& c < accounts[a].deleted@.len() ==> choices[4 * n + 3].contacts[c] == (Member::Deleted {
                account: a as usize,
                card: c as usize,
            })
            &&& n + 1 < accounts.len() ==> text_le(
                lowercase(accounts[a].snapshot.display_name@),
                lowercase(accounts[account_order(accounts)[n + 1]].snapshot.display_name@),
            )
        }),
{
    let names = accounts.map_values(|a: PaneAccount| lowercase(a.snapshot.display_name@));
    let order = account_order(accounts);
    lemma_key_order_arranges(names);
    lemma_texts_ordered();
    lemma_key_order_sorts(names);
    let a = order[n];
    assert(0 <= a < accounts.len());
    if n + 1 < accounts.len() {
        assert(in_key_order(names, order[n], order[n + 1]));
        assert(0 <= order[n + 1] < accounts.len());
    }
    let m = accounts.len() as int;
    lemma_choices_of_account(accounts, order, m, n, 0);
    lemma_choices_of_account(accounts, order, m, n, 1);
    lemma_choices_of_account(accounts, order, m, n, 2);
    lemma_choices_of_account(accounts, order, m, n, 3);
    let live = live_members(accounts, a);
    let p = lists_in(accounts);
    let contacts = accounts[a].snapshot.contacts@;
    if c < contacts.len() {
        let x = Member::Live { account: a as usize, contact: c as usize };
        assert(live[c] == x);
        assert(member_card(accounts, x) == contacts[c].card);
        if live.filter(p).contains(x) {
            let i = choose|i: int| 0 <= i < live.filter(p).len() && live.filter(p)[i] == x;
            live.lemma_filter_pred(p, i);
        }
        if p(x) {
            live.lemma_filter_contains(p, c);
        }
    }
}

proof fn lemma_tag_of_card(accounts: Seq<PaneAccount>, a: int, n: int, c: int, name: Seq<char>)
    requires
        0 <= a < accounts.len() <= usize::MAX,
        0 <= n <= accounts[a].snapshot.contacts@.len() <= usize::MAX,
        0 <= c <= usize::MAX,
    ensures
        account_tags(accounts, a, n).contains((name, Member::Live { account: a as usize, contact: c as usize }))
            <==> c < n && (exists|k: int|
            0 <= k < accounts[a].snapshot.contacts@[c].card.categories@.len() && (
            #[trigger] accounts[a].snapshot.contacts@[c].card.categories@[k])@ == name),
    decreases n,
{
    let t = (name, Member::Live { account: a as usize, contact: c as usize });
    if n > 0 {
        lemma_tag_of_card(accounts, a, n - 1, c, name);
        let before = account_tags(accounts, a, n - 1);
        let own = card_tags(accounts, a, n - 1);
        let all = account_tags(accounts, a, n);
        let groups = accounts[a].snapshot.contacts@[n - 1].card.categories@;
        if all.contains(t) {
            let i = choose|i: int| 0 <= i < all.len() && all[i] == t;
            if i < before.len() {
                assert(before[i] == t);
                assert(before.contains(t));
            } else {
                assert(own[i - before.len()] == t);
                assert(groups[i - before.len()]@ == name);
            }
        }
        if before.contains(t) {
            let i = choose|i: int| 0 <= i < before.len() && before[i] == t;
            assert(all[i] == t);
        }
        if c == n - 1 && exists|k: int| 0 <= k < groups.len() && (#[trigger] groups[k])@ == name {
            let k = choose|k: int| 0 <= k < groups.len() && (#[trigger] groups[k])@ == name;
            assert(own[k] == t);
            assert(all[before.len() + k] == t);
        }
    }
}

proof fn lemma_tag_anywhere(accounts: Seq<PaneAccount>, order: Seq<int>, n: int, a: int, c: int, name: Seq<char>)
    requires
        accounts.len() <= usize::MAX,
        0 <= n <= order.len(),
        forall|i: int| 0 <= i < order.len() ==> 0 <= #[trigger] order[i] < accounts.len(),
        0 <= a < accounts.len(),
        0 <= c < accounts[a].snapshot.contacts@.len() <= usize::MAX,
    ensures
        tags_upto(accounts, order, n).contains((name, Member::Live { account: a as usize, contact: c as usize }))
            <==> (exists|i: int| 0 <= i < n && #[trigger] order[i] == a) && (exists|k: int|
            0 <= k < accounts[a].snapshot.contacts@[c].card.categories@.len() && (
            #[trigger] accounts[a].snapshot.contacts@[c].card.categories@[k])@ == name),
    decreases n,
{
    let t = (name, Member::Live { account: a as usize, contact: c as usize });
    if n > 0 {
        lemma_tag_anywhere(accounts, order, n - 1, a, c, name);
        let b = order[n - 1];
        let m = accounts[b].snapshot.contacts.len() as int;
        assert(m == accounts[b].snapshot.contacts@.len());
        let before = tags_upto(accounts, order, n - 1);
        let own = account_tags(accounts, b, m);
        let all = tags_upto(accounts, order, n);
        if b == a {
            lemma_tag_of_card(accounts, a, m, c, name);
        } else {
            lemma_tags_of_account(accounts, b, m);
        }
        if all.contains(t) {
            let i = choose|i: int| 0 <= i < all.len() && all[i] == t;
            if i < before.len() {
                assert(before[i] == t);
                assert(before.contains(t));
            } else {
                assert(own[i - before.len()] == t);
                assert(own.contains(t));
            }
        }
        if before.contains(t) {
            let i = choose|i: int| 0 <= i < before.len() && before[i] == t;
            assert(all[i] == t);
        }
        if own.contains(t) {
            let i = choose|i: int| 0 <= i < own.len() && own[i] == t;
            assert(all[before.len() + i] == t);
        }
        if exists|i: int| 0 <= i < n && #[trigger] order[i] == a {
            let i = choose|i: int| 0 <= i < n && #[trigger] order[i] == a;
            if i == n - 1 {
                assert(b == a);
            }
        }
    }
}

proof fn lemma_tags_of_account(accounts: Seq<PaneAccount>, a: int, n: int)
    requires
        0 <= a < accounts.len() <= usize::MAX,
        0 <= n <= accounts[a].snapshot.contacts@.len() <= usize::MAX,
    ensures
        forall|i: int|
            0 <= i < account_tags(accounts, a, n).len() ==> ((#[trigger] account_tags(accounts, a, n)[i]).1 matches
                Member::Live { account, .. } && account == a),
    decreases n,
{
    if n > 0 {
        lemma_tags_of_account(accounts, a, n - 1);
        let before = account_tags(accounts, a, n - 1);
        let all = account_tags(accounts, a, n);
        assert forall|i: int| 0 <= i < all.len() implies ((#[trigger] all[i]).1 matches Member::Live { account, .. }
            && account == a) by {
            if i < before.len() {
                assert(all[i] == before[i]);
            } else {
                assert(all[i] == card_tags(accounts, a, n - 1)[i - before.len()]);
            }
        }
    }
}

proof fn lemma_tag_named(tags: Seq<(Seq<char>, Member)>, name: Seq<char>)
    ensures
        tag_names(tags).contains(name) <==> exists|i: int| 0 <= i < tags.len() && (#[trigger] tags[i]).0 == name,
    decreases tags.len(),
{
    if tags.len() > 0 {
        let rest = tags.drop_last();
        lemma_tag_named(rest, name);
        let before = tag_names(rest);
        let now = tag_names(tags);
        let last = tags.len() - 1;
        if exists|i: int| 0 <= i < tags.len() && (#[trigger] tags[i]).0 == name {
            let i = choose|i: int| 0 <= i < tags.len() && (#[trigger] tags[i]).0 == name;
            if i < last {
                assert(rest[i] == tags[i]);
                let k = choose|k: int| 0 <= k < before.len() && before[k] == name;
                assert(now[k] == name);
            } else if before.contains(name) {
            } else {
                assert(now[before.len() as int] == name);
            }
        }
        if now.contains(name) {
            let k = choose|k: int| 0 <= k < now.len() && now[k] == name;
            if k < before.len() {
                assert(before[k] == name);
                assert(before.contains(name));
                let i = choose|i: int| 0 <= i < rest.len() && (#[trigger] rest[i]).0 == name;
                assert(tags[i] == rest[i]);
            } else {
                assert(tags[last].0 == name);
            }
        }
    }
}

/// A contact is in the category of a name exactly if its card carries that name, whatever its
/// account; and there is a category for every name that some card carries.
pub proof fn lemma_categories(accounts: Seq<PaneAccount>, a: int, c: int, name: Seq<char>)
    requires
        0 <= a < accounts.len() <= usize::MAX,
        0 <= c < accounts[a].snapshot.contacts@.len() <= usize::MAX,
    ensures
        ({
            let m = Member::Live { account: a as usize, contact: c as usize };
            let groups = accounts[a].snapshot.contacts@[c].card.categories@;
            let carries = exists|k: int| 0 <= k < groups.len() && (#[trigger] groups[k])@ == name;
            &&& tag_members(pane_tags(accounts), name).contains(m) <==> carries
            &&& carries ==> exists|i: int|
                0 <= i < category_choices(pane_tags(accounts)).len() && (#[trigger] category_choices(
                    pane_tags(accounts),
                )[i]).kind == BucketView::Category(name) && category_choices(pane_tags(accounts))[i].contacts.contains(m)
        }),
{
    let m = Member::Live { account: a as usize, contact: c as usize };
    let t = (name, m);
    let order = account_order(accounts);
    let names = accounts.map_values(|a: PaneAccount| lowercase(a.snapshot.display_name@));
    lemma_key_order_arranges(names);
    assert(order.contains(a));
    let at = choose|at: int| 0 <= at < order.len() && order[at] == a;
    assert(order[at] == a);
    lemma_tag_anywhere(accounts, order, accounts.len() as int, a, c, name);
    let tags = pane_tags(accounts);
    let p = tagged_with(name);
    let own = tags.filter(p);
    let members = tag_members(tags, name);
    if tags.contains(t) {
        let i = choose|i: int| 0 <= i < tags.len() && tags[i] == t;
        tags.lemma_filter_contains(p, i);
        let k = choose|k: int| 0 <= k < own.len() && own[k] == t;
        assert(members[k] == m);
        lemma_tag_named(tags, name);
        assert(tags[i].0 == name);
        let all = tag_names(tags);
        let x = choose|x: int| 0 <= x < all.len() && all[x] == name;
        let keys = all.map_values(|s: Seq<char>| lowercase(s));
        lemma_key_order_arranges(keys);
        let rank = key_order(keys);
        assert(rank.contains(x));
        let j = choose|j: int| 0 <= j < rank.len() && rank[j] == x;
        assert(category_choices(tags)[j].kind == BucketView::Category(name));
    }
    if members.contains(m) {
        let k = choose|k: int| 0 <= k < members.len() && members[k] == m;
        tags.lemma_filter_pred(p, k);
        assert(own[k] == t);
        assert(own.contains(t));
        tags.lemma_filter_contains_rev(p, t);
    }
}

/// What a list shows of a contact: its own card, account and place; a card that went missing has no
/// place, so that it cannot be written.
pub proof fn lemma_entry_of_contact(accounts: Seq<PaneAccount>, account: usize, i: usize, label: Seq<char>)
    requires
        account < accounts.len(),
    ensures
        ({
            let own = accounts[account as int];
            let live = entry_of(accounts, Member::Live { account, contact: i }, label);
            let gone = entry_of(accounts, Member::Deleted { account, card: i }, label);
            &&& live.card == own.snapshot.contacts@[i as int].card
            &&& live.href == own.snapshot.contacts@[i as int].href@
            &&& live.etag == text_of(own.snapshot.contacts@[i as int].etag)
            &&& live.account_id == own.account_id@
            &&& live.account_label == own.snapshot.display_name@
            &&& live.category_label == label
            &&& gone.card == own.deleted@[i as int]
            &&& gone.href.len() == 0
            &&& gone.etag is None
            &&& gone.account_id == own.account_id@
        }),
{
}

/// Which contacts of a bucket are listed: all of them, but of the favourites only those with a star;
/// and by name, whatever the case.
pub proof fn lemma_listed(
    accounts: Seq<PaneAccount>,
    choice: ChoiceView,
    stars: Set<(Seq<char>, Seq<char>)>,
    k: int,
    a: int,
    b: int,
)
    requires
        0 <= k < choice.contacts.len(),
        0 <= a < b < listed_entries(accounts, choice, stars).len(),
    ensures
        ({
            let m = choice.contacts[k];
            let rows = listed_entries(accounts, choice, stars);
            let starred = stars.contains(
                (accounts[member_account(m)].account_id@, identity(member_card(accounts, m))),
            );
            &&& !(choice.kind is Favourites) || starred ==> rows.contains(
                entry_of(accounts, m, bucket_label(choice.kind)),
            )
            &&& text_le(lowercase(display_name(rows[a].card)), lowercase(display_name(rows[b].card)))
            &&& choice.kind is Favourites ==> stars.contains((rows[a].account_id, identity(rows[a].card)))
        }),
{
    let p = shown_in(accounts, choice.kind, stars);
    let shown = choice.contacts.filter(p);
    let keys = shown.map_values(|m: Member| lowercase(display_name(member_card(accounts, m))));
    let order = text_order(keys);
    let rows = listed_entries(accounts, choice, stars);
    lemma_key_order_arranges(keys);
    lemma_texts_ordered();
    lemma_key_order_sorts(keys);
    let m = choice.contacts[k];
    if p(m) {
        choice.contacts.lemma_filter_contains(p, k);
        let x = choose|x: int| 0 <= x < shown.len() && shown[x] == m;
        assert(order.contains(x));
        let j = choose|j: int| 0 <= j < order.len() && order[j] == x;
        assert(rows[j] == entry_of(accounts, m, bucket_label(choice.kind)));
    }
    assert(in_key_order(keys, order[a], order[b]));
    assert(0 <= order[a] < shown.len() && 0 <= order[b] < shown.len());
    choice.contacts.lemma_filter_pred(p, order[a]);
    assert(rows[a] == entry_of(accounts, shown[order[a]], bucket_label(choice.kind)));
    assert(rows[b] == entry_of(accounts, shown[order[b]], bucket_label(choice.kind)));
}

/// A new contact goes to an account that has an address book, if there is one.
pub proof fn lemma_new_contact_has_book(accounts: Seq<PaneAccount>, from: int, i: int)
    requires
        0 <= from <= i < accounts.len(),
        accounts[account_order(accounts)[i]].snapshot.books@.len() > 0,
    ensures
        writable_account(accounts, from) matches Some(a) && accounts[a].snapshot.books@.len() > 0,
    decreases accounts.len() - from,
{
    if accounts[account_order(accounts)[from]].snapshot.books@.len() == 0 {
        lemma_new_contact_has_book(accounts, from + 1, i);
    }
}

/// Suggestions come from the accounts that are asked for: from every one of them, and from no other.
pub proof fn lemma_candidates(provider: SnapshotContactsProvider, accounts: Seq<PaneAccount>, a: EmailAddressView)
    ensures
        provider.candidates(accounts).contains(a) <==> exists|i: int|
            0 <= i < accounts.len() && address_views((#[trigger] accounts[i]).snapshot.suggestions@).contains(a) && (
            provider.account is None || accounts[i].account_id@ == (provider.account->0)@),
    decreases accounts.len(),
{
    if accounts.len() > 0 {
        let rest = accounts.drop_last();
        lemma_candidates(provider, rest, a);
        let before = provider.candidates(rest);
        let own = address_views(accounts.last().snapshot.suggestions@);
        let all = provider.candidates(accounts);
        let last = accounts.len() - 1;
        if all.contains(a) {
            let i = choose|i: int| 0 <= i < all.len() && all[i] == a;
            if i < before.len() {
                assert(before[i] == a);
                assert(before.contains(a));
                let k = choose|k: int|
                    0 <= k < rest.len() && address_views((#[trigger] rest[k]).snapshot.suggestions@).contains(a) && (
                    provider.account is None || rest[k].account_id@ == (provider.account->0)@);
                assert(accounts[k] == rest[k]);
            } else {
                assert(own[i - before.len()] == a);
                assert(own.contains(a));
                assert(accounts[last] == accounts.last());
            }
        }
        if exists|i: int|
            0 <= i < accounts.len() && address_views((#[trigger] accounts[i]).snapshot.suggestions@).contains(a) && (
            provider.account is None || accounts[i].account_id@ == (provider.account->0)@) {
            let k = choose|k: int|
                0 <= k < accounts.len() && address_views((#[trigger] accounts[k]).snapshot.suggestions@).contains(a)
                    && (provider.account is None || accounts[k].account_id@ == (provider.account->0)@);
            if k < last {
                assert(rest[k] == accounts[k]);
                assert(before.contains(a));
                let i = choose|i: int| 0 <= i < before.len() && before[i] == a;
                assert(all[i] == a);
            } else {
                let i = choose|i: int| 0 <= i < own.len() && own[i] == a;
                assert(all[before.len() + i] == a);
            }
        }
    }
}

proof fn lemma_rows_saved(rows: Seq<FieldRow>, before: Seq<TypedView>, i: int)
    requires
        0 <= i < rows.len(),
    ensures
        untouched_field(rows[i], before) ==> fields_of(rows, before).contains(before[rows[i].origin->0 as int]),
        !untouched_field(rows[i], before) && !blank(rows[i].text@) ==> fields_of(rows, before).contains(
            TypedView { types: seq![field_type(rows[i].kind as int)], value: trimmed(rows[i].text@) },
        ),
        fields_of(rows, before).len() <= rows.len(),
    decreases rows.len(),
{
    let rest = rows.drop_last();
    let first = fields_of(rest, before);
    let all = fields_of(rows, before);
    if rest.len() > 0 {
        lemma_rows_saved(rest, before, if i < rest.len() { i } else { 0 });
    }
    if i < rest.len() {
        assert(rest[i] == rows[i]);
        if untouched_field(rows[i], before) {
            let x = before[rows[i].origin->0 as int];
            let k = choose|k: int| 0 <= k < first.len() && first[k] == x;
            assert(all[k] == x);
        } else if !blank(rows[i].text@) {
            let x = TypedView { types: seq![field_type(rows[i].kind as int)], value: trimmed(rows[i].text@) };
            let k = choose|k: int| 0 <= k < first.len() && first[k] == x;
            assert(all[k] == x);
        }
    } else {
        assert(rows.last() == rows[i]);
        if untouched_field(rows[i], before) || !blank(rows[i].text@) {
            assert(all[first.len() as int] == all.last());
        }
    }
}

/// A row that was typed is saved, with what was typed, without white space around it, and with the
/// type that was picked, and no other; a blank row is not. There are three types, and each is read as
/// the one that it is.
pub proof fn lemma_typed_row_saved(rows: Seq<FieldRow>, before: Seq<TypedView>, i: int)
    requires
        0 <= i < rows.len(),
        rows[i].origin is None,
        rows[i].kind < 3,
    ensures
        !blank(rows[i].text@) ==> exists|k: int|
            0 <= k < fields_of(rows, before).len() && (#[trigger] fields_of(rows, before)[k]).value == trimmed(
                rows[i].text@,
            ) && fields_of(rows, before)[k].types.len() == 1 && type_number(fields_of(rows, before)[k].types)
                == rows[i].kind,
        fields_of(rows, before).len() <= rows.len(),
        field_type(0) == "work"@ && field_type(1) == "home"@ && field_type(2) == "other"@,
        rows.len() == 1 && blank(rows[i].text@) ==> fields_of(rows, before).len() == 0,
{
    lemma_rows_saved(rows, before, i);
    lemma_types_read_back(rows[i].kind as int);
    if !blank(rows[i].text@) {
        let x = TypedView { types: seq![field_type(rows[i].kind as int)], value: trimmed(rows[i].text@) };
        let k = choose|k: int| 0 <= k < fields_of(rows, before).len() && fields_of(rows, before)[k] == x;
        assert(fields_of(rows, before)[k].value == trimmed(rows[i].text@));
    }
    if rows.len() == 1 {
        assert(rows.last() == rows[0]);
        assert(fields_of(rows.drop_last(), before).len() == 0);
    }
}

proof fn lemma_types_read_back(kind: int)
    requires
        0 <= kind < 3,
    ensures
        type_number(seq![field_type(kind)]) == kind,
{
    reveal_strlit("work");
    reveal_strlit("home");
    reveal_strlit("other");
    assert("work"@.len() == 4 && "home"@.len() == 4 && "other"@.len() == 5);
    assert(crate::pieces::ascii_lower("work"@[0]) != crate::pieces::ascii_lower("home"@[0]));
    let t = field_type(kind);
    assert(same_ignoring_case(t, t));
    if kind == 1 {
        assert(!same_ignoring_case("work"@, "home"@));
    }
}

/// A postal address that was typed is saved with its street as the street and its city as the city,
/// and nothing else.
pub proof fn lemma_typed_address_saved(rows: Seq<AddressRow>, before: Seq<AddressView>, i: int)
    requires
        0 <= i < rows.len(),
        !untouched_address(rows[i], before),
        !blank(rows[i].street@) || !blank(rows[i].city@),
    ensures
        exists|k: int|
            0 <= k < postal_addresses_of(rows, before).len() && (#[trigger] postal_addresses_of(rows, before)[k]).street
                == trimmed(rows[i].street@) && postal_addresses_of(rows, before)[k].locality == trimmed(
                rows[i].city@,
            ) && postal_addresses_of(rows, before)[k].region.len() == 0 && postal_addresses_of(
                rows,
                before,
            )[k].postal_code.len() == 0 && postal_addresses_of(rows, before)[k].country.len() == 0,
    decreases rows.len(),
{
    let rest = rows.drop_last();
    let first = postal_addresses_of(rest, before);
    let all = postal_addresses_of(rows, before);
    if i < rest.len() {
        assert(rest[i] == rows[i]);
        lemma_typed_address_saved(rest, before, i);
        let k = choose|k: int|
            0 <= k < first.len() && (#[trigger] first[k]).street == trimmed(rows[i].street@) && first[k].locality
                == trimmed(rows[i].city@) && first[k].region.len() == 0 && first[k].postal_code.len() == 0
                && first[k].country.len() == 0;
        assert(all[k] == first[k]);
    } else {
        assert(rows.last() == rows[i]);
        assert(all[first.len() as int].street == trimmed(rows[i].street@));
    }
}

/// What was edited in the form is on the card, each thing in its own place, without white space
/// around it; a field that was emptied is gone. What the form does not show stays.
pub proof fn lemma_edited_card(before: CardView, form: ContactForm)
    ensures
        ({
            let card = saved_card(before, form);
            let shown = |o: Option<Seq<char>>| match o {
                Some(s) => s,
                None => Seq::<char>::empty(),
            };
            &&& form.full_name@ != shown(before.full_name) && !blank(form.full_name@) ==> card.full_name == Some(
                trimmed(form.full_name@),
            )
            &&& form.title@ != shown(before.title) && !blank(form.title@) ==> card.title == Some(
                trimmed(form.title@),
            )
            &&& form.title@ != shown(before.title) && blank(form.title@) ==> card.title is None
            &&& form.notes@ != shown(before.note) && !blank(form.notes@) ==> card.note == Some(trimmed(form.notes@))
            &&& form.notes@ != shown(before.note) && blank(form.notes@) ==> card.note is None
            &&& before.organization is None && !blank(form.organization@) && form.organization@.len() > 0
                ==> card.organization == Some(seq![trimmed(form.organization@)])
            &&& before.birthday is None && form.birthday@.len() > 0 && birthday_of(form.birthday@) is Ok
                ==> card.birthday == birthday_of(form.birthday@)->Ok_0
            &&& form.groups@ != joined(before.categories, ", "@) ==> card.categories == tags_of(form.groups@)
            &&& card.version == before.version && card.kind == before.kind && card.uid == before.uid
            &&& card.name == before.name && card.urls == before.urls && card.other == before.other
        }),
{
}

/// A birthday is read as the date that was typed; without a year as that day of a leap year.
pub proof fn lemma_birthday_read(text: Seq<char>)
    requires
        trimmed(text) == text,
        text.len() > 0,
    ensures
        date_written(text) matches Some(day) ==> birthday_of(text) == Ok::<Option<(int, bool)>, ()>(Some((day, false))),
        date_written(text) is None ==> (match date_written("2000-"@ + text) {
            Some(day) => birthday_of(text) == Ok::<Option<(int, bool)>, ()>(Some((day, true))),
            None => birthday_of(text) is Err,
        }),
        birthday_of(Seq::empty()) == Ok::<Option<(int, bool)>, ()>(None),
{
    assert(trimmed(Seq::<char>::empty()).len() == 0) by {
        crate::text::lemma_trimmed_fixed(Seq::<char>::empty());
    }
}

/// A form can be saved exactly if it has a name and no birthday that cannot be read.
pub proof fn lemma_needs_name(form: ContactForm)
    ensures
        acceptable(form) <==> !blank(form.full_name@) && !(birthday_of(form.birthday@) is Err),
{
}

/// The picker shows every address once, by what it is called, whatever the case.
pub proof fn lemma_picker_by_label(v: Seq<EmailAddressView>, i: int, a: int, b: int)
    requires
        0 <= i < v.len(),
        0 <= a < b < v.len(),
    ensures
        by_label(v).len() == v.len(),
        by_label(v).contains(v[i]),
        text_le(lowercase(label_of(by_label(v)[a])), lowercase(label_of(by_label(v)[b]))),
        v.contains(by_label(v)[a]),
{
    let keys = label_keys(v);
    let order = text_order(keys);
    lemma_key_order_arranges(keys);
    lemma_texts_ordered();
    lemma_key_order_sorts(keys);
    assert(order.contains(i));
    let k = choose|k: int| 0 <= k < order.len() && order[k] == i;
    assert(by_label(v)[k] == v[i]);
    assert(in_key_order(keys, order[a], order[b]));
    assert(0 <= order[a] < v.len() && 0 <= order[b] < v.len());
    assert(by_label(v)[a] == v[order[a]]);
}

/// The picker finds an address by a text in what it is called or in the address itself; without a
/// text it shows all.
pub proof fn lemma_picker_finds(contacts: Seq<EmailAddress>, text: Seq<char>, a: EmailAddress)
    ensures
        contacts.filter(found_by(text)).contains(a) <==> contacts.contains(a) && (text.len() == 0 || has_text(
            lowercase(label_of(a@)),
            text,
        ) || has_text(lowercase(a.address@), text)),
{
    let p = found_by(text);
    let found = contacts.filter(p);
    if found.contains(a) {
        contacts.lemma_filter_contains_rev(p, a);
        let i = choose|i: int| 0 <= i < found.len() && found[i] == a;
        contacts.lemma_filter_pred(p, i);
    }
    if contacts.contains(a) && p(a) {
        let i = choose|i: int| 0 <= i < contacts.len() && contacts[i] == a;
        contacts.lemma_filter_contains(p, i);
    }
}

/// What is handed back are the addresses that were picked, whatever the case, and no others.
pub proof fn lemma_picked(contacts: Seq<EmailAddressView>, keys: Set<Seq<char>>, a: EmailAddressView)
    ensures
        contacts.filter(picked_in(keys)).contains(a) <==> contacts.contains(a) && keys.contains(
            lowercase(a.address),
        ),
{
    let p = picked_in(keys);
    let found = contacts.filter(p);
    if found.contains(a) {
        contacts.lemma_filter_contains_rev(p, a);
        let i = choose|i: int| 0 <= i < found.len() && found[i] == a;
        contacts.lemma_filter_pred(p, i);
    }
    if contacts.contains(a) && p(a) {
        let i = choose|i: int| 0 <= i < contacts.len() && contacts[i] == a;
        contacts.lemma_filter_contains(p, i);
    }
}

/// An address is suggested if it is in one of the lists.
pub proof fn lemma_suggested_from_any(lists: Seq<Vec<EmailAddress>>, a: EmailAddressView)
    ensures
        all_suggestions(lists).contains(a) <==> exists|i: int|
            0 <= i < lists.len() && address_views((#[trigger] lists[i])@).contains(a),
    decreases lists.len(),
{
    if lists.len() > 0 {
        let rest = lists.drop_last();
        lemma_suggested_from_any(rest, a);
        let x = all_suggestions(rest);
        let y = address_views(lists.last()@);
        let all = all_suggestions(lists);
        if x.contains(a) {
            let k = choose|k: int| 0 <= k < x.len() && x[k] == a;
            assert(all[k] == a);
            let i = choose|i: int| 0 <= i < rest.len() && address_views((#[trigger] rest[i])@).contains(a);
            assert(lists[i] == rest[i]);
        }
        if y.contains(a) {
            let k = choose|k: int| 0 <= k < y.len() && y[k] == a;
            assert(all[x.len() + k] == a);
            assert(address_views(lists[lists.len() - 1]@).contains(a));
        }
        if all.contains(a) {
            let k = choose|k: int| 0 <= k < all.len() && all[k] == a;
            if k < x.len() {
                assert(x[k] == a);
            } else {
                assert(y[k - x.len()] == a);
            }
        }
        if exists|i: int| 0 <= i < lists.len() && address_views((#[trigger] lists[i])@).contains(a) {
            let i = choose|i: int| 0 <= i < lists.len() && address_views((#[trigger] lists[i])@).contains(a);
            if i < rest.len() {
                assert(rest[i] == lists[i]);
            }
        }
    }
}

/// Contacts can be imported into every address book of every account, each named behind its account.
pub proof fn lemma_book_offered(accounts: Seq<PaneAccount>, a: int, b: int)
    requires
        0 <= a < accounts.len(),
        0 <= b < accounts[a].snapshot.books@.len(),
    ensures
        books_upto(accounts, accounts.len() as int).contains(
            (
                a,
                accounts[a].snapshot.books@[b].href@,
                accounts[a].snapshot.display_name@ + " · "@ + accounts[a].snapshot.books@[b].display_name@,
            ),
        ),
{
    let names = accounts.map_values(|x: PaneAccount| lowercase(x.snapshot.display_name@));
    lemma_key_order_arranges(names);
    let order = account_order(accounts);
    assert(order.contains(a));
    let k = choose|k: int| 0 <= k < order.len() && order[k] == a;
    lemma_book_upto(accounts, accounts.len() as int, k, b);
}

proof fn lemma_book_upto(accounts: Seq<PaneAccount>, n: int, k: int, b: int)
    requires
        0 <= k < n,
        0 <= b < accounts[account_order(accounts)[k]].snapshot.books@.len(),
    ensures
        books_upto(accounts, n).contains(import_book(accounts, account_order(accounts)[k], b)),
    decreases n,
{
    let a = account_order(accounts)[n - 1];
    let before = books_upto(accounts, n - 1);
    let all = books_upto(accounts, n);
    if k == n - 1 {
        assert(all[before.len() + b] == import_book(accounts, a, b));
    } else {
        lemma_book_upto(accounts, n - 1, k, b);
        let want = import_book(accounts, account_order(accounts)[k], b);
        let i = choose|i: int| 0 <= i < before.len() && before[i] == want;
        assert(all[i] == want);
    }
}

/// What the editor starts from: the contact that is edited, whatever else is given, or else what a new
/// one is to start from.
pub proof fn lemma_editor_starts_from<'a>(prefill: ContactEditorPrefill<'a>)
    ensures
        prefill.existing is Some ==> seed(prefill) == prefill.existing,
        prefill.existing is None ==> seed(prefill) == prefill.prefill,
{
}

/// A new contact has its own id, a version and nothing else.
pub proof fn lemma_new_card_is_empty(uid: Seq<char>)
    ensures
        ({
            let c = new_card(uid);
            &&& c.uid == Some(uid)
            &&& c.version == "4.0"@
            &&& c.full_name is None && c.name is None && c.organization is None && c.title is None && c.note is None
            &&& c.birthday is None && c.kind is None
            &&& c.emails.len() == 0 && c.telephones.len() == 0 && c.addresses.len() == 0 && c.urls.len() == 0
            &&& c.categories.len() == 0 && c.other.len() == 0
        }),
{
}

/// The birthday that a form shows is that of the card; without a year it is kept by month and day.
pub proof fn lemma_birthday_kept(b: Birthday)
    requires
        b.date.valid(),
    ensures
        !b.omit_year ==> kept_birthday(Some(b)) == Some((b.date.number as int, false)),
        b.omit_year ==> ({
            let kept = kept_birthday(Some(b));
            kept is Some && (kept->0).1 && civil((kept->0).0).1 == civil(b.date.number as int).1 && civil((kept->0).0).2
                == civil(b.date.number as int).2
        }),
        kept_birthday(None) is None,
{
    let (y, m, d) = civil(b.date.number as int);
    lemma_civil_of_number(b.date.number as int);
    if b.omit_year {
        assert(valid_civil(2000, m, d));
        lemma_civil_of_day_number(2000, m, d);
    }
}

/// What is picked is told by the address, and picking it or not changes nothing of the others.
pub proof fn lemma_picks_apart(v: Seq<String>, key: Seq<char>, other: Seq<char>)
    ensures
        picks(v).contains(key) <==> exists|i: int| 0 <= i < v.len() && (#[trigger] v[i])@ == key,
        picks(v).insert(key).contains(key),
        !picks(v).remove(key).contains(key),
        other != key ==> (picks(v).insert(key).contains(other) <==> picks(v).contains(other)),
        other != key ==> (picks(v).remove(key).contains(other) <==> picks(v).contains(other)),
{
}

/// A form that starts from nothing shows nothing.
pub proof fn lemma_blank_form_empty(form: ContactForm)
    requires
        blank_form(form),
    ensures
        form.full_name@.len() + form.organization@.len() + form.title@.len() + form.birthday@.len() + form.groups@.len()
            + form.notes@.len() == 0,
        form.emails@.len() + form.phones@.len() + form.addresses@.len() == 0,
{
}

/// A contact is starred if a star names its account and it, both.
pub proof fn lemma_starred(v: Seq<Star>, account: Seq<char>, identity: Seq<char>)
    ensures
        stars_of(v).contains((account, identity)) <==> exists|i: int|
            0 <= i < v.len() && (#[trigger] v[i]).account_id@ == account && v[i].identity@ == identity,
{
}

} // verus!
