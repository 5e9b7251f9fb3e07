//! What holds of contact cards, of lists of addresses and of what is written to servers.

use crate::contacts::{address_key, named_addresses, card_href, details, display_name, distinct, file_name};
use crate::contacts::{has_key, identity, item_line, limited, matches_prefix, name_char, name_parts};
use crate::contacts::{primary_email, AddressBook, ContactRecord, VCard};
use crate::contacts_pane::{Member, PaneAccount};
use crate::contacts_sync::{batch_report, creates, record_addresses, skips, updates};
use crate::contacts_sync::{export_text, has_email, hrefs_in, import_report, imports_as, known_email};
use crate::contacts_sync::{next_action, not_among, other_group, read_records, record_with_uid, refused, renamed};
use crate::contacts_sync::{shares_email, unsuccessful, without_group, BookAction, BookEvent, BookSync};
use crate::contacts_sync::{ContactCommand, KeptContact};
use crate::contacts_updates::{is_live, live_record, regroup_all, regroups, Routed};
use crate::model::{text_of, texts_of, EmailAddressView};
use crate::pieces::joined;
use crate::text::{blank, decimal, has_prefix, has_text, lowercase, trimmed};
use vstd::prelude::*;

verus! {

/// What a contact is called: by the full name if there is one, or else by the parts of the name in
/// their order, or else by the first mail address.
pub proof fn lemma_called(card: VCard)
    ensures
        card.full_name is Some && !blank((card.full_name->0)@) ==> display_name(card) == (card.full_name->0)@,
        ({
            let nameless = card.full_name is None || blank((card.full_name->0)@);
            &&& nameless && card.name is Some && blank((card.name->0).prefix@) && blank((card.name->0).suffix@)
                && !blank((card.name->0).given@) && !blank((card.name->0).family@) ==> display_name(card) == trimmed(
                (card.name->0).given@,
            ) + " "@ + trimmed((card.name->0).family@)
            &&& nameless && card.name is Some && !blank((card.name->0).prefix@) && !blank((card.name->0).suffix@)
                && !blank((card.name->0).given@) && !blank((card.name->0).family@) ==> display_name(card) == trimmed(
                (card.name->0).prefix@,
            ) + " "@ + trimmed((card.name->0).given@) + " "@ + trimmed((card.name->0).family@) + " "@ + trimmed(
                (card.name->0).suffix@,
            )
            &&& nameless && card.name is None && card.emails@.len() > 0 ==> display_name(card)
                == card.emails@[0].address@
            &&& nameless && card.name is None && card.emails@.len() == 0 ==> display_name(card)
                == "(unnamed contact)"@
        }),
{
    if let Some(n) = card.name {
        let parts = name_parts(n);
        if blank(n.prefix@) && blank(n.suffix@) && !blank(n.given@) && !blank(n.family@) {
            assert(parts =~= seq![trimmed(n.given@), trimmed(n.family@)]);
            reveal_with_fuel(joined, 3);
            assert(parts.drop_last() =~= seq![trimmed(n.given@)]);
        }
        if !blank(n.prefix@) && !blank(n.suffix@) && !blank(n.given@) && !blank(n.family@) {
            let all = seq![trimmed(n.prefix@), trimmed(n.given@), trimmed(n.family@), trimmed(n.suffix@)];
            assert(parts =~= all);
            reveal_with_fuel(joined, 5);
            assert(all.drop_last() =~= seq![trimmed(n.prefix@), trimmed(n.given@), trimmed(n.family@)]);
            assert(all.drop_last().drop_last() =~= seq![trimmed(n.prefix@), trimmed(n.given@)]);
            assert(all.drop_last().drop_last().drop_last() =~= seq![trimmed(n.prefix@)]);
        }
    }
}

/// What a contact is known by: its id if it has one, or else its first mail address. Two cards with
/// one id stand for one contact, whatever else is on them.
pub proof fn lemma_known_by(a: VCard, b: VCard)
    ensures
        a.uid matches Some(uid) ==> identity(a) == uid@,
        a.uid is None && a.emails@.len() > 0 ==> identity(a) == a.emails@[0].address@,
        a.uid is None && a.emails@.len() == 0 ==> identity(a) == "No email address"@,
        a.uid is Some && b.uid is Some && (a.uid->0)@ == (b.uid->0)@ ==> identity(a) == identity(b),
        a.emails@.len() > 0 ==> primary_email(a) == a.emails@[0].address@,
{
}

/// What is told of a contact: the account and the category first, then the name, each mail address in
/// its order and each telephone number after them, each with its types.
pub proof fn lemma_details_told(account: Seq<char>, category: Seq<char>, card: VCard, e: int, t: int)
    ensures
        ({
            let lines = details(account, category, card);
            let phones: int = 4 + (if card.emails@.len() > 0 {
                card.emails@.len() + 1int
            } else {
                0int
            });
            &&& lines.len() >= 4
            &&& lines[0] == "Account: "@ + account
            &&& lines[1] == "Category: "@ + category
            &&& lines[3] == "Name: "@ + display_name(card)
            &&& 0 <= e < card.emails@.len() ==> lines[4] == "Emails:"@ && has_prefix(
                lines[5 + e],
                "  - "@ + card.emails@[e].address@,
            ) && lines[5 + e] == item_line(card.emails@[e].address@, card.emails@[e].types@)
            &&& 0 <= t < card.telephones@.len() ==> lines[phones] == "Phones:"@ && has_prefix(
                lines[phones + 1 + t],
                "  - "@ + card.telephones@[t].number@,
            )
            &&& card.title is Some && !blank((card.title->0)@) ==> lines.contains(
                "Title: "@ + trimmed((card.title->0)@),
            )
            &&& card.note is Some && !blank((card.note->0)@) ==> lines.last() == trimmed((card.note->0)@)
                && lines[lines.len() - 2] == "Notes:"@
        }),
{
    let lines = details(account, category, card);
    let phones: int = 4 + (if card.emails@.len() > 0 {
        card.emails@.len() + 1int
    } else {
        0int
    });
    if 0 <= e < card.emails@.len() {
        let line = item_line(card.emails@[e].address@, card.emails@[e].types@);
        assert(lines[5 + e] == line);
        let head = "  - "@ + card.emails@[e].address@;
        assert(line.take(head.len() as int) =~= head);
    }
    if 0 <= t < card.telephones@.len() {
        let line = item_line(card.telephones@[t].number@, card.telephones@[t].types@);
        assert(lines[phones + 1 + t] == line);
        let head = "  - "@ + card.telephones@[t].number@;
        assert(line.take(head.len() as int) =~= head);
    }
    if card.title is Some && !blank((card.title->0)@) {
        let note_lines: int = if card.note is Some && !blank((card.note->0)@) {
            3
        } else {
            0
        };
        let at = lines.len() - note_lines - 1;
        assert(lines[at] == "Title: "@ + trimmed((card.title->0)@));
    }
}

/// An address is suggested by what it or its name starts with, whatever the case, and by nothing
/// else; without anything typed every address is.
pub proof fn lemma_suggested_by(contact: EmailAddressView, typed: Seq<char>)
    ensures
        typed.len() == 0 ==> matches_prefix(contact, typed),
        has_prefix(lowercase(contact.address), lowercase(typed)) ==> matches_prefix(contact, typed),
        contact.name is Some && has_prefix(lowercase(contact.name->0), lowercase(typed)) ==> matches_prefix(
            contact,
            typed,
        ),
        typed.len() > 0 && !has_prefix(lowercase(contact.address), lowercase(typed)) && (contact.name is None
            || !has_prefix(lowercase(contact.name->0), lowercase(typed))) ==> !matches_prefix(contact, typed),
{
}

proof fn lemma_key_kept(v: Seq<EmailAddressView>, i: int)
    requires
        0 <= i < v.len(),
        address_key(v[i].address).len() > 0,
    ensures
        has_key(distinct(v), address_key(v[i].address)),
    decreases v.len(),
{
    let before = distinct(v.drop_last());
    let now = distinct(v);
    let key = address_key(v[i].address);
    if i < v.len() - 1 {
        assert(v.drop_last()[i] == v[i]);
        lemma_key_kept(v.drop_last(), i);
        let k = choose|k: int| 0 <= k < before.len() && address_key((#[trigger] before[k]).address) == key;
        assert(now[k] == before[k]);
    } else if has_key(before, key) {
    } else {
        assert(now[before.len() as int] == v[i]);
    }
}

proof fn lemma_distinct_from(v: Seq<EmailAddressView>, k: int)
    requires
        0 <= k < distinct(v).len(),
    ensures
        exists|i: int|
            0 <= i < v.len() && #[trigger] v[i] == distinct(v)[k] && (forall|j: int|
                0 <= j < i ==> address_key((#[trigger] v[j]).address) != address_key(distinct(v)[k].address)),
        address_key(distinct(v)[k].address).len() > 0,
    decreases v.len(),
{
    let rest = v.drop_last();
    let before = distinct(rest);
    if k < before.len() {
        lemma_distinct_from(rest, k);
        let i = choose|i: int|
            0 <= i < rest.len() && #[trigger] rest[i] == before[k] && (forall|j: int|
                0 <= j < i ==> address_key((#[trigger] rest[j]).address) != address_key(before[k].address));
        assert(v[i] == rest[i]);
        assert forall|j: int| 0 <= j < i implies address_key((#[trigger] v[j]).address) != address_key(
            distinct(v)[k].address,
        ) by {
            assert(rest[j] == v[j]);
        }
    } else {
        let i = v.len() - 1;
        assert(v[i] == distinct(v)[k]);
        assert forall|j: int| 0 <= j < i implies address_key((#[trigger] v[j]).address) != address_key(
            distinct(v)[k].address,
        ) by {
            assert(rest[j] == v[j]);
            if address_key(v[j].address) == address_key(v[i].address) {
                lemma_key_kept(rest, j);
            }
        }
    }
}

/// A list without repeats holds every address that is not blank, in the form in which it came first:
/// with the name that it had there. Nothing is in it that was not in the list.
pub proof fn lemma_first_of_each_address(v: Seq<EmailAddressView>, i: int, k: int)
    requires
        0 <= i < v.len(),
        0 <= k < distinct(v).len(),
    ensures
        lowercase(trimmed(v[i].address)).len() > 0 ==> exists|m: int|
            0 <= m < distinct(v).len() && lowercase(trimmed((#[trigger] distinct(v)[m]).address)) == lowercase(
                trimmed(v[i].address),
            ),
        exists|m: int|
            0 <= m < v.len() && #[trigger] v[m] == distinct(v)[k] && (forall|j: int|
                0 <= j < m ==> lowercase(trimmed((#[trigger] v[j]).address)) != lowercase(
                    trimmed(distinct(v)[k].address),
                )),
{
    if address_key(v[i].address).len() > 0 {
        lemma_key_kept(v, i);
        let m = choose|m: int|
            0 <= m < distinct(v).len() && address_key((#[trigger] distinct(v)[m]).address) == address_key(
                v[i].address,
            );
        assert(lowercase(trimmed(distinct(v)[m].address)) == lowercase(trimmed(v[i].address)));
    }
    lemma_distinct_from(v, k);
    let m = choose|m: int|
        0 <= m < v.len() && #[trigger] v[m] == distinct(v)[k] && (forall|j: int|
            0 <= j < m ==> address_key((#[trigger] v[j]).address) != address_key(distinct(v)[k].address));
    assert forall|j: int| 0 <= j < m implies lowercase(trimmed((#[trigger] v[j]).address)) != lowercase(
        trimmed(distinct(v)[k].address),
    ) by {
        assert(address_key(v[j].address) != address_key(distinct(v)[k].address));
    }
}

/// A list is cut to the number that is asked for, at least one, from its start; a shorter one stays.
pub proof fn lemma_cut_to_limit(v: Seq<EmailAddressView>, limit: usize, i: int)
    ensures
        limited(v, limit).len() <= v.len(),
        limit > 0 ==> limited(v, limit).len() <= limit,
        v.len() <= limit ==> limited(v, limit) == v,
        limit > 0 && v.len() > limit ==> limited(v, limit).len() == limit,
        0 <= i < limited(v, limit).len() ==> limited(v, limit)[i] == v[i],
{
}

/// Where a new card goes: into its address book, under a name that is its id if that can be a name.
pub proof fn lemma_place_of_card(book: Seq<char>, uid: Seq<char>)
    requires
        book.len() > 0,
        book.last() != '/',
        uid.len() > 0,
        forall|i: int|
            0 <= i < uid.len() ==> 'a' <= #[trigger] uid[i] <= 'z' || 'A' <= uid[i] <= 'Z' || '0' <= uid[i] <= '9'
                || uid[i] == '-' || uid[i] == '_',
        'a' <= uid[0] <= 'z' || '0' <= uid[0] <= '9',
    ensures
        card_href(book, Some(uid)) == book + "/"@ + uid + ".vcf"@,
        card_href(book.push('/'), Some(uid)) == card_href(book, Some(uid)),
{
    assert(crate::contacts::alnum(uid[0]));
    assert(file_name(uid) =~= uid) by {
        assert forall|i: int| 0 <= i < uid.len() implies file_name(uid)[i] == uid[i] by {
            assert(name_char(uid[i]));
        }
    }
    let slash = |c: char| c == '/';
    let longer = book.push('/');
    assert(longer.drop_last() =~= book);
    assert(crate::text::strip_back(book, slash) == book);
    assert(crate::text::strip_back(longer, slash) == book);
}

proof fn lemma_record_with_uid(records: Seq<ContactRecord>, uid: Seq<char>, n: int)
    requires
        0 <= n <= records.len(),
    ensures
        match record_with_uid(records, uid, n) {
            Some(i) => 0 <= i < n && text_of(records[i].card.uid) == Some(uid),
            None => forall|i: int| 0 <= i < n ==> text_of((#[trigger] records[i]).card.uid) != Some(uid),
        },
    decreases n,
{
    if n > 0 {
        lemma_record_with_uid(records, uid, n - 1);
    }
}

/// What an import does. A card that cannot be read is passed over. One whose id is known replaces the
/// contact with that id, in its place and only in the version that is known. One that is new is
/// stored in the book, unless one of its mail addresses is known: then nothing is written, so that no
/// contact is there twice.
pub proof fn lemma_import(
    command: Option<ContactCommand>,
    records: Seq<ContactRecord>,
    book: Seq<char>,
    card: Option<VCard>,
    fresh: String,
)
    requires
        imports_as(command, records, book, card, fresh),
    ensures
        card is None ==> command is None,
        card is Some && (card->0).uid is Some && (exists|i: int|
            0 <= i < records.len() && (#[trigger] records[i]).card.uid is Some && (records[i].card.uid->0)@ == (
            (card->0).uid->0)@) ==> (command matches Some(ContactCommand::Update { .. })),
        command matches Some(ContactCommand::Update { href, etag, card: c }) ==> card == Some(c) && c.uid is Some
            && exists|i: int|
            0 <= i < records.len() && (#[trigger] records[i]).href@ == href@ && text_of(records[i].etag) == text_of(
                etag,
            ) && text_of(records[i].card.uid) == text_of(c.uid),
        command matches Some(ContactCommand::Create { book_href, card: c }) ==> {
            &&& book_href@ == book
            &&& card is Some
            &&& c.emails == (card->0).emails && c.full_name == (card->0).full_name && c.categories
                == (card->0).categories
            &&& (card->0).uid is Some ==> c == card->0
            &&& (card->0).uid is None ==> c.uid == Some(fresh)
            &&& forall|i: int, j: int, k: int|
                0 <= i < records.len() && 0 <= j < records[i].card.emails@.len() && 0 <= k < c.emails@.len()
                    && lowercase(trimmed(c.emails@[k].address@)).len() > 0 ==> lowercase(
                    trimmed((#[trigger] records[i].card.emails@[j]).address@),
                ) != lowercase(trimmed((#[trigger] c.emails@[k]).address@))
        },
        !(command matches Some(ContactCommand::Delete { .. })),
{
    if let Some(c) = card {
        if let Some(uid) = c.uid {
            lemma_record_with_uid(records, uid@, records.len() as int);
            if exists|i: int|
                0 <= i < records.len() && (#[trigger] records[i]).card.uid is Some && (records[i].card.uid->0)@
                    == uid@ {
                let i = choose|i: int|
                    0 <= i < records.len() && (#[trigger] records[i]).card.uid is Some && (records[i].card.uid->0)@
                        == uid@;
                assert(text_of(records[i].card.uid) == Some(uid@));
            }
        }
        if command matches Some(ContactCommand::Create { .. }) {
            assert(!shares_email(records, c));
            assert forall|i: int, j: int, k: int|
                0 <= i < records.len() && 0 <= j < records[i].card.emails@.len() && 0 <= k < c.emails@.len()
                    && lowercase(trimmed(c.emails@[k].address@)).len() > 0 implies lowercase(
                trimmed((#[trigger] records[i].card.emails@[j]).address@),
            ) != lowercase(trimmed((#[trigger] c.emails@[k]).address@)) by {
                let key = address_key(c.emails@[k].address@);
                if address_key(records[i].card.emails@[j].address@) == key {
                    assert(has_email(records[i].card, key));
                    assert(known_email(records, key));
                    assert(shares_email(records, c));
                }
            }
        }
    }
}

/// How a report on an import starts: with what was created and what was updated, unless that is
/// nothing; and how it ends: with what failed, if anything did.
pub proof fn lemma_import_reported(created: nat, updated: nat, skipped: nat, failures: nat)
    ensures
        created > 0 || updated > 0 ==> has_prefix(
            import_report(created, updated, skipped, failures),
            "Imported "@ + decimal(created) + ", updated "@ + decimal(updated) + ", skipped "@ + decimal(skipped),
        ),
        created == 0 && updated == 0 ==> has_prefix(
            import_report(created, updated, skipped, failures),
            decimal(skipped) + " contact(s) already exist"@,
        ),
        failures > 0 ==> ({
            let r = import_report(created, updated, skipped, failures);
            let tail = " ("@ + decimal(failures) + " failed)"@;
            r.len() >= tail.len() && r.skip(r.len() - tail.len()) == tail
        }),
        failures == 0 ==> import_report(created, updated, skipped, 1).len() > import_report(
            created,
            updated,
            skipped,
            failures,
        ).len(),
{
    reveal_strlit(" contact(s) already exist");
    reveal_strlit(" contact(s) already exist - nothing imported");
    reveal_strlit(" (");
    let r = import_report(created, updated, skipped, failures);
    let head = "Imported "@ + decimal(created) + ", updated "@ + decimal(updated) + ", skipped "@ + decimal(skipped);
    if created > 0 || updated > 0 {
        assert(r.take(head.len() as int) =~= head);
    } else {
        let head = decimal(skipped) + " contact(s) already exist"@;
        assert(r.take(head.len() as int) =~= head);
    }
    if failures > 0 {
        let tail = " ("@ + decimal(failures) + " failed)"@;
        assert(r.skip(r.len() - tail.len()) =~= tail);
    }
}

/// A write counts as failed exactly if it was not confirmed: refused, or never answered.
pub proof fn lemma_failed_writes(replies: Seq<Option<Result<(), String>>>, reply: Option<Result<(), String>>)
    ensures
        unsuccessful(replies.push(reply)).len() == unsuccessful(replies).len() + (match reply {
            Some(Ok(_)) => 0nat,
            _ => 1nat,
        }),
        refused(replies.push(reply)).len() == refused(replies).len() + (match reply {
            Some(Err(_)) => 1nat,
            _ => 0nat,
        }),
        unsuccessful(Seq::<Option<Result<(), String>>>::empty()).len() == 0,
        refused(Seq::<Option<Result<(), String>>>::empty()).len() == 0,
{
    replies.lemma_filter_push(reply, |r: Option<Result<(), String>>| !(r matches Some(Ok(_))));
    replies.lemma_filter_push(reply, |r: Option<Result<(), String>>| r matches Some(Err(_)));
    assert(unsuccessful(Seq::<Option<Result<(), String>>>::empty()) =~= Seq::empty());
    assert(refused(Seq::<Option<Result<(), String>>>::empty()) =~= Seq::empty());
}

/// A batch is reported as a success only if every write was confirmed; refusals are counted.
pub proof fn lemma_batch_reported(replies: Seq<Option<Result<(), String>>>, success: Seq<char>, i: int)
    requires
        0 <= i < replies.len(),
    ensures
        (forall|k: int| 0 <= k < replies.len() ==> (#[trigger] replies[k] matches Some(Ok(_)))) ==> batch_report(
            replies,
            success,
        ) == success,
        replies[i] matches Some(Err(_)) ==> has_prefix(
            batch_report(replies, success),
            decimal(refused(replies).len()),
        ) && refused(replies).len() > 0,
        replies[i] is None && refused(replies).len() == 0 ==> batch_report(replies, success)
            == "Some changes couldn't be saved"@,
{
    let p = |r: Option<Result<(), String>>| r matches Some(Err(_));
    if forall|k: int| 0 <= k < replies.len() ==> (#[trigger] replies[k] matches Some(Ok(_))) {
        if refused(replies).len() > 0 {
            replies.lemma_filter_pred(p, 0);
            let x = refused(replies)[0];
            assert(refused(replies).contains(x));
            replies.lemma_filter_contains_rev(p, x);
            let k = choose|k: int| 0 <= k < replies.len() && replies[k] == x;
            assert(replies[k] matches Some(Ok(_)));
        }
    }
    if replies[i] matches Some(Err(_)) {
        replies.lemma_filter_contains(p, i);
        let head = decimal(refused(replies).len());
        assert(batch_report(replies, success).take(head.len() as int) =~= head);
    }
}

/// How an address book is kept in step. Changes that come are stored with their token. Where none can
/// be had all cards are asked for, and then stored with whatever token the server gives next, or
/// without one. Only where the cards themselves cannot be had or stored does it fail, with the
/// server's words.
pub proof fn lemma_book_in_step(token: Option<String>, error: String)
    ensures
        next_action(BookSync::AskedChanges, BookEvent::Changes(token)) == (
            BookSync::Storing,
            Some(BookAction::StoreChanges(token)),
        ),
        next_action(BookSync::AskedChanges, BookEvent::Failed(error)).1 == Some(BookAction::AskAll),
        next_action(next_action(BookSync::AskedChanges, BookEvent::Failed(error)).0, BookEvent::All).1 == Some(
            BookAction::AskChanges(None),
        ),
        next_action(
            next_action(next_action(BookSync::AskedChanges, BookEvent::Failed(error)).0, BookEvent::All).0,
            BookEvent::Changes(token),
        ) == (BookSync::Storing, Some(BookAction::StoreAll(token))),
        next_action(
            next_action(next_action(BookSync::AskedChanges, BookEvent::Failed(error)).0, BookEvent::All).0,
            BookEvent::Failed(error),
        ) == (BookSync::Storing, Some(BookAction::StoreAll(None))),
        next_action(
            next_action(BookSync::AskedChanges, BookEvent::Failed(error)).0,
            BookEvent::Failed(error),
        ) == (BookSync::Over, Some(BookAction::Fail(error))),
        next_action(BookSync::Storing, BookEvent::Failed(error)) == (
            BookSync::Over,
            Some(BookAction::Fail(error)),
        ),
        next_action(BookSync::Storing, BookEvent::Stored) == (BookSync::Over, Some(BookAction::Done)),
{
}

/// A book that is kept but not on the server any more is stale, and no other.
pub proof fn lemma_stale(kept: Seq<AddressBook>, live: Seq<AddressBook>, b: AddressBook)
    ensures
        kept.filter(not_among(live)).contains(b) <==> kept.contains(b) && !(exists|i: int|
            0 <= i < live.len() && (#[trigger] live[i]).href@ == b.href@),
{
    let p = not_among(live);
    let stale = kept.filter(p);
    if stale.contains(b) {
        kept.lemma_filter_contains_rev(p, b);
        let i = choose|i: int| 0 <= i < stale.len() && stale[i] == b;
        kept.lemma_filter_pred(p, i);
    }
    if kept.contains(b) && p(b) {
        let i = choose|i: int| 0 <= i < kept.len() && kept[i] == b;
        kept.lemma_filter_contains(p, i);
    }
}

/// The cards of a book are those that are kept for it, and no others.
pub proof fn lemma_cards_of_book(contacts: Seq<KeptContact>, book: Seq<char>, href: Seq<char>)
    ensures
        hrefs_in(contacts, book).contains(href) <==> exists|i: int|
            0 <= i < contacts.len() && (#[trigger] contacts[i]).href@ == href && contacts[i].book_href@ == book,
    decreases contacts.len(),
{
    if contacts.len() > 0 {
        let rest = contacts.drop_last();
        lemma_cards_of_book(rest, book, href);
        let before = hrefs_in(rest, book);
        let now = hrefs_in(contacts, book);
        let last = contacts.len() - 1;
        if exists|i: int|
            0 <= i < contacts.len() && (#[trigger] contacts[i]).href@ == href && contacts[i].book_href@ == book {
            let i = choose|i: int|
                0 <= i < contacts.len() && (#[trigger] contacts[i]).href@ == href && contacts[i].book_href@ == book;
            if i < last {
                assert(rest[i] == contacts[i]);
                let k = choose|k: int| 0 <= k < before.len() && before[k] == href;
                assert(now[k] == href);
            } else {
                assert(now[before.len() as int] == href);
            }
        }
        if now.contains(href) {
            let k = choose|k: int| 0 <= k < now.len() && now[k] == href;
            if k < before.len() {
                assert(before[k] == href);
                assert(before.contains(href));
                let i = choose|i: int|
                    0 <= i < rest.len() && (#[trigger] rest[i]).href@ == href && rest[i].book_href@ == book;
                assert(contacts[i] == rest[i]);
            } else {
                assert(contacts[last].href@ == href);
            }
        }
    }
}

/// Every card of every book that could be read is there.
pub proof fn lemma_all_cards_read(fetched: Seq<Option<Vec<ContactRecord>>>, b: int, k: int)
    requires
        0 <= b < fetched.len(),
        fetched[b] is Some,
        0 <= k < (fetched[b]->0)@.len(),
    ensures
        read_records(fetched).contains((fetched[b]->0)@[k]),
    decreases fetched.len(),
{
    let before = read_records(fetched.drop_last());
    let all = read_records(fetched);
    let x = (fetched[b]->0)@[k];
    if b == fetched.len() - 1 {
        assert(all[before.len() + k] == x);
    } else {
        assert(fetched.drop_last()[b] == fetched[b]);
        lemma_all_cards_read(fetched.drop_last(), b, k);
        let i = choose|i: int| 0 <= i < before.len() && before[i] == x;
        assert(all[i] == x);
    }
}

/// Renaming or removing a group touches no other group: the others stay, renaming each in its place.
pub proof fn lemma_other_groups_stay(groups: Seq<Seq<char>>, name: Seq<char>, new_name: Seq<char>, i: int, other: Seq<char>)
    ensures
        renamed(groups, name, new_name).len() == groups.len(),
        0 <= i < groups.len() && groups[i] != name ==> renamed(groups, name, new_name)[i] == groups[i],
        0 <= i < groups.len() && groups[i] == name ==> renamed(groups, name, new_name)[i] == new_name,
        without_group(groups, name).contains(other) <==> groups.contains(other) && other != name,
{
    let p = other_group(name);
    let left = without_group(groups, name);
    if left.contains(other) {
        groups.lemma_filter_contains_rev(p, other);
        let k = choose|k: int| 0 <= k < left.len() && left[k] == other;
        groups.lemma_filter_pred(p, k);
    }
    if groups.contains(other) && other != name {
        let k = choose|k: int| 0 <= k < groups.len() && groups[k] == other;
        groups.lemma_filter_contains(p, k);
    }
}

/// An export holds every card, as it is written, and nothing but cards and line ends.
pub proof fn lemma_export_holds(cards: Seq<Seq<char>>, i: int)
    requires
        0 <= i < cards.len(),
    ensures
        has_text(export_text(cards), cards[i] + "\r\n"@),
        has_prefix(export_text(cards), cards[0]),
        export_text(cards).len() >= cards.len() * 2,
    decreases cards.len(),
{
    reveal_strlit("\r\n");
    let rest = cards.drop_last();
    let before = export_text(rest);
    let all = export_text(cards);
    let piece = cards[i] + "\r\n"@;
    if i == cards.len() - 1 {
        assert(all.skip(before.len() as int) =~= piece);
        assert(all.skip(before.len() as int).take(piece.len() as int) =~= piece);
        assert(has_prefix(all.skip(before.len() as int), piece));
    } else {
        assert(rest[i] == cards[i]);
        lemma_export_holds(rest, i);
        let k = choose|k: int| 0 <= k <= before.len() && has_prefix(#[trigger] before.skip(k), piece);
        assert(all.skip(k).take(piece.len() as int) =~= before.skip(k).take(piece.len() as int));
        assert(has_prefix(all.skip(k), piece));
    }
    if rest.len() > 0 {
        lemma_export_holds(rest, 0);
        assert(rest[0] == cards[0]);
        assert(all.take(cards[0].len() as int) =~= before.take(cards[0].len() as int));
    } else {
        assert(all.take(cards[0].len() as int) =~= cards[0]);
    }
}

/// What a renamed or removed group becomes on a card: the card of that contact is written again, in the
/// version that was known, with that group gone or under its new name, every other group kept and
/// everything else as it was.
pub proof fn lemma_card_regrouped(
    accounts: Seq<PaneAccount>,
    m: Member,
    name: Seq<char>,
    new_name: Option<Seq<char>>,
    r: Routed,
    other: Seq<char>,
)
    requires
        regroups(accounts, m, name, new_name, r),
    ensures
        ({
            let account = accounts[m->Live_account as int];
            let record = account.snapshot.contacts@[m->contact as int];
            &&& r.account_id@ == account.account_id@
            &&& r.command matches ContactCommand::Update { href, etag, card } && href@ == record.href@ && text_of(etag)
                == text_of(record.etag) && card@.full_name == record.card@.full_name && card@.uid == record.card@.uid
                && card@.emails == record.card@.emails && card@.telephones == record.card@.telephones
                && card@.addresses == record.card@.addresses && card@.note == record.card@.note && card@.title
                == record.card@.title && card@.organization == record.card@.organization && card@.birthday
                == record.card@.birthday && card@.other == record.card@.other && card@.name == record.card@.name
                && card@.urls == record.card@.urls && card@.version == record.card@.version && card@.kind
                == record.card@.kind && (new_name is None ==> (card@.categories.contains(other)
                <==> record.card@.categories.contains(other) && other != name)) && (new_name is Some && new_name->0
                != name ==> !card@.categories.contains(name)) && (new_name is Some && record.card@.categories.contains(
                name,
            ) ==> card@.categories.contains(new_name->0)) && (new_name is Some && other != name
                && record.card@.categories.contains(other) ==> card@.categories.contains(other))
        }),
{
    let groups = live_record(accounts, m).card@.categories;
    if let Some(n) = new_name {
        lemma_renamed_members(groups, name, n, other);
    } else {
        lemma_other_groups_stay(groups, name, name, 0, other);
    }
}

proof fn lemma_renamed_members(groups: Seq<Seq<char>>, name: Seq<char>, new_name: Seq<char>, other: Seq<char>)
    ensures
        name != new_name ==> !renamed(groups, name, new_name).contains(name),
        groups.contains(name) ==> renamed(groups, name, new_name).contains(new_name),
        other != name && groups.contains(other) ==> renamed(groups, name, new_name).contains(other),
{
    let now = renamed(groups, name, new_name);
    if groups.contains(name) {
        let i = choose|i: int| 0 <= i < groups.len() && groups[i] == name;
        assert(now[i] == new_name);
    }
    if other != name && groups.contains(other) {
        let i = choose|i: int| 0 <= i < groups.len() && groups[i] == other;
        assert(now[i] == other);
    }
    if name != new_name && now.contains(name) {
        let i = choose|i: int| 0 <= i < now.len() && now[i] == name;
        assert(groups[i] != name || now[i] == new_name);
    }
}

/// A group is changed on every card of it that is on a server, and on no other.
pub proof fn lemma_all_regrouped(
    accounts: Seq<PaneAccount>,
    members: Seq<Member>,
    name: Seq<char>,
    new_name: Option<Seq<char>>,
    commands: Seq<Routed>,
    i: int,
    k: int,
)
    requires
        regroup_all(accounts, members, name, new_name, commands),
    ensures
        0 <= i < members.len() && members[i] is Live ==> exists|j: int|
            0 <= j < commands.len() && regroups(accounts, members[i], name, new_name, #[trigger] commands[j]),
        0 <= k < commands.len() ==> exists|j: int|
            0 <= j < members.len() && members[j] is Live && regroups(
                accounts,
                #[trigger] members[j],
                name,
                new_name,
                commands[k],
            ),
        commands.len() <= members.len(),
{
    let p = is_live();
    let live = members.filter(p);
    members.lemma_filter_len(p);
    if 0 <= i < members.len() && members[i] is Live {
        members.lemma_filter_contains(p, i);
        let j = choose|j: int| 0 <= j < live.len() && live[j] == members[i];
        assert(regroups(accounts, live[j], name, new_name, commands[j]));
    }
    if 0 <= k < commands.len() {
        assert(regroups(accounts, live[k], name, new_name, commands[k]));
        assert(live.contains(live[k]));
        members.lemma_filter_contains_rev(p, live[k]);
        members.lemma_filter_pred(p, k);
        let j = choose|j: int| 0 <= j < members.len() && members[j] == live[k];
        assert(members[j] is Live);
    }
}

/// Of an imported file each card is made anew, replaces one that was there, or is left out: exactly one
/// of the three.
pub proof fn lemma_import_adds_up(records: Seq<ContactRecord>, cards: Seq<Option<VCard>>)
    ensures
        cards.filter(creates(records)).len() + cards.filter(updates(records)).len() + cards.filter(skips(records)).len()
            == cards.len(),
    decreases cards.len(),
{
    reveal(Seq::filter);
    if cards.len() > 0 {
        lemma_import_adds_up(records, cards.drop_last());
    }
}

/// The addresses that are known from an account's contacts are those of its cards.
pub proof fn lemma_known_addresses(records: Seq<ContactRecord>, a: EmailAddressView)
    ensures
        record_addresses(records).contains(a) <==> exists|i: int|
            0 <= i < records.len() && named_addresses((#[trigger] records[i]).card).contains(a),
    decreases records.len(),
{
    if records.len() > 0 {
        let rest = records.drop_last();
        lemma_known_addresses(rest, a);
        let x = record_addresses(rest);
        let y = named_addresses(records.last().card);
        let all = record_addresses(records);
        if x.contains(a) {
            let k = choose|k: int| 0 <= k < x.len() && x[k] == a;
            assert(all[k] == a);
            let i = choose|i: int| 0 <= i < rest.len() && named_addresses((#[trigger] rest[i]).card).contains(a);
            assert(records[i] == rest[i]);
        }
        if y.contains(a) {
            let k = choose|k: int| 0 <= k < y.len() && y[k] == a;
            assert(all[x.len() + k] == a);
            assert(named_addresses(records[records.len() - 1].card).contains(a));
        }
        if all.contains(a) {
            let k = choose|k: int| 0 <= k < all.len() && all[k] == a;
            if k < x.len() {
                assert(x[k] == a);
            } else {
                assert(y[k - x.len()] == a);
            }
        }
        if exists|i: int| 0 <= i < records.len() && named_addresses((#[trigger] records[i]).card).contains(a) {
            let i = choose|i: int| 0 <= i < records.len() && named_addresses((#[trigger] records[i]).card).contains(a);
            if i < rest.len() {
                assert(rest[i] == records[i]);
            }
        }
    }
}

/// What a card holds, as text.
pub proof fn lemma_card_as_text(card: VCard, i: int)
    ensures
        card@.full_name == text_of(card.full_name),
        card@.title == text_of(card.title),
        card@.note == text_of(card.note),
        card@.uid == text_of(card.uid),
        card@.kind == text_of(card.kind),
        card@.version == card.version@,
        card@.urls == texts_of(card.urls@),
        card@.categories == texts_of(card.categories@),
        card@.emails.len() == card.emails@.len(),
        0 <= i < card.emails@.len() ==> card@.emails[i].value == card.emails@[i].address@ && card@.emails[i].types
            == texts_of(card.emails@[i].types@),
        card@.telephones.len() == card.telephones@.len(),
        0 <= i < card.telephones@.len() ==> card@.telephones[i].value == card.telephones@[i].number@
            && card@.telephones[i].types == texts_of(card.telephones@[i].types@),
        card@.addresses.len() == card.addresses@.len(),
        0 <= i < card.addresses@.len() ==> {
            let v = card@.addresses[i];
            let a = card.addresses@[i];
            v.street == a.street@ && v.locality == a.locality@ && v.region == a.region@ && v.postal_code == a.postal_code@
                && v.country == a.country@ && v.po_box == a.po_box@ && v.extended == a.extended@ && v.types == texts_of(
                a.types@,
            ) && v.label == text_of(a.label)
        },
        card.name matches Some(n) ==> card@.name is Some && (card@.name->0).given == n.given@ && (card@.name->0).family
            == n.family@ && (card@.name->0).prefix == n.prefix@ && (card@.name->0).suffix == n.suffix@,
        card.birthday matches Some(b) ==> card@.birthday == Some((b.date.number as int, b.omit_year)),
        card.birthday is None ==> card@.birthday is None,
{
}

/// A card that can be read is left out of an import only because a contact has one of its addresses.
pub proof fn lemma_left_out(
    command: Option<ContactCommand>,
    records: Seq<ContactRecord>,
    book: Seq<char>,
    card: VCard,
    fresh: String,
)
    requires
        imports_as(command, records, book, Some(card), fresh),
        command is None,
    ensures
        exists|k: int, i: int, j: int|
            0 <= k < card.emails@.len() && 0 <= i < records.len() && 0 <= j < records[i].card.emails@.len() && lowercase(
                trimmed((#[trigger] card.emails@[k]).address@),
            ).len() > 0 && lowercase(trimmed((#[trigger] records[i].card.emails@[j]).address@)) == lowercase(
                trimmed(card.emails@[k].address@),
            ),
{
    assert(shares_email(records, card));
    let k = choose|k: int|
        0 <= k < card.emails@.len() && address_key((#[trigger] card.emails@[k]).address@).len() > 0 && known_email(
            records,
            address_key(card.emails@[k].address@),
        );
    let key = address_key(card.emails@[k].address@);
    let i = choose|i: int| 0 <= i < records.len() && has_email((#[trigger] records[i]).card, key);
    let other = records[i].card;
    let j = choose|j: int| 0 <= j < other.emails@.len() && address_key((#[trigger] other.emails@[j]).address@) == key;
    assert(lowercase(trimmed(records[i].card.emails@[j].address@)) == lowercase(trimmed(card.emails@[k].address@)));
}

} // verus!
