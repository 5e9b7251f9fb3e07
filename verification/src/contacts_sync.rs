//! Keeping contacts in step with their server: what a session does next, and what came of it.

use crate::contacts::{address_key, address_views, contact_identity, dedupe_addresses, distinct};
use crate::contacts::{identity, limited, named_addresses, push_email_addresses};
use crate::contacts::{AddressBook, ContactRecord, ContactsAccountSnapshot, VCard};
use crate::fresh_ids::{new_uuid, uuid_shape};
use crate::model::{text_of, texts_of, EmailAddress, EmailAddressView};
use crate::text::{decimal, decimal_text, same, trim, trimmed};
use vstd::prelude::*;

verus! {

/// One of the records has an identity.
pub open spec fn holds(records: Seq<ContactRecord>, id: Seq<char>) -> bool {
    exists|i: int| 0 <= i < records.len() && identity((#[trigger] records[i]).card) == id
}

/// One of the cards has an identity.
pub open spec fn holds_card(cards: Seq<VCard>, id: Seq<char>) -> bool {
    exists|i: int| 0 <= i < cards.len() && identity(#[trigger] cards[i]) == id
}

/// A later record has the same identity.
pub open spec fn superseded(records: Seq<ContactRecord>, i: int) -> bool {
    exists|j: int|
        i < j < records.len() && identity((#[trigger] records[j]).card) == identity(records[i].card)
}

/// Picks the records that went missing: they are not among those there are now, were not known to
/// be missing, and no later record stands for the same contact.
pub open spec fn went_missing(
    previous: Seq<ContactRecord>,
    present: Seq<ContactRecord>,
    known: Seq<VCard>,
) -> spec_fn(int) -> bool {
    |i: int|
        !holds(present, identity(previous[i].card)) && !holds_card(known, identity(previous[i].card))
            && !superseded(previous, i)
}

/// The places of the records that went missing.
pub open spec fn missing_rows(
    previous: Seq<ContactRecord>,
    present: Seq<ContactRecord>,
    known: Seq<VCard>,
) -> Seq<int> {
    Seq::new(previous.len(), |i: int| i).filter(went_missing(previous, present, known))
}

fn identities(records: &Vec<ContactRecord>) -> (r: Vec<String>)
    ensures
        texts_of(r@) == records@.map_values(|c: ContactRecord| identity(c.card)),
{
    let mut out: Vec<String> = Vec::new();
    let ghost want = records@.map_values(|c: ContactRecord| identity(c.card));
    let mut i: usize = 0;
    while i < records.len()
        invariant
            i <= records.len(),
            want == records@.map_values(|c: ContactRecord| identity(c.card)),
            texts_of(out@) == want.take(i as int),
        decreases records.len() - i,
    {
        let ghost before = texts_of(out@);
        let id = contact_identity(&records[i].card);
        out.push(id);
        assert(texts_of(out@) =~= before.push(id@));
        assert(want.take(i + 1) =~= want.take(i as int).push(want[i as int]));
        i += 1;
    }
    assert(want.take(i as int) =~= want);
    out
}

fn listed(texts: &Vec<String>, text: &str, from: usize) -> (r: bool)
    requires
        from <= texts@.len(),
    ensures
        r == exists|k: int| from <= k < texts@.len() && (#[trigger] texts@[k])@ == text@,
{
    let mut i: usize = from;
    while i < texts.len()
        invariant
            from <= i <= texts.len(),
            forall|k: int| from <= k < i ==> (#[trigger] texts@[k])@ != text@,
        decreases texts.len() - i,
    {
        if same(&texts[i], text) {
            assert(texts@[i as int]@ == text@);
            return true;
        }
        i += 1;
    }
    false
}

/// The places of the records that went missing since the last look.
pub fn newly_deleted(
    previous: &Vec<ContactRecord>,
    present: &Vec<ContactRecord>,
    known: &Vec<VCard>,
) -> (r: Vec<usize>)
    ensures
        r@.map_values(|i: usize| i as int) == missing_rows(previous@, present@, known@),
        forall|k: int| 0 <= k < r@.len() ==> #[trigger] r@[k] < previous@.len(),
{
    let before = identities(previous);
    let now = identities(present);
    let mut noted: Vec<String> = Vec::new();
    let mut i: usize = 0;
    while i < known.len()
        invariant
            i <= known.len(),
            noted@.len() == i,
            forall|k: int| 0 <= k < i ==> (#[trigger] noted@[k])@ == identity(known@[k]),
        decreases known.len() - i,
    {
        noted.push(contact_identity(&known[i]));
        i += 1;
    }
    let ghost all = Seq::new(previous@.len(), |i: int| i);
    let ghost keep = went_missing(previous@, present@, known@);
    let ghost f = |i: usize| i as int;
    let mut out: Vec<usize> = Vec::new();
    let mut i: usize = 0;
    proof {
        assert(all.take(0).filter(keep) =~= Seq::<int>::empty());
        assert(out@.map_values(f) =~= all.take(0).filter(keep));
        assert(texts_of(before@).len() == before@.len());
        assert(texts_of(now@).len() == now@.len());
        assert forall|k: int| 0 <= k < before@.len() implies (#[trigger] before@[k])@ == identity(
            previous@[k].card,
        ) by {
            assert(texts_of(before@)[k] == before@[k]@);
        }
        assert forall|k: int| 0 <= k < now@.len() implies (#[trigger] now@[k])@ == identity(
            present@[k].card,
        ) by {
            assert(texts_of(now@)[k] == now@[k]@);
        }
    }
    while i < previous.len()
        invariant
            i <= previous.len(),
            before@.len() == previous@.len(),
            now@.len() == present@.len(),
            noted@.len() == known@.len(),
            forall|k: int| 0 <= k < before@.len() ==> (#[trigger] before@[k])@ == identity(previous@[k].card),
            forall|k: int| 0 <= k < now@.len() ==> (#[trigger] now@[k])@ == identity(present@[k].card),
            forall|k: int| 0 <= k < noted@.len() ==> (#[trigger] noted@[k])@ == identity(known@[k]),
            all == Seq::new(previous@.len(), |i: int| i),
            keep == went_missing(previous@, present@, known@),
            f == |i: usize| i as int,
            out@.map_values(f) == all.take(i as int).filter(keep),
            forall|k: int| 0 <= k < out@.len() ==> #[trigger] out@[k] < previous@.len(),
        decreases previous.len() - i,
    {
        let ghost id = identity(previous@[i as int].card);
        proof {
            assert(all.take(i + 1) =~= all.take(i as int).push(i as int));
            all.take(i as int).lemma_filter_push(i as int, keep);
            assert(before@[i as int]@ == id);
        }
        let still = listed(&now, &before[i], 0);
        let stashed = listed(&noted, &before[i], 0);
        let again = listed(&before, &before[i], i + 1);
        proof {
            assert(still == holds(present@, id)) by {
                if still {
                    let k = choose|k: int| 0 <= k < now@.len() && (#[trigger] now@[k])@ == id;
                    assert(identity(present@[k].card) == id);
                }
                if holds(present@, id) {
                    let k = choose|k: int|
                        0 <= k < present@.len() && identity((#[trigger] present@[k]).card) == id;
                    assert(now@[k]@ == id);
                }
            }
            assert(stashed == holds_card(known@, id)) by {
                if stashed {
                    let k = choose|k: int| 0 <= k < noted@.len() && (#[trigger] noted@[k])@ == id;
                    assert(identity(known@[k]) == id);
                }
                if holds_card(known@, id) {
                    let k = choose|k: int| 0 <= k < known@.len() && identity(#[trigger] known@[k]) == id;
                    assert(noted@[k]@ == id);
                }
            }
            assert(again == superseded(previous@, i as int)) by {
                if again {
                    let k = choose|k: int| i + 1 <= k < before@.len() && (#[trigger] before@[k])@ == id;
                    assert(identity(previous@[k].card) == id);
                }
                if superseded(previous@, i as int) {
                    let k = choose|k: int|
                        i < k < previous@.len() && identity((#[trigger] previous@[k]).card) == id;
                    assert(before@[k]@ == id);
                }
            }
        }
        if !still && !stashed && !again {
            let ghost rows = out@.map_values(f);
            out.push(i);
            assert(out@.map_values(f) =~= rows.push(i as int));
        }
        i += 1;
    }
    assert(all.take(i as int) =~= all);
    out
}

proof fn lemma_last_of_identity(records: Seq<ContactRecord>, i: int) -> (r: int)
    requires
        0 <= i < records.len(),
    ensures
        i <= r < records.len(),
        identity(records[r].card) == identity(records[i].card),
        !superseded(records, r),
    decreases records.len() - i,
{
    if superseded(records, i) {
        let j = choose|j: int|
            i < j < records.len() && identity((#[trigger] records[j]).card) == identity(records[i].card);
        lemma_last_of_identity(records, j)
    } else {
        i
    }
}

/// No contact is lost: one that was there is there still, or was known to be missing, or is among
/// those that went missing now.
pub proof fn lemma_no_contact_lost(
    previous: Seq<ContactRecord>,
    present: Seq<ContactRecord>,
    known: Seq<VCard>,
    i: int,
)
    requires
        0 <= i < previous.len(),
    ensures
        holds(present, identity(previous[i].card)) || holds_card(known, identity(previous[i].card))
            || exists|k: int|
            0 <= k < missing_rows(previous, present, known).len() && identity(
                previous[#[trigger] missing_rows(previous, present, known)[k]].card,
            ) == identity(previous[i].card),
{
    let id = identity(previous[i].card);
    if !holds(present, id) && !holds_card(known, id) {
        let r = lemma_last_of_identity(previous, i);
        let all = Seq::new(previous.len(), |i: int| i);
        let keep = went_missing(previous, present, known);
        assert(all[r] == r);
        assert(keep(r));
        broadcast use vstd::seq_lib::group_filter_ensures;
        let rows = missing_rows(previous, present, known);
        assert(rows.contains(r)) by {
            assert(all.contains(r));
            all.lemma_filter_contains(keep, r);
        }
        let k = choose|k: int| 0 <= k < rows.len() && rows[k] == r;
        assert(previous[rows[k]] == previous[r]);
    }
}

/// A contact that is there is never counted as missing, and none is counted twice.
pub proof fn lemma_missing_are_new(
    previous: Seq<ContactRecord>,
    present: Seq<ContactRecord>,
    known: Seq<VCard>,
    a: int,
    b: int,
)
    requires
        0 <= a < b < missing_rows(previous, present, known).len(),
    ensures
        ({
            let rows = missing_rows(previous, present, known);
            &&& !holds(present, identity(previous[rows[a]].card))
            &&& !holds_card(known, identity(previous[rows[a]].card))
            &&& !holds(present, identity(previous[rows[b]].card))
            &&& !holds_card(known, identity(previous[rows[b]].card))
            &&& identity(previous[rows[a]].card) != identity(previous[rows[b]].card)
        }),
{
    let all = Seq::new(previous.len(), |i: int| i);
    let keep = went_missing(previous, present, known);
    let rows = missing_rows(previous, present, known);
    broadcast use vstd::seq_lib::group_filter_ensures;
    lemma_rows_ascend(all.len() as int, keep, a, b);
    assert(keep(rows[a]) && keep(rows[b]));
    if identity(previous[rows[a]].card) == identity(previous[rows[b]].card) {
        assert(superseded(previous, rows[a])) by {
            assert(rows[a] < rows[b] < previous.len());
            assert(identity(previous[rows[b]].card) == identity(previous[rows[a]].card));
        }
    }
}

/// The numbers below a bound that are picked are ascending.
pub proof fn lemma_rows_ascend(n: int, keep: spec_fn(int) -> bool, a: int, b: int)
    requires
        0 <= n,
        0 <= a < b < Seq::new(n as nat, |i: int| i).filter(keep).len(),
    ensures
        0 <= Seq::new(n as nat, |i: int| i).filter(keep)[a] < Seq::new(n as nat, |i: int| i).filter(
            keep,
        )[b] < n,
    decreases n,
{
    let all = Seq::new(n as nat, |i: int| i);
    if n > 0 {
        let fewer = Seq::new((n - 1) as nat, |i: int| i);
        assert(all =~= fewer.push(n - 1));
        fewer.lemma_filter_push(n - 1, keep);
        broadcast use vstd::seq_lib::group_filter_ensures;
        let kept = fewer.filter(keep);
        if b < kept.len() {
            lemma_rows_ascend(n - 1, keep, a, b);
        } else {
            assert(b == kept.len());
            assert(a < kept.len());
            assert(kept.contains(kept[a]));
            fewer.lemma_filter_contains_rev(keep, kept[a]);
        }
    } else {
        assert(all =~= Seq::<int>::empty());
        assert(all.filter(keep).len() == 0);
    }
}

/// What is written to a server.
#[derive(Debug)]
pub enum ContactCommand {
    /// Stores a new card in an address book.
    Create { book_href: String, card: VCard },
    /// Replaces a card, if it is still in the version that was edited.
    Update { href: String, etag: Option<String>, card: VCard },
    /// Removes a card, if it is still in the version that was shown.
    Delete { href: String, etag: Option<String> },
    /// Writes nothing, but looks at the server.
    Refresh,
}

/// What becomes of a card of an imported file.
pub enum ImportKind {
    /// It cannot be read, or a contact with one of its mail addresses is there.
    Skip,
    /// It replaces the record with the same id.
    Update(int),
    /// It is new.
    Create,
}

/// The place of the last of the first `n` records whose id is `uid`.
pub open spec fn record_with_uid(records: Seq<ContactRecord>, uid: Seq<char>, n: int) -> Option<int>
    decreases n,
{
    if n <= 0 {
        None
    } else if text_of(records[n - 1].card.uid) == Some(uid) {
        Some(n - 1)
    } else {
        record_with_uid(records, uid, n - 1)
    }
}

/// The place of the record with the id of a card. A card without an id is no record's.
pub open spec fn record_of(records: Seq<ContactRecord>, card: VCard) -> Option<int> {
    match text_of(card.uid) {
        Some(uid) => record_with_uid(records, uid, records.len() as int),
        None => None,
    }
}

/// A record has a mail address by this key.
pub open spec fn has_email(card: VCard, key: Seq<char>) -> bool {
    exists|i: int| 0 <= i < card.emails@.len() && address_key((#[trigger] card.emails@[i]).address@) == key
}

/// One of the records has a mail address by this key.
pub open spec fn known_email(records: Seq<ContactRecord>, key: Seq<char>) -> bool {
    exists|i: int| 0 <= i < records.len() && has_email((#[trigger] records[i]).card, key)
}

/// A card has a mail address that one of the records has.
pub open spec fn shares_email(records: Seq<ContactRecord>, card: VCard) -> bool {
    exists|i: int|
        0 <= i < card.emails@.len() && address_key((#[trigger] card.emails@[i]).address@).len() > 0
            && known_email(records, address_key(card.emails@[i].address@))
}

/// What becomes of a card of an imported file. A card that cannot be read is none.
pub open spec fn import_kind(records: Seq<ContactRecord>, card: Option<VCard>) -> ImportKind {
    match card {
        None => ImportKind::Skip,
        Some(c) => match record_of(records, c) {
            Some(i) => ImportKind::Update(i),
            None => if shares_email(records, c) {
                ImportKind::Skip
            } else {
                ImportKind::Create
            },
        },
    }
}

/// A card with an id: its own, or a fresh one.
pub open spec fn with_uid(card: VCard, fresh: String) -> VCard {
    if card.uid is Some {
        card
    } else {
        VCard { uid: Some(fresh), ..card }
    }
}

/// A command writes what is to become of a card.
pub open spec fn imports_as(
    command: Option<ContactCommand>,
    records: Seq<ContactRecord>,
    book_href: Seq<char>,
    card: Option<VCard>,
    fresh: String,
) -> bool {
    match import_kind(records, card) {
        ImportKind::Skip => command is None,
        ImportKind::Update(i) => command matches Some(ContactCommand::Update { href, etag, card: c })
            && href@ == records[i].href@ && text_of(etag) == text_of(records[i].etag) && Some(c) == card,
        ImportKind::Create => command matches Some(ContactCommand::Create { book_href: b, card: c }) && b@
            == book_href && c == with_uid(card->0, fresh),
    }
}

/// A command writes what is to become of a card, with some fresh id.
pub open spec fn imported(
    command: Option<ContactCommand>,
    records: Seq<ContactRecord>,
    book_href: Seq<char>,
    card: Option<VCard>,
) -> bool {
    exists|fresh: String|
        uuid_shape(fresh@) && #[trigger] imports_as(command, records, book_href, card, fresh)
}

fn find_uid(records: &Vec<ContactRecord>, uid: &str) -> (r: Option<usize>)
    ensures
        (match r {
            Some(i) => Some(i as int),
            None => None,
        }) == record_with_uid(records@, uid@, records@.len() as int),
        r matches Some(i) ==> i < records@.len(),
{
    let mut n: usize = records.len();
    while n > 0
        invariant
            n <= records.len(),
            record_with_uid(records@, uid@, records@.len() as int) == record_with_uid(
                records@,
                uid@,
                n as int,
            ),
        decreases n,
    {
        if let Some(u) = &records[n - 1].card.uid {
            if same(u, uid) {
                return Some(n - 1);
            }
        }
        n -= 1;
    }
    None
}

fn email_key(address: &str) -> (r: String)
    ensures
        r@ == address_key(address@),
{
    trim(address).to_lowercase()
}

fn card_has_email(card: &VCard, key: &str) -> (r: bool)
    ensures
        r == has_email(*card, key@),
{
    let mut i: usize = 0;
    while i < card.emails.len()
        invariant
            i <= card.emails.len(),
            forall|k: int| 0 <= k < i ==> address_key((#[trigger] card.emails@[k]).address@) != key@,
        decreases card.emails.len() - i,
    {
        if same(&email_key(&card.emails[i].address), key) {
            assert(address_key(card.emails@[i as int].address@) == key@);
            return true;
        }
        i += 1;
    }
    false
}

fn email_known(records: &Vec<ContactRecord>, key: &str) -> (r: bool)
    ensures
        r == known_email(records@, key@),
{
    let mut i: usize = 0;
    while i < records.len()
        invariant
            i <= records.len(),
            forall|k: int| 0 <= k < i ==> !has_email((#[trigger] records@[k]).card, key@),
        decreases records.len() - i,
    {
        if card_has_email(&records[i].card, key) {
            assert(has_email(records@[i as int].card, key@));
            return true;
        }
        i += 1;
    }
    false
}

fn email_shared(records: &Vec<ContactRecord>, card: &VCard) -> (r: bool)
    ensures
        r == shares_email(records@, *card),
{
    let mut i: usize = 0;
    while i < card.emails.len()
        invariant
            i <= card.emails.len(),
            forall|k: int|
                0 <= k < i ==> !(address_key((#[trigger] card.emails@[k]).address@).len() > 0
                    && known_email(records@, address_key(card.emails@[k].address@))),
        decreases card.emails.len() - i,
    {
        let key = email_key(&card.emails[i].address);
        if !key.as_str().is_empty() && email_known(records, &key) {
            assert(address_key(card.emails@[i as int].address@) == key@);
            return true;
        }
        i += 1;
    }
    false
}

/// What to write for a card of an imported file, which gets a fresh id if it is new and has none.
pub fn import_command(
    records: &Vec<ContactRecord>,
    book_href: &str,
    card: Option<VCard>,
    fresh_uid: String,
) -> (r: Option<ContactCommand>)
    ensures
        imports_as(r, records@, book_href@, card, fresh_uid),
{
    let mut c = match card {
        Some(c) => c,
        None => return None,
    };
    let known = match &c.uid {
        Some(u) => find_uid(records, u),
        None => None,
    };
    match known {
        Some(i) => Some(
            ContactCommand::Update { href: records[i].href.clone(), etag: records[i].etag.clone(), card: c },
        ),
        None => {
            if email_shared(records, &c) {
                return None;
            }
            if c.uid.is_none() {
                c.uid = Some(fresh_uid);
            }
            Some(ContactCommand::Create { book_href: book_href.to_owned(), card: c })
        },
    }
}

/// Picks the cards that are new.
pub open spec fn creates(records: Seq<ContactRecord>) -> spec_fn(Option<VCard>) -> bool {
    |c: Option<VCard>| import_kind(records, c) is Create
}

/// Picks the cards that replace a record.
pub open spec fn updates(records: Seq<ContactRecord>) -> spec_fn(Option<VCard>) -> bool {
    |c: Option<VCard>| import_kind(records, c) is Update
}

/// Picks the cards that are left out.
pub open spec fn skips(records: Seq<ContactRecord>) -> spec_fn(Option<VCard>) -> bool {
    |c: Option<VCard>| import_kind(records, c) is Skip
}

/// What to write for an imported file, and how many of its cards are new, known or left out.
#[derive(Debug)]
pub struct ImportPlan {
    pub commands: Vec<Option<ContactCommand>>,
    pub created: usize,
    pub updated: usize,
    pub skipped: usize,
}

/// What to write for the cards of an imported file, each held against the records there were when
/// the import began.
pub fn import_contacts(
    records: &Vec<ContactRecord>,
    book_href: &str,
    cards: Vec<Option<VCard>>,
) -> (r: ImportPlan)
    ensures
        r.commands@.len() == cards@.len(),
        forall|i: int|
            0 <= i < cards@.len() ==> imported(
                #[trigger] r.commands@[i],
                records@,
                book_href@,
                cards@[i],
            ),
        r.created == cards@.filter(creates(records@)).len(),
        r.updated == cards@.filter(updates(records@)).len(),
        r.skipped == cards@.filter(skips(records@)).len(),
        r.created + r.updated + r.skipped == cards@.len(),
{
    let ghost all = cards@;
    let n: usize = cards.len();
    let mut left = cards;
    let mut commands: Vec<Option<ContactCommand>> = Vec::new();
    let mut created: usize = 0;
    let mut updated: usize = 0;
    let mut skipped: usize = 0;
    let mut i: usize = 0;
    proof {
        assert(all.take(0).filter(creates(records@)) =~= Seq::<Option<VCard>>::empty());
        assert(all.take(0).filter(updates(records@)) =~= Seq::<Option<VCard>>::empty());
        assert(all.take(0).filter(skips(records@)) =~= Seq::<Option<VCard>>::empty());
        assert(all.skip(0) =~= all);
    }
    while i < n
        invariant
            i <= n == all.len(),
            left@ == all.skip(i as int),
            commands@.len() == i,
            forall|k: int|
                0 <= k < i ==> imported(#[trigger] commands@[k], records@, book_href@, all[k]),
            created == all.take(i as int).filter(creates(records@)).len(),
            updated == all.take(i as int).filter(updates(records@)).len(),
            skipped == all.take(i as int).filter(skips(records@)).len(),
            created + updated + skipped == i,
        decreases n - i,
    {
        let card = left.remove(0);
        proof {
            assert(card == all[i as int]);
            assert(left@ =~= all.skip(i + 1));
            assert(all.take(i + 1) =~= all.take(i as int).push(card));
            all.take(i as int).lemma_filter_push(card, creates(records@));
            all.take(i as int).lemma_filter_push(card, updates(records@));
            all.take(i as int).lemma_filter_push(card, skips(records@));
        }
        let fresh = new_uuid();
        let ghost f = fresh;
        let command = import_command(records, book_href, card, fresh);
        assert(imports_as(command, records@, book_href@, all[i as int], f));
        assert(imported(command, records@, book_href@, all[i as int]));
        match &command {
            None => {
                skipped += 1;
            },
            Some(ContactCommand::Update { .. }) => {
                updated += 1;
            },
            Some(_) => {
                created += 1;
            },
        }
        let ghost before = commands@;
        commands.push(command);
        assert forall|k: int| 0 <= k < i + 1 implies imported(
            #[trigger] commands@[k],
            records@,
            book_href@,
            all[k],
        ) by {
            if k < i {
                assert(commands@[k] == before[k]);
            }
        }
        i += 1;
    }
    assert(all.take(i as int) =~= all);
    ImportPlan { commands, created, updated, skipped }
}

/// What is said after an import.
pub open spec fn import_report(created: nat, updated: nat, skipped: nat, failures: nat) -> Seq<char> {
    let summary = if created == 0 && updated == 0 {
        decimal(skipped) + " contact(s) already exist - nothing imported"@
    } else {
        "Imported "@ + decimal(created) + ", updated "@ + decimal(updated) + ", skipped "@ + decimal(skipped)
            + " duplicate(s)"@
    };
    if failures > 0 {
        summary + " ("@ + decimal(failures) + " failed)"@
    } else {
        summary
    }
}

/// What is said after an import.
pub fn import_summary(created: usize, updated: usize, skipped: usize, failures: usize) -> (r: String)
    ensures
        r@ == import_report(created as nat, updated as nat, skipped as nat, failures as nat),
{
    let mut out: String;
    if created == 0 && updated == 0 {
        out = decimal_text(skipped as u64);
        out.push_str(" contact(s) already exist - nothing imported");
    } else {
        out = "Imported ".to_owned();
        out.push_str(&decimal_text(created as u64));
        out.push_str(", updated ");
        out.push_str(&decimal_text(updated as u64));
        out.push_str(", skipped ");
        out.push_str(&decimal_text(skipped as u64));
        out.push_str(" duplicate(s)");
    }
    if failures > 0 {
        out.push_str(" (");
        out.push_str(&decimal_text(failures as u64));
        out.push_str(" failed)");
    }
    out
}

/// The replies that did not report success.
pub open spec fn unsuccessful(replies: Seq<Option<Result<(), String>>>) -> Seq<Option<Result<(), String>>> {
    replies.filter(|r: Option<Result<(), String>>| !(r matches Some(Ok(_))))
}

/// How many writes did not report success. A reply that never came is none.
pub fn failed_writes(replies: &Vec<Option<Result<(), String>>>) -> (r: usize)
    ensures
        r == unsuccessful(replies@).len(),
{
    let ghost keep = |r: Option<Result<(), String>>| !(r matches Some(Ok(_)));
    let mut count: usize = 0;
    let mut i: usize = 0;
    assert(replies@.take(0).filter(keep) =~= Seq::<Option<Result<(), String>>>::empty());
    while i < replies.len()
        invariant
            i <= replies.len(),
            keep == |r: Option<Result<(), String>>| !(r matches Some(Ok(_))),
            count == replies@.take(i as int).filter(keep).len(),
            count <= i,
        decreases replies.len() - i,
    {
        proof {
            assert(replies@.take(i + 1) =~= replies@.take(i as int).push(replies@[i as int]));
            replies@.take(i as int).lemma_filter_push(replies@[i as int], keep);
        }
        match &replies[i] {
            Some(Ok(_)) => {},
            _ => {
                count += 1;
            },
        }
        i += 1;
    }
    assert(replies@.take(i as int) =~= replies@);
    count
}

/// The replies that report a failure.
pub open spec fn refused(replies: Seq<Option<Result<(), String>>>) -> Seq<Option<Result<(), String>>> {
    replies.filter(|r: Option<Result<(), String>>| r matches Some(Err(_)))
}

/// What is said after a batch of writes: how many failed, or that some never answered, or that all
/// is well.
pub open spec fn batch_report(replies: Seq<Option<Result<(), String>>>, success: Seq<char>) -> Seq<char> {
    if refused(replies).len() > 0 {
        decimal(refused(replies).len()) + " change(s) couldn't be saved"@
    } else if exists|i: int| 0 <= i < replies.len() && (#[trigger] replies[i]) is None {
        "Some changes couldn't be saved"@
    } else {
        success
    }
}

/// What is said after a batch of writes.
pub fn batch_summary(replies: &Vec<Option<Result<(), String>>>, success: &str) -> (r: String)
    ensures
        r@ == batch_report(replies@, success@),
{
    let ghost keep = |r: Option<Result<(), String>>| r matches Some(Err(_));
    let mut failures: usize = 0;
    let mut unanswered = false;
    let mut i: usize = 0;
    assert(replies@.take(0).filter(keep) =~= Seq::<Option<Result<(), String>>>::empty());
    while i < replies.len()
        invariant
            i <= replies.len(),
            keep == |r: Option<Result<(), String>>| r matches Some(Err(_)),
            failures == replies@.take(i as int).filter(keep).len(),
            failures <= i,
            unanswered <==> exists|k: int| 0 <= k < i && (#[trigger] replies@[k]) is None,
        decreases replies.len() - i,
    {
        proof {
            assert(replies@.take(i + 1) =~= replies@.take(i as int).push(replies@[i as int]));
            replies@.take(i as int).lemma_filter_push(replies@[i as int], keep);
        }
        match &replies[i] {
            Some(Ok(_)) => {},
            Some(Err(_)) => {
                failures += 1;
            },
            None => {
                assert(replies@[i as int] is None);
                unanswered = true;
            },
        }
        i += 1;
    }
    assert(replies@.take(i as int) =~= replies@);
    if failures > 0 {
        let mut out = decimal_text(failures as u64);
        out.push_str(" change(s) couldn't be saved");
        out
    } else if unanswered {
        "Some changes couldn't be saved".to_owned()
    } else {
        success.to_owned()
    }
}

/// What is said after one write: nothing if no reply ever came.
pub fn write_report(reply: &Option<Result<(), String>>, success: &str, failure_prefix: &str) -> (r: Option<String>)
    ensures
        text_of(r) == (match *reply {
            Some(Ok(_)) => Some(success@),
            Some(Err(message)) => Some(failure_prefix@ + ": "@ + message@),
            None => None,
        }),
{
    match reply {
        Some(Ok(_)) => Some(success.to_owned()),
        Some(Err(message)) => {
            let mut out = failure_prefix.to_owned();
            out.push_str(": ");
            out.push_str(message);
            Some(out)
        },
        None => None,
    }
}

/// The command that stores a new card, or what is said where no address book was chosen.
pub fn create_contact(book_href: &str, card: VCard) -> (r: Result<ContactCommand, String>)
    ensures
        match r {
            Ok(command) => book_href@.len() > 0 && (command matches ContactCommand::Create {
                book_href: b,
                card: c,
            } && b@ == book_href@ && c == card),
            Err(message) => book_href@.len() == 0 && message@
                == "Choose an address book to create the contact in."@,
        },
{
    if book_href.is_empty() {
        Err("Choose an address book to create the contact in.".to_owned())
    } else {
        Ok(ContactCommand::Create { book_href: book_href.to_owned(), card })
    }
}

/// How a session of one account stands.
#[derive(Clone, Copy, PartialEq, Eq, Structural, Debug)]
pub struct ContactsSession {
    /// Nothing was shown yet.
    pub first: bool,
    /// The server has to be looked at.
    pub resync: bool,
}

impl ContactsSession {
    /// A session begins. What an earlier session kept was shown, or there was nothing to show.
    pub fn start(cache_shown: bool) -> (r: ContactsSession)
        ensures
            r == (ContactsSession { first: !cache_shown, resync: false }),
    {
        ContactsSession { first: !cache_shown, resync: false }
    }

    /// Whether the session waits for the clock or a command before it goes on.
    pub fn waits(self) -> (r: bool)
        ensures
            r == !self.first,
    {
        !self.first
    }

    /// The session goes on: because of a command, or because it is time to look at the server.
    pub fn wake(self, by_command: bool) -> (r: ContactsSession)
        ensures
            r == (ContactsSession { first: self.first, resync: !by_command }),
    {
        ContactsSession { first: self.first, resync: !by_command }
    }

    /// A command was carried out. Where it changed the server, or asked for it, the server has to
    /// be looked at.
    pub fn carried_out(self, command: &ContactCommand, success: bool) -> (r: ContactsSession)
        ensures
            r == (ContactsSession {
                first: self.first,
                resync: self.resync || success || *command is Refresh,
            }),
    {
        let asked = matches!(command, ContactCommand::Refresh);
        ContactsSession { first: self.first, resync: self.resync || success || asked }
    }

    /// The server was looked at and what it said was shown.
    pub fn shown(self) -> (r: ContactsSession)
        ensures
            r == (ContactsSession { first: false, resync: self.resync }),
    {
        ContactsSession { first: false, resync: self.resync }
    }

    /// How a session stands after its commands were carried out.
    pub open spec fn after(self, commands: Seq<(ContactCommand, bool)>) -> ContactsSession
        decreases commands.len(),
    {
        if commands.len() == 0 {
            self
        } else {
            let before = self.after(commands.drop_last());
            ContactsSession {
                first: before.first,
                resync: before.resync || commands.last().1 || commands.last().0 is Refresh,
            }
        }
    }

    /// A session looks at the server exactly if it was time to, or one of the commands changed
    /// something or asked for it.
    pub proof fn lemma_resync(self, by_command: bool, commands: Seq<(ContactCommand, bool)>)
        ensures
            (ContactsSession { first: self.first, resync: !by_command }).after(commands).resync
                <==> !by_command || exists|i: int|
                0 <= i < commands.len() && ((#[trigger] commands[i]).1 || commands[i].0 is Refresh),
        decreases commands.len(),
    {
        if commands.len() > 0 {
            self.lemma_resync(by_command, commands.drop_last());
            let n = commands.len() - 1;
            assert(commands.last() == commands[n]);
            if exists|i: int|
                0 <= i < commands.len() && ((#[trigger] commands[i]).1 || commands[i].0 is Refresh) {
                let i = choose|i: int|
                    0 <= i < commands.len() && ((#[trigger] commands[i]).1 || commands[i].0 is Refresh);
                if i < n {
                    assert(commands.drop_last()[i] == commands[i]);
                }
            }
            if exists|i: int|
                0 <= i < n && ((#[trigger] commands.drop_last()[i]).1 || commands.drop_last()[i].0 is Refresh) {
                let i = choose|i: int|
                    0 <= i < n && ((#[trigger] commands.drop_last()[i]).1
                        || commands.drop_last()[i].0 is Refresh);
                assert(commands[i] == commands.drop_last()[i]);
            }
        }
    }
}

/// What is said when the server could not be looked at: only the first time.
pub fn sync_failure_text(first: bool, label: &str, message: &str) -> (r: Option<String>)
    ensures
        text_of(r) == (if first {
            Some(label@ + ": "@ + message@)
        } else {
            None
        }),
{
    if first {
        let mut out = label.to_owned();
        out.push_str(": ");
        out.push_str(message);
        Some(out)
    } else {
        None
    }
}

/// How far the sync of one address book has come.
#[derive(Clone, Copy, PartialEq, Eq, Structural, Debug)]
pub enum BookSync {
    /// The server was asked for what changed.
    AskedChanges,
    /// The server was asked for all cards.
    AskedAll,
    /// All cards are there; the server was asked for a token.
    AskedToken,
    /// What was read is being stored.
    Storing,
    /// The sync is over.
    Over,
}

/// What the sync of an address book does next.
#[derive(Debug)]
pub enum BookAction {
    /// Asks the server what changed since a token, or for everything where there is none.
    AskChanges(Option<String>),
    /// Asks the server for all cards.
    AskAll,
    /// Stores the changes that came, with the token for the next time.
    StoreChanges(Option<String>),
    /// Stores all cards that came, with the token for the next time.
    StoreAll(Option<String>),
    /// The address book is in step.
    Done,
    /// The address book could not be synced.
    Fail(String),
}

/// What came of an action.
#[derive(Debug)]
pub enum BookEvent {
    /// The changes came, with a token if the server gives one.
    Changes(Option<String>),
    /// All cards came.
    All,
    /// They were stored.
    Stored,
    /// It failed.
    Failed(String),
}

/// The sync of an address book begins with the token that was kept from the last time.
pub fn begin_book_sync(kept_token: Option<String>) -> (r: (BookSync, BookAction))
    ensures
        r.0 == BookSync::AskedChanges,
        r.1 == BookAction::AskChanges(kept_token),
{
    (BookSync::AskedChanges, BookAction::AskChanges(kept_token))
}

/// What follows an event.
pub open spec fn next_action(state: BookSync, event: BookEvent) -> (BookSync, Option<BookAction>) {
    match (state, event) {
        (BookSync::AskedChanges, BookEvent::Changes(token)) => (
            BookSync::Storing,
            Some(BookAction::StoreChanges(token)),
        ),
        (BookSync::AskedChanges, BookEvent::Failed(_)) => (BookSync::AskedAll, Some(BookAction::AskAll)),
        (BookSync::AskedAll, BookEvent::All) => (
            BookSync::AskedToken,
            Some(BookAction::AskChanges(None)),
        ),
        (BookSync::AskedAll, BookEvent::Failed(e)) => (BookSync::Over, Some(BookAction::Fail(e))),
        (BookSync::AskedToken, BookEvent::Changes(token)) => (
            BookSync::Storing,
            Some(BookAction::StoreAll(token)),
        ),
        (BookSync::AskedToken, BookEvent::Failed(_)) => (
            BookSync::Storing,
            Some(BookAction::StoreAll(None)),
        ),
        (BookSync::Storing, BookEvent::Stored) => (BookSync::Over, Some(BookAction::Done)),
        (BookSync::Storing, BookEvent::Failed(e)) => (BookSync::Over, Some(BookAction::Fail(e))),
        _ => (state, None),
    }
}

/// What follows an event. An event that does not answer the last action changes nothing.
pub fn book_sync_step(state: BookSync, event: BookEvent) -> (r: (BookSync, Option<BookAction>))
    ensures
        r == next_action(state, event),
{
    match (state, event) {
        (BookSync::AskedChanges, BookEvent::Changes(token)) => (
            BookSync::Storing,
            Some(BookAction::StoreChanges(token)),
        ),
        (BookSync::AskedChanges, BookEvent::Failed(_)) => (BookSync::AskedAll, Some(BookAction::AskAll)),
        (BookSync::AskedAll, BookEvent::All) => (
            BookSync::AskedToken,
            Some(BookAction::AskChanges(None)),
        ),
        (BookSync::AskedAll, BookEvent::Failed(e)) => (BookSync::Over, Some(BookAction::Fail(e))),
        (BookSync::AskedToken, BookEvent::Changes(token)) => (
            BookSync::Storing,
            Some(BookAction::StoreAll(token)),
        ),
        (BookSync::AskedToken, BookEvent::Failed(_)) => (
            BookSync::Storing,
            Some(BookAction::StoreAll(None)),
        ),
        (BookSync::Storing, BookEvent::Stored) => (BookSync::Over, Some(BookAction::Done)),
        (BookSync::Storing, BookEvent::Failed(e)) => (BookSync::Over, Some(BookAction::Fail(e))),
        _ => (state, None),
    }
}

/// How many answers the sync of an address book still waits for, at most.
pub open spec fn answers_left(state: BookSync) -> nat {
    match state {
        BookSync::AskedChanges => 4,
        BookSync::AskedAll => 3,
        BookSync::AskedToken => 2,
        BookSync::Storing => 1,
        BookSync::Over => 0,
    }
}

/// The sync of an address book ends after four answers at most, and a server that refuses to say
/// what changed is always asked for all cards.
pub proof fn lemma_book_sync_ends(state: BookSync, event: BookEvent)
    ensures
        next_action(state, event).1 is Some ==> answers_left(next_action(state, event).0)
            < answers_left(state),
        next_action(state, event).1 is None ==> next_action(state, event).0 == state,
        state is AskedChanges && event is Failed ==> next_action(state, event).1 == Some(
            BookAction::AskAll,
        ),
        next_action(state, event).0 is Over && !(state is Over) ==> next_action(state, event).1 is Some && (
        next_action(state, event).1->0 is Done || next_action(state, event).1->0 is Fail),
{
}

/// Picks the address books that are no longer on the server.
pub open spec fn not_among(live: Seq<AddressBook>) -> spec_fn(AddressBook) -> bool {
    |b: AddressBook| forall|i: int| 0 <= i < live.len() ==> (#[trigger] live[i]).href@ != b.href@
}

/// The places of the address books that were kept but are no longer on the server.
pub fn stale_books<'a>(kept: &'a Vec<AddressBook>, live: &Vec<AddressBook>) -> (r: Vec<&'a AddressBook>)
    ensures
        r@.unref() == kept@.filter(not_among(live@)),
{
    let mut out: Vec<&'a AddressBook> = Vec::new();
    let ghost keep = not_among(live@);
    let mut i: usize = 0;
    assert(kept@.take(0).filter(keep) =~= Seq::<AddressBook>::empty());
    assert(out@.unref() =~= kept@.take(0).filter(keep));
    while i < kept.len()
        invariant
            i <= kept.len(),
            keep == not_among(live@),
            out@.unref() == kept@.take(i as int).filter(keep),
        decreases kept.len() - i,
    {
        proof {
            assert(kept@.take(i + 1) =~= kept@.take(i as int).push(kept@[i as int]));
            kept@.take(i as int).lemma_filter_push(kept@[i as int], keep);
        }
        let mut found = false;
        let mut k: usize = 0;
        while k < live.len() && !found
            invariant
                k <= live.len(),
                i < kept.len(),
                found ==> exists|j: int|
                    0 <= j < live@.len() && (#[trigger] live@[j]).href@ == kept@[i as int].href@,
                !found ==> forall|j: int|
                    0 <= j < k ==> (#[trigger] live@[j]).href@ != kept@[i as int].href@,
            decreases live.len() - k + if found { 0int } else { 1int },
        {
            if same(&live[k].href, &kept[i].href) {
                assert(live@[k as int].href@ == kept@[i as int].href@);
                found = true;
            } else {
                k += 1;
            }
        }
        if !found {
            let ghost before = out@.unref();
            out.push(&kept[i]);
            assert(out@.unref() =~= before.push(kept@[i as int]));
        }
        i += 1;
    }
    assert(kept@.take(i as int) =~= kept@);
    out
}

/// A card that was kept: its address book and its place there.
#[derive(Debug)]
pub struct KeptContact {
    pub book_href: String,
    pub href: String,
}

/// The places of the cards in an address book.
pub open spec fn hrefs_in(contacts: Seq<KeptContact>, book_href: Seq<char>) -> Seq<Seq<char>>
    decreases contacts.len(),
{
    if contacts.len() == 0 {
        Seq::empty()
    } else {
        let before = hrefs_in(contacts.drop_last(), book_href);
        if contacts.last().book_href@ == book_href {
            before.push(contacts.last().href@)
        } else {
            before
        }
    }
}

/// The places of the cards that are gone with their address book.
pub fn cards_of_book(contacts: &Vec<KeptContact>, book_href: &str) -> (r: Vec<String>)
    ensures
        texts_of(r@) == hrefs_in(contacts@, book_href@),
{
    let mut out: Vec<String> = Vec::new();
    let mut i: usize = 0;
    assert(contacts@.take(0) =~= Seq::<KeptContact>::empty());
    assert(texts_of(out@) =~= hrefs_in(contacts@.take(0), book_href@));
    while i < contacts.len()
        invariant
            i <= contacts.len(),
            texts_of(out@) == hrefs_in(contacts@.take(i as int), book_href@),
        decreases contacts.len() - i,
    {
        assert(contacts@.take(i + 1).drop_last() =~= contacts@.take(i as int));
        if same(&contacts[i].book_href, book_href) {
            let ghost before = texts_of(out@);
            let href = contacts[i].href.clone();
            out.push(href);
            assert(texts_of(out@) =~= before.push(href@));
        }
        i += 1;
    }
    assert(contacts@.take(i as int) =~= contacts@);
    out
}

/// The mail addresses of records, one after the other.
pub open spec fn record_addresses(records: Seq<ContactRecord>) -> Seq<EmailAddressView>
    decreases records.len(),
{
    if records.len() == 0 {
        Seq::empty()
    } else {
        record_addresses(records.drop_last()) + named_addresses(records.last().card)
    }
}

/// What is known of an account: its address books, its cards and the mail addresses on them, each
/// once.
pub fn account_snapshot(
    display_name: &str,
    books: Vec<AddressBook>,
    contacts: Vec<ContactRecord>,
) -> (r: ContactsAccountSnapshot)
    ensures
        r.display_name@ == display_name@,
        r.books == books,
        r.contacts == contacts,
        address_views(r.suggestions@) == limited(distinct(record_addresses(contacts@)), usize::MAX),
{
    let mut addresses: Vec<EmailAddress> = Vec::new();
    let mut i: usize = 0;
    assert(contacts@.take(0) =~= Seq::<ContactRecord>::empty());
    assert(address_views(addresses@) =~= record_addresses(contacts@.take(0)));
    while i < contacts.len()
        invariant
            i <= contacts.len(),
            address_views(addresses@) == record_addresses(contacts@.take(i as int)),
        decreases contacts.len() - i,
    {
        assert(contacts@.take(i + 1).drop_last() =~= contacts@.take(i as int));
        push_email_addresses(&mut addresses, &contacts[i].card);
        i += 1;
    }
    assert(contacts@.take(i as int) =~= contacts@);
    ContactsAccountSnapshot {
        display_name: display_name.to_owned(),
        books,
        contacts,
        suggestions: dedupe_addresses(addresses, usize::MAX),
    }
}

/// What was kept of an account; nothing if no address book was kept, or what was kept cannot be
/// read.
pub fn snapshot_from_cache(
    display_name: &str,
    books: Option<Vec<AddressBook>>,
    contacts: Option<Vec<ContactRecord>>,
) -> (r: Option<ContactsAccountSnapshot>)
    ensures
        match r {
            Some(s) => books is Some && books->0@.len() > 0 && contacts is Some && s.display_name@
                == display_name@ && s.books == books->0 && s.contacts == contacts->0 && address_views(
                s.suggestions@,
            ) == limited(distinct(record_addresses(contacts->0@)), usize::MAX),
            None => books is None || books->0@.len() == 0 || contacts is None,
        },
{
    let books = match books {
        Some(b) => b,
        None => return None,
    };
    if books.is_empty() {
        return None;
    }
    match contacts {
        Some(c) => Some(account_snapshot(display_name, books, c)),
        None => None,
    }
}

/// The records of the address books that could be read, one after the other.
pub open spec fn read_records(fetched: Seq<Option<Vec<ContactRecord>>>) -> Seq<ContactRecord>
    decreases fetched.len(),
{
    if fetched.len() == 0 {
        Seq::empty()
    } else {
        read_records(fetched.drop_last()) + (match fetched.last() {
            Some(records) => records@,
            None => Seq::empty(),
        })
    }
}

/// The records of the address books that could be read, one after the other.
pub fn joined_records(fetched: Vec<Option<Vec<ContactRecord>>>) -> (r: Vec<ContactRecord>)
    ensures
        r@ == read_records(fetched@),
{
    let ghost all = fetched@;
    let n: usize = fetched.len();
    let mut left = fetched;
    let mut out: Vec<ContactRecord> = Vec::new();
    let mut i: usize = 0;
    assert(all.take(0) =~= Seq::<Option<Vec<ContactRecord>>>::empty());
    assert(all.skip(0) =~= all);
    while i < n
        invariant
            i <= n == all.len(),
            left@ == all.skip(i as int),
            out@ == read_records(all.take(i as int)),
        decreases n - i,
    {
        let next = left.remove(0);
        proof {
            assert(next == all[i as int]);
            assert(left@ =~= all.skip(i + 1));
            assert(all.take(i + 1).drop_last() =~= all.take(i as int));
        }
        if let Some(records) = next {
            let mut records = records;
            out.append(&mut records);
        }
        assert(out@ =~= read_records(all.take(i + 1)));
        i += 1;
    }
    assert(all.take(i as int) =~= all);
    out
}

/// The name to sign in with: the identity of the account, or its display name where it has none.
pub fn dav_username(identity: &str, display_name: &str) -> (r: String)
    ensures
        r@ == (if identity@.len() == 0 {
            display_name@
        } else {
            identity@
        }),
{
    if identity.is_empty() {
        display_name.to_owned()
    } else {
        identity.to_owned()
    }
}

/// The name that a group gets: what was typed, unless it is blank or the old name.
pub fn new_group_name(typed: &str, old_name: &str) -> (r: Option<String>)
    ensures
        text_of(r) == (if trimmed(typed@).len() == 0 || trimmed(typed@) == old_name@ {
            None
        } else {
            Some(trimmed(typed@))
        }),
{
    let name = trim(typed);
    if name.is_empty() || same(name, old_name) {
        None
    } else {
        Some(name.to_owned())
    }
}

/// Groups with one renamed.
pub open spec fn renamed(groups: Seq<Seq<char>>, old_name: Seq<char>, new_name: Seq<char>) -> Seq<Seq<char>> {
    groups.map_values(
        |g: Seq<char>|
            if g == old_name {
                new_name
            } else {
                g
            },
    )
}

/// The groups of a card after one was renamed.
pub fn rename_group(groups: &Vec<String>, old_name: &str, new_name: &str) -> (r: Vec<String>)
    ensures
        texts_of(r@) == renamed(texts_of(groups@), old_name@, new_name@),
{
    let mut out: Vec<String> = Vec::new();
    let ghost want = renamed(texts_of(groups@), old_name@, new_name@);
    let mut i: usize = 0;
    while i < groups.len()
        invariant
            i <= groups.len(),
            want == renamed(texts_of(groups@), old_name@, new_name@),
            texts_of(out@) == want.take(i as int),
        decreases groups.len() - i,
    {
        let ghost before = texts_of(out@);
        let name: String = if same(&groups[i], old_name) {
            new_name.to_owned()
        } else {
            groups[i].clone()
        };
        assert(name@ == want[i as int]);
        out.push(name);
        assert(texts_of(out@) =~= before.push(name@));
        assert(want.take(i + 1) =~= want.take(i as int).push(want[i as int]));
        i += 1;
    }
    assert(want.take(i as int) =~= want);
    out
}

/// Picks the groups but one.
pub open spec fn other_group(name: Seq<char>) -> spec_fn(Seq<char>) -> bool {
    |g: Seq<char>| g != name
}

/// Groups without one.
pub open spec fn without_group(groups: Seq<Seq<char>>, name: Seq<char>) -> Seq<Seq<char>> {
    groups.filter(other_group(name))
}

/// The groups of a card after one was removed.
pub fn remove_group(groups: &Vec<String>, name: &str) -> (r: Vec<String>)
    ensures
        texts_of(r@) == without_group(texts_of(groups@), name@),
{
    let mut out: Vec<String> = Vec::new();
    let ghost all = texts_of(groups@);
    let ghost keep = other_group(name@);
    let mut i: usize = 0;
    assert(all.take(0).filter(keep) =~= Seq::<Seq<char>>::empty());
    assert(texts_of(out@) =~= all.take(0).filter(keep));
    while i < groups.len()
        invariant
            i <= groups.len(),
            all == texts_of(groups@),
            keep == other_group(name@),
            texts_of(out@) == all.take(i as int).filter(keep),
        decreases groups.len() - i,
    {
        proof {
            assert(all.take(i + 1) =~= all.take(i as int).push(all[i as int]));
            all.take(i as int).lemma_filter_push(all[i as int], keep);
        }
        if !same(&groups[i], name) {
            let ghost before = texts_of(out@);
            let g = groups[i].clone();
            out.push(g);
            assert(texts_of(out@) =~= before.push(g@));
        }
        i += 1;
    }
    assert(all.take(i as int) =~= all);
    out
}

/// After a group was removed no card carries it; after it was renamed to another name, none does
/// either.
pub proof fn lemma_group_gone(groups: Seq<Seq<char>>, name: Seq<char>, new_name: Seq<char>)
    requires
        name != new_name,
    ensures
        !without_group(groups, name).contains(name),
        !renamed(groups, name, new_name).contains(name),
        groups.contains(name) ==> renamed(groups, name, new_name).contains(new_name),
{
    let keep = other_group(name);
    broadcast use vstd::seq_lib::group_filter_ensures;
    let left = without_group(groups, name);
    if left.contains(name) {
        let i = choose|i: int| 0 <= i < left.len() && left[i] == name;
        assert(keep(left[i]));
    }
    let other = renamed(groups, name, new_name);
    if other.contains(name) {
        let i = choose|i: int| 0 <= i < other.len() && other[i] == name;
        assert(other[i] == name);
    }
    if groups.contains(name) {
        let i = choose|i: int| 0 <= i < groups.len() && groups[i] == name;
        assert(other[i] == new_name);
    }
}

/// The text of exported cards: each one followed by an empty line break.
pub open spec fn export_text(cards: Seq<Seq<char>>) -> Seq<char>
    decreases cards.len(),
{
    if cards.len() == 0 {
        Seq::empty()
    } else {
        export_text(cards.drop_last()) + cards.last() + "\r\n"@
    }
}

/// The text of exported cards; nothing if there are none.
pub fn export_body(cards: &Vec<String>) -> (r: Option<String>)
    ensures
        text_of(r) == (if cards@.len() == 0 {
            None
        } else {
            Some(export_text(texts_of(cards@)))
        }),
{
    if cards.is_empty() {
        return None;
    }
    let mut out = String::new();
    let ghost all = texts_of(cards@);
    let mut i: usize = 0;
    assert(all.take(0) =~= Seq::<Seq<char>>::empty());
    while i < cards.len()
        invariant
            i <= cards.len(),
            all == texts_of(cards@),
            out@ == export_text(all.take(i as int)),
        decreases cards.len() - i,
    {
        assert(all.take(i + 1).drop_last() =~= all.take(i as int));
        out.push_str(&cards[i]);
        out.push_str("\r\n");
        i += 1;
    }
    assert(all.take(i as int) =~= all);
    Some(out)
}

/// What is said after an export.
pub fn export_summary(count: usize) -> (r: String)
    ensures
        r@ == "Exported "@ + decimal(count as nat) + " contact(s)"@,
{
    let mut out = "Exported ".to_owned();
    out.push_str(&decimal_text(count as u64));
    out.push_str(" contact(s)");
    out
}

} // verus!
