//! Contact cards: what they are called, how they are found and how they are written out.

use crate::dates::Date;
use crate::model::{text_of, texts_of, EmailAddress, EmailAddressView};
use crate::pieces::{join, joined};
use crate::text::{blank, chars_of, has_prefix, is_blank, lowercase, same, starts_with, strip_back, trim};
use crate::text::{trim_end_matches, trimmed};
use vstd::prelude::*;

verus! {

/// The parts of a name.
#[derive(Debug)]
pub struct NameField {
    pub prefix: String,
    pub given: String,
    pub family: String,
    pub suffix: String,
}

/// A mail address of a contact.
#[derive(Debug)]
pub struct EmailField {
    pub types: Vec<String>,
    pub address: String,
}

/// A telephone number of a contact.
#[derive(Debug)]
pub struct TelephoneField {
    pub types: Vec<String>,
    pub number: String,
}

/// A postal address of a contact.
#[derive(Debug)]
pub struct AddressField {
    pub types: Vec<String>,
    pub po_box: String,
    pub extended: String,
    pub street: String,
    pub locality: String,
    pub region: String,
    pub postal_code: String,
    pub country: String,
    pub label: Option<String>,
}

/// A birthday. The year of the date means nothing if it is omitted.
#[derive(Clone, Copy, PartialEq, Eq, Structural, Debug)]
pub struct Birthday {
    pub date: Date,
    pub omit_year: bool,
}

/// A contact card.
#[derive(Debug)]
pub struct VCard {
    pub version: String,
    pub kind: Option<String>,
    pub uid: Option<String>,
    pub full_name: Option<String>,
    pub name: Option<NameField>,
    pub organization: Option<Vec<String>>,
    pub title: Option<String>,
    pub emails: Vec<EmailField>,
    pub telephones: Vec<TelephoneField>,
    pub addresses: Vec<AddressField>,
    pub urls: Vec<String>,
    pub note: Option<String>,
    pub birthday: Option<Birthday>,
    pub categories: Vec<String>,
    pub other: Vec<(String, String)>,
}

/// A card on a server: where it is stored, in which version.
#[derive(Debug)]
pub struct ContactRecord {
    pub href: String,
    pub etag: Option<String>,
    pub card: VCard,
}

/// An address book on a server.
#[derive(Debug)]
pub struct AddressBook {
    pub display_name: String,
    pub href: String,
}

/// What is known of one account's contacts.
#[derive(Debug)]
pub struct ContactsAccountSnapshot {
    pub display_name: String,
    pub books: Vec<AddressBook>,
    pub contacts: Vec<ContactRecord>,
    pub suggestions: Vec<EmailAddress>,
}

/// A text without white space around it, unless it is blank: one text or none.
pub open spec fn filled_part(s: Seq<char>) -> Seq<Seq<char>> {
    if blank(s) {
        Seq::empty()
    } else {
        seq![trimmed(s)]
    }
}

fn push_filled(out: &mut Vec<String>, s: &str)
    ensures
        texts_of(final(out)@) == texts_of(old(out)@) + filled_part(s@),
{
    let ghost before = texts_of(out@);
    let t = trim(s);
    if !t.is_empty() {
        let part = t.to_owned();
        out.push(part);
        assert(texts_of(out@) =~= before.push(part@));
        assert(texts_of(out@) =~= before + filled_part(s@));
    } else {
        assert(texts_of(out@) =~= before + filled_part(s@));
    }
}

/// The parts of a name that are not blank.
pub open spec fn name_parts(n: NameField) -> Seq<Seq<char>> {
    filled_part(n.prefix@) + filled_part(n.given@) + filled_part(n.family@) + filled_part(n.suffix@)
}

/// The first mail address of a card.
pub open spec fn first_email(card: VCard) -> Option<Seq<char>> {
    if card.emails@.len() > 0 {
        Some(card.emails@[0].address@)
    } else {
        None
    }
}

/// What a contact is called: the full name, or else the parts of the name, or else the first mail
/// address.
pub open spec fn display_name(card: VCard) -> Seq<char> {
    let fallback = match first_email(card) {
        Some(address) => address,
        None => "(unnamed contact)"@,
    };
    if card.full_name is Some && !blank((card.full_name->0)@) {
        (card.full_name->0)@
    } else if card.name is Some && name_parts(card.name->0).len() > 0 {
        joined(name_parts(card.name->0), " "@)
    } else {
        fallback
    }
}

/// What a contact is called.
pub fn vcard_display_name(card: &VCard) -> (r: String)
    ensures
        r@ == display_name(*card),
{
    if let Some(name) = &card.full_name {
        if !is_blank(name) {
            return name.clone();
        }
    }
    if let Some(name) = &card.name {
        let mut parts: Vec<String> = Vec::new();
        push_filled(&mut parts, &name.prefix);
        push_filled(&mut parts, &name.given);
        push_filled(&mut parts, &name.family);
        push_filled(&mut parts, &name.suffix);
        assert(texts_of(parts@) =~= name_parts(*name));
        assert(texts_of(parts@).len() == parts@.len());
        if !parts.is_empty() {
            return join(&parts, " ");
        }
    }
    if card.emails.len() > 0 {
        card.emails[0].address.clone()
    } else {
        "(unnamed contact)".to_owned()
    }
}

/// The mail address that a list shows of a contact.
pub open spec fn primary_email(card: VCard) -> Seq<char> {
    match first_email(card) {
        Some(address) => address,
        None => "No email address"@,
    }
}

/// The mail address that a list shows of a contact.
pub fn vcard_primary_email(card: &VCard) -> (r: String)
    ensures
        r@ == primary_email(*card),
{
    if card.emails.len() > 0 {
        card.emails[0].address.clone()
    } else {
        "No email address".to_owned()
    }
}

/// What tells contacts apart: the id of the card, or else what stands for its mail address.
pub open spec fn identity(card: VCard) -> Seq<char> {
    match card.uid {
        Some(uid) => uid@,
        None => primary_email(card),
    }
}

/// What tells contacts apart.
pub fn contact_identity(card: &VCard) -> (r: String)
    ensures
        r@ == identity(*card),
{
    match &card.uid {
        Some(uid) => uid.clone(),
        None => vcard_primary_email(card),
    }
}

/// The mail addresses of a card, each with the full name.
pub open spec fn named_addresses(card: VCard) -> Seq<EmailAddressView> {
    card.emails@.map_values(
        |e: EmailField| EmailAddressView { name: text_of(card.full_name), address: e.address@ },
    )
}

/// Addresses as text.
pub open spec fn address_views(v: Seq<EmailAddress>) -> Seq<EmailAddressView> {
    v.map_values(|a: EmailAddress| a@)
}

/// Appends the mail addresses of a card, each with the full name.
pub fn push_email_addresses(out: &mut Vec<EmailAddress>, card: &VCard)
    ensures
        address_views(final(out)@) == address_views(old(out)@) + named_addresses(*card),
{
    let ghost start = address_views(out@);
    let ghost want = named_addresses(*card);
    let mut i: usize = 0;
    assert(address_views(out@) =~= start + want.take(0));
    while i < card.emails.len()
        invariant
            i <= card.emails.len(),
            want == named_addresses(*card),
            address_views(out@) == start + want.take(i as int),
        decreases card.emails.len() - i,
    {
        let ghost before = address_views(out@);
        let a = EmailAddress {
            name: card.full_name.clone(),
            address: card.emails[i].address.clone(),
        };
        assert(want[i as int] == a@);
        out.push(a);
        assert(address_views(out@) =~= before.push(a@));
        assert(address_views(out@) =~= start + want.take(i + 1));
        i += 1;
    }
    assert(want.take(i as int) =~= want);
}

/// The mail addresses of a card, each with the full name.
pub fn email_addresses(card: &VCard) -> (r: Vec<EmailAddress>)
    ensures
        address_views(r@) == named_addresses(*card),
{
    let mut out: Vec<EmailAddress> = Vec::new();
    push_email_addresses(&mut out, card);
    assert(address_views(out@) =~= named_addresses(*card));
    out
}

/// The types of a field behind its value.
pub open spec fn types_text(types: Seq<String>) -> Seq<char> {
    if types.len() == 0 {
        Seq::empty()
    } else {
        " ("@ + joined(texts_of(types), ", "@) + ")"@
    }
}

/// A line of a list: a value and its types.
pub open spec fn item_line(value: Seq<char>, types: Seq<String>) -> Seq<char> {
    "  - "@ + value + types_text(types)
}

fn item(value: &str, types: &Vec<String>) -> (r: String)
    ensures
        r@ == item_line(value@, types@),
{
    let mut out = "  - ".to_owned();
    out.push_str(value);
    let ghost before = out@;
    if types.is_empty() {
        assert(out@ =~= before + types_text(types@));
    } else {
        out.push_str(" (");
        out.push_str(&join(types, ", "));
        out.push_str(")");
        assert(out@ =~= before + types_text(types@));
    }
    out
}

/// A heading and lines below it, unless there is nothing to list.
pub open spec fn section(there: bool, heading: Seq<char>, lines: Seq<Seq<char>>) -> Seq<Seq<char>> {
    if there {
        seq![heading] + lines
    } else {
        Seq::empty()
    }
}

/// The parts of a postal address that are not blank.
pub open spec fn address_parts(a: AddressField) -> Seq<Seq<char>> {
    filled_part(a.street@) + filled_part(a.locality@) + filled_part(a.region@) + filled_part(
        a.postal_code@,
    ) + filled_part(a.country@)
}

/// The line of a postal address, unless all its parts are blank.
pub open spec fn address_line(a: AddressField) -> Seq<Seq<char>> {
    if address_parts(a).len() == 0 {
        Seq::empty()
    } else {
        seq!["  - "@ + joined(address_parts(a), ", "@)]
    }
}

/// The lines of postal addresses.
pub open spec fn address_lines(v: Seq<AddressField>) -> Seq<Seq<char>>
    decreases v.len(),
{
    if v.len() == 0 {
        Seq::empty()
    } else {
        address_lines(v.drop_last()) + address_line(v.last())
    }
}

/// The parts of an organization that are not blank.
pub open spec fn organization_parts(v: Seq<String>) -> Seq<Seq<char>>
    decreases v.len(),
{
    if v.len() == 0 {
        Seq::empty()
    } else {
        organization_parts(v.drop_last()) + filled_part(v.last()@)
    }
}

/// A line with a label, unless the text is blank.
pub open spec fn labelled(label: Seq<char>, o: Option<String>) -> Seq<Seq<char>> {
    match o {
        Some(s) => if blank(s@) {
            Seq::empty()
        } else {
            seq![label + trimmed(s@)]
        },
        None => Seq::empty(),
    }
}

/// The lines that describe a contact.
pub open spec fn details(account: Seq<char>, category: Seq<char>, card: VCard) -> Seq<Seq<char>> {
    let organization = match card.organization {
        Some(org) => joined(organization_parts(org@), " / "@),
        None => Seq::empty(),
    };
    seq![
        "Account: "@ + account,
        "Category: "@ + category,
        Seq::empty(),
        "Name: "@ + display_name(card),
    ] + section(
        card.emails@.len() > 0,
        "Emails:"@,
        card.emails@.map_values(|e: EmailField| item_line(e.address@, e.types@)),
    ) + section(
        card.telephones@.len() > 0,
        "Phones:"@,
        card.telephones@.map_values(|t: TelephoneField| item_line(t.number@, t.types@)),
    ) + section(card.addresses@.len() > 0, "Addresses:"@, address_lines(card.addresses@)) + (
    if organization.len() > 0 {
        seq!["Organization: "@ + organization]
    } else {
        Seq::empty()
    }) + labelled("Title: "@, card.title) + (match card.note {
        Some(note) => if blank(note@) {
            Seq::empty()
        } else {
            seq![Seq::empty(), "Notes:"@, trimmed(note@)]
        },
        None => Seq::empty(),
    })
}

fn push_line(lines: &mut Vec<String>, line: String)
    ensures
        texts_of(final(lines)@) == texts_of(old(lines)@).push(line@),
{
    let ghost before = texts_of(lines@);
    lines.push(line);
    assert(texts_of(lines@) =~= before.push(line@));
}

fn labelled_line(label: &str, value: &str) -> (r: String)
    ensures
        r@ == label@ + value@,
{
    let mut out = label.to_owned();
    out.push_str(value);
    out
}

fn push_emails(lines: &mut Vec<String>, card: &VCard)
    ensures
        texts_of(final(lines)@) == texts_of(old(lines)@) + section(
            card.emails@.len() > 0,
            "Emails:"@,
            card.emails@.map_values(|e: EmailField| item_line(e.address@, e.types@)),
        ),
{
    let ghost start = texts_of(lines@);
    let ghost want = card.emails@.map_values(|e: EmailField| item_line(e.address@, e.types@));
    if card.emails.is_empty() {
        assert(texts_of(lines@) =~= start + Seq::<Seq<char>>::empty());
        return;
    }
    push_line(lines, "Emails:".to_owned());
    let mut i: usize = 0;
    assert(texts_of(lines@) =~= start + (seq!["Emails:"@] + want.take(0)));
    while i < card.emails.len()
        invariant
            i <= card.emails.len(),
            want == card.emails@.map_values(|e: EmailField| item_line(e.address@, e.types@)),
            texts_of(lines@) == start + (seq!["Emails:"@] + want.take(i as int)),
        decreases card.emails.len() - i,
    {
        let line = item(&card.emails[i].address, &card.emails[i].types);
        assert(want[i as int] == line@);
        push_line(lines, line);
        assert(texts_of(lines@) =~= start + (seq!["Emails:"@] + want.take(i + 1)));
        i += 1;
    }
    assert(want.take(i as int) =~= want);
}

fn push_phones(lines: &mut Vec<String>, card: &VCard)
    ensures
        texts_of(final(lines)@) == texts_of(old(lines)@) + section(
            card.telephones@.len() > 0,
            "Phones:"@,
            card.telephones@.map_values(|t: TelephoneField| item_line(t.number@, t.types@)),
        ),
{
    let ghost start = texts_of(lines@);
    let ghost want = card.telephones@.map_values(|t: TelephoneField| item_line(t.number@, t.types@));
    if card.telephones.is_empty() {
        assert(texts_of(lines@) =~= start + Seq::<Seq<char>>::empty());
        return;
    }
    push_line(lines, "Phones:".to_owned());
    let mut i: usize = 0;
    assert(texts_of(lines@) =~= start + (seq!["Phones:"@] + want.take(0)));
    while i < card.telephones.len()
        invariant
            i <= card.telephones.len(),
            want == card.telephones@.map_values(|t: TelephoneField| item_line(t.number@, t.types@)),
            texts_of(lines@) == start + (seq!["Phones:"@] + want.take(i as int)),
        decreases card.telephones.len() - i,
    {
        let line = item(&card.telephones[i].number, &card.telephones[i].types);
        assert(want[i as int] == line@);
        push_line(lines, line);
        assert(texts_of(lines@) =~= start + (seq!["Phones:"@] + want.take(i + 1)));
        i += 1;
    }
    assert(want.take(i as int) =~= want);
}

fn push_postal(lines: &mut Vec<String>, card: &VCard)
    ensures
        texts_of(final(lines)@) == texts_of(old(lines)@) + section(
            card.addresses@.len() > 0,
            "Addresses:"@,
            address_lines(card.addresses@),
        ),
{
    let ghost start = texts_of(lines@);
    if card.addresses.is_empty() {
        assert(texts_of(lines@) =~= start + Seq::<Seq<char>>::empty());
        return;
    }
    push_line(lines, "Addresses:".to_owned());
    let ghost all = card.addresses@;
    let mut i: usize = 0;
    assert(all.take(0) =~= Seq::<AddressField>::empty());
    assert(texts_of(lines@) =~= start + (seq!["Addresses:"@] + address_lines(all.take(0))));
    while i < card.addresses.len()
        invariant
            i <= card.addresses.len(),
            all == card.addresses@,
            texts_of(lines@) == start + (seq!["Addresses:"@] + address_lines(all.take(i as int))),
        decreases card.addresses.len() - i,
    {
        let a = &card.addresses[i];
        assert(all.take(i + 1).drop_last() =~= all.take(i as int));
        let mut parts: Vec<String> = Vec::new();
        push_filled(&mut parts, &a.street);
        push_filled(&mut parts, &a.locality);
        push_filled(&mut parts, &a.region);
        push_filled(&mut parts, &a.postal_code);
        push_filled(&mut parts, &a.country);
        assert(texts_of(parts@) =~= address_parts(*a));
        assert(texts_of(parts@).len() == parts@.len());
        let ghost before = texts_of(lines@);
        if !parts.is_empty() {
            push_line(lines, labelled_line("  - ", &join(&parts, ", ")));
        }
        assert(texts_of(lines@) =~= before + address_line(*a));
        assert(texts_of(lines@) =~= start + (seq!["Addresses:"@] + address_lines(all.take(i + 1))));
        i += 1;
    }
    assert(all.take(i as int) =~= all);
}

fn organization_text(org: &Vec<String>) -> (r: String)
    ensures
        r@ == joined(organization_parts(org@), " / "@),
{
    let mut parts: Vec<String> = Vec::new();
    let mut i: usize = 0;
    assert(org@.take(0) =~= Seq::<String>::empty());
    assert(texts_of(parts@) =~= organization_parts(org@.take(0)));
    while i < org.len()
        invariant
            i <= org.len(),
            texts_of(parts@) == organization_parts(org@.take(i as int)),
        decreases org.len() - i,
    {
        assert(org@.take(i + 1).drop_last() =~= org@.take(i as int));
        push_filled(&mut parts, &org[i]);
        i += 1;
    }
    assert(org@.take(i as int) =~= org@);
    join(&parts, " / ")
}

/// The lines that describe a contact, one below the other.
pub fn vcard_details_text(account_label: &str, category_label: &str, card: &VCard) -> (r: String)
    ensures
        r@ == joined(details(account_label@, category_label@, *card), "\n"@),
{
    let mut lines: Vec<String> = Vec::new();
    push_line(&mut lines, labelled_line("Account: ", account_label));
    push_line(&mut lines, labelled_line("Category: ", category_label));
    push_line(&mut lines, String::new());
    push_line(&mut lines, labelled_line("Name: ", &vcard_display_name(card)));
    assert(texts_of(lines@) =~= seq![
        "Account: "@ + account_label@,
        "Category: "@ + category_label@,
        Seq::empty(),
        "Name: "@ + display_name(*card),
    ]);
    push_emails(&mut lines, card);
    push_phones(&mut lines, card);
    push_postal(&mut lines, card);
    let ghost before = texts_of(lines@);
    let ghost mut organization = Seq::<char>::empty();
    if let Some(org) = &card.organization {
        let value = organization_text(org);
        proof {
            organization = value@;
        }
        if !value.as_str().is_empty() {
            push_line(&mut lines, labelled_line("Organization: ", &value));
        }
    }
    assert(texts_of(lines@) =~= before + (if organization.len() > 0 {
        seq!["Organization: "@ + organization]
    } else {
        Seq::empty()
    }));
    let ghost before = texts_of(lines@);
    if let Some(title) = &card.title {
        let t = trim(title);
        if !t.is_empty() {
            push_line(&mut lines, labelled_line("Title: ", t));
        }
    }
    assert(texts_of(lines@) =~= before + labelled("Title: "@, card.title));
    let ghost before = texts_of(lines@);
    if let Some(note) = &card.note {
        let t = trim(note);
        if !t.is_empty() {
            push_line(&mut lines, String::new());
            push_line(&mut lines, "Notes:".to_owned());
            push_line(&mut lines, t.to_owned());
        }
    }
    assert(texts_of(lines@) =~= before + (match card.note {
        Some(note) => if blank(note@) {
            Seq::empty()
        } else {
            seq![Seq::empty(), "Notes:"@, trimmed(note@)]
        },
        None => Seq::empty(),
    }));
    join(&lines, "\n")
}

/// A contact matches what was typed: its address or its name starts with it, in any case.
pub open spec fn matches_prefix(contact: EmailAddressView, prefix: Seq<char>) -> bool {
    ||| prefix.len() == 0
    ||| has_prefix(lowercase(contact.address), lowercase(prefix))
    ||| contact.name matches Some(name) && has_prefix(lowercase(name), lowercase(prefix))
}

/// Whether a contact matches what was typed.
pub fn contacts_match_prefix(contact: &EmailAddress, prefix: &str) -> (r: bool)
    ensures
        r == matches_prefix(contact@, prefix@),
{
    if prefix.is_empty() {
        return true;
    }
    let needle = prefix.to_lowercase();
    if starts_with(&contact.address.as_str().to_lowercase(), &needle) {
        return true;
    }
    match &contact.name {
        Some(name) => starts_with(&name.as_str().to_lowercase(), &needle),
        None => false,
    }
}

/// What addresses are compared by: without white space around them and in lower case.
pub open spec fn address_key(address: Seq<char>) -> Seq<char> {
    lowercase(trimmed(address))
}

/// One of the addresses has a key.
pub open spec fn has_key(v: Seq<EmailAddressView>, key: Seq<char>) -> bool {
    exists|i: int| 0 <= i < v.len() && address_key((#[trigger] v[i]).address) == key
}

/// The first of the addresses with each key, in order; those with an empty key are left out.
pub open spec fn distinct(v: Seq<EmailAddressView>) -> Seq<EmailAddressView>
    decreases v.len(),
{
    if v.len() == 0 {
        Seq::empty()
    } else {
        let before = distinct(v.drop_last());
        let key = address_key(v.last().address);
        if key.len() == 0 || has_key(before, key) {
            before
        } else {
            before.push(v.last())
        }
    }
}

/// The first `limit` addresses, but at least one if there is any.
pub open spec fn limited(v: Seq<EmailAddressView>, limit: usize) -> Seq<EmailAddressView> {
    let n = if limit == 0 {
        1
    } else {
        limit as int
    };
    if v.len() <= n {
        v
    } else {
        v.take(n)
    }
}

proof fn lemma_distinct_grows(v: Seq<EmailAddressView>, i: int)
    requires
        0 <= i <= v.len(),
    ensures
        distinct(v.take(i)).len() <= distinct(v).len(),
        distinct(v).take(distinct(v.take(i)).len() as int) == distinct(v.take(i)),
    decreases v.len() - i,
{
    if i == v.len() {
        assert(v.take(i) =~= v);
        assert(distinct(v).take(distinct(v).len() as int) =~= distinct(v));
    } else {
        lemma_distinct_grows(v, i + 1);
        assert(v.take(i + 1).drop_last() =~= v.take(i));
        let a = distinct(v.take(i));
        let b = distinct(v.take(i + 1));
        assert(b.take(a.len() as int) =~= a);
        assert(distinct(v).take(a.len() as int) =~= distinct(v).take(b.len() as int).take(
            a.len() as int,
        ));
    }
}

/// Keeps the first of the addresses with each key, up to a limit.
pub fn dedupe_addresses(addresses: Vec<EmailAddress>, limit: usize) -> (r: Vec<EmailAddress>)
    ensures
        address_views(r@) == limited(distinct(address_views(addresses@)), limit),
{
    let mut seen: Vec<String> = Vec::new();
    let mut out: Vec<EmailAddress> = Vec::new();
    let ghost all = address_views(addresses@);
    let mut i: usize = 0;
    assert(all.take(0) =~= Seq::<EmailAddressView>::empty());
    assert(address_views(out@) =~= distinct(all.take(0)));
    while i < addresses.len()
        invariant
            i <= addresses.len(),
            all == address_views(addresses@),
            address_views(out@) == distinct(all.take(i as int)),
            out@.len() == seen@.len(),
            i > 0 && out@.len() > 0 ==> out@.len() < limit,
            forall|k: int| 0 <= k < out@.len() ==> (#[trigger] seen@[k])@ == address_key(out@[k].address@),
        decreases addresses.len() - i,
    {
        let key = trim(&addresses[i].address).to_lowercase();
        let ghost before = address_views(out@);
        proof {
            assert(all.take(i + 1).drop_last() =~= all.take(i as int));
            assert(all.take(i + 1).last() == addresses@[i as int]@);
            assert(before.len() == out@.len());
        }
        let mut known = key.as_str().is_empty();
        let mut k: usize = 0;
        while k < seen.len() && !known
            invariant
                k <= seen.len(),
                before == address_views(out@),
                before.len() == out@.len(),
                out@.len() == seen@.len(),
                forall|j: int|
                    0 <= j < out@.len() ==> (#[trigger] seen@[j])@ == address_key(out@[j].address@),
                known ==> key@.len() == 0 || has_key(before, key@),
                !known ==> key@.len() > 0 && forall|j: int|
                    0 <= j < k ==> address_key((#[trigger] before[j]).address) != key@,
            decreases seen.len() - k + if known { 0int } else { 1int },
        {
            assert(before[k as int] == out@[k as int]@);
            assert(seen@[k as int]@ == address_key(out@[k as int].address@));
            if same(&seen[k], &key) {
                known = true;
            } else {
                k += 1;
            }
        }
        if !known {
            assert(!has_key(before, key@));
            let a = addresses[i].clone();
            out.push(a);
            seen.push(key);
            assert(address_views(out@) =~= before.push(a@));
            if out.len() >= limit {
                proof {
                    lemma_distinct_grows(all, i + 1);
                    assert(address_views(out@) == distinct(all.take(i + 1)));
                    let n = out@.len() as int;
                    assert(address_views(out@).len() == n);
                    assert(limit == 0 ==> n == 1) by {
                        if before.len() > 0 {
                            assert(i > 0) by {
                                if i == 0 {
                                    assert(all.take(0) =~= Seq::<EmailAddressView>::empty());
                                }
                            }
                        }
                    }
                    let d = distinct(all);
                    assert(d.take(n) == address_views(out@));
                    if d.len() <= n {
                        assert(d.take(n) =~= d);
                    }
                }
                return out;
            }
        }
        i += 1;
    }
    assert(all.take(i as int) =~= all);
    assert(address_views(out@).len() == out@.len());
    out
}

/// Addresses that are kept are different from each other.
pub proof fn lemma_distinct_keys(v: Seq<EmailAddressView>, i: int, j: int)
    requires
        0 <= i < j < distinct(v).len(),
    ensures
        address_key(distinct(v)[i].address) != address_key(distinct(v)[j].address),
    decreases v.len(),
{
    let before = distinct(v.drop_last());
    if j < before.len() {
        lemma_distinct_keys(v.drop_last(), i, j);
    } else {
        assert(address_key(before[i].address) != address_key(v.last().address));
    }
}

/// The addresses from the mail history, then those of the address books that match what was typed;
/// each one once.
pub fn merge_contact_suggestions(
    mail_history: Vec<EmailAddress>,
    carddav: &Vec<EmailAddress>,
    prefix: &str,
    limit: usize,
) -> (r: Vec<EmailAddress>)
    ensures
        address_views(r@) == limited(
            distinct(
                address_views(mail_history@) + address_views(carddav@).filter(
                    |a: EmailAddressView| matches_prefix(a, prefix@),
                ),
            ),
            limit,
        ),
{
    let mut merged = mail_history;
    push_matching(&mut merged, carddav, prefix);
    dedupe_addresses(merged, limit)
}

pub(crate) fn push_matching(out: &mut Vec<EmailAddress>, list: &Vec<EmailAddress>, prefix: &str)
    ensures
        address_views(final(out)@) == address_views(old(out)@) + address_views(list@).filter(
            |a: EmailAddressView| matches_prefix(a, prefix@),
        ),
{
    let ghost start = address_views(out@);
    let ghost keep = |a: EmailAddressView| matches_prefix(a, prefix@);
    let ghost all = address_views(list@);
    let mut i: usize = 0;
    assert(all.take(0).filter(keep) =~= Seq::<EmailAddressView>::empty());
    assert(address_views(out@) =~= start + all.take(0).filter(keep));
    while i < list.len()
        invariant
            i <= list.len(),
            keep == |a: EmailAddressView| matches_prefix(a, prefix@),
            all == address_views(list@),
            address_views(out@) == start + all.take(i as int).filter(keep),
        decreases list.len() - i,
    {
        let ghost a = list@[i as int]@;
        let ghost before = address_views(out@);
        proof {
            assert(all.take(i + 1) =~= all.take(i as int).push(a));
            all.take(i as int).lemma_filter_push(a, keep);
        }
        if contacts_match_prefix(&list[i], prefix) {
            out.push(list[i].clone());
            assert(address_views(out@) =~= before.push(a));
            assert(address_views(out@) =~= start + all.take(i as int).filter(keep).push(a));
        }
        i += 1;
    }
    assert(all.take(i as int) =~= all);
}

/// The suggestions of several accounts, one after the other.
pub open spec fn all_suggestions(lists: Seq<Vec<EmailAddress>>) -> Seq<EmailAddressView>
    decreases lists.len(),
{
    if lists.len() == 0 {
        Seq::empty()
    } else {
        all_suggestions(lists.drop_last()) + address_views(lists.last()@)
    }
}

/// A character of an id that may stand in a file name.
pub open spec fn name_char(c: char) -> bool {
    alnum(c) || c == '-' || c == '_'
}

/// An ASCII letter or digit.
pub open spec fn alnum(c: char) -> bool {
    'a' <= c <= 'z' || 'A' <= c <= 'Z' || '0' <= c <= '9'
}

/// The file name for an id: every character that may not stand in it becomes `_`; an id without
/// any letter or digit becomes `contact`.
pub open spec fn file_name(uid: Seq<char>) -> Seq<char> {
    if exists|i: int| 0 <= i < uid.len() && alnum(#[trigger] uid[i]) {
        uid.map_values(
            |c: char|
                if name_char(c) {
                    c
                } else {
                    '_'
                },
        )
    } else {
        "contact"@
    }
}

/// Where a new card is stored in an address book.
pub open spec fn card_href(book_href: Seq<char>, uid: Option<Seq<char>>) -> Seq<char> {
    let id = match uid {
        Some(u) => u,
        None => Seq::empty(),
    };
    strip_back(book_href, |c: char| c == '/') + "/"@ + file_name(id) + ".vcf"@
}

fn is_alnum(c: char) -> (r: bool)
    ensures
        r == alnum(c),
{
    ('a' <= c && c <= 'z') || ('A' <= c && c <= 'Z') || ('0' <= c && c <= '9')
}

/// Where a new card is stored in an address book.
pub fn new_contact_href(book_href: &str, card: &VCard) -> (r: String)
    ensures
        r@ == card_href(book_href@, text_of(card.uid)),
{
    let uid: Vec<char> = match &card.uid {
        Some(u) => chars_of(u),
        None => Vec::new(),
    };
    let ghost f = |c: char|
        if name_char(c) {
            c
        } else {
            '_'
        };
    let mut safe = String::new();
    let mut kept = false;
    let mut i: usize = 0;
    while i < uid.len()
        invariant
            i <= uid.len(),
            f == |c: char|
                if name_char(c) {
                    c
                } else {
                    '_'
                },
            safe@ == uid@.take(i as int).map_values(f),
            kept <==> exists|k: int| 0 <= k < i && alnum(#[trigger] uid@[k]),
        decreases uid.len() - i,
    {
        let c = uid[i];
        let ghost before = safe@;
        if is_alnum(c) || c == '-' || c == '_' {
            if is_alnum(c) {
                assert(alnum(uid@[i as int]));
                kept = true;
            }
            safe.push(c);
        } else {
            safe.push('_');
        }
        assert(safe@ =~= uid@.take(i + 1).map_values(f));
        i += 1;
    }
    assert(uid@.take(i as int) =~= uid@);
    let mut out = trim_end_matches(book_href, '/').to_owned();
    out.push_str("/");
    if kept {
        out.push_str(&safe);
    } else {
        out.push_str("contact");
    }
    out.push_str(".vcf");
    out
}

/// The name that a card is stored under holds no path separator, whatever its id.
pub proof fn lemma_file_name_is_flat(uid: Seq<char>)
    ensures
        !file_name(uid).contains('/'),
        file_name(uid).len() > 0,
{
    reveal_strlit("contact");
    let s = file_name(uid);
    if s.contains('/') {
        let i = choose|i: int| 0 <= i < s.len() && s[i] == '/';
        assert(s[i] == '/');
    }
}

} // verus!
