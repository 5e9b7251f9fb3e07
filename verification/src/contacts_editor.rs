//! The contact editor: a card as a form, and the form as a card.

use crate::card_views::{birthday_view, copied_text, views_of, AddressView, CardView, Copied, Typed};
use crate::card_views::TypedView;
use crate::contacts::{AddressField, Birthday, VCard};
use crate::contacts_sync::{create_contact, ContactCommand};
use crate::dates::{date_written, day_number, formatted, of_digits_and_signs, Date};
use crate::fresh_ids::{new_uuid, uuid_shape};
use crate::model::{text_of, texts_of};
use crate::pieces::{eq_ignore_ascii_case, join, joined, same_ignoring_case, tags, tags_of};
use crate::text::{blank, is_blank, lemma_trimmed_fixed, same, trim, trimmed, white};
use vstd::prelude::*;

verus! {

/// What the editor is opened with.
pub struct ContactEditorPrefill<'a> {
    /// The label and the place of each address book that a new contact can go to.
    pub books: &'a Vec<(String, String)>,
    /// The contact to edit, unless a new one is made.
    pub existing: Option<&'a VCard>,
    /// What a new contact starts from.
    pub prefill: Option<&'a VCard>,
    /// Where the contact to edit is stored; empty if it cannot be written.
    pub href: &'a str,
    /// The version of the contact to edit.
    pub etag: Option<&'a str>,
}

/// A mail address or a telephone number in the form, with the number of its type, and the place of
/// the field that it was opened with, if it was.
#[derive(Debug)]
pub struct FieldRow {
    pub text: String,
    pub kind: usize,
    pub origin: Option<usize>,
}

/// A postal address in the form, with the place of the address that it was opened with, if it was.
#[derive(Debug)]
pub struct AddressRow {
    pub street: String,
    pub city: String,
    pub origin: Option<usize>,
}

/// The form.
#[derive(Debug)]
pub struct ContactForm {
    pub full_name: String,
    pub organization: String,
    pub title: String,
    pub birthday: String,
    pub groups: String,
    pub notes: String,
    pub emails: Vec<FieldRow>,
    pub phones: Vec<FieldRow>,
    pub addresses: Vec<AddressRow>,
}

/// How many types a mail address or a telephone number can have.
pub const FIELD_TYPE_COUNT: usize = 3;

/// The types of a mail address or a telephone number.
pub open spec fn field_type(i: int) -> Seq<char> {
    if i == 0 {
        "work"@
    } else if i == 1 {
        "home"@
    } else {
        "other"@
    }
}

/// The type with a number.
pub fn field_type_name(i: usize) -> (r: String)
    requires
        i < FIELD_TYPE_COUNT,
    ensures
        r@ == field_type(i as int),
{
    if i == 0 {
        "work".to_owned()
    } else if i == 1 {
        "home".to_owned()
    } else {
        "other".to_owned()
    }
}

/// The number of the type that a field has first, in any case; that of work if it has none of them.
pub open spec fn type_number(types: Seq<Seq<char>>) -> int {
    if types.len() == 0 {
        0
    } else if same_ignoring_case("work"@, types[0]) {
        0
    } else if same_ignoring_case("home"@, types[0]) {
        1
    } else if same_ignoring_case("other"@, types[0]) {
        2
    } else {
        0
    }
}

/// The number of the type that a field has first.
pub fn field_type_index(types: &Vec<String>) -> (r: usize)
    ensures
        r == type_number(texts_of(types@)),
        r < FIELD_TYPE_COUNT,
{
    if types.is_empty() {
        return 0;
    }
    if eq_ignore_ascii_case("work", &types[0]) {
        0
    } else if eq_ignore_ascii_case("home", &types[0]) {
        1
    } else if eq_ignore_ascii_case("other", &types[0]) {
        2
    } else {
        0
    }
}

/// The rows show mail addresses or telephone numbers, each with its place.
pub open spec fn shows_fields(rows: Seq<FieldRow>, fields: Seq<TypedView>) -> bool {
    rows.len() == fields.len() && forall|i: int|
        0 <= i < rows.len() ==> (#[trigger] rows[i]).text@ == fields[i].value && rows[i].kind
            == type_number(fields[i].types) && rows[i].origin == Some(i as usize)
}

/// The rows show the streets and cities of postal addresses, each with its place.
pub open spec fn shows_addresses(rows: Seq<AddressRow>, addresses: Seq<AddressView>) -> bool {
    rows.len() == addresses.len() && forall|i: int|
        0 <= i < rows.len() ==> (#[trigger] rows[i]).street@ == addresses[i].street && rows[i].city@
            == addresses[i].locality && rows[i].origin == Some(i as usize)
}

/// A text, or nothing.
pub open spec fn shown_text(o: Option<Seq<char>>) -> Seq<char> {
    match o {
        Some(s) => s,
        None => Seq::empty(),
    }
}

/// The first part of an organization, or nothing.
pub open spec fn shown_organization(o: Option<Seq<Seq<char>>>) -> Seq<char> {
    match o {
        Some(parts) => if parts.len() > 0 {
            parts[0]
        } else {
            Seq::empty()
        },
        None => Seq::empty(),
    }
}

/// How a birthday is written in the form: without the year where it has none.
pub open spec fn birthday_text(b: Option<(int, bool)>) -> Seq<char> {
    match b {
        Some((day, omit_year)) => if omit_year {
            formatted(day, 0, "%m-%d"@)
        } else {
            formatted(day, 0, "%Y-%m-%d"@)
        },
        None => Seq::empty(),
    }
}

/// The form shows a card.
pub open spec fn shows_card(form: ContactForm, card: CardView) -> bool {
    &&& form.full_name@ == shown_text(card.full_name)
    &&& form.organization@ == shown_organization(card.organization)
    &&& form.title@ == shown_text(card.title)
    &&& form.birthday@ == birthday_text(card.birthday)
    &&& form.groups@ == joined(card.categories, ", "@)
    &&& form.notes@ == shown_text(card.note)
    &&& shows_fields(form.emails@, card.emails)
    &&& shows_fields(form.phones@, card.telephones)
    &&& shows_addresses(form.addresses@, card.addresses)
}

/// The form has nothing in it.
pub open spec fn blank_form(form: ContactForm) -> bool {
    &&& form.full_name@.len() == 0
    &&& form.organization@.len() == 0
    &&& form.title@.len() == 0
    &&& form.birthday@.len() == 0
    &&& form.groups@.len() == 0
    &&& form.notes@.len() == 0
    &&& form.emails@.len() == 0
    &&& form.phones@.len() == 0
    &&& form.addresses@.len() == 0
}

/// Every type in the form is one that there is.
pub open spec fn valid_form(form: ContactForm) -> bool {
    &&& forall|i: int| 0 <= i < form.emails@.len() ==> (#[trigger] form.emails@[i]).kind < FIELD_TYPE_COUNT
    &&& forall|i: int| 0 <= i < form.phones@.len() ==> (#[trigger] form.phones@[i]).kind < FIELD_TYPE_COUNT
}

fn owned_or_empty(o: &Option<String>) -> (r: String)
    ensures
        r@ == shown_text(text_of(*o)),
{
    match o {
        Some(s) => s.clone(),
        None => String::new(),
    }
}

fn organization_text(o: &Option<Vec<String>>) -> (r: String)
    ensures
        r@ == shown_organization(
            match *o {
                Some(org) => Some(texts_of(org@)),
                None => None,
            },
        ),
{
    match o {
        Some(org) => if org.len() > 0 {
            org[0].clone()
        } else {
            String::new()
        },
        None => String::new(),
    }
}

fn rows_of<T: Typed>(fields: &Vec<T>) -> (r: Vec<FieldRow>)
    ensures
        shows_fields(r@, views_of(fields@)),
        forall|i: int| 0 <= i < r@.len() ==> (#[trigger] r@[i]).kind < FIELD_TYPE_COUNT,
{
    let mut out: Vec<FieldRow> = Vec::new();
    let mut i: usize = 0;
    assert(views_of(fields@).take(0) =~= Seq::<TypedView>::empty());
    while i < fields.len()
        invariant
            i <= fields.len(),
            shows_fields(out@, views_of(fields@).take(i as int)),
            forall|k: int| 0 <= k < out@.len() ==> (#[trigger] out@[k]).kind < FIELD_TYPE_COUNT,
        decreases fields.len() - i,
    {
        out.push(
            FieldRow {
                text: fields[i].value().to_owned(),
                kind: field_type_index(fields[i].types()),
                origin: Some(i),
            },
        );
        i += 1;
    }
    assert(views_of(fields@).take(i as int) =~= views_of(fields@));
    out
}

fn address_rows(addresses: &Vec<AddressField>) -> (r: Vec<AddressRow>)
    ensures
        shows_addresses(r@, views_of(addresses@)),
{
    let mut out: Vec<AddressRow> = Vec::new();
    let mut i: usize = 0;
    assert(views_of(addresses@).take(0) =~= Seq::<AddressView>::empty());
    while i < addresses.len()
        invariant
            i <= addresses.len(),
            shows_addresses(out@, views_of(addresses@).take(i as int)),
        decreases addresses.len() - i,
    {
        out.push(
            AddressRow {
                street: addresses[i].street.clone(),
                city: addresses[i].locality.clone(),
                origin: Some(i),
            },
        );
        i += 1;
    }
    assert(views_of(addresses@).take(i as int) =~= views_of(addresses@));
    out
}

fn birthday_written(b: Option<Birthday>) -> (r: String)
    requires
        b matches Some(b) ==> b.date.valid(),
    ensures
        r@ == birthday_text(birthday_view(b)),
        birthday_of(r@) == Ok::<Option<(int, bool)>, ()>(kept_birthday(b)),
{
    let text = match b {
        Some(b) => if b.omit_year {
            b.date.format("%m-%d")
        } else {
            b.date.format("%Y-%m-%d")
        },
        None => String::new(),
    };
    proof {
        if b is Some {
            lemma_patterns_differ();
            assert(of_digits_and_signs(text@));
            assert(!white(text@[0]) && !white(text@.last()));
        }
        lemma_trimmed_fixed(text@);
    }
    text
}

/// The birthday of a card is a date that there is.
pub open spec fn dated(card: VCard) -> bool {
    card.birthday matches Some(b) ==> b.date.valid()
}

/// The birthday that the form for a card gives back: the same one, in a leap year if it has no year.
pub open spec fn kept_birthday(b: Option<Birthday>) -> Option<(int, bool)> {
    match b {
        Some(b) => Some(
            if b.omit_year {
                (day_number(2000, b.date.spec_month(), b.date.spec_day()), true)
            } else {
                (b.date.number as int, false)
            },
        ),
        None => None,
    }
}

/// The form for a card. A birthday that it shows is read back as it was.
pub fn form_of_card(card: &VCard) -> (r: ContactForm)
    requires
        dated(*card),
    ensures
        shows_card(r, card@),
        valid_form(r),
        birthday_of(r.birthday@) == Ok::<Option<(int, bool)>, ()>(kept_birthday(card.birthday)),
{
    ContactForm {
        full_name: owned_or_empty(&card.full_name),
        organization: organization_text(&card.organization),
        title: owned_or_empty(&card.title),
        birthday: birthday_written(card.birthday),
        groups: join(&card.categories, ", "),
        notes: owned_or_empty(&card.note),
        emails: rows_of(&card.emails),
        phones: rows_of(&card.telephones),
        addresses: address_rows(&card.addresses),
    }
}

proof fn lemma_patterns_differ()
    ensures
        "%m-%d"@ != "%Y-%m-%d"@,
{
    reveal_strlit("%m-%d");
    reveal_strlit("%Y-%m-%d");
    assert("%m-%d"@.len() != "%Y-%m-%d"@.len());
}

/// What the editor starts from: the contact to edit, or else what a new contact starts from.
pub open spec fn seed<'a>(prefill: ContactEditorPrefill<'a>) -> Option<&'a VCard> {
    if prefill.existing is Some {
        prefill.existing
    } else {
        prefill.prefill
    }
}

/// The form that the editor opens with.
pub fn open_form(prefill: &ContactEditorPrefill) -> (r: ContactForm)
    requires
        seed(*prefill) matches Some(card) ==> dated(*card),
    ensures
        match seed(*prefill) {
            Some(card) => shows_card(r, card@) && birthday_of(r.birthday@) == Ok::<
                Option<(int, bool)>,
                (),
            >(kept_birthday(card.birthday)),
            None => blank_form(r),
        },
        valid_form(r),
{
    if let Some(card) = prefill.existing {
        return form_of_card(card);
    }
    if let Some(card) = prefill.prefill {
        return form_of_card(card);
    }
    ContactForm {
        full_name: String::new(),
        organization: String::new(),
        title: String::new(),
        birthday: String::new(),
        groups: String::new(),
        notes: String::new(),
        emails: Vec::new(),
        phones: Vec::new(),
        addresses: Vec::new(),
    }
}

/// Whether the contact can be saved: a new one if there is an address book, another one if it is
/// stored somewhere.
pub fn writable(prefill: &ContactEditorPrefill) -> (r: bool)
    ensures
        r == (if prefill.existing is Some {
            prefill.href@.len() > 0
        } else {
            prefill.books@.len() > 0
        }),
{
    if prefill.existing.is_some() {
        !prefill.href.is_empty()
    } else {
        !prefill.books.is_empty()
    }
}

/// Whether the contact can be deleted.
pub fn deletable(prefill: &ContactEditorPrefill) -> (r: bool)
    ensures
        r == (prefill.existing is Some && prefill.href@.len() > 0),
{
    prefill.existing.is_some() && !prefill.href.is_empty()
}

/// A birthday in the form: what it says, or that it says nothing that can be read.
pub open spec fn birthday_of(text: Seq<char>) -> Result<Option<(int, bool)>, ()> {
    let t = trimmed(text);
    if t.len() == 0 {
        Ok(None)
    } else {
        match date_written(t) {
            Some(day) => Ok(Some((day, false))),
            None => match date_written("2000-"@ + t) {
                Some(day) => Ok(Some((day, true))),
                None => Err(()),
            },
        }
    }
}

/// The birthday that the form gives: a whole date, or a month and a day, which are taken in a leap
/// year.
pub fn parse_birthday(text: &str) -> (r: Result<Option<Birthday>, ()>)
    ensures
        (match r {
            Ok(b) => Ok(birthday_view(b)),
            Err(_) => Err(()),
        }) == birthday_of(text@),
        r matches Ok(Some(b)) ==> b.date.valid(),
{
    let t = trim(text);
    if t.is_empty() {
        return Ok(None);
    }
    if let Some(date) = Date::parse(t) {
        return Ok(Some(Birthday { date, omit_year: false }));
    }
    let mut dated = "2000-".to_owned();
    dated.push_str(t);
    match Date::parse(&dated) {
        Some(date) => Ok(Some(Birthday { date, omit_year: true })),
        None => Err(()),
    }
}

/// A text without white space around it, unless it is blank.
pub open spec fn filled(s: Seq<char>) -> Option<Seq<char>> {
    if blank(s) {
        None
    } else {
        Some(trimmed(s))
    }
}

fn filled_text(s: &str) -> (r: Option<String>)
    ensures
        text_of(r) == filled(s@),
{
    let t = trim(s);
    if t.is_empty() {
        None
    } else {
        Some(t.to_owned())
    }
}

/// The row shows the field that it was opened with as it was.
pub open spec fn untouched_field(row: FieldRow, before: Seq<TypedView>) -> bool {
    match row.origin {
        Some(k) => k < before.len() && row.text@ == before[k as int].value && row.kind == type_number(
            before[k as int].types,
        ),
        None => false,
    }
}

/// The fields that form rows stand for: an untouched row for the field that it was opened with, any
/// other row that is not blank for its text and its one type.
pub open spec fn fields_of(rows: Seq<FieldRow>, before: Seq<TypedView>) -> Seq<TypedView>
    decreases rows.len(),
{
    if rows.len() == 0 {
        Seq::empty()
    } else {
        let row = rows.last();
        let first = fields_of(rows.drop_last(), before);
        if untouched_field(row, before) {
            first.push(before[row.origin->0 as int])
        } else if blank(row.text@) {
            first
        } else {
            first.push(
                TypedView { types: seq![field_type(row.kind as int)], value: trimmed(row.text@) },
            )
        }
    }
}

/// The row shows the address that it was opened with as it was.
pub open spec fn untouched_address(row: AddressRow, before: Seq<AddressView>) -> bool {
    match row.origin {
        Some(k) => k < before.len() && row.street@ == before[k as int].street && row.city@
            == before[k as int].locality,
        None => false,
    }
}

/// A postal address of street and city alone.
pub open spec fn plain_address(street: Seq<char>, city: Seq<char>) -> AddressView {
    AddressView {
        types: Seq::empty(),
        po_box: Seq::empty(),
        extended: Seq::empty(),
        street,
        locality: city,
        region: Seq::empty(),
        postal_code: Seq::empty(),
        country: Seq::empty(),
        label: None,
    }
}

/// The postal addresses that form rows stand for: an untouched row for the address that it was
/// opened with, any other row in which not both are blank for its street and city.
pub open spec fn postal_addresses_of(rows: Seq<AddressRow>, before: Seq<AddressView>) -> Seq<AddressView>
    decreases rows.len(),
{
    if rows.len() == 0 {
        Seq::empty()
    } else {
        let row = rows.last();
        let first = postal_addresses_of(rows.drop_last(), before);
        if untouched_address(row, before) {
            first.push(before[row.origin->0 as int])
        } else if blank(row.street@) && blank(row.city@) {
            first
        } else {
            first.push(plain_address(trimmed(row.street@), trimmed(row.city@)))
        }
    }
}

fn one_type(kind: usize) -> (r: Vec<String>)
    requires
        kind < FIELD_TYPE_COUNT,
    ensures
        texts_of(r@) == seq![field_type(kind as int)],
{
    let mut out: Vec<String> = Vec::new();
    out.push(field_type_name(kind));
    assert(texts_of(out@) =~= seq![field_type(kind as int)]);
    out
}

fn field_untouched<T: Typed>(row: &FieldRow, before: &Vec<T>) -> (r: bool)
    ensures
        r == untouched_field(*row, views_of(before@)),
{
    match row.origin {
        Some(k) => k < before.len() && same(&row.text, before[k].value()) && row.kind == field_type_index(
            before[k].types(),
        ),
        None => false,
    }
}

fn fields_from_rows<T: Typed>(rows: &Vec<FieldRow>, before: &Vec<T>) -> (r: Vec<T>)
    requires
        forall|i: int| 0 <= i < rows@.len() ==> (#[trigger] rows@[i]).kind < FIELD_TYPE_COUNT,
    ensures
        views_of(r@) == fields_of(rows@, views_of(before@)),
{
    let ghost old_fields = views_of(before@);
    let mut out: Vec<T> = Vec::new();
    let mut i: usize = 0;
    assert(rows@.take(0) =~= Seq::<FieldRow>::empty());
    assert(views_of(out@) =~= fields_of(rows@.take(0), old_fields));
    while i < rows.len()
        invariant
            i <= rows.len(),
            old_fields == views_of(before@),
            forall|k: int| 0 <= k < rows@.len() ==> (#[trigger] rows@[k]).kind < FIELD_TYPE_COUNT,
            views_of(out@) == fields_of(rows@.take(i as int), old_fields),
        decreases rows.len() - i,
    {
        assert(rows@.take(i + 1).drop_last() =~= rows@.take(i as int));
        let ghost first = views_of(out@);
        if field_untouched(&rows[i], before) {
            if let Some(k) = rows[i].origin {
                let field = before[k].copied();
                out.push(field);
                assert(views_of(out@) =~= first.push(field@));
            }
        } else {
            let t = trim(&rows[i].text);
            if !t.is_empty() {
                let field = T::of(one_type(rows[i].kind), t.to_owned());
                out.push(field);
                assert(views_of(out@) =~= first.push(field@));
            }
        }
        i += 1;
    }
    assert(rows@.take(i as int) =~= rows@);
    out
}

fn address_untouched(row: &AddressRow, before: &Vec<AddressField>) -> (r: bool)
    ensures
        r == untouched_address(*row, views_of(before@)),
{
    match row.origin {
        Some(k) => k < before.len() && same(&row.street, &before[k].street) && same(
            &row.city,
            &before[k].locality,
        ),
        None => false,
    }
}

fn addresses_from_rows(rows: &Vec<AddressRow>, before: &Vec<AddressField>) -> (r: Vec<AddressField>)
    ensures
        views_of(r@) == postal_addresses_of(rows@, views_of(before@)),
{
    let ghost old_addresses = views_of(before@);
    let mut out: Vec<AddressField> = Vec::new();
    let mut i: usize = 0;
    assert(rows@.take(0) =~= Seq::<AddressRow>::empty());
    assert(views_of(out@) =~= postal_addresses_of(rows@.take(0), old_addresses));
    while i < rows.len()
        invariant
            i <= rows.len(),
            old_addresses == views_of(before@),
            views_of(out@) == postal_addresses_of(rows@.take(i as int), old_addresses),
        decreases rows.len() - i,
    {
        assert(rows@.take(i + 1).drop_last() =~= rows@.take(i as int));
        let ghost first = views_of(out@);
        if address_untouched(&rows[i], before) {
            if let Some(k) = rows[i].origin {
                let address = before[k].copied();
                out.push(address);
                assert(views_of(out@) =~= first.push(address@));
            }
        } else {
            let street = trim(&rows[i].street);
            let city = trim(&rows[i].city);
            if !(street.is_empty() && city.is_empty()) {
                let address = AddressField {
                    types: Vec::new(),
                    po_box: String::new(),
                    extended: String::new(),
                    street: street.to_owned(),
                    locality: city.to_owned(),
                    region: String::new(),
                    postal_code: String::new(),
                    country: String::new(),
                    label: None,
                };
                out.push(address);
                assert(texts_of(address.types@) =~= Seq::<Seq<char>>::empty());
                assert(address@ == plain_address(street@, city@));
                assert(views_of(out@) =~= first.push(address@));
            }
        }
        i += 1;
    }
    assert(rows@.take(i as int) =~= rows@);
    out
}

/// A card that has nothing but an id.
pub open spec fn new_card(uid: Seq<char>) -> CardView {
    CardView {
        version: "4.0"@,
        kind: None,
        uid: Some(uid),
        full_name: None,
        name: None,
        organization: None,
        title: None,
        emails: Seq::empty(),
        telephones: Seq::empty(),
        addresses: Seq::empty(),
        urls: Seq::empty(),
        note: None,
        birthday: None,
        categories: Seq::empty(),
        other: Seq::empty(),
    }
}

/// What a text field stands for: what it was opened with if the text is the same, or else the text.
pub open spec fn saved_text(before: Option<Seq<char>>, text: Seq<char>) -> Option<Seq<char>> {
    if text == shown_text(before) {
        before
    } else {
        filled(text)
    }
}

/// The organization: all its parts if the text is the same, or else the text as the only part.
pub open spec fn saved_organization(before: Option<Seq<Seq<char>>>, text: Seq<char>) -> Option<
    Seq<Seq<char>>,
> {
    if text == shown_organization(before) {
        before
    } else {
        match filled(text) {
            Some(t) => Some(seq![t]),
            None => None,
        }
    }
}

/// The birthday: what it was if the text is the same, or else what the text says.
pub open spec fn saved_birthday(before: Option<(int, bool)>, text: Seq<char>) -> Option<(int, bool)> {
    if text == birthday_text(before) {
        before
    } else {
        birthday_of(text)->Ok_0
    }
}

/// The groups: what they were if the text is the same, or else what the text says.
pub open spec fn saved_groups(before: Seq<Seq<char>>, text: Seq<char>) -> Seq<Seq<char>> {
    if text == joined(before, ", "@) {
        before
    } else {
        tags_of(text)
    }
}

/// The card that the form stands for: what it was opened with, except for what was edited in the
/// form.
pub open spec fn saved_card(before: CardView, form: ContactForm) -> CardView {
    CardView {
        full_name: saved_text(before.full_name, form.full_name@),
        organization: saved_organization(before.organization, form.organization@),
        title: saved_text(before.title, form.title@),
        note: saved_text(before.note, form.notes@),
        birthday: saved_birthday(before.birthday, form.birthday@),
        emails: fields_of(form.emails@, before.emails),
        telephones: fields_of(form.phones@, before.telephones),
        addresses: postal_addresses_of(form.addresses@, before.addresses),
        categories: saved_groups(before.categories, form.groups@),
        ..before
    }
}

/// The form can be saved: there is a name, and a birthday that can be read or none.
pub open spec fn acceptable(form: ContactForm) -> bool {
    !blank(form.full_name@) && birthday_of(form.birthday@) is Ok
}

fn text_saved(before: &Option<String>, text: &str) -> (r: Option<String>)
    ensures
        text_of(r) == saved_text(text_of(*before), text@),
{
    let shown = owned_or_empty(before);
    if same(text, &shown) {
        copied_text(before)
    } else {
        filled_text(text)
    }
}

/// The card that the form stands for: what it started from, or a new card with a fresh id, with what
/// was edited in the form.
pub fn card_from_form(start: Option<VCard>, form: &ContactForm, fresh_uid: String) -> (r: Option<VCard>)
    requires
        valid_form(*form),
        start matches Some(before) ==> dated(before),
    ensures
        r is Some <==> acceptable(*form),
        r matches Some(card) ==> dated(card) && card@ == saved_card(
            match start {
                Some(before) => before@,
                None => new_card(fresh_uid@),
            },
            *form,
        ),
{
    let ghost uid = fresh_uid@;
    let before = match start {
        Some(card) => card,
        None => VCard {
            version: "4.0".to_owned(),
            kind: None,
            uid: Some(fresh_uid),
            full_name: None,
            name: None,
            organization: None,
            title: None,
            emails: Vec::new(),
            telephones: Vec::new(),
            addresses: Vec::new(),
            urls: Vec::new(),
            note: None,
            birthday: None,
            categories: Vec::new(),
            other: Vec::new(),
        },
    };
    proof {
        if start is None {
            lemma_new_card(before, uid);
        }
    }
    if is_blank(&form.full_name) {
        return None;
    }
    let shown_birthday = birthday_written(before.birthday);
    let birthday = if same(&form.birthday, &shown_birthday) {
        before.birthday
    } else {
        match parse_birthday(&form.birthday) {
            Ok(b) => b,
            Err(_) => return None,
        }
    };
    let shown_org = organization_text(&before.organization);
    let full_name = text_saved(&before.full_name, &form.full_name);
    let title = text_saved(&before.title, &form.title);
    let note = text_saved(&before.note, &form.notes);
    let emails = fields_from_rows(&form.emails, &before.emails);
    let telephones = fields_from_rows(&form.phones, &before.telephones);
    let addresses = addresses_from_rows(&form.addresses, &before.addresses);
    let shown_groups = join(&before.categories, ", ");
    let organization = if same(&form.organization, &shown_org) {
        before.organization
    } else {
        match filled_text(&form.organization) {
            Some(org) => {
                let mut parts: Vec<String> = Vec::new();
                parts.push(org);
                assert(texts_of(parts@) =~= seq![org@]);
                Some(parts)
            },
            None => None,
        }
    };
    let categories = if same(&form.groups, &shown_groups) {
        before.categories
    } else {
        tags(&form.groups)
    };
    Some(
        VCard {
            version: before.version,
            kind: before.kind,
            uid: before.uid,
            full_name,
            name: before.name,
            organization,
            title,
            emails,
            telephones,
            addresses,
            urls: before.urls,
            note,
            birthday,
            categories,
            other: before.other,
        },
    )
}

proof fn lemma_new_card(card: VCard, uid: Seq<char>)
    requires
        card.version@ == "4.0"@,
        card.kind is None,
        text_of(card.uid) == Some(uid),
        card.full_name is None,
        card.name is None,
        card.organization is None,
        card.title is None,
        card.emails@.len() == 0,
        card.telephones@.len() == 0,
        card.addresses@.len() == 0,
        card.urls@.len() == 0,
        card.note is None,
        card.birthday is None,
        card.categories@.len() == 0,
        card.other@.len() == 0,
    ensures
        card@ == new_card(uid),
{
    assert(card@.emails =~= Seq::<TypedView>::empty());
    assert(card@.telephones =~= Seq::<TypedView>::empty());
    assert(card@.addresses =~= Seq::<AddressView>::empty());
    assert(card@.urls =~= Seq::<Seq<char>>::empty());
    assert(card@.categories =~= Seq::<Seq<char>>::empty());
    assert(card@.other =~= Seq::<(Seq<char>, Seq<char>)>::empty());
}

/// The card that the form stands for. A contact made from nothing gets a fresh id.
pub fn save_card(start: Option<VCard>, form: &ContactForm) -> (r: Option<VCard>)
    requires
        valid_form(*form),
        start matches Some(before) ==> dated(before),
    ensures
        r is Some <==> acceptable(*form),
        r matches Some(card) ==> dated(card) && match start {
            Some(before) => card@ == saved_card(before@, *form),
            None => card.uid is Some && uuid_shape(card.uid->0@) && card@ == saved_card(
                new_card(card.uid->0@),
                *form,
            ),
        },
{
    card_from_form(start, form, new_uuid())
}

proof fn lemma_untouched_fields(rows: Seq<FieldRow>, fields: Seq<TypedView>, n: int)
    requires
        shows_fields(rows, fields),
        0 <= n <= rows.len() <= usize::MAX,
    ensures
        fields_of(rows.take(n), fields) == fields.take(n),
    decreases n,
{
    if n == 0 {
        assert(fields.take(0) =~= Seq::<TypedView>::empty());
    } else {
        lemma_untouched_fields(rows, fields, n - 1);
        assert(rows.take(n).drop_last() =~= rows.take(n - 1));
        assert(rows.take(n).last() == rows[n - 1]);
        assert(untouched_field(rows[n - 1], fields));
        assert(fields.take(n) =~= fields.take(n - 1).push(fields[n - 1]));
    }
}

proof fn lemma_untouched_addresses(rows: Seq<AddressRow>, addresses: Seq<AddressView>, n: int)
    requires
        shows_addresses(rows, addresses),
        0 <= n <= rows.len() <= usize::MAX,
    ensures
        postal_addresses_of(rows.take(n), addresses) == addresses.take(n),
    decreases n,
{
    if n == 0 {
        assert(addresses.take(0) =~= Seq::<AddressView>::empty());
    } else {
        lemma_untouched_addresses(rows, addresses, n - 1);
        assert(rows.take(n).drop_last() =~= rows.take(n - 1));
        assert(rows.take(n).last() == rows[n - 1]);
        assert(untouched_address(rows[n - 1], addresses));
        assert(addresses.take(n) =~= addresses.take(n - 1).push(addresses[n - 1]));
    }
}

/// A form that shows a card and was not edited stands for that card, with all that the form does
/// not show.
pub proof fn lemma_unedited_card_kept(card: VCard, form: ContactForm)
    requires
        shows_card(form, card@),
    ensures
        saved_card(card@, form) == card@,
{
    let v = card@;
    assert(form.emails@.len() == form.emails.len() && form.phones@.len() == form.phones.len());
    assert(form.addresses@.len() == form.addresses.len());
    lemma_untouched_fields(form.emails@, v.emails, form.emails@.len() as int);
    lemma_untouched_fields(form.phones@, v.telephones, form.phones@.len() as int);
    lemma_untouched_addresses(form.addresses@, v.addresses, form.addresses@.len() as int);
    assert(form.emails@.take(form.emails@.len() as int) =~= form.emails@);
    assert(form.phones@.take(form.phones@.len() as int) =~= form.phones@);
    assert(form.addresses@.take(form.addresses@.len() as int) =~= form.addresses@);
    assert(v.emails.take(v.emails.len() as int) =~= v.emails);
    assert(v.telephones.take(v.telephones.len() as int) =~= v.telephones);
    assert(v.addresses.take(v.addresses.len() as int) =~= v.addresses);
}

/// What to write for an edited contact: the card in its place if there was one, or else a new card
/// in the chosen address book.
pub fn save_command(prefill: &ContactEditorPrefill, card: VCard, book: usize) -> (r: Result<ContactCommand, String>)
    ensures
        match r {
            Ok(ContactCommand::Update { href, etag, card: c }) => prefill.existing is Some && href@
                == prefill.href@ && c == card && text_of(etag) == (match prefill.etag {
                Some(e) => Some(e@),
                None => None,
            }),
            Ok(ContactCommand::Create { book_href, card: c }) => prefill.existing is None && book
                < prefill.books@.len() && book_href@ == prefill.books@[book as int].1@ && book_href@.len() > 0
                && c == card,
            Ok(_) => false,
            Err(message) => prefill.existing is None && (book >= prefill.books@.len()
                || prefill.books@[book as int].1@.len() == 0) && message@
                == "Choose an address book to create the contact in."@,
        },
{
    if prefill.existing.is_some() {
        let etag: Option<String> = match prefill.etag {
            Some(e) => Some(e.to_owned()),
            None => None,
        };
        return Ok(ContactCommand::Update { href: prefill.href.to_owned(), etag, card });
    }
    if book < prefill.books.len() {
        create_contact(&prefill.books[book].1, card)
    } else {
        proof {
            reveal_strlit("");
        }
        create_contact("", card)
    }
}

} // verus!
