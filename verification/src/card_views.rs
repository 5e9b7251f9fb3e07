//! Contact cards as text, and copies of them.

use crate::contacts::{AddressField, Birthday, EmailField, NameField, TelephoneField, VCard};
use crate::model::{clone_strings, text_of, texts_of};
use vstd::prelude::*;

verus! {

/// The parts of a name, as text.
pub struct NameView {
    pub prefix: Seq<char>,
    pub given: Seq<char>,
    pub family: Seq<char>,
    pub suffix: Seq<char>,
}

/// A mail address or a telephone number with its types, as text.
pub struct TypedView {
    pub types: Seq<Seq<char>>,
    pub value: Seq<char>,
}

/// A postal address, as text.
pub struct AddressView {
    pub types: Seq<Seq<char>>,
    pub po_box: Seq<char>,
    pub extended: Seq<char>,
    pub street: Seq<char>,
    pub locality: Seq<char>,
    pub region: Seq<char>,
    pub postal_code: Seq<char>,
    pub country: Seq<char>,
    pub label: Option<Seq<char>>,
}

/// A card, as text.
pub struct CardView {
    pub version: Seq<char>,
    pub kind: Option<Seq<char>>,
    pub uid: Option<Seq<char>>,
    pub full_name: Option<Seq<char>>,
    pub name: Option<NameView>,
    pub organization: Option<Seq<Seq<char>>>,
    pub title: Option<Seq<char>>,
    pub emails: Seq<TypedView>,
    pub telephones: Seq<TypedView>,
    pub addresses: Seq<AddressView>,
    pub urls: Seq<Seq<char>>,
    pub note: Option<Seq<char>>,
    pub birthday: Option<(int, bool)>,
    pub categories: Seq<Seq<char>>,
    pub other: Seq<(Seq<char>, Seq<char>)>,
}

/// A birthday by day and whether it has no year.
pub open spec fn birthday_view(b: Option<Birthday>) -> Option<(int, bool)> {
    match b {
        Some(b) => Some((b.date.number as int, b.omit_year)),
        None => None,
    }
}

/// What several values stand for.
pub open spec fn views_of<T: View>(v: Seq<T>) -> Seq<T::V> {
    v.map_values(|t: T| t@)
}

/// Properties and their values, as text.
pub open spec fn pairs_of(v: Seq<(String, String)>) -> Seq<(Seq<char>, Seq<char>)> {
    v.map_values(|p: (String, String)| (p.0@, p.1@))
}

impl View for NameField {
    type V = NameView;

    open spec fn view(&self) -> NameView {
        NameView { prefix: self.prefix@, given: self.given@, family: self.family@, suffix: self.suffix@ }
    }
}

impl View for EmailField {
    type V = TypedView;

    open spec fn view(&self) -> TypedView {
        TypedView { types: texts_of(self.types@), value: self.address@ }
    }
}

impl View for TelephoneField {
    type V = TypedView;

    open spec fn view(&self) -> TypedView {
        TypedView { types: texts_of(self.types@), value: self.number@ }
    }
}

impl View for AddressField {
    type V = AddressView;

    open spec fn view(&self) -> AddressView {
        AddressView {
            types: texts_of(self.types@),
            po_box: self.po_box@,
            extended: self.extended@,
            street: self.street@,
            locality: self.locality@,
            region: self.region@,
            postal_code: self.postal_code@,
            country: self.country@,
            label: text_of(self.label),
        }
    }
}

impl View for VCard {
    type V = CardView;

    open spec fn view(&self) -> CardView {
        CardView {
            version: self.version@,
            kind: text_of(self.kind),
            uid: text_of(self.uid),
            full_name: text_of(self.full_name),
            name: match self.name {
                Some(n) => Some(n@),
                None => None,
            },
            organization: match self.organization {
                Some(org) => Some(texts_of(org@)),
                None => None,
            },
            title: text_of(self.title),
            emails: views_of(self.emails@),
            telephones: views_of(self.telephones@),
            addresses: views_of(self.addresses@),
            urls: texts_of(self.urls@),
            note: text_of(self.note),
            birthday: birthday_view(self.birthday),
            categories: texts_of(self.categories@),
            other: pairs_of(self.other@),
        }
    }
}

/// A value that can be copied.
pub trait Copied: View + Sized {
    /// A copy.
    fn copied(&self) -> (r: Self)
        ensures
            r@ == self@,
    ;
}

/// A mail address or a telephone number.
pub trait Typed: Copied + View<V = TypedView> {
    /// The types.
    fn types(&self) -> (r: &Vec<String>)
        ensures
            texts_of(r@) == self@.types,
    ;

    /// The address or the number.
    fn value(&self) -> (r: &str)
        ensures
            r@ == self@.value,
    ;

    /// The field with types and an address or a number.
    fn of(types: Vec<String>, value: String) -> (r: Self)
        ensures
            r@ == (TypedView { types: texts_of(types@), value: value@ }),
    ;
}

impl Copied for NameField {
    fn copied(&self) -> (r: NameField) {
        NameField {
            prefix: self.prefix.clone(),
            given: self.given.clone(),
            family: self.family.clone(),
            suffix: self.suffix.clone(),
        }
    }
}

impl Copied for EmailField {
    fn copied(&self) -> (r: EmailField) {
        EmailField { types: clone_strings(&self.types), address: self.address.clone() }
    }
}

impl Typed for EmailField {
    fn types(&self) -> (r: &Vec<String>) {
        &self.types
    }

    fn value(&self) -> (r: &str) {
        &self.address
    }

    fn of(types: Vec<String>, value: String) -> (r: EmailField) {
        EmailField { types, address: value }
    }
}

impl Copied for TelephoneField {
    fn copied(&self) -> (r: TelephoneField) {
        TelephoneField { types: clone_strings(&self.types), number: self.number.clone() }
    }
}

impl Typed for TelephoneField {
    fn types(&self) -> (r: &Vec<String>) {
        &self.types
    }

    fn value(&self) -> (r: &str) {
        &self.number
    }

    fn of(types: Vec<String>, value: String) -> (r: TelephoneField) {
        TelephoneField { types, number: value }
    }
}

impl Copied for AddressField {
    fn copied(&self) -> (r: AddressField) {
        AddressField {
            types: clone_strings(&self.types),
            po_box: self.po_box.clone(),
            extended: self.extended.clone(),
            street: self.street.clone(),
            locality: self.locality.clone(),
            region: self.region.clone(),
            postal_code: self.postal_code.clone(),
            country: self.country.clone(),
            label: copied_text(&self.label),
        }
    }
}

/// A copy of a text, if there is one.
pub fn copied_text(o: &Option<String>) -> (r: Option<String>)
    ensures
        text_of(r) == text_of(*o),
{
    match o {
        Some(s) => Some(s.clone()),
        None => None,
    }
}

fn copied_all<T: Copied>(v: &Vec<T>) -> (r: Vec<T>)
    ensures
        views_of(r@) == views_of(v@),
{
    let mut out: Vec<T> = Vec::new();
    let mut i: usize = 0;
    while i < v.len()
        invariant
            i <= v.len(),
            views_of(out@) == views_of(v@).take(i as int),
        decreases v.len() - i,
    {
        let ghost before = views_of(out@);
        let t = v[i].copied();
        out.push(t);
        assert(views_of(out@) =~= before.push(t@));
        assert(views_of(v@).take(i + 1) =~= before.push(views_of(v@)[i as int]));
        i += 1;
    }
    assert(views_of(v@).take(i as int) =~= views_of(v@));
    out
}

fn copied_pairs(v: &Vec<(String, String)>) -> (r: Vec<(String, String)>)
    ensures
        pairs_of(r@) == pairs_of(v@),
{
    let mut out: Vec<(String, String)> = Vec::new();
    let mut i: usize = 0;
    while i < v.len()
        invariant
            i <= v.len(),
            pairs_of(out@) == pairs_of(v@).take(i as int),
        decreases v.len() - i,
    {
        let ghost before = pairs_of(out@);
        let p = (v[i].0.clone(), v[i].1.clone());
        out.push(p);
        assert(pairs_of(out@) =~= before.push((p.0@, p.1@)));
        assert(pairs_of(v@).take(i + 1) =~= before.push(pairs_of(v@)[i as int]));
        i += 1;
    }
    assert(pairs_of(v@).take(i as int) =~= pairs_of(v@));
    out
}

impl Copied for VCard {
    fn copied(&self) -> (r: VCard) {
        VCard {
            version: self.version.clone(),
            kind: copied_text(&self.kind),
            uid: copied_text(&self.uid),
            full_name: copied_text(&self.full_name),
            name: match &self.name {
                Some(n) => Some(n.copied()),
                None => None,
            },
            organization: match &self.organization {
                Some(org) => Some(clone_strings(org)),
                None => None,
            },
            title: copied_text(&self.title),
            emails: copied_all(&self.emails),
            telephones: copied_all(&self.telephones),
            addresses: copied_all(&self.addresses),
            urls: clone_strings(&self.urls),
            note: copied_text(&self.note),
            birthday: self.birthday,
            categories: clone_strings(&self.categories),
            other: copied_pairs(&self.other),
        }
    }
}

} // verus!
