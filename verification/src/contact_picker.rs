//! The contact picker: every known address, what a search leaves of them and what was picked.

use crate::contacts::{address_views, dedupe_addresses, distinct, limited, all_suggestions};
use crate::model::{label_of, EmailAddress, EmailAddressView};
use crate::sorting::{as_rows, key_texts, sort_texts, text_order, TextKey};
use crate::text::{contains, has_text, lowercase, same};
use vstd::prelude::*;

verus! {

/// What addresses are ordered by: what they are called, in any case.
pub open spec fn label_keys(v: Seq<EmailAddressView>) -> Seq<Seq<char>> {
    v.map_values(|a: EmailAddressView| lowercase(label_of(a)))
}

/// Addresses in order of what they are called.
pub open spec fn by_label(v: Seq<EmailAddressView>) -> Seq<EmailAddressView> {
    text_order(label_keys(v)).map_values(|i: int| v[i])
}

/// Every address that is known to some account, each one once, in order of what it is called.
pub fn pickable_contacts(lists: &Vec<Vec<EmailAddress>>) -> (r: Vec<EmailAddress>)
    ensures
        address_views(r@) == by_label(limited(distinct(all_suggestions(lists@)), usize::MAX)),
{
    let mut all: Vec<EmailAddress> = Vec::new();
    let mut i: usize = 0;
    assert(lists@.take(0) =~= Seq::<Vec<EmailAddress>>::empty());
    assert(address_views(all@) =~= all_suggestions(lists@.take(0)));
    while i < lists.len()
        invariant
            i <= lists.len(),
            address_views(all@) == all_suggestions(lists@.take(i as int)),
        decreases lists.len() - i,
    {
        let list = &lists[i];
        let ghost start = address_views(all@);
        let ghost want = address_views(list@);
        let mut k: usize = 0;
        assert(address_views(all@) =~= start + want.take(0));
        while k < list.len()
            invariant
                k <= list.len(),
                want == address_views(list@),
                address_views(all@) == start + want.take(k as int),
            decreases list.len() - k,
        {
            let ghost before = address_views(all@);
            let a = list[k].clone();
            all.push(a);
            assert(address_views(all@) =~= before.push(a@));
            assert(address_views(all@) =~= start + want.take(k + 1));
            k += 1;
        }
        assert(want.take(k as int) =~= want);
        assert(lists@.take(i + 1).drop_last() =~= lists@.take(i as int));
        i += 1;
    }
    assert(lists@.take(i as int) =~= lists@);
    let once = dedupe_addresses(all, usize::MAX);
    sorted_by_label(&once)
}

fn sorted_by_label(v: &Vec<EmailAddress>) -> (r: Vec<EmailAddress>)
    ensures
        address_views(r@) == by_label(address_views(v@)),
{
    let ghost keys_wanted = label_keys(address_views(v@));
    let mut keys: Vec<TextKey> = Vec::new();
    let mut i: usize = 0;
    while i < v.len()
        invariant
            i <= v.len(),
            keys_wanted == label_keys(address_views(v@)),
            key_texts(keys@) == keys_wanted.take(i as int),
        decreases v.len() - i,
    {
        let ghost before = key_texts(keys@);
        let key = TextKey { text: v[i].display_label().as_str().to_lowercase() };
        keys.push(key);
        assert(key_texts(keys@) =~= before.push(key.text@));
        assert(keys_wanted.take(i + 1) =~= keys_wanted.take(i as int).push(keys_wanted[i as int]));
        i += 1;
    }
    assert(keys_wanted.take(i as int) =~= keys_wanted);
    assert(key_texts(keys@).len() == keys@.len());
    let order = sort_texts(&keys);
    let ghost want = by_label(address_views(v@));
    let mut out: Vec<EmailAddress> = Vec::new();
    let mut j: usize = 0;
    assert(as_rows(order@).len() == order@.len());
    assert(address_views(out@) =~= want.take(0));
    while j < order.len()
        invariant
            j <= order.len() == want.len(),
            as_rows(order@) == text_order(label_keys(address_views(v@))),
            want == by_label(address_views(v@)),
            forall|k: int| 0 <= k < order@.len() ==> #[trigger] order@[k] < v@.len(),
            address_views(out@) == want.take(j as int),
        decreases order.len() - j,
    {
        let ghost before = address_views(out@);
        let k: usize = order[j];
        assert(as_rows(order@)[j as int] == k);
        let a = v[k].clone();
        out.push(a);
        assert(address_views(out@) =~= before.push(a@));
        assert(want.take(j + 1) =~= want.take(j as int).push(want[j as int]));
        j += 1;
    }
    assert(want.take(j as int) =~= want);
    out
}

/// A search for a text in lower case leaves an address: what it is called or the address holds the
/// text, in any case.
pub open spec fn found_by(filter: Seq<char>) -> spec_fn(EmailAddress) -> bool {
    |a: EmailAddress|
        filter.len() == 0 || has_text(lowercase(label_of(a@)), filter) || has_text(
            lowercase(a.address@),
            filter,
        )
}

/// The addresses that a search leaves.
pub fn matching_contacts<'a>(contacts: &'a Vec<EmailAddress>, typed: &str) -> (r: Vec<&'a EmailAddress>)
    ensures
        r@.unref() == contacts@.filter(found_by(lowercase(typed@))),
{
    let filter = typed.to_lowercase();
    let ghost keep = found_by(filter@);
    let mut out: Vec<&'a EmailAddress> = Vec::new();
    let mut i: usize = 0;
    assert(contacts@.take(0).filter(keep) =~= Seq::<EmailAddress>::empty());
    assert(out@.unref() =~= contacts@.take(0).filter(keep));
    while i < contacts.len()
        invariant
            i <= contacts.len(),
            keep == found_by(filter@),
            out@.unref() == contacts@.take(i as int).filter(keep),
        decreases contacts.len() - i,
    {
        let ghost a = contacts@[i as int];
        let ghost before = out@.unref();
        proof {
            assert(contacts@.take(i + 1) =~= contacts@.take(i as int).push(a));
            contacts@.take(i as int).lemma_filter_push(a, keep);
        }
        if filter.as_str().is_empty() || contains(
            &contacts[i].display_label().as_str().to_lowercase(),
            &filter,
        ) || contains(&contacts[i].address.as_str().to_lowercase(), &filter) {
            out.push(&contacts[i]);
            assert(out@.unref() =~= before.push(a));
        }
        i += 1;
    }
    assert(contacts@.take(i as int) =~= contacts@);
    out
}

/// What is said where a search leaves nothing.
pub fn no_match_text(known: usize) -> (r: &'static str)
    ensures
        r@ == (if known == 0 {
            "No contacts yet"@
        } else {
            "No contacts found"@
        }),
{
    if known == 0 {
        "No contacts yet"
    } else {
        "No contacts found"
    }
}

/// Whether a row shows the address below the name: only where they differ.
pub fn shows_address(contact: &EmailAddress) -> (r: bool)
    ensures
        r == (label_of(contact@) != contact.address@),
{
    !same(&contact.display_label(), &contact.address)
}

/// The keys of the picked addresses.
pub open spec fn picks(v: Seq<String>) -> Set<Seq<char>> {
    Set::new(|key: Seq<char>| exists|i: int| 0 <= i < v.len() && (#[trigger] v[i])@ == key)
}

/// Whether an address is picked. The case of its letters does not matter.
pub fn is_picked(picked: &Vec<String>, address: &str) -> (r: bool)
    ensures
        r == picks(picked@).contains(lowercase(address@)),
{
    let key = address.to_lowercase();
    let mut i: usize = 0;
    while i < picked.len()
        invariant
            i <= picked.len(),
            key@ == lowercase(address@),
            forall|k: int| 0 <= k < i ==> (#[trigger] picked@[k])@ != key@,
        decreases picked.len() - i,
    {
        if same(&picked[i], &key) {
            assert(picked@[i as int]@ == key@);
            return true;
        }
        i += 1;
    }
    false
}

/// Picks an address, or lets go of it.
pub fn set_picked(picked: &mut Vec<String>, address: &str, active: bool)
    ensures
        picks(final(picked)@) == (if active {
            picks(old(picked)@).insert(lowercase(address@))
        } else {
            picks(old(picked)@).remove(lowercase(address@))
        }),
{
    let key = address.to_lowercase();
    let ghost before = picks(picked@);
    if active {
        let ghost all = picked@;
        let ghost k = key@;
        picked.push(key);
        assert forall|s: Seq<char>| picks(picked@).contains(s) == before.insert(k).contains(s) by {
            if before.contains(s) {
                let i = choose|i: int| 0 <= i < all.len() && (#[trigger] all[i])@ == s;
                assert(picked@[i]@ == s);
            }
            if s == k {
                assert(picked@[all.len() as int]@ == s);
            }
            if picks(picked@).contains(s) {
                let i = choose|i: int| 0 <= i < picked@.len() && (#[trigger] picked@[i])@ == s;
                if i < all.len() {
                    assert(all[i]@ == s);
                }
            }
        }
        assert(picks(picked@) =~= before.insert(k));
        return;
    }
    let mut i: usize = 0;
    while i < picked.len()
        invariant
            i <= picked.len(),
            picks(picked@).remove(key@) == before.remove(key@),
            forall|k: int| 0 <= k < i ==> (#[trigger] picked@[k])@ != key@,
        decreases picked.len() - i,
    {
        if same(&picked[i], &key) {
            let ghost all = picked@;
            picked.remove(i);
            proof {
                assert forall|s: Seq<char>| s != key@ implies picks(picked@).contains(s) == picks(
                    all,
                ).contains(s) by {
                    if picks(all).contains(s) {
                        let k = choose|k: int| 0 <= k < all.len() && (#[trigger] all[k])@ == s;
                        if k < i {
                            assert(picked@[k] == all[k]);
                        } else {
                            assert(picked@[k - 1] == all[k]);
                        }
                    }
                    if picks(picked@).contains(s) {
                        let k = choose|k: int| 0 <= k < picked@.len() && (#[trigger] picked@[k])@ == s;
                        if k < i {
                            assert(picked@[k] == all[k]);
                        } else {
                            assert(picked@[k] == all[k + 1]);
                        }
                    }
                }
                assert(picks(picked@).remove(key@) =~= picks(all).remove(key@));
                assert forall|k: int| 0 <= k < i implies (#[trigger] picked@[k])@ != key@ by {
                    assert(picked@[k] == all[k]);
                }
            }
        } else {
            i += 1;
        }
    }
    assert(!picks(picked@).contains(key@));
    assert(picks(picked@) =~= picks(picked@).remove(key@));
}

/// Keeps the picked addresses.
pub open spec fn picked_in(keys: Set<Seq<char>>) -> spec_fn(EmailAddressView) -> bool {
    |a: EmailAddressView| keys.contains(lowercase(a.address))
}

/// The picked addresses, in order; whatever the search leaves of them.
pub fn picked_contacts(contacts: &Vec<EmailAddress>, picked: &Vec<String>) -> (r: Vec<EmailAddress>)
    ensures
        address_views(r@) == address_views(contacts@).filter(picked_in(picks(picked@))),
{
    let ghost all = address_views(contacts@);
    let ghost keep = picked_in(picks(picked@));
    let mut out: Vec<EmailAddress> = Vec::new();
    let mut i: usize = 0;
    assert(all.take(0).filter(keep) =~= Seq::<EmailAddressView>::empty());
    assert(address_views(out@) =~= all.take(0).filter(keep));
    while i < contacts.len()
        invariant
            i <= contacts.len(),
            all == address_views(contacts@),
            keep == picked_in(picks(picked@)),
            address_views(out@) == all.take(i as int).filter(keep),
        decreases contacts.len() - i,
    {
        let ghost before = address_views(out@);
        proof {
            assert(all.take(i + 1) =~= all.take(i as int).push(all[i as int]));
            all.take(i as int).lemma_filter_push(all[i as int], keep);
        }
        if is_picked(picked, &contacts[i].address) {
            let a = contacts[i].clone();
            out.push(a);
            assert(address_views(out@) =~= before.push(a@));
        }
        i += 1;
    }
    assert(all.take(i as int) =~= all);
    out
}

} // verus!
