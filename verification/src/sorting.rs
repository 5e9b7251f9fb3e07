//! Stable sorting by key.

use crate::dates::Instant;
use crate::text::{lemma_text_le_total, lemma_text_le_transitive, no_later_text, text_le};
use vstd::prelude::*;

verus! {

/// A value with a place in an order.
pub trait Ranked: Sized {
    /// This value goes before `other`, or they are level.
    spec fn goes_before(self, other: Self) -> bool;
}

/// A value that rows can be sorted by.
pub trait SortKey: Ranked {
    /// Whether this key goes before `other` or is level with it.
    fn ahead_of(&self, other: &Self) -> (r: bool)
        ensures
            r == self.goes_before(*other),
    ;
}

/// `goes_before` orders every two keys and is transitive.
pub open spec fn ordered_keys<K: Ranked>() -> bool {
    &&& forall|a: K, b: K| #![auto] a.goes_before(b) || b.goes_before(a)
    &&& forall|a: K, b: K, c: K|
        #![trigger a.goes_before(b), b.goes_before(c)]
        a.goes_before(b) && b.goes_before(c) ==> a.goes_before(c)
}

/// The row `i` put into an order of rows: behind every row whose key goes before its own or is
/// level with it, counted from the end.
pub open spec fn with_row<K: Ranked>(keys: Seq<K>, order: Seq<int>, i: int) -> Seq<int>
    decreases order.len(),
{
    if order.len() == 0 || keys[order.last()].goes_before(keys[i]) {
        order.push(i)
    } else {
        with_row(keys, order.drop_last(), i).push(order.last())
    }
}

/// The first `n` rows in the order of their keys, rows with level keys in their given order.
pub open spec fn sorted_rows<K: Ranked>(keys: Seq<K>, n: int) -> Seq<int>
    decreases n,
{
    if n <= 0 {
        Seq::empty()
    } else {
        with_row(keys, sorted_rows(keys, n - 1), n - 1)
    }
}

/// Every row in the order of its key, rows with level keys in their given order.
pub open spec fn key_order<K: Ranked>(keys: Seq<K>) -> Seq<int> {
    sorted_rows(keys, keys.len() as int)
}

/// Row numbers as mathematical integers.
pub open spec fn as_rows(order: Seq<usize>) -> Seq<int> {
    order.map_values(|i: usize| i as int)
}

/// Each of the rows `0` to `n - 1` once.
pub open spec fn is_arrangement(order: Seq<int>, n: int) -> bool {
    &&& order.len() == n
    &&& order.no_duplicates()
    &&& forall|k: int| 0 <= k < order.len() ==> 0 <= #[trigger] order[k] < n
}

proof fn lemma_with_row_contents<K: Ranked>(keys: Seq<K>, order: Seq<int>, i: int)
    ensures
        with_row(keys, order, i).len() == order.len() + 1,
        forall|x: int| #[trigger]
            with_row(keys, order, i).contains(x) <==> order.contains(x) || x == i,
        order.no_duplicates() && !order.contains(i) ==> with_row(keys, order, i).no_duplicates(),
    decreases order.len(),
{
    let r = with_row(keys, order, i);
    if order.len() == 0 || keys[order.last()].goes_before(keys[i]) {
        assert forall|x: int| #[trigger] r.contains(x) <==> order.contains(x) || x == i by {
            if order.contains(x) {
                let k = choose|k: int| 0 <= k < order.len() && order[k] == x;
                assert(r[k] == x);
            }
            if x == i {
                assert(r[order.len() as int] == x);
            }
        }
    } else {
        let head = order.drop_last();
        lemma_with_row_contents(keys, head, i);
        let s = with_row(keys, head, i);
        assert forall|x: int| #[trigger] r.contains(x) <==> order.contains(x) || x == i by {
            if r.contains(x) {
                let k = choose|k: int| 0 <= k < r.len() && r[k] == x;
                if k < s.len() {
                    assert(s[k] == x);
                    assert(s.contains(x));
                    if x != i {
                        let j = choose|j: int| 0 <= j < head.len() && head[j] == x;
                        assert(order[j] == x);
                    }
                } else {
                    assert(order[order.len() - 1] == x);
                }
            }
            if order.contains(x) {
                let k = choose|k: int| 0 <= k < order.len() && order[k] == x;
                if k < head.len() {
                    assert(head[k] == x);
                    assert(s.contains(x));
                    let j = choose|j: int| 0 <= j < s.len() && s[j] == x;
                    assert(r[j] == x);
                } else {
                    assert(r[s.len() as int] == x);
                }
            }
            if x == i {
                assert(s.contains(x));
                let j = choose|j: int| 0 <= j < s.len() && s[j] == x;
                assert(r[j] == x);
            }
        }
        if order.no_duplicates() && !order.contains(i) {
            assert(!head.contains(i)) by {
                if head.contains(i) {
                    let j = choose|j: int| 0 <= j < head.len() && head[j] == i;
                    assert(order[j] == i);
                }
            }
            assert(head.no_duplicates());
            assert(!s.contains(order.last())) by {
                if s.contains(order.last()) {
                    if order.last() == i {
                        assert(order[order.len() - 1] == i);
                    } else {
                        let j = choose|j: int| 0 <= j < head.len() && head[j] == order.last();
                        assert(order[j] == order[order.len() - 1]);
                    }
                }
            }
            assert(r.no_duplicates()) by {
                assert forall|a: int, b: int| 0 <= a < b < r.len() implies r[a] != r[b] by {
                    if b == s.len() {
                        assert(s.contains(s[a]));
                    }
                }
            }
        }
    }
}

proof fn lemma_sorted_rows_arrange<K: Ranked>(keys: Seq<K>, n: int)
    requires
        0 <= n,
    ensures
        is_arrangement(sorted_rows(keys, n), n),
        forall|x: int| #[trigger] sorted_rows(keys, n).contains(x) <==> 0 <= x < n,
    decreases n,
{
    let r = sorted_rows(keys, n);
    if n > 0 {
        let s = sorted_rows(keys, n - 1);
        lemma_sorted_rows_arrange(keys, n - 1);
        lemma_with_row_contents(keys, s, n - 1);
        assert(!s.contains(n - 1));
        assert forall|k: int| 0 <= k < r.len() implies 0 <= #[trigger] r[k] < n by {
            assert(r.contains(r[k]));
        }
    }
}

/// Sorting moves rows and does nothing else: each row is there once.
pub proof fn lemma_key_order_arranges<K: Ranked>(keys: Seq<K>)
    ensures
        is_arrangement(key_order(keys), keys.len() as int),
        forall|x: int| #[trigger] key_order(keys).contains(x) <==> 0 <= x < keys.len(),
{
    lemma_sorted_rows_arrange(keys, keys.len() as int);
}

/// Rows that follow each other in the order: the first one's key goes before the other's, and if
/// they are level, so do the rows.
pub open spec fn in_key_order<K: Ranked>(keys: Seq<K>, a: int, b: int) -> bool {
    keys[a].goes_before(keys[b]) && (keys[b].goes_before(keys[a]) ==> a < b)
}

proof fn lemma_with_row_ordered<K: Ranked>(keys: Seq<K>, order: Seq<int>, i: int)
    requires
        ordered_keys::<K>(),
        forall|a: int, b: int| 0 <= a < b < order.len() ==> in_key_order(keys, order[a], order[b]),
        forall|a: int| 0 <= a < order.len() ==> #[trigger] order[a] < i,
    ensures
        ({
            let r = with_row(keys, order, i);
            forall|a: int, b: int| 0 <= a < b < r.len() ==> in_key_order(keys, r[a], r[b])
        }),
    decreases order.len(),
{
    let r = with_row(keys, order, i);
    if order.len() == 0 || keys[order.last()].goes_before(keys[i]) {
        assert forall|a: int, b: int| 0 <= a < b < r.len() implies in_key_order(keys, r[a], r[b]) by {
            if b == order.len() {
                let l = order.len() - 1;
                assert(order[a] < i);
                if a < l {
                    assert(in_key_order(keys, order[a], order[l]));
                }
            }
        }
    } else {
        let head = order.drop_last();
        let last = order.last();
        assert forall|a: int| 0 <= a < head.len() implies #[trigger] head[a] < i by {
            assert(head[a] == order[a]);
        }
        lemma_with_row_ordered(keys, head, i);
        lemma_with_row_contents(keys, head, i);
        let s = with_row(keys, head, i);
        assert forall|a: int, b: int| 0 <= a < b < r.len() implies in_key_order(keys, r[a], r[b]) by {
            if b == s.len() {
                assert(s.contains(s[a]));
                if s[a] != i {
                    let j = choose|j: int| 0 <= j < head.len() && head[j] == s[a];
                    assert(in_key_order(keys, order[j], order[order.len() - 1]));
                } else {
                    assert(keys[i].goes_before(keys[last]) || keys[last].goes_before(keys[i]));
                }
            }
        }
    }
}

proof fn lemma_sorted_rows_ordered<K: Ranked>(keys: Seq<K>, n: int)
    requires
        0 <= n,
        ordered_keys::<K>(),
    ensures
        ({
            let r = sorted_rows(keys, n);
            forall|a: int, b: int| 0 <= a < b < r.len() ==> in_key_order(keys, r[a], r[b])
        }),
    decreases n,
{
    if n > 0 {
        lemma_sorted_rows_ordered(keys, n - 1);
        lemma_sorted_rows_arrange(keys, n - 1);
        lemma_with_row_ordered(keys, sorted_rows(keys, n - 1), n - 1);
    }
}

/// Sorting puts keys in order and keeps rows with level keys as they were, for keys that
/// `goes_before` orders.
pub proof fn lemma_key_order_sorts<K: Ranked>(keys: Seq<K>)
    requires
        ordered_keys::<K>(),
    ensures
        forall|a: int, b: int|
            0 <= a < b < keys.len() ==> in_key_order(keys, key_order(keys)[a], key_order(keys)[b]),
{
    lemma_sorted_rows_ordered(keys, keys.len() as int);
    lemma_sorted_rows_arrange(keys, keys.len() as int);
}

/// The row numbers of `keys` in the order of their keys. Rows with level keys keep their order.
pub fn sort_rows<K: SortKey>(keys: &Vec<K>) -> (r: Vec<usize>)
    ensures
        as_rows(r@) == key_order(keys@),
        is_arrangement(as_rows(r@), keys@.len() as int),
        r@.len() == keys@.len(),
        forall|k: int| 0 <= k < r@.len() ==> (#[trigger] r@[k]) < keys@.len(),
{
    let mut order: Vec<usize> = Vec::new();
    let mut i: usize = 0;
    assert(as_rows(order@) =~= sorted_rows(keys@, 0));
    while i < keys.len()
        invariant
            i <= keys.len(),
            as_rows(order@) == sorted_rows(keys@, i as int),
        decreases keys.len() - i,
    {
        let ghost before = as_rows(order@);
        proof {
            lemma_sorted_rows_arrange(keys@, i as int);
            assert(order.len() == before.len());
        }
        let mut at: usize = order.len();
        assert(before.take(at as int) =~= before);
        assert(before.skip(at as int) =~= Seq::<int>::empty());
        assert(with_row(keys@, before, i as int) =~= with_row(keys@, before.take(at as int), i as int)
            + before.skip(at as int));
        while at > 0 && !keys[order[at - 1]].ahead_of(&keys[i])
            invariant
                i < keys.len(),
                at <= order.len(),
                order.len() == i,
                before == as_rows(order@),
                is_arrangement(before, i as int),
                with_row(keys@, before, i as int) == with_row(
                    keys@,
                    before.take(at as int),
                    i as int,
                ) + before.skip(at as int),
            decreases at,
        {
            let ghost t = before.take(at as int);
            assert(t.last() == before[at - 1]);
            assert(before[at - 1] == order@[at - 1] as int);
            assert(t.drop_last() =~= before.take(at - 1));
            assert(with_row(keys@, t, i as int) == with_row(keys@, t.drop_last(), i as int).push(
                t.last(),
            ));
            assert(with_row(keys@, before, i as int) =~= with_row(
                keys@,
                before.take(at - 1),
                i as int,
            ) + before.skip(at - 1));
            at -= 1;
        }
        proof {
            let t = before.take(at as int);
            if at > 0 {
                assert(t.last() == before[at - 1]);
                assert(before[at - 1] == order@[at - 1] as int);
            }
            assert(with_row(keys@, t, i as int) == t.push(i as int));
        }
        order.insert(at, i);
        assert(as_rows(order@) =~= before.take(at as int).push(i as int) + before.skip(at as int));
        i += 1;
    }
    proof {
        lemma_key_order_arranges(keys@);
        assert(as_rows(order@).len() == order@.len());
        assert forall|k: int| 0 <= k < order@.len() implies (#[trigger] order@[k]) < keys@.len() by {
            assert(as_rows(order@)[k] == order@[k]);
        }
    }
    order
}

/// A text to sort by.
#[derive(Debug)]
pub struct TextKey {
    pub text: String,
}

impl Ranked for TextKey {
    open spec fn goes_before(self, other: TextKey) -> bool {
        text_le(self.text@, other.text@)
    }
}

impl Ranked for Seq<char> {
    open spec fn goes_before(self, other: Seq<char>) -> bool {
        text_le(self, other)
    }
}

impl SortKey for TextKey {
    fn ahead_of(&self, other: &TextKey) -> (r: bool) {
        no_later_text(&self.text, &other.text)
    }
}

/// Texts are ordered.
pub proof fn lemma_texts_ordered()
    ensures
        ordered_keys::<Seq<char>>(),
{
    assert forall|a: Seq<char>, b: Seq<char>| #![auto] a.goes_before(b) || b.goes_before(a) by {
        lemma_text_le_total(a, b);
    }
    assert forall|a: Seq<char>, b: Seq<char>, c: Seq<char>|
        #![trigger a.goes_before(b), b.goes_before(c)]
        a.goes_before(b) && b.goes_before(c) implies a.goes_before(c) by {
        lemma_text_le_transitive(a, b, c);
    }
}

/// The rows of texts in the order of the texts, rows with the same text in their given order.
pub open spec fn text_order(texts: Seq<Seq<char>>) -> Seq<int> {
    key_order(texts)
}

/// The texts of keys.
pub open spec fn key_texts(keys: Seq<TextKey>) -> Seq<Seq<char>> {
    keys.map_values(|k: TextKey| k.text@)
}

proof fn lemma_same_with_row<K: Ranked, L: Ranked>(a: Seq<K>, b: Seq<L>, order: Seq<int>, i: int)
    requires
        same_ranks(a, b),
        0 <= i < a.len(),
        forall|k: int| 0 <= k < order.len() ==> 0 <= #[trigger] order[k] < a.len(),
    ensures
        with_row(a, order, i) == with_row(b, order, i),
    decreases order.len(),
{
    if order.len() > 0 {
        let last = order[order.len() - 1];
        assert(a[last].goes_before(a[i]) == b[last].goes_before(b[i]));
        let head = order.drop_last();
        assert forall|k: int| 0 <= k < head.len() implies 0 <= #[trigger] head[k] < a.len() by {
            assert(head[k] == order[k]);
        }
        lemma_same_with_row(a, b, head, i);
    }
}

proof fn lemma_same_rows<K: Ranked, L: Ranked>(a: Seq<K>, b: Seq<L>, n: int)
    requires
        same_ranks(a, b),
        0 <= n <= a.len(),
    ensures
        sorted_rows(a, n) == sorted_rows(b, n),
    decreases n,
{
    if n > 0 {
        lemma_same_rows(a, b, n - 1);
        lemma_sorted_rows_arrange(a, n - 1);
        lemma_same_with_row(a, b, sorted_rows(a, n - 1), n - 1);
    }
}

/// Two lists of keys stand in the same order.
pub open spec fn same_ranks<K: Ranked, L: Ranked>(a: Seq<K>, b: Seq<L>) -> bool {
    &&& a.len() == b.len()
    &&& forall|i: int, j: int|
        0 <= i < a.len() && 0 <= j < a.len() ==> (#[trigger] a[i].goes_before(a[j])) == b[i].goes_before(b[j])
}

/// Lists of keys that stand in the same order are sorted alike.
pub proof fn lemma_same_order<K: Ranked, L: Ranked>(a: Seq<K>, b: Seq<L>)
    requires
        same_ranks(a, b),
    ensures
        key_order(a) == key_order(b),
{
    lemma_same_rows(a, b, a.len() as int);
}

/// The row numbers of texts in the order of the texts. Rows with the same text keep their order.
pub fn sort_texts(keys: &Vec<TextKey>) -> (r: Vec<usize>)
    ensures
        as_rows(r@) == text_order(key_texts(keys@)),
        is_arrangement(as_rows(r@), keys@.len() as int),
        r@.len() == keys@.len(),
        forall|k: int| 0 <= k < r@.len() ==> (#[trigger] r@[k]) < keys@.len(),
{
    let r = sort_rows(keys);
    proof {
        lemma_same_order(keys@, key_texts(keys@));
    }
    r
}

/// The later point in time goes first.
#[derive(Clone, Copy, PartialEq, Eq, Structural, Debug)]
pub struct Newest {
    pub date: Instant,
}

impl Ranked for Newest {
    open spec fn goes_before(self, other: Newest) -> bool {
        other.date.le(self.date)
    }
}

impl SortKey for Newest {
    fn ahead_of(&self, other: &Newest) -> (r: bool) {
        other.date.no_later_than(self.date)
    }
}

/// The earlier point in time goes first.
#[derive(Clone, Copy, PartialEq, Eq, Structural, Debug)]
pub struct Soonest {
    pub at: Instant,
}

impl Ranked for Soonest {
    open spec fn goes_before(self, other: Soonest) -> bool {
        self.at.le(other.at)
    }
}

impl SortKey for Soonest {
    fn ahead_of(&self, other: &Soonest) -> (r: bool) {
        self.at.no_later_than(other.at)
    }
}

} // verus!
