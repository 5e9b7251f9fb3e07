//! The folder tree: how the mailboxes of an account hang together, and the rows above them.

use crate::model::{text_of, texts_of};
use crate::sorting::{as_rows, in_key_order, key_order, lemma_key_order_arranges};
use crate::sorting::{lemma_key_order_sorts, lemma_same_order, ordered_keys, sort_rows, Ranked, SortKey};
use crate::text::{chars_of, has_prefix, lemma_text_le_total, lemma_text_le_transitive, lowercase};
use crate::text::{no_later_text, same, starts_with, strip_prefix, text_le};
use vstd::prelude::*;

verus! {

/// What a mailbox is for.
#[derive(Clone, Copy, PartialEq, Eq, Structural, Debug)]
pub enum MailboxRole {
    Inbox,
    Archive,
    Drafts,
    Sent,
    Trash,
    Junk,
    Other,
}

/// A mailbox. Its id is that of the account, a colon and the path of the mailbox.
#[derive(Debug)]
pub struct Mailbox {
    pub id: String,
    pub name: String,
    pub role: MailboxRole,
    pub delimiter: char,
    pub unread: u32,
}

/// A mailbox, by its number in a list, and the mailboxes below it.
#[derive(Debug)]
pub struct FolderNode {
    pub mailbox: usize,
    pub children: Vec<FolderNode>,
}

/// The place of the last occurrence of a character, or -1.
pub open spec fn last_of(s: Seq<char>, c: char) -> int
    decreases s.len(),
{
    if s.len() == 0 {
        -1
    } else if s.last() == c {
        s.len() - 1
    } else {
        last_of(s.drop_last(), c)
    }
}

proof fn lemma_last_of_bound(s: Seq<char>, c: char)
    ensures
        -1 <= last_of(s, c) < s.len(),
    decreases s.len(),
{
    if s.len() > 0 && s.last() != c {
        lemma_last_of_bound(s.drop_last(), c);
    }
}

/// The path above a path: what stands before the last delimiter.
pub open spec fn parent_of(path: Seq<char>, delimiter: char) -> Option<Seq<char>> {
    if last_of(path, delimiter) < 0 {
        None
    } else {
        Some(path.take(last_of(path, delimiter)))
    }
}

/// The path above a path.
pub fn parent_path(path: &str, delimiter: char) -> (r: Option<String>)
    ensures
        text_of(r) == parent_of(path@, delimiter),
{
    let chars = chars_of(path);
    let mut n: usize = chars.len();
    assert(path@.take(n as int) =~= path@);
    while n > 0
        invariant
            n <= chars.len(),
            chars@ == path@,
            last_of(path@, delimiter) == last_of(path@.take(n as int), delimiter),
        decreases n,
    {
        assert(path@.take(n as int).drop_last() =~= path@.take(n - 1));
        if chars[n - 1] == delimiter {
            let mut out = String::new();
            let mut i: usize = 0;
            while i < n - 1
                invariant
                    i <= n - 1 < chars.len(),
                    chars@ == path@,
                    out@ == path@.take(i as int),
                decreases n - 1 - i,
            {
                out.push(chars[i]);
                assert(out@ =~= path@.take(i + 1));
                i += 1;
            }
            return Some(out);
        }
        n -= 1;
    }
    None
}

/// What the ids of an account's mailboxes start with.
pub open spec fn id_prefix(account_id: Seq<char>) -> Seq<char> {
    account_id.push(':')
}

/// The path of a mailbox.
pub open spec fn path_of(m: Mailbox, account_id: Seq<char>) -> Seq<char> {
    m.id@.skip(account_id.len() as int + 1)
}

/// A mailbox stands in the tree: it belongs to the account and no later one has the same id.
pub open spec fn in_tree(mailboxes: Seq<Mailbox>, account_id: Seq<char>) -> spec_fn(int) -> bool {
    |i: int|
        has_prefix(mailboxes[i].id@, id_prefix(account_id)) && !(exists|j: int|
            i < j < mailboxes.len() && (#[trigger] mailboxes[j]).id@ == mailboxes[i].id@)
}

/// The numbers of the mailboxes in the tree.
pub open spec fn tree_rows(mailboxes: Seq<Mailbox>, account_id: Seq<char>) -> Seq<int> {
    Seq::new(mailboxes.len(), |i: int| i).filter(in_tree(mailboxes, account_id))
}

/// One of the mailboxes in the tree has this path.
pub open spec fn has_path(mailboxes: Seq<Mailbox>, account_id: Seq<char>, path: Seq<char>) -> bool {
    exists|j: int|
        0 <= j < mailboxes.len() && #[trigger] in_tree(mailboxes, account_id)(j) && path_of(
            mailboxes[j],
            account_id,
        ) == path
}

/// The path of the mailbox that a mailbox stands below; none if there is no such mailbox.
pub open spec fn parent_in_tree(mailboxes: Seq<Mailbox>, account_id: Seq<char>, i: int) -> Option<Seq<char>> {
    match parent_of(path_of(mailboxes[i], account_id), mailboxes[i].delimiter) {
        Some(p) => if has_path(mailboxes, account_id, p) {
            Some(p)
        } else {
            None
        },
        None => None,
    }
}

/// Picks what stands below a path, or at the top.
pub open spec fn stands_below(
    mailboxes: Seq<Mailbox>,
    account_id: Seq<char>,
    parent: Option<Seq<char>>,
) -> spec_fn(int) -> bool {
    |i: int| parent_in_tree(mailboxes, account_id, i) == parent
}

/// What mailboxes are ordered by: the inbox first, then by name in any case.
pub struct FolderRank {
    pub inbox: bool,
    pub name: Seq<char>,
}

/// One rank goes before another, or they are level.
pub open spec fn ranks_before(a: FolderRank, b: FolderRank) -> bool {
    if a.inbox == b.inbox {
        text_le(a.name, b.name)
    } else {
        a.inbox
    }
}

impl Ranked for FolderRank {
    open spec fn goes_before(self, other: FolderRank) -> bool {
        ranks_before(self, other)
    }
}

/// What mailboxes are sorted by.
#[derive(Debug)]
pub struct FolderKey {
    pub inbox: bool,
    pub name: String,
}

/// The rank of a key.
pub open spec fn rank_of_key(k: FolderKey) -> FolderRank {
    FolderRank { inbox: k.inbox, name: k.name@ }
}

impl Ranked for FolderKey {
    open spec fn goes_before(self, other: FolderKey) -> bool {
        ranks_before(rank_of_key(self), rank_of_key(other))
    }
}

impl SortKey for FolderKey {
    fn ahead_of(&self, other: &FolderKey) -> (r: bool) {
        if self.inbox == other.inbox {
            no_later_text(&self.name, &other.name)
        } else {
            self.inbox
        }
    }
}

/// The rank of a mailbox.
pub open spec fn rank_of(m: Mailbox) -> FolderRank {
    FolderRank { inbox: m.role == MailboxRole::Inbox, name: lowercase(m.name@) }
}

/// Mailboxes, by their numbers, in order.
pub open spec fn sorted_folders(mailboxes: Seq<Mailbox>, rows: Seq<int>) -> Seq<int> {
    key_order(rows.map_values(|i: int| rank_of(mailboxes[i]))).map_values(|k: int| rows[k])
}

/// What stands below a path, or at the top, in order.
pub open spec fn children_rows(
    mailboxes: Seq<Mailbox>,
    account_id: Seq<char>,
    parent: Option<Seq<char>>,
) -> Seq<int> {
    sorted_folders(
        mailboxes,
        tree_rows(mailboxes, account_id).filter(stands_below(mailboxes, account_id, parent)),
    )
}

/// Nodes stand for mailboxes, in order.
pub open spec fn stand_for(nodes: Seq<FolderNode>, rows: Seq<int>) -> bool {
    nodes.len() == rows.len() && forall|k: int|
        0 <= k < nodes.len() ==> (#[trigger] nodes[k]).mailbox == rows[k]
}

/// Below a node stands everything that stands below its mailbox, and so on.
pub open spec fn is_tree(mailboxes: Seq<Mailbox>, account_id: Seq<char>, node: FolderNode) -> bool
    decreases node,
{
    &&& stand_for(
        node.children@,
        children_rows(
            mailboxes,
            account_id,
            Some(path_of(mailboxes[node.mailbox as int], account_id)),
        ),
    )
    &&& forall|k: int|
        0 <= k < node.children@.len() ==> is_tree(mailboxes, account_id, #[trigger] node.children@[k])
}

/// The nodes are all that stands at the top, each with everything below it.
pub open spec fn is_forest(mailboxes: Seq<Mailbox>, account_id: Seq<char>, roots: Seq<FolderNode>) -> bool {
    &&& stand_for(roots, children_rows(mailboxes, account_id, None))
    &&& forall|k: int| 0 <= k < roots.len() ==> is_tree(mailboxes, account_id, #[trigger] roots[k])
}

fn prefix_of(account_id: &str) -> (r: String)
    ensures
        r@ == id_prefix(account_id@),
{
    let mut prefix = account_id.to_owned();
    prefix.push(':');
    prefix
}

fn kept_rows(mailboxes: &Vec<Mailbox>, account_id: &str) -> (r: Vec<usize>)
    ensures
        as_rows(r@) == tree_rows(mailboxes@, account_id@),
        forall|k: int| 0 <= k < r@.len() ==> #[trigger] r@[k] < mailboxes@.len(),
{
    let prefix = prefix_of(account_id);
    let ghost all = Seq::new(mailboxes@.len(), |i: int| i);
    let ghost keep = in_tree(mailboxes@, account_id@);
    let mut out: Vec<usize> = Vec::new();
    let mut i: usize = 0;
    assert(all.take(0).filter(keep) =~= Seq::<int>::empty());
    assert(as_rows(out@) =~= all.take(0).filter(keep));
    while i < mailboxes.len()
        invariant
            i <= mailboxes.len(),
            prefix@ == id_prefix(account_id@),
            all == Seq::new(mailboxes@.len(), |i: int| i),
            keep == in_tree(mailboxes@, account_id@),
            as_rows(out@) == all.take(i as int).filter(keep),
            forall|k: int| 0 <= k < out@.len() ==> #[trigger] out@[k] < mailboxes@.len(),
        decreases mailboxes.len() - i,
    {
        proof {
            assert(all.take(i + 1) =~= all.take(i as int).push(i as int));
            all.take(i as int).lemma_filter_push(i as int, keep);
        }
        let mut last = true;
        let mut j: usize = i + 1;
        while j < mailboxes.len() && last
            invariant
                i < j <= mailboxes.len(),
                last ==> forall|k: int|
                    i < k < j ==> (#[trigger] mailboxes@[k]).id@ != mailboxes@[i as int].id@,
                !last ==> exists|k: int|
                    i < k < mailboxes@.len() && (#[trigger] mailboxes@[k]).id@ == mailboxes@[i as int].id@,
            decreases mailboxes.len() - j + if last { 1int } else { 0int },
        {
            if same(&mailboxes[j].id, &mailboxes[i].id) {
                assert(mailboxes@[j as int].id@ == mailboxes@[i as int].id@);
                last = false;
            } else {
                j += 1;
            }
        }
        if last && starts_with(&mailboxes[i].id, &prefix) {
            let ghost before = as_rows(out@);
            out.push(i);
            assert(as_rows(out@) =~= before.push(i as int));
        }
        i += 1;
    }
    assert(all.take(i as int) =~= all);
    out
}

/// The numbers of the mailboxes in the tree are those that stand in it.
proof fn lemma_tree_rows(mailboxes: Seq<Mailbox>, account_id: Seq<char>)
    ensures
        forall|k: int|
            0 <= k < tree_rows(mailboxes, account_id).len() ==> 0 <= #[trigger] tree_rows(
                mailboxes,
                account_id,
            )[k] < mailboxes.len() && in_tree(mailboxes, account_id)(tree_rows(mailboxes, account_id)[k]),
        forall|i: int|
            0 <= i < mailboxes.len() && in_tree(mailboxes, account_id)(i) ==> #[trigger] tree_rows(
                mailboxes,
                account_id,
            ).contains(i),
{
    let all = Seq::new(mailboxes.len(), |i: int| i);
    let keep = in_tree(mailboxes, account_id);
    let rows = tree_rows(mailboxes, account_id);
    assert forall|k: int| 0 <= k < rows.len() implies 0 <= #[trigger] rows[k] < mailboxes.len() && keep(
        rows[k],
    ) by {
        all.lemma_filter_pred(keep, k);
        assert(rows.contains(rows[k]));
        all.lemma_filter_contains_rev(keep, rows[k]);
        let i = choose|i: int| 0 <= i < all.len() && all[i] == rows[k];
        assert(all[i] == i);
    }
    assert forall|i: int| 0 <= i < mailboxes.len() && keep(i) implies #[trigger] rows.contains(i) by {
        assert(all[i] == i);
        all.lemma_filter_contains(keep, i);
    }
}

fn path_text<'a>(m: &'a Mailbox, account_id: &str) -> (r: &'a str)
    requires
        has_prefix(m.id@, id_prefix(account_id@)),
    ensures
        r@ == path_of(*m, account_id@),
{
    let prefix = prefix_of(account_id);
    match strip_prefix(&m.id, &prefix) {
        Some(path) => path,
        None => "",
    }
}

fn path_known(mailboxes: &Vec<Mailbox>, rows: &Vec<usize>, account_id: &str, path: &str) -> (r: bool)
    requires
        as_rows(rows@) == tree_rows(mailboxes@, account_id@),
    ensures
        r == has_path(mailboxes@, account_id@, path@),
{
    let ghost all = tree_rows(mailboxes@, account_id@);
    proof {
        lemma_tree_rows(mailboxes@, account_id@);
        assert(all.len() == rows@.len());
    }
    let mut k: usize = 0;
    while k < rows.len()
        invariant
            k <= rows.len(),
            all == as_rows(rows@),
            all == tree_rows(mailboxes@, account_id@),
            all.len() == rows@.len(),
            forall|n: int|
                0 <= n < all.len() ==> 0 <= #[trigger] all[n] < mailboxes@.len() && in_tree(
                    mailboxes@,
                    account_id@,
                )(all[n]),
            forall|n: int| 0 <= n < k ==> path_of(mailboxes@[#[trigger] all[n]], account_id@) != path@,
        decreases rows.len() - k,
    {
        assert(all[k as int] == rows@[k as int]);
        let j: usize = rows[k];
        if same(path_text(&mailboxes[j], account_id), path) {
            assert(in_tree(mailboxes@, account_id@)(j as int));
            return true;
        }
        k += 1;
    }
    proof {
        if has_path(mailboxes@, account_id@, path@) {
            let j = choose|j: int|
                0 <= j < mailboxes@.len() && #[trigger] in_tree(mailboxes@, account_id@)(j) && path_of(
                    mailboxes@[j],
                    account_id@,
                ) == path@;
            assert(all.contains(j));
            let n = choose|n: int| 0 <= n < all.len() && all[n] == j;
            assert(path_of(mailboxes@[all[n]], account_id@) != path@);
        }
    }
    false
}

fn parent_text(mailboxes: &Vec<Mailbox>, rows: &Vec<usize>, account_id: &str, i: usize) -> (r: Option<String>)
    requires
        as_rows(rows@) == tree_rows(mailboxes@, account_id@),
        i < mailboxes@.len(),
        has_prefix(mailboxes@[i as int].id@, id_prefix(account_id@)),
    ensures
        text_of(r) == parent_in_tree(mailboxes@, account_id@, i as int),
{
    match parent_path(path_text(&mailboxes[i], account_id), mailboxes[i].delimiter) {
        Some(p) => if path_known(mailboxes, rows, account_id, &p) {
            Some(p)
        } else {
            None
        },
        None => None,
    }
}

fn same_parent(a: &Option<String>, b: Option<&str>) -> (r: bool)
    ensures
        r == (text_of(*a) == (match b {
            Some(t) => Some(t@),
            None => None,
        })),
{
    match (a, b) {
        (Some(x), Some(y)) => same(x, y),
        (None, None) => true,
        _ => false,
    }
}

/// The mailboxes in order: the inbox first, then by name in any case.
pub fn sort_paths(mailboxes: &Vec<Mailbox>, rows: &Vec<usize>) -> (r: Vec<usize>)
    requires
        forall|k: int| 0 <= k < rows@.len() ==> #[trigger] rows@[k] < mailboxes@.len(),
    ensures
        as_rows(r@) == sorted_folders(mailboxes@, as_rows(rows@)),
        r@.len() == rows@.len(),
        forall|k: int| 0 <= k < r@.len() ==> #[trigger] r@[k] < mailboxes@.len(),
{
    let ghost given = as_rows(rows@);
    let ghost ranks = given.map_values(|i: int| rank_of(mailboxes@[i]));
    let mut keys: Vec<FolderKey> = Vec::new();
    let mut k: usize = 0;
    while k < rows.len()
        invariant
            k <= rows.len(),
            given == as_rows(rows@),
            ranks == given.map_values(|i: int| rank_of(mailboxes@[i])),
            forall|n: int| 0 <= n < rows@.len() ==> #[trigger] rows@[n] < mailboxes@.len(),
            keys@.len() == k,
            forall|n: int| 0 <= n < k ==> rank_of_key(#[trigger] keys@[n]) == ranks[n],
        decreases rows.len() - k,
    {
        let i: usize = rows[k];
        assert(given[k as int] == i);
        let key = FolderKey {
            inbox: mailboxes[i].role == MailboxRole::Inbox,
            name: mailboxes[i].name.as_str().to_lowercase(),
        };
        assert(rank_of_key(key) == rank_of(mailboxes@[i as int]));
        keys.push(key);
        k += 1;
    }
    let order = sort_rows(&keys);
    proof {
        assert(ranks.len() == keys@.len());
        assert forall|i: int, j: int| 0 <= i < keys@.len() && 0 <= j < keys@.len() implies (
        #[trigger] keys@[i].goes_before(keys@[j])) == ranks[i].goes_before(ranks[j]) by {
            assert(rank_of_key(keys@[i]) == ranks[i]);
            assert(rank_of_key(keys@[j]) == ranks[j]);
        }
        lemma_same_order(keys@, ranks);
        assert(as_rows(order@).len() == order@.len());
    }
    let ghost want = sorted_folders(mailboxes@, given);
    let mut out: Vec<usize> = Vec::new();
    let mut n: usize = 0;
    assert(as_rows(out@) =~= want.take(0));
    while n < order.len()
        invariant
            n <= order.len() == want.len(),
            order@.len() == rows@.len(),
            out@.len() == n,
            given == as_rows(rows@),
            ranks == given.map_values(|i: int| rank_of(mailboxes@[i])),
            as_rows(order@) == key_order(ranks),
            want == sorted_folders(mailboxes@, given),
            forall|k: int| 0 <= k < order@.len() ==> #[trigger] order@[k] < rows@.len(),
            forall|k: int| 0 <= k < rows@.len() ==> #[trigger] rows@[k] < mailboxes@.len(),
            as_rows(out@) == want.take(n as int),
            forall|k: int| 0 <= k < out@.len() ==> #[trigger] out@[k] < mailboxes@.len(),
        decreases order.len() - n,
    {
        let at: usize = order[n];
        let ghost before = as_rows(out@);
        assert(as_rows(order@)[n as int] == at);
        assert(given[at as int] == rows@[at as int]);
        let i: usize = rows[at];
        out.push(i);
        assert(as_rows(out@) =~= before.push(i as int));
        assert(want.take(n + 1) =~= want.take(n as int).push(want[n as int]));
        n += 1;
    }
    assert(want.take(n as int) =~= want);
    out
}

fn children(
    mailboxes: &Vec<Mailbox>,
    rows: &Vec<usize>,
    account_id: &str,
    parent: Option<&str>,
) -> (r: Vec<usize>)
    requires
        as_rows(rows@) == tree_rows(mailboxes@, account_id@),
        forall|k: int| 0 <= k < rows@.len() ==> #[trigger] rows@[k] < mailboxes@.len(),
    ensures
        as_rows(r@) == children_rows(
            mailboxes@,
            account_id@,
            match parent {
                Some(p) => Some(p@),
                None => None,
            },
        ),
        forall|k: int| 0 <= k < r@.len() ==> #[trigger] r@[k] < mailboxes@.len(),
{
    let ghost want: Option<Seq<char>> = match parent {
        Some(p) => Some(p@),
        None => None,
    };
    let ghost keep = stands_below(mailboxes@, account_id@, want);
    let ghost all = as_rows(rows@);
    let mut out: Vec<usize> = Vec::new();
    let mut k: usize = 0;
    proof {
        lemma_tree_rows(mailboxes@, account_id@);
        assert(all.take(0).filter(keep) =~= Seq::<int>::empty());
        assert(as_rows(out@) =~= all.take(0).filter(keep));
        assert(all.len() == rows@.len());
    }
    while k < rows.len()
        invariant
            k <= rows.len(),
            all == as_rows(rows@),
            all.len() == rows@.len(),
            all == tree_rows(mailboxes@, account_id@),
            forall|n: int|
                0 <= n < all.len() ==> 0 <= #[trigger] all[n] < mailboxes@.len() && in_tree(
                    mailboxes@,
                    account_id@,
                )(all[n]),
            want == (match parent {
                Some(p) => Some(p@),
                None => None,
            }),
            keep == stands_below(mailboxes@, account_id@, want),
            as_rows(out@) == all.take(k as int).filter(keep),
            forall|n: int| 0 <= n < out@.len() ==> #[trigger] out@[n] < mailboxes@.len(),
        decreases rows.len() - k,
    {
        let i: usize = rows[k];
        proof {
            assert(all[k as int] == i);
            assert(all.take(k + 1) =~= all.take(k as int).push(i as int));
            all.take(k as int).lemma_filter_push(i as int, keep);
        }
        if same_parent(&parent_text(mailboxes, rows, account_id, i), parent) {
            let ghost before = as_rows(out@);
            out.push(i);
            assert(as_rows(out@) =~= before.push(i as int));
        }
        k += 1;
    }
    assert(all.take(k as int) =~= all);
    sort_paths(mailboxes, &out)
}

/// What stands below a path is in the tree and stands below it.
proof fn lemma_children_rows(mailboxes: Seq<Mailbox>, account_id: Seq<char>, parent: Option<Seq<char>>)
    ensures
        forall|k: int|
            #![trigger children_rows(mailboxes, account_id, parent)[k]]
            0 <= k < children_rows(mailboxes, account_id, parent).len() ==> {
                let i = children_rows(mailboxes, account_id, parent)[k];
                0 <= i < mailboxes.len() && in_tree(mailboxes, account_id)(i) && parent_in_tree(
                    mailboxes,
                    account_id,
                    i,
                ) == parent
            },
        forall|i: int|
            0 <= i < mailboxes.len() && in_tree(mailboxes, account_id)(i) && parent_in_tree(
                mailboxes,
                account_id,
                i,
            ) == parent ==> #[trigger] children_rows(mailboxes, account_id, parent).contains(i),
{
    lemma_tree_rows(mailboxes, account_id);
    let all = tree_rows(mailboxes, account_id);
    let keep = stands_below(mailboxes, account_id, parent);
    let rows = all.filter(keep);
    let ranks = rows.map_values(|i: int| rank_of(mailboxes[i]));
    let order = key_order(ranks);
    lemma_key_order_arranges(ranks);
    let sorted = children_rows(mailboxes, account_id, parent);
    assert forall|k: int| #![trigger sorted[k]] 0 <= k < sorted.len() implies {
        let i = sorted[k];
        0 <= i < mailboxes.len() && in_tree(mailboxes, account_id)(i) && parent_in_tree(
            mailboxes,
            account_id,
            i,
        ) == parent
    } by {
        assert(0 <= order[k] < rows.len());
        let i = rows[order[k]];
        assert(sorted[k] == i);
        all.lemma_filter_pred(keep, order[k]);
        assert(rows.contains(i));
        all.lemma_filter_contains_rev(keep, i);
        let n = choose|n: int| 0 <= n < all.len() && all[n] == i;
        assert(all[n] == i);
    }
    assert forall|i: int|
        0 <= i < mailboxes.len() && in_tree(mailboxes, account_id)(i) && parent_in_tree(
            mailboxes,
            account_id,
            i,
        ) == parent implies #[trigger] sorted.contains(i) by {
        assert(all.contains(i));
        let n = choose|n: int| 0 <= n < all.len() && all[n] == i;
        all.lemma_filter_contains(keep, n);
        assert(rows.contains(i));
        let m = choose|m: int| 0 <= m < rows.len() && rows[m] == i;
        assert(order.contains(m));
        let k = choose|k: int| 0 <= k < order.len() && order[k] == m;
        assert(sorted[k] == i);
    }
}

/// No path is longer.
pub open spec fn longest(mailboxes: Seq<Mailbox>, n: int) -> nat
    decreases n,
{
    if n <= 0 {
        0
    } else if mailboxes[n - 1].id@.len() > longest(mailboxes, n - 1) {
        mailboxes[n - 1].id@.len()
    } else {
        longest(mailboxes, n - 1)
    }
}

proof fn lemma_longest(mailboxes: Seq<Mailbox>, n: int, i: int)
    requires
        0 <= i < n <= mailboxes.len(),
    ensures
        mailboxes[i].id@.len() <= longest(mailboxes, n),
    decreases n,
{
    if i < n - 1 {
        lemma_longest(mailboxes, n - 1, i);
    }
}

proof fn lemma_child_is_longer(mailboxes: Seq<Mailbox>, account_id: Seq<char>, i: int, p: Seq<char>)
    requires
        parent_in_tree(mailboxes, account_id, i) == Some(p),
    ensures
        p.len() < path_of(mailboxes[i], account_id).len(),
{
    lemma_last_of_bound(path_of(mailboxes[i], account_id), mailboxes[i].delimiter);
}

fn build(mailboxes: &Vec<Mailbox>, rows: &Vec<usize>, account_id: &str, i: usize) -> (r: FolderNode)
    requires
        as_rows(rows@) == tree_rows(mailboxes@, account_id@),
        forall|k: int| 0 <= k < rows@.len() ==> #[trigger] rows@[k] < mailboxes@.len(),
        i < mailboxes@.len(),
        in_tree(mailboxes@, account_id@)(i as int),
    ensures
        r.mailbox == i,
        is_tree(mailboxes@, account_id@, r),
    decreases
            longest(mailboxes@, mailboxes@.len() as int) - path_of(
                mailboxes@[i as int],
                account_id@,
            ).len(),
{
    let ghost path = path_of(mailboxes@[i as int], account_id@);
    let below = children(mailboxes, rows, account_id, Some(path_text(&mailboxes[i], account_id)));
    let ghost want = children_rows(mailboxes@, account_id@, Some(path));
    proof {
        lemma_children_rows(mailboxes@, account_id@, Some(path));
        assert(want.len() == below@.len());
    }
    let mut nodes: Vec<FolderNode> = Vec::new();
    let mut k: usize = 0;
    while k < below.len()
        invariant
            k <= below.len(),
            i < mailboxes@.len(),
            as_rows(rows@) == tree_rows(mailboxes@, account_id@),
            forall|n: int| 0 <= n < rows@.len() ==> #[trigger] rows@[n] < mailboxes@.len(),
            path == path_of(mailboxes@[i as int], account_id@),
            has_prefix(mailboxes@[i as int].id@, id_prefix(account_id@)),
            want == as_rows(below@),
            want.len() == below@.len(),
            forall|n: int|
                #![trigger want[n]]
                0 <= n < want.len() ==> 0 <= want[n] < mailboxes@.len() && in_tree(
                    mailboxes@,
                    account_id@,
                )(want[n]) && parent_in_tree(mailboxes@, account_id@, want[n]) == Some(path),
            nodes@.len() == k,
            forall|n: int|
                0 <= n < k ==> (#[trigger] nodes@[n]).mailbox == want[n] && is_tree(
                    mailboxes@,
                    account_id@,
                    nodes@[n],
                ),
        decreases below.len() - k,
    {
        let c: usize = below[k];
        proof {
            assert(want[k as int] == c);
            lemma_child_is_longer(mailboxes@, account_id@, c as int, path);
            lemma_longest(mailboxes@, mailboxes@.len() as int, c as int);
        }
        nodes.push(build(mailboxes, rows, account_id, c));
        k += 1;
    }
    FolderNode { mailbox: i, children: nodes }
}

/// The folder tree of an account. A mailbox whose parent is not among the mailboxes stands at the
/// top.
pub fn build_folder_roots(mailboxes: &Vec<Mailbox>, account_id: &str) -> (r: Vec<FolderNode>)
    ensures
        is_forest(mailboxes@, account_id@, r@),
{
    let rows = kept_rows(mailboxes, account_id);
    let top = children(mailboxes, &rows, account_id, None);
    let ghost want = children_rows(mailboxes@, account_id@, None);
    proof {
        lemma_children_rows(mailboxes@, account_id@, None);
        assert(want.len() == top@.len());
    }
    let mut nodes: Vec<FolderNode> = Vec::new();
    let mut k: usize = 0;
    while k < top.len()
        invariant
            k <= top.len(),
            as_rows(rows@) == tree_rows(mailboxes@, account_id@),
            forall|n: int| 0 <= n < rows@.len() ==> #[trigger] rows@[n] < mailboxes@.len(),
            want == as_rows(top@),
            want.len() == top@.len(),
            forall|n: int|
                #![trigger want[n]]
                0 <= n < want.len() ==> 0 <= want[n] < mailboxes@.len() && in_tree(
                    mailboxes@,
                    account_id@,
                )(want[n]),
            nodes@.len() == k,
            forall|n: int|
                0 <= n < k ==> (#[trigger] nodes@[n]).mailbox == want[n] && is_tree(
                    mailboxes@,
                    account_id@,
                    nodes@[n],
                ),
        decreases top.len() - k,
    {
        let c: usize = top[k];
        assert(want[k as int] == c);
        nodes.push(build(mailboxes, &rows, account_id, c));
        k += 1;
    }
    nodes
}

/// A mailbox stands at a node or somewhere below it.
pub open spec fn holds_mailbox(node: FolderNode, i: int) -> bool
    decreases node,
{
    node.mailbox == i || exists|k: int|
        0 <= k < node.children@.len() && holds_mailbox(#[trigger] node.children@[k], i)
}

proof fn lemma_tree_holds_child(
    mailboxes: Seq<Mailbox>,
    account_id: Seq<char>,
    node: FolderNode,
    parent: int,
    i: int,
)
    requires
        is_tree(mailboxes, account_id, node),
        holds_mailbox(node, parent),
        0 <= i < mailboxes.len(),
        in_tree(mailboxes, account_id)(i),
        parent_in_tree(mailboxes, account_id, i) == Some(path_of(mailboxes[parent], account_id)),
    ensures
        holds_mailbox(node, i),
    decreases node,
{
    if node.mailbox == parent {
        let p = Some(path_of(mailboxes[parent], account_id));
        let rows = children_rows(mailboxes, account_id, p);
        lemma_children_rows(mailboxes, account_id, p);
        assert(rows.contains(i));
        let k = choose|k: int| 0 <= k < rows.len() && rows[k] == i;
        assert(node.children@[k].mailbox == i);
        assert(holds_mailbox(node.children@[k], i));
    } else {
        let k = choose|k: int|
            0 <= k < node.children@.len() && holds_mailbox(#[trigger] node.children@[k], parent);
        lemma_tree_holds_child(mailboxes, account_id, node.children@[k], parent, i);
        assert(holds_mailbox(node.children@[k], i));
    }
}

/// Every mailbox that stands in the tree can be found in it: at the top or somewhere below.
pub proof fn lemma_no_mailbox_lost(
    mailboxes: Seq<Mailbox>,
    account_id: Seq<char>,
    roots: Seq<FolderNode>,
    i: int,
)
    requires
        is_forest(mailboxes, account_id, roots),
        0 <= i < mailboxes.len(),
        in_tree(mailboxes, account_id)(i),
    ensures
        exists|k: int| 0 <= k < roots.len() && holds_mailbox(#[trigger] roots[k], i),
    decreases path_of(mailboxes[i], account_id).len(),
{
    match parent_in_tree(mailboxes, account_id, i) {
        None => {
            let rows = children_rows(mailboxes, account_id, None);
            lemma_children_rows(mailboxes, account_id, None);
            assert(rows.contains(i));
            let k = choose|k: int| 0 <= k < rows.len() && rows[k] == i;
            assert(roots[k].mailbox == i);
            assert(holds_mailbox(roots[k], i));
        },
        Some(p) => {
            lemma_child_is_longer(mailboxes, account_id, i, p);
            let j = choose|j: int|
                0 <= j < mailboxes.len() && #[trigger] in_tree(mailboxes, account_id)(j) && path_of(
                    mailboxes[j],
                    account_id,
                ) == p;
            lemma_no_mailbox_lost(mailboxes, account_id, roots, j);
            let k = choose|k: int| 0 <= k < roots.len() && holds_mailbox(#[trigger] roots[k], j);
            lemma_tree_holds_child(mailboxes, account_id, roots[k], j, i);
            assert(holds_mailbox(roots[k], i));
        },
    }
}

/// Among mailboxes that stand side by side, the inbox comes first and the others follow by name.
pub proof fn lemma_inbox_first(mailboxes: Seq<Mailbox>, rows: Seq<int>, a: int, b: int)
    requires
        0 <= a < b < rows.len(),
    ensures
        ranks_before(
            rank_of(mailboxes[sorted_folders(mailboxes, rows)[a]]),
            rank_of(mailboxes[sorted_folders(mailboxes, rows)[b]]),
        ),
{
    let ranks = rows.map_values(|i: int| rank_of(mailboxes[i]));
    assert(ordered_keys::<FolderRank>()) by {
        assert forall|x: FolderRank, y: FolderRank| #![auto] x.goes_before(y) || y.goes_before(x) by {
            lemma_text_le_total(x.name, y.name);
        }
        assert forall|x: FolderRank, y: FolderRank, z: FolderRank|
            #![trigger x.goes_before(y), y.goes_before(z)]
            x.goes_before(y) && y.goes_before(z) implies x.goes_before(z) by {
            if x.inbox == y.inbox && y.inbox == z.inbox {
                lemma_text_le_transitive(x.name, y.name, z.name);
            }
        }
    }
    lemma_key_order_sorts(ranks);
    lemma_key_order_arranges(ranks);
    let order = key_order(ranks);
    assert(in_key_order(ranks, order[a], order[b]));
    assert(0 <= order[a] < rows.len() && 0 <= order[b] < rows.len());
}

/// How many mails in the first inbox are unread; none if there is no inbox.
pub open spec fn unread_in_inbox(mailboxes: Seq<Mailbox>) -> u32
    decreases mailboxes.len(),
{
    if mailboxes.len() == 0 {
        0
    } else if mailboxes[0].role == MailboxRole::Inbox {
        mailboxes[0].unread
    } else {
        unread_in_inbox(mailboxes.drop_first())
    }
}

/// How many mails in the first inbox are unread; none if there is no inbox.
pub fn inbox_unread(mailboxes: &Vec<Mailbox>) -> (r: u32)
    ensures
        r == unread_in_inbox(mailboxes@),
{
    let mut i: usize = 0;
    assert(mailboxes@.skip(0) =~= mailboxes@);
    while i < mailboxes.len()
        invariant
            i <= mailboxes.len(),
            unread_in_inbox(mailboxes@) == unread_in_inbox(mailboxes@.skip(i as int)),
        decreases mailboxes.len() - i,
    {
        assert(mailboxes@.skip(i as int).drop_first() =~= mailboxes@.skip(i + 1));
        if mailboxes[i].role == MailboxRole::Inbox {
            return mailboxes[i].unread;
        }
        i += 1;
    }
    0
}

/// A connected account and its mailboxes.
#[derive(Debug)]
pub struct AccountFolders {
    pub account_id: String,
    pub label: String,
    pub mailboxes: Vec<Mailbox>,
}

/// The row of an account.
#[derive(Debug)]
pub struct AccountNode {
    pub account_id: String,
    pub label: String,
    pub unread: u32,
}

/// A row of the sidebar.
#[derive(Debug)]
pub enum TreeItem<'a> {
    /// All inboxes together, and how many mails in them are unread.
    Unified(u32),
    /// The starred mailboxes.
    Favorites,
    /// An account.
    Account(AccountNode),
    /// A mailbox of an account.
    Folder(&'a FolderNode),
    /// A starred mailbox, by its number among those: a second row for a mailbox that has one below
    /// its account too.
    Favorite(&'a FolderNode),
}

/// A row of the sidebar, as text.
pub enum ItemView {
    Unified(int),
    Favorites,
    Account(Seq<char>, Seq<char>, int),
    Folder(FolderNode),
    Favorite(FolderNode),
}

impl View for TreeItem<'_> {
    type V = ItemView;

    open spec fn view(&self) -> ItemView {
        match self {
            TreeItem::Unified(n) => ItemView::Unified(*n as int),
            TreeItem::Favorites => ItemView::Favorites,
            TreeItem::Account(a) => ItemView::Account(a.account_id@, a.label@, a.unread as int),
            TreeItem::Folder(node) => ItemView::Folder(**node),
            TreeItem::Favorite(node) => ItemView::Favorite(**node),
        }
    }
}

/// Rows as text.
pub open spec fn item_views<'a>(v: Seq<TreeItem<'a>>) -> Seq<ItemView> {
    v.map_values(|t: TreeItem<'a>| t@)
}

/// How many mails are unread in the inboxes of all accounts.
pub open spec fn unread_in_all(accounts: Seq<AccountFolders>) -> nat
    decreases accounts.len(),
{
    if accounts.len() == 0 {
        0
    } else {
        unread_in_all(accounts.drop_last()) + unread_in_inbox(accounts.last().mailboxes@) as nat
    }
}

/// The row of an account, as text.
pub open spec fn account_item(a: AccountFolders) -> ItemView {
    ItemView::Account(a.account_id@, a.label@, unread_in_inbox(a.mailboxes@) as int)
}

/// The rows at the top of the sidebar: all inboxes, the starred mailboxes if there are any, and the
/// accounts.
pub open spec fn root_rows(accounts: Seq<AccountFolders>, favorites: bool) -> Seq<ItemView> {
    seq![ItemView::Unified(unread_in_all(accounts) as int)] + (if favorites {
        seq![ItemView::Favorites]
    } else {
        Seq::empty()
    }) + accounts.map_values(|a: AccountFolders| account_item(a))
}

proof fn lemma_unread_grows(accounts: Seq<AccountFolders>, n: int)
    requires
        0 <= n <= accounts.len(),
    ensures
        unread_in_all(accounts.take(n)) <= unread_in_all(accounts),
    decreases accounts.len() - n,
{
    if n < accounts.len() {
        lemma_unread_grows(accounts, n + 1);
        assert(accounts.take(n + 1).drop_last() =~= accounts.take(n));
    } else {
        assert(accounts.take(n) =~= accounts);
    }
}

/// The sidebar: the rows at its top, the starred mailboxes, and the folder tree of each account.
#[derive(Debug)]
pub struct FolderTree {
    pub rows: Vec<TreeItem<'static>>,
    pub favorites: Vec<FolderNode>,
    pub account_ids: Vec<String>,
    pub folders: Vec<Vec<FolderNode>>,
}

/// Each starred mailbox is there once, in order, with nothing below it.
pub open spec fn flat_leaves(nodes: Seq<FolderNode>, n: nat) -> bool {
    nodes.len() == n && forall|i: int|
        0 <= i < n ==> (#[trigger] nodes[i]).mailbox == i && nodes[i].children@.len() == 0
}

/// The sidebar shows these accounts and starred mailboxes.
pub open spec fn shows_all(tree: FolderTree, accounts: Seq<AccountFolders>, favorites: Seq<Mailbox>) -> bool {
    &&& item_views(tree.rows@) == root_rows(accounts, favorites.len() > 0)
    &&& flat_leaves(tree.favorites@, favorites.len())
    &&& texts_of(tree.account_ids@) == accounts.map_values(|a: AccountFolders| a.account_id@)
    &&& tree.folders@.len() == accounts.len()
    &&& forall|i: int|
        0 <= i < accounts.len() ==> is_forest(
            accounts[i].mailboxes@,
            accounts[i].account_id@,
            (#[trigger] tree.folders@[i])@,
        )
}

/// The number of the last account with an id.
pub open spec fn account_with_id(ids: Seq<Seq<char>>, id: Seq<char>) -> Option<int>
    decreases ids.len(),
{
    if ids.len() == 0 {
        None
    } else if ids.last() == id {
        Some(ids.len() - 1)
    } else {
        account_with_id(ids.drop_last(), id)
    }
}

/// Rows for mailboxes of an account.
pub open spec fn folder_rows(nodes: Seq<FolderNode>) -> Seq<ItemView> {
    nodes.map_values(|n: FolderNode| ItemView::Folder(n))
}

/// Rows for starred mailboxes.
pub open spec fn favorite_rows(nodes: Seq<FolderNode>) -> Seq<ItemView> {
    nodes.map_values(|n: FolderNode| ItemView::Favorite(n))
}

impl FolderTree {
    /// Every account has a folder tree.
    pub open spec fn wf(self) -> bool {
        self.account_ids@.len() == self.folders@.len()
    }

    /// The rows below a row, if it can be opened: the starred mailboxes and an account always, even
    /// if there is nothing in it yet; a mailbox only if there is one below it.
    pub open spec fn below(self, item: ItemView) -> Option<Seq<ItemView>> {
        match item {
            ItemView::Unified(_) => None,
            ItemView::Favorite(_) => None,
            ItemView::Favorites => Some(favorite_rows(self.favorites@)),
            ItemView::Account(id, _, _) => match account_with_id(texts_of(self.account_ids@), id) {
                Some(k) => Some(folder_rows(self.folders@[k]@)),
                None => None,
            },
            ItemView::Folder(node) => if node.children@.len() == 0 {
                None
            } else {
                Some(folder_rows(node.children@))
            },
        }
    }

    fn account_number(&self, id: &str) -> (r: Option<usize>)
        ensures
            match r {
                Some(k) => account_with_id(texts_of(self.account_ids@), id@) == Some(k as int) && k
                    < self.account_ids@.len(),
                None => account_with_id(texts_of(self.account_ids@), id@) is None,
            },
    {
        let ghost ids = texts_of(self.account_ids@);
        let mut n: usize = self.account_ids.len();
        assert(ids.take(n as int) =~= ids);
        while n > 0
            invariant
                n <= self.account_ids@.len(),
                ids == texts_of(self.account_ids@),
                account_with_id(ids, id@) == account_with_id(ids.take(n as int), id@),
            decreases n,
        {
            assert(ids.take(n as int).drop_last() =~= ids.take(n - 1));
            assert(ids.take(n as int).last() == self.account_ids@[n - 1]@);
            if same(&self.account_ids[n - 1], id) {
                return Some(n - 1);
            }
            n -= 1;
        }
        None
    }

    /// The rows below a row, if it can be opened.
    pub fn rows_below<'a>(&'a self, item: &TreeItem<'a>) -> (r: Option<Vec<TreeItem<'a>>>)
        requires
            self.wf(),
        ensures
            match r {
                Some(rows) => self.below(item@) == Some(item_views(rows@)),
                None => self.below(item@) is None,
            },
    {
        match item {
            TreeItem::Unified(_) => None,
            TreeItem::Favorite(_) => None,
            TreeItem::Favorites => Some(favorites_of(&self.favorites)),
            TreeItem::Account(a) => match self.account_number(&a.account_id) {
                Some(k) => Some(folders_of(&self.folders[k])),
                None => None,
            },
            TreeItem::Folder(node) => {
                let node: &'a FolderNode = *node;
                if node.children.is_empty() {
                    None
                } else {
                    Some(folders_of(&node.children))
                }
            },
        }
    }
}

fn folders_of<'a>(nodes: &'a Vec<FolderNode>) -> (r: Vec<TreeItem<'a>>)
    ensures
        item_views(r@) == folder_rows(nodes@),
{
    let mut out: Vec<TreeItem<'a>> = Vec::new();
    let mut i: usize = 0;
    while i < nodes.len()
        invariant
            i <= nodes.len(),
            item_views(out@) == folder_rows(nodes@).take(i as int),
        decreases nodes.len() - i,
    {
        let ghost before = item_views(out@);
        out.push(TreeItem::Folder(&nodes[i]));
        assert(item_views(out@) =~= before.push(ItemView::Folder(nodes@[i as int])));
        assert(folder_rows(nodes@).take(i + 1) =~= before.push(ItemView::Folder(nodes@[i as int])));
        i += 1;
    }
    assert(folder_rows(nodes@).take(i as int) =~= folder_rows(nodes@));
    out
}

fn favorites_of<'a>(nodes: &'a Vec<FolderNode>) -> (r: Vec<TreeItem<'a>>)
    ensures
        item_views(r@) == favorite_rows(nodes@),
{
    let mut out: Vec<TreeItem<'a>> = Vec::new();
    let mut i: usize = 0;
    while i < nodes.len()
        invariant
            i <= nodes.len(),
            item_views(out@) == favorite_rows(nodes@).take(i as int),
        decreases nodes.len() - i,
    {
        let ghost before = item_views(out@);
        out.push(TreeItem::Favorite(&nodes[i]));
        assert(item_views(out@) =~= before.push(ItemView::Favorite(nodes@[i as int])));
        assert(favorite_rows(nodes@).take(i + 1) =~= before.push(ItemView::Favorite(nodes@[i as int])));
        i += 1;
    }
    assert(favorite_rows(nodes@).take(i as int) =~= favorite_rows(nodes@));
    out
}

/// Below the starred mailboxes each one has a row, in order, with nothing below it. There is a row
/// for them exactly if there are any.
pub proof fn lemma_favorites_are_flat(
    tree: FolderTree,
    accounts: Seq<AccountFolders>,
    favorites: Seq<Mailbox>,
    i: int,
)
    requires
        shows_all(tree, accounts, favorites),
        0 <= i < favorites.len(),
    ensures
        tree.below(ItemView::Favorites) matches Some(rows) && rows.len() == favorites.len() && (rows[i] matches
            ItemView::Favorite(node) && node.mailbox == i) && tree.below(rows[i]) is None,
        root_rows(accounts, favorites.len() > 0)[1] is Favorites,
{
    let rows = favorite_rows(tree.favorites@);
    assert(rows[i] == ItemView::Favorite(tree.favorites@[i]));
}

/// The sidebar: all inboxes, the starred mailboxes if there are any, and the accounts with their
/// folder trees.
pub fn build_multi_account_tree_model(accounts: &Vec<AccountFolders>, favorites: &Vec<Mailbox>) -> (r: FolderTree)
    requires
        unread_in_all(accounts@) <= u32::MAX,
    ensures
        shows_all(r, accounts@, favorites@),
        r.wf(),
{
    let mut unread: u32 = 0;
    let mut i: usize = 0;
    assert(accounts@.take(0) =~= Seq::<AccountFolders>::empty());
    while i < accounts.len()
        invariant
            i <= accounts.len(),
            unread_in_all(accounts@) <= u32::MAX,
            unread == unread_in_all(accounts@.take(i as int)),
        decreases accounts.len() - i,
    {
        proof {
            assert(accounts@.take(i + 1).drop_last() =~= accounts@.take(i as int));
            lemma_unread_grows(accounts@, i + 1);
        }
        unread = unread + inbox_unread(&accounts[i].mailboxes);
        i += 1;
    }
    assert(accounts@.take(i as int) =~= accounts@);
    let mut items: Vec<TreeItem<'static>> = Vec::new();
    items.push(TreeItem::Unified(unread));
    if favorites.len() > 0 {
        items.push(TreeItem::Favorites);
    }
    let mut leaves: Vec<FolderNode> = Vec::new();
    let mut f: usize = 0;
    while f < favorites.len()
        invariant
            f <= favorites.len(),
            flat_leaves(leaves@, f as nat),
        decreases favorites.len() - f,
    {
        leaves.push(FolderNode { mailbox: f, children: Vec::new() });
        f += 1;
    }
    let ghost head = item_views(items@);
    let ghost rows = accounts@.map_values(|a: AccountFolders| account_item(a));
    let ghost ids = accounts@.map_values(|a: AccountFolders| a.account_id@);
    let mut account_ids: Vec<String> = Vec::new();
    let mut roots: Vec<Vec<FolderNode>> = Vec::new();
    let mut k: usize = 0;
    assert(head =~= seq![ItemView::Unified(unread_in_all(accounts@) as int)] + (if favorites@.len() > 0 {
        seq![ItemView::Favorites]
    } else {
        Seq::empty()
    }));
    assert(item_views(items@) =~= head + rows.take(0));
    while k < accounts.len()
        invariant
            k <= accounts.len(),
            rows == accounts@.map_values(|a: AccountFolders| account_item(a)),
            item_views(items@) == head + rows.take(k as int),
            ids == accounts@.map_values(|a: AccountFolders| a.account_id@),
            texts_of(account_ids@) == ids.take(k as int),
            roots@.len() == k,
            forall|n: int|
                0 <= n < k ==> is_forest(
                    accounts@[n].mailboxes@,
                    accounts@[n].account_id@,
                    (#[trigger] roots@[n])@,
                ),
        decreases accounts.len() - k,
    {
        let ghost before = item_views(items@);
        let a = &accounts[k];
        let item = TreeItem::Account(
            AccountNode {
                account_id: a.account_id.clone(),
                label: a.label.clone(),
                unread: inbox_unread(&a.mailboxes),
            },
        );
        assert(item@ == rows[k as int]);
        items.push(item);
        assert(item_views(items@) =~= before.push(item@));
        assert(item_views(items@) =~= head + rows.take(k + 1));
        let ghost named = texts_of(account_ids@);
        account_ids.push(a.account_id.clone());
        assert(texts_of(account_ids@) =~= named.push(a.account_id@));
        assert(ids.take(k + 1) =~= named.push(ids[k as int]));
        roots.push(build_folder_roots(&a.mailboxes, &a.account_id));
        k += 1;
    }
    assert(rows.take(k as int) =~= rows);
    assert(ids.take(k as int) =~= ids);
    assert(texts_of(account_ids@).len() == account_ids@.len());
    FolderTree { rows: items, favorites: leaves, account_ids, folders: roots }
}

/// Whether the sum of the unread mails can be shown.
pub fn unread_fits(accounts: &Vec<AccountFolders>) -> (r: bool)
    ensures
        r == (unread_in_all(accounts@) <= u32::MAX),
{
    let mut unread: u32 = 0;
    let mut i: usize = 0;
    assert(accounts@.take(0) =~= Seq::<AccountFolders>::empty());
    while i < accounts.len()
        invariant
            i <= accounts.len(),
            unread == unread_in_all(accounts@.take(i as int)),
        decreases accounts.len() - i,
    {
        proof {
            assert(accounts@.take(i + 1).drop_last() =~= accounts@.take(i as int));
            lemma_unread_grows(accounts@, i + 1);
        }
        let more: u32 = inbox_unread(&accounts[i].mailboxes);
        if more > u32::MAX - unread {
            return false;
        }
        unread = unread + more;
        i += 1;
    }
    assert(accounts@.take(i as int) =~= accounts@);
    true
}

/// The path of a folder within another is the other's path, the delimiter and the folder's own name;
/// a path without delimiter is within no other.
pub proof fn lemma_parent_of_path(parent: Seq<char>, delimiter: char, name: Seq<char>)
    requires
        !name.contains(delimiter),
    ensures
        parent_of(parent + seq![delimiter] + name, delimiter) == Some(parent),
        parent_of(name, delimiter) is None,
{
    lemma_last_of_tail(parent + seq![delimiter], name, delimiter);
    lemma_last_of_tail(Seq::empty(), name, delimiter);
    assert(Seq::<char>::empty() + name =~= name);
    assert((parent + seq![delimiter] + name).take(parent.len() as int) =~= parent);
}

proof fn lemma_last_of_tail(head: Seq<char>, tail: Seq<char>, c: char)
    requires
        !tail.contains(c),
    ensures
        last_of(head + tail, c) == last_of(head, c),
    decreases tail.len(),
{
    if tail.len() == 0 {
        assert(head + tail =~= head);
    } else {
        assert(tail[tail.len() - 1] != c);
        assert forall|i: int| 0 <= i < tail.drop_last().len() implies tail.drop_last()[i] != c by {
            assert(tail[i] != c);
        }
        lemma_last_of_tail(head, tail.drop_last(), c);
        assert((head + tail).drop_last() =~= head + tail.drop_last());
    }
}

proof fn lemma_last_of_found(s: Seq<char>, c: char)
    ensures
        last_of(s, c) >= 0 ==> s[last_of(s, c)] == c,
        forall|i: int| last_of(s, c) < i < s.len() ==> #[trigger] s[i] != c,
    decreases s.len(),
{
    if s.len() > 0 && s.last() != c {
        lemma_last_of_found(s.drop_last(), c);
        lemma_last_of_bound(s.drop_last(), c);
        let t = s.drop_last();
        assert forall|i: int| last_of(s, c) < i < s.len() implies #[trigger] s[i] != c by {
            if i < t.len() {
                assert(t[i] == s[i]);
            }
        }
    }
}

/// A folder below another is a mailbox of the account, and its path goes on from the other's by the
/// delimiter and a name.
pub proof fn lemma_child_within_parent(mailboxes: Seq<Mailbox>, account_id: Seq<char>, node: FolderNode, k: int)
    requires
        is_tree(mailboxes, account_id, node),
        node.mailbox < mailboxes.len(),
        has_prefix(mailboxes[node.mailbox as int].id@, account_id.push(':')),
        0 <= k < node.children@.len(),
    ensures
        node.children@[k].mailbox < mailboxes.len(),
        ({
            let child = mailboxes[node.children@[k].mailbox as int];
            let parent = mailboxes[node.mailbox as int];
            exists|name: Seq<char>|
                child.id@ == #[trigger] (parent.id@ + seq![child.delimiter] + name) && !name.contains(child.delimiter)
        }),
{
    let parent = mailboxes[node.mailbox as int];
    let p = path_of(parent, account_id);
    lemma_children_rows(mailboxes, account_id, Some(p));
    let rows = children_rows(mailboxes, account_id, Some(p));
    let i = rows[k];
    assert(node.children@[k].mailbox == i);
    let child = mailboxes[i];
    let path = path_of(child, account_id);
    let d = child.delimiter;
    let at = last_of(path, d);
    lemma_last_of_bound(path, d);
    lemma_last_of_found(path, d);
    let name = path.skip(at + 1);
    assert(parent_of(path, d) == Some(p));
    assert(path =~= p + seq![d] + name);
    assert(has_prefix(child.id@, account_id.push(':')));
    let n = account_id.len() as int + 1;
    assert(child.id@ =~= child.id@.take(n) + path);
    assert(parent.id@ =~= parent.id@.take(n) + p);
    assert(child.id@ =~= parent.id@ + seq![d] + name);
    if name.contains(d) {
        let j = choose|j: int| 0 <= j < name.len() && name[j] == d;
        assert(path[at + 1 + j] == d);
    }
}

/// A folder at the top is a mailbox of the account, and no mailbox of the account is the one that its
/// path would put it within.
pub proof fn lemma_root_within_none(
    mailboxes: Seq<Mailbox>,
    account_id: Seq<char>,
    roots: Seq<FolderNode>,
    k: int,
    parent: Seq<char>,
    name: Seq<char>,
)
    requires
        is_forest(mailboxes, account_id, roots),
        0 <= k < roots.len(),
    ensures
        roots[k].mailbox < mailboxes.len(),
        has_prefix(mailboxes[roots[k].mailbox as int].id@, account_id.push(':')),
        ({
            let m = mailboxes[roots[k].mailbox as int];
            m.id@ == account_id.push(':') + parent + seq![m.delimiter] + name && !name.contains(m.delimiter)
                ==> forall|j: int|
                0 <= j < mailboxes.len() ==> (#[trigger] mailboxes[j]).id@ != account_id.push(':') + parent
        }),
{
    lemma_children_rows(mailboxes, account_id, None);
    let rows = children_rows(mailboxes, account_id, None);
    let i = rows[k];
    assert(roots[k].mailbox == i);
    let m = mailboxes[i];
    let head = account_id.push(':');
    if m.id@ == head + parent + seq![m.delimiter] + name && !name.contains(m.delimiter) {
        let path = path_of(m, account_id);
        assert(path =~= parent + seq![m.delimiter] + name);
        lemma_parent_of_path(parent, m.delimiter, name);
        assert(!has_path(mailboxes, account_id, parent));
        assert forall|j: int| 0 <= j < mailboxes.len() implies (#[trigger] mailboxes[j]).id@ != head + parent by {
            if mailboxes[j].id@ == head + parent {
                lemma_last_with_id(mailboxes, j);
                let l = choose|l: int|
                    0 <= l < mailboxes.len() && (#[trigger] mailboxes[l]).id@ == mailboxes[j].id@ && !(exists|x: int|
                        l < x < mailboxes.len() && (#[trigger] mailboxes[x]).id@ == mailboxes[l].id@);
                assert((head + parent).take(head.len() as int) =~= head);
                assert(in_tree(mailboxes, account_id)(l));
                assert(path_of(mailboxes[l], account_id) =~= parent);
            }
        }
    }
}

proof fn lemma_last_with_id(mailboxes: Seq<Mailbox>, j: int)
    requires
        0 <= j < mailboxes.len(),
    ensures
        exists|l: int|
            0 <= l < mailboxes.len() && (#[trigger] mailboxes[l]).id@ == mailboxes[j].id@ && !(exists|x: int|
                l < x < mailboxes.len() && (#[trigger] mailboxes[x]).id@ == mailboxes[l].id@),
    decreases mailboxes.len() - j,
{
    if exists|x: int| j < x < mailboxes.len() && (#[trigger] mailboxes[x]).id@ == mailboxes[j].id@ {
        let x = choose|x: int| j < x < mailboxes.len() && (#[trigger] mailboxes[x]).id@ == mailboxes[j].id@;
        lemma_last_with_id(mailboxes, x);
    } else {
        assert(mailboxes[j].id@ == mailboxes[j].id@);
    }
}

/// Of folders that stand side by side an inbox is the first, and the others follow by their names in
/// small letters.
pub proof fn lemma_folders_in_order(mailboxes: Seq<Mailbox>, rows: Seq<int>, a: int, b: int)
    requires
        0 <= a < b < rows.len(),
    ensures
        ({
            let first = mailboxes[sorted_folders(mailboxes, rows)[a]];
            let second = mailboxes[sorted_folders(mailboxes, rows)[b]];
            &&& second.role == MailboxRole::Inbox ==> first.role == MailboxRole::Inbox
            &&& first.role != MailboxRole::Inbox ==> text_le(lowercase(first.name@), lowercase(second.name@))
        }),
{
    lemma_inbox_first(mailboxes, rows, a, b);
}

/// What is unread in the inbox is what is unread in the first mailbox with that role.
pub proof fn lemma_unread_of_inbox(mailboxes: Seq<Mailbox>, i: int)
    ensures
        0 <= i < mailboxes.len() && mailboxes[i].role == MailboxRole::Inbox && (forall|j: int|
            0 <= j < i ==> (#[trigger] mailboxes[j]).role != MailboxRole::Inbox) ==> unread_in_inbox(mailboxes)
            == mailboxes[i].unread,
        (forall|j: int| 0 <= j < mailboxes.len() ==> (#[trigger] mailboxes[j]).role != MailboxRole::Inbox)
            ==> unread_in_inbox(mailboxes) == 0,
    decreases mailboxes.len(),
{
    if mailboxes.len() > 0 {
        let rest = mailboxes.drop_first();
        lemma_unread_of_inbox(rest, i - 1);
        if mailboxes[0].role != MailboxRole::Inbox {
            if i == 0 {
            } else if 0 < i < mailboxes.len() {
                assert(rest[i - 1] == mailboxes[i]);
                if forall|j: int| 0 <= j < i ==> (#[trigger] mailboxes[j]).role != MailboxRole::Inbox {
                    assert forall|j: int| 0 <= j < i - 1 implies (#[trigger] rest[j]).role != MailboxRole::Inbox by {
                        assert(rest[j] == mailboxes[j + 1]);
                    }
                }
            }
            if forall|j: int| 0 <= j < mailboxes.len() ==> (#[trigger] mailboxes[j]).role != MailboxRole::Inbox {
                assert forall|j: int| 0 <= j < rest.len() implies (#[trigger] rest[j]).role != MailboxRole::Inbox by {
                    assert(rest[j] == mailboxes[j + 1]);
                }
            }
        }
    }
}

/// The sidebar starts with what is unread in the inboxes of all accounts together; the starred
/// mailboxes follow if there are any, and then the accounts in their order, each with its name and what
/// is unread in its own inbox.
pub proof fn lemma_sidebar_rows(tree: FolderTree, accounts: Seq<AccountFolders>, favorites: Seq<Mailbox>, i: int)
    requires
        shows_all(tree, accounts, favorites),
    ensures
        tree.rows@.len() == accounts.len() + (if favorites.len() > 0 {
            2int
        } else {
            1int
        }),
        tree.rows@[0]@ == ItemView::Unified(unread_in_all(accounts) as int),
        favorites.len() > 0 ==> tree.rows@[1]@ == ItemView::Favorites,
        0 <= i < accounts.len() ==> ({
            let a = accounts[i];
            let row = tree.rows@[i + tree.rows@.len() - accounts.len()]@;
            row == ItemView::Account(a.account_id@, a.label@, unread_in_inbox(a.mailboxes@) as int)
        }),
{
    let rows = root_rows(accounts, favorites.len() > 0);
    let views = item_views(tree.rows@);
    assert(views.len() == tree.rows@.len());
    assert(views[0] == tree.rows@[0]@);
    if favorites.len() > 0 {
        assert(views[1] == tree.rows@[1]@);
    }
    if 0 <= i < accounts.len() {
        let k = i + tree.rows@.len() - accounts.len();
        assert(views[k] == tree.rows@[k]@);
    }
}

/// What is unread in all accounts: nothing without accounts, and one more account adds what is unread in
/// its inbox, wherever it stands.
pub proof fn lemma_unread_adds_up(a: Seq<AccountFolders>, one: AccountFolders, b: Seq<AccountFolders>)
    ensures
        unread_in_all(Seq::empty()) == 0,
        unread_in_all(a + seq![one] + b) == unread_in_all(a + b) + unread_in_inbox(one.mailboxes@),
    decreases b.len(),
{
    if b.len() == 0 {
        assert((a + seq![one] + b).drop_last() =~= a);
        assert(a + b =~= a);
    } else {
        lemma_unread_adds_up(a, one, b.drop_last());
        assert((a + seq![one] + b).drop_last() =~= a + seq![one] + b.drop_last());
        assert((a + b).drop_last() =~= a + b.drop_last());
    }
}

/// Below the row of an account stand the folders of that account.
pub proof fn lemma_folders_below_account(
    tree: FolderTree,
    accounts: Seq<AccountFolders>,
    favorites: Seq<Mailbox>,
    i: int,
    label: Seq<char>,
    unread: int,
    k: int,
)
    requires
        shows_all(tree, accounts, favorites),
        0 <= i < accounts.len(),
        forall|j: int| 0 <= j < accounts.len() && j != i ==> (#[trigger] accounts[j]).account_id@
            != accounts[i].account_id@,
    ensures
        ({
            let below = tree.below(ItemView::Account(accounts[i].account_id@, label, unread));
            &&& below is Some
            &&& (below->0).len() == tree.folders@[i]@.len()
            &&& 0 <= k < tree.folders@[i]@.len() ==> (below->0)[k] == ItemView::Folder(tree.folders@[i]@[k])
        }),
{
    let ids = texts_of(tree.account_ids@);
    assert(ids == accounts.map_values(|a: AccountFolders| a.account_id@));
    lemma_only_account_with_id(ids, i);
}

proof fn lemma_only_account_with_id(ids: Seq<Seq<char>>, i: int)
    requires
        0 <= i < ids.len(),
        forall|j: int| 0 <= j < ids.len() && j != i ==> #[trigger] ids[j] != ids[i],
    ensures
        account_with_id(ids, ids[i]) == Some(i),
    decreases ids.len(),
{
    if i < ids.len() - 1 {
        let rest = ids.drop_last();
        assert forall|j: int| 0 <= j < rest.len() && j != i implies #[trigger] rest[j] != rest[i] by {
            assert(rest[j] == ids[j]);
        }
        lemma_only_account_with_id(rest, i);
    }
}

} // verus!
