//! What holds of texts that are trimmed, cut, joined, read and compared.

use crate::pieces::{addresses_of, copies_of, joined, lemma_pieces_nonempty, lines_of, pieces, quote_open};
use crate::pieces::{same_ignoring_case, split_at, tags_of, words_of};
use crate::sorting::{in_key_order, key_order, lemma_key_order_sorts, ordered_keys, Newest, Soonest};
use crate::text::{all_digits, decimal, lemma_decimal_reads_back, lemma_trimmed_ends, number_digits};
use crate::text::{strip_back, strip_front, text_le, trimmed, u32_of, white};
use vstd::prelude::*;

verus! {

proof fn lemma_strip_front_is_tail(s: Seq<char>, p: spec_fn(char) -> bool) -> (k: int)
    ensures
        0 <= k <= s.len(),
        strip_front(s, p) == s.skip(k),
        forall|i: int| 0 <= i < k ==> p(#[trigger] s[i]),
    decreases s.len(),
{
    if s.len() > 0 && p(s[0]) {
        let t = s.drop_first();
        let k = lemma_strip_front_is_tail(t, p);
        assert(t.skip(k) =~= s.skip(k + 1));
        assert forall|i: int| 0 <= i < k + 1 implies p(#[trigger] s[i]) by {
            if i > 0 {
                assert(t[i - 1] == s[i]);
            }
        }
        k + 1
    } else {
        assert(s.skip(0) =~= s);
        0
    }
}

proof fn lemma_strip_back_is_head(s: Seq<char>, p: spec_fn(char) -> bool) -> (k: int)
    ensures
        0 <= k <= s.len(),
        strip_back(s, p) == s.take(k),
        forall|i: int| k <= i < s.len() ==> p(#[trigger] s[i]),
    decreases s.len(),
{
    if s.len() > 0 && p(s.last()) {
        let t = s.drop_last();
        let k = lemma_strip_back_is_head(t, p);
        assert(t.take(k) =~= s.take(k));
        assert forall|i: int| k <= i < s.len() implies p(#[trigger] s[i]) by {
            if i < t.len() {
                assert(t[i] == s[i]);
            }
        }
        k
    } else {
        assert(s.take(s.len() as int) =~= s);
        s.len() as int
    }
}

/// Trimming takes white space off the two ends and nothing else: the text is what is left between two
/// runs of white space.
pub proof fn lemma_trimmed_is_middle(s: Seq<char>)
    ensures
        exists|a: Seq<char>, b: Seq<char>|
            s == #[trigger] (a + trimmed(s) + b) && (forall|i: int| 0 <= i < a.len() ==> white(#[trigger] a[i])) && (
            forall|i: int| 0 <= i < b.len() ==> white(#[trigger] b[i])),
        trimmed(s).len() > 0 ==> !white(trimmed(s)[0]) && !white(trimmed(s).last()),
        trimmed(trimmed(s)) == trimmed(s),
{
    let p = |c: char| white(c);
    let i = lemma_strip_front_is_tail(s, p);
    let t = s.skip(i);
    let k = lemma_strip_back_is_head(t, p);
    let a = s.take(i);
    let b = t.skip(k);
    assert(s =~= a + trimmed(s) + b);
    assert forall|j: int| 0 <= j < a.len() implies white(#[trigger] a[j]) by {
        assert(p(s[j]));
    }
    assert forall|j: int| 0 <= j < b.len() implies white(#[trigger] b[j]) by {
        assert(p(t[k + j]));
    }
    lemma_trimmed_ends(s);
    crate::text::lemma_trimmed_fixed(trimmed(s));
}

/// One more part comes behind the others and a separator.
proof fn lemma_joined_push(parts: Seq<Seq<char>>, part: Seq<char>, sep: Seq<char>)
    ensures
        parts.len() > 0 ==> joined(parts.push(part), sep) == joined(parts, sep) + sep + part,
        parts.len() == 0 ==> joined(parts.push(part), sep) == part,
{
    assert(parts.push(part).drop_last() =~= parts);
}

/// A last part that is longer makes the whole longer.
proof fn lemma_joined_longer(parts: Seq<Seq<char>>, c: char, sep: Seq<char>)
    requires
        parts.len() > 0,
    ensures
        joined(parts.drop_last().push(parts.last().push(c)), sep) == joined(parts, sep).push(c),
{
    let first = parts.drop_last();
    lemma_joined_push(first, parts.last().push(c), sep);
    lemma_joined_push(first, parts.last(), sep);
    assert(first.push(parts.last()) =~= parts);
    if first.len() > 0 {
        assert(joined(first, sep) + sep + parts.last().push(c) =~= (joined(first, sep) + sep + parts.last()).push(c));
    }
}

/// The pieces of a text, put together again with the character that they were cut at, are the text.
pub proof fn lemma_pieces_join_back(s: Seq<char>, cuts: spec_fn(Seq<char>, char) -> bool, c: char)
    requires
        forall|before: Seq<char>, x: char| #[trigger] cuts(before, x) ==> x == c,
    ensures
        joined(pieces(s, cuts), seq![c]) == s,
    decreases s.len(),
{
    if s.len() == 0 {
        assert(joined(pieces(s, cuts), seq![c]) =~= s);
    } else {
        let before = pieces(s.drop_last(), cuts);
        lemma_pieces_join_back(s.drop_last(), cuts, c);
        lemma_pieces_nonempty(s.drop_last(), cuts);
        if cuts(s.drop_last(), s.last()) {
            lemma_joined_push(before, Seq::empty(), seq![c]);
            assert(s.drop_last() + seq![c] + Seq::<char>::empty() =~= s);
        } else {
            lemma_joined_longer(before, s.last(), seq![c]);
            assert(s.drop_last().push(s.last()) =~= s);
        }
    }
}

/// Splitting cuts a text at every copy of a character: no piece holds one, and with the character
/// between them the pieces are the text again.
pub proof fn lemma_split_joins_back(s: Seq<char>, c: char)
    ensures
        joined(split_at(s, c), seq![c]) == s,
        forall|i: int| 0 <= i < split_at(s, c).len() ==> !(#[trigger] split_at(s, c)[i]).contains(c),
    decreases s.len(),
{
    lemma_pieces_join_back(s, copies_of(c), c);
    lemma_no_piece_holds(s, c);
}

proof fn lemma_no_piece_holds(s: Seq<char>, c: char)
    ensures
        forall|i: int| 0 <= i < split_at(s, c).len() ==> !(#[trigger] split_at(s, c)[i]).contains(c),
    decreases s.len(),
{
    if s.len() > 0 {
        let before = split_at(s.drop_last(), c);
        lemma_no_piece_holds(s.drop_last(), c);
        lemma_pieces_nonempty(s.drop_last(), copies_of(c));
        let now = split_at(s, c);
        assert forall|i: int| 0 <= i < now.len() implies !(#[trigger] now[i]).contains(c) by {
            if i < before.len() - 1 || s.last() == c && i < before.len() {
                assert(now[i] == before[i]);
            } else if s.last() != c {
                let p = before[i];
                assert(now[i] == p.push(s.last()));
                assert(!p.contains(c));
                if now[i].contains(c) {
                    let k = choose|k: int| 0 <= k < now[i].len() && now[i][k] == c;
                    assert(k < p.len());
                    assert(p[k] == c);
                }
            }
        }
    }
}

/// What is cut off a list of tags or addresses is only what separates them: an entry is never blank,
/// never starts or ends with white space, and no tag holds a comma.
pub proof fn lemma_entries_clean(s: Seq<char>, i: int)
    ensures
        0 <= i < tags_of(s).len() ==> ({
            let t = tags_of(s)[i];
            t.len() > 0 && !white(t[0]) && !white(t.last()) && !t.contains(',')
        }),
        0 <= i < addresses_of(s).len() ==> ({
            let t = addresses_of(s)[i];
            t.len() > 0 && !white(t[0]) && !white(t.last())
        }),
{
    let full = |p: Seq<char>| p.len() > 0;
    if 0 <= i < tags_of(s).len() {
        let all = split_at(s, ',').map_values(|p: Seq<char>| trimmed(p));
        let t = tags_of(s)[i];
        all.lemma_filter_contains_rev(full, t);
        all.lemma_filter_pred(full, i);
        let k = choose|k: int| 0 <= k < all.len() && all[k] == t;
        let piece = split_at(s, ',')[k];
        lemma_trimmed_is_middle(piece);
        lemma_split_joins_back(s, ',');
        let (a, b) = choose|a: Seq<char>, b: Seq<char>|
            piece == #[trigger] (a + trimmed(piece) + b) && (forall|i: int| 0 <= i < a.len() ==> white(#[trigger] a[i]))
                && (forall|i: int| 0 <= i < b.len() ==> white(#[trigger] b[i]));
        if t.contains(',') {
            let j = choose|j: int| 0 <= j < t.len() && t[j] == ',';
            assert(piece[a.len() + j] == ',');
        }
    }
    if 0 <= i < addresses_of(s).len() {
        let all = pieces(s, |before: Seq<char>, x: char| x == ',' && !quote_open(before)).map_values(
            |p: Seq<char>| trimmed(p),
        );
        let t = addresses_of(s)[i];
        all.lemma_filter_contains_rev(full, t);
        all.lemma_filter_pred(full, i);
        let k = choose|k: int| 0 <= k < all.len() && all[k] == t;
        lemma_trimmed_is_middle(pieces(s, |before: Seq<char>, x: char| x == ',' && !quote_open(before))[k]);
    }
}

/// Every tag that is written is read.
pub proof fn lemma_no_tag_lost(s: Seq<char>, k: int)
    requires
        0 <= k < split_at(s, ',').len(),
        trimmed(split_at(s, ',')[k]).len() > 0,
    ensures
        tags_of(s).contains(trimmed(split_at(s, ',')[k])),
{
    let full = |p: Seq<char>| p.len() > 0;
    let all = split_at(s, ',').map_values(|p: Seq<char>| trimmed(p));
    all.lemma_filter_contains(full, k);
}

/// Where a list of addresses is cut: at commas outside quotes. Within a piece every comma is inside
/// quotes, and every piece but the last closes what quotes it opens.
pub proof fn lemma_addresses_cut(s: Seq<char>, cuts: spec_fn(Seq<char>, char) -> bool)
    requires
        forall|before: Seq<char>, x: char| #[trigger] cuts(before, x) == (x == ',' && !quote_open(before)),
    ensures
        joined(pieces(s, cuts), seq![',']) == s,
        forall|k: int, i: int|
            0 <= k < pieces(s, cuts).len() && 0 <= i < pieces(s, cuts)[k].len() && #[trigger] pieces(s, cuts)[k][i]
                == ',' ==> quote_open(pieces(s, cuts)[k].take(i)),
        forall|k: int| 0 <= k < pieces(s, cuts).len() - 1 ==> !quote_open(#[trigger] pieces(s, cuts)[k]),
        quote_open(pieces(s, cuts).last()) == quote_open(s),
    decreases s.len(),
{
    lemma_pieces_join_back(s, cuts, ',');
    if s.len() > 0 {
        let before = pieces(s.drop_last(), cuts);
        let now = pieces(s, cuts);
        lemma_addresses_cut(s.drop_last(), cuts);
        lemma_pieces_nonempty(s.drop_last(), cuts);
        let cut = cuts(s.drop_last(), s.last());
        if !cut {
            assert(before.last().push(s.last()).drop_last() =~= before.last());
        }
        assert forall|k: int, i: int|
            0 <= k < now.len() && 0 <= i < now[k].len() && #[trigger] now[k][i] == ',' implies quote_open(
            now[k].take(i),
        ) by {
            if k < before.len() - 1 || cut && k < before.len() {
                assert(now[k] == before[k]);
            } else if !cut {
                let p = before[k];
                assert(p == before.last());
                if i < p.len() {
                    assert(now[k].take(i) =~= p.take(i));
                    assert(p[i] == ',');
                } else {
                    assert(now[k].take(i) =~= p);
                }
            }
        }
        assert forall|k: int| 0 <= k < now.len() - 1 implies !quote_open(#[trigger] now[k]) by {
            assert(now[k] == before[k]);
        }
    }
}

/// A text without quotes lists the same addresses as tags.
pub proof fn lemma_unquoted_addresses(s: Seq<char>)
    requires
        !s.contains('"'),
    ensures
        addresses_of(s) == tags_of(s),
{
    let cuts = |before: Seq<char>, x: char| x == ',' && !quote_open(before);
    lemma_unquoted_pieces(s, cuts);
}

proof fn lemma_unquoted_pieces(s: Seq<char>, cuts: spec_fn(Seq<char>, char) -> bool)
    requires
        !s.contains('"'),
        forall|before: Seq<char>, x: char| #[trigger] cuts(before, x) == (x == ',' && !quote_open(before)),
    ensures
        !quote_open(s),
        pieces(s, cuts) == split_at(s, ','),
    decreases s.len(),
{
    if s.len() > 0 {
        let t = s.drop_last();
        assert forall|i: int| 0 <= i < t.len() implies t[i] != '"' by {
            assert(s[i] == t[i]);
            if t[i] == '"' {
                assert(s.contains('"'));
            }
        }
        assert(s[s.len() - 1] == s.last());
        lemma_unquoted_pieces(t, cuts);
    }
}

/// Splitting into words takes out the white space and nothing else.
pub proof fn lemma_words_hold_text(s: Seq<char>)
    ensures
        joined(words_of(s), Seq::empty()) == s.filter(|c: char| !white(c)),
        forall|i: int| 0 <= i < words_of(s).len() ==> (#[trigger] words_of(s)[i]).len() > 0,
{
    let cuts = |before: Seq<char>, x: char| white(x);
    let full = |p: Seq<char>| p.len() > 0;
    lemma_pieces_lose_cuts(s, cuts, |c: char| !white(c));
    lemma_joined_without_empty(pieces(s, cuts), full);
    assert forall|i: int| 0 <= i < words_of(s).len() implies (#[trigger] words_of(s)[i]).len() > 0 by {
        pieces(s, cuts).lemma_filter_pred(full, i);
    }
}

proof fn lemma_pieces_lose_cuts(s: Seq<char>, cuts: spec_fn(Seq<char>, char) -> bool, kept: spec_fn(char) -> bool)
    requires
        forall|before: Seq<char>, x: char| #[trigger] cuts(before, x) == !kept(x),
    ensures
        joined(pieces(s, cuts), Seq::empty()) == s.filter(kept),
    decreases s.len(),
{
    let none = Seq::<char>::empty();
    reveal(Seq::filter);
    if s.len() == 0 {
        assert(joined(pieces(s, cuts), none) =~= s.filter(kept));
    } else {
        let before = pieces(s.drop_last(), cuts);
        lemma_pieces_lose_cuts(s.drop_last(), cuts, kept);
        lemma_pieces_nonempty(s.drop_last(), cuts);
        if cuts(s.drop_last(), s.last()) {
            lemma_joined_push(before, none, none);
            assert(joined(before, none) + none + none =~= joined(before, none));
        } else {
            lemma_joined_longer(before, s.last(), none);
        }
    }
}

proof fn lemma_joined_without_empty(parts: Seq<Seq<char>>, full: spec_fn(Seq<char>) -> bool)
    requires
        forall|p: Seq<char>| #[trigger] full(p) == (p.len() > 0),
    ensures
        joined(parts.filter(full), Seq::empty()) == joined(parts, Seq::empty()),
    decreases parts.len(),
{
    let none = Seq::<char>::empty();
    reveal(Seq::filter);
    if parts.len() > 0 {
        let first = parts.drop_last();
        let part = parts.last();
        lemma_joined_without_empty(first, full);
        assert(first.push(part) =~= parts);
        lemma_joined_push(first, part, none);
        lemma_joined_push(first.filter(full), part, none);
        assert(joined(first, none) + none + part =~= joined(first, none) + part);
        if full(part) {
            if first.len() == 0 {
                assert(first.filter(full).len() == 0);
            }
            if first.filter(full).len() == 0 {
                assert(joined(first, none) =~= none);
                assert(none + part =~= part);
            }
        } else {
            assert(joined(first, none) + part =~= joined(first, none));
        }
    }
}

/// The lines of a text without carriage returns: with line ends between them they are the text, but
/// for a last line end.
pub proof fn lemma_lines_hold_text(s: Seq<char>)
    requires
        !s.contains('\r'),
    ensures
        forall|i: int| 0 <= i < lines_of(s).len() ==> !(#[trigger] lines_of(s)[i]).contains('\n'),
        s.len() > 0 && s.last() != '\n' ==> joined(lines_of(s), seq!['\n']) == s,
        s.len() > 0 && s.last() == '\n' ==> joined(lines_of(s), seq!['\n']).push('\n') == s,
        s.len() == 0 ==> lines_of(s).len() == 0,
{
    let nl = seq!['\n'];
    let parts = split_at(s, '\n');
    lemma_split_joins_back(s, '\n');
    lemma_pieces_nonempty(s, copies_of('\n'));
    lemma_no_return(s);
    let ended = parts.drop_last().map_values(|p: Seq<char>| crate::pieces::without_return(p));
    assert forall|i: int| 0 <= i < ended.len() implies ended[i] == parts[i] by {
        if parts[i].len() > 0 && parts[i].last() == '\r' {
            assert(parts[i].contains('\r'));
        }
    }
    assert(ended =~= parts.drop_last());
    assert(parts.drop_last().push(parts.last()) =~= parts);
    if s.len() > 0 {
        assert(parts.last().len() == 0 <==> s.last() == '\n');
        if s.last() == '\n' {
            let first = parts.drop_last();
            lemma_joined_push(first, parts.last(), nl);
            if first.len() == 0 {
                assert(joined(parts, nl) == parts.last());
            }
            assert(joined(first, nl) + nl + parts.last() =~= joined(first, nl).push('\n'));
        }
    }
    if s.len() == 0 {
        assert(parts.len() == 1 && parts.last().len() == 0);
    }
}

proof fn lemma_no_return(s: Seq<char>)
    requires
        !s.contains('\r'),
    ensures
        forall|i: int| 0 <= i < split_at(s, '\n').len() ==> !(#[trigger] split_at(s, '\n')[i]).contains('\r'),
    decreases s.len(),
{
    if s.len() > 0 {
        let t = s.drop_last();
        assert forall|i: int| 0 <= i < t.len() implies t[i] != '\r' by {
            assert(s[i] == t[i]);
            if t[i] == '\r' {
                assert(s.contains('\r'));
            }
        }
        assert(s[s.len() - 1] == s.last());
        lemma_no_return(t);
        lemma_pieces_nonempty(t, copies_of('\n'));
        let before = split_at(t, '\n');
        let now = split_at(s, '\n');
        assert forall|i: int| 0 <= i < now.len() implies !(#[trigger] now[i]).contains('\r') by {
            if i < before.len() - 1 || s.last() == '\n' && i < before.len() {
                assert(now[i] == before[i]);
            } else if s.last() != '\n' {
                let p = before[i];
                assert(now[i] == p.push(s.last()));
                assert(!p.contains('\r'));
                if now[i].contains('\r') {
                    let k = choose|k: int| 0 <= k < now[i].len() && now[i][k] == '\r';
                    assert(k < p.len());
                    assert(p[k] == '\r');
                }
            }
        }
    }
}

/// A number that is written in decimal notation is read as that number, with a sign before it too.
pub proof fn lemma_number_reads_back(n: u32)
    ensures
        u32_of(decimal(n as nat)) == Some(n),
        u32_of(seq!['+'] + decimal(n as nat)) == Some(n),
        u32_of(seq!['-'] + decimal(n as nat)) is None,
        u32_of(Seq::empty()) is None,
{
    let d = decimal(n as nat);
    lemma_decimal_reads_back(n as nat);
    assert(number_digits(d) == d);
    assert((seq!['+'] + d).drop_first() =~= d);
    let neg = seq!['-'] + d;
    assert(neg[0] == '-');
    assert(!all_digits(neg));
}

/// How texts are ordered: what another text starts with comes before it, and otherwise the first
/// character in which they differ decides.
pub proof fn lemma_text_order_decided(common: Seq<char>, a: Seq<char>, b: Seq<char>)
    ensures
        text_le(common, common + a),
        a.len() > 0 ==> !text_le(common + a, common),
        a.len() > 0 && b.len() > 0 && a[0] != b[0] ==> (text_le(common + a, common + b) <==> a[0] < b[0]),
    decreases common.len(),
{
    if common.len() > 0 {
        lemma_text_order_decided(common.drop_first(), a, b);
        assert((common + a).drop_first() =~= common.drop_first() + a);
        assert((common + b).drop_first() =~= common.drop_first() + b);
        assert((common + a)[0] == common[0]);
        assert((common + b)[0] == common[0]);
    } else {
        assert(common + a =~= a);
        assert(common + b =~= b);
    }
}

/// The newest of all comes first, and what comes next is not newer; the soonest likewise.
pub proof fn lemma_order_by_time(newest: Seq<Newest>, soonest: Seq<Soonest>, i: int, j: int)
    requires
        newest.len() == soonest.len(),
        0 <= i < j < newest.len(),
    ensures
        ({
            let earlier = newest[key_order(newest)[i]].date;
            let later = newest[key_order(newest)[j]].date;
            earlier.secs > later.secs || (earlier.secs == later.secs && earlier.nanos >= later.nanos)
        }),
        ({
            let earlier = soonest[key_order(soonest)[i]].at;
            let later = soonest[key_order(soonest)[j]].at;
            earlier.secs < later.secs || (earlier.secs == later.secs && earlier.nanos <= later.nanos)
        }),
{
    assert(ordered_keys::<Newest>());
    assert(ordered_keys::<Soonest>());
    lemma_key_order_sorts(newest);
    lemma_key_order_sorts(soonest);
    assert(in_key_order(newest, key_order(newest)[i], key_order(newest)[j]));
    assert(in_key_order(soonest, key_order(soonest)[i], key_order(soonest)[j]));
}

/// Two texts are the same but for case if they are the same, and never if one is longer; a capital
/// letter and its small one are the same, and no two other characters.
pub proof fn lemma_same_but_for_case(a: Seq<char>, b: Seq<char>)
    ensures
        same_ignoring_case(a, a),
        same_ignoring_case(a, b) ==> same_ignoring_case(b, a) && a.len() == b.len(),
        same_ignoring_case(a, b) <==> a.len() == b.len() && forall|i: int|
            0 <= i < a.len() ==> (#[trigger] a[i] == b[i] || ('A' <= a[i] <= 'Z' && b[i] as u32 == a[i] as u32 + 32) || (
            'A' <= b[i] <= 'Z' && a[i] as u32 == b[i] as u32 + 32)),
{
}

} // verus!
