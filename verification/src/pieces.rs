//! Taking text apart and putting it together.

use crate::model::texts_of;
use crate::text::{chars_of, is_white, trim, trimmed, white};
use vstd::prelude::*;

verus! {

/// The pieces of a text between the characters that `cuts` says are separators. There is always one
/// more piece than there are separators. `cuts` is given the text before a character and the
/// character.
pub open spec fn pieces(s: Seq<char>, cuts: spec_fn(Seq<char>, char) -> bool) -> Seq<Seq<char>>
    decreases s.len(),
{
    if s.len() == 0 {
        seq![Seq::empty()]
    } else {
        let before = pieces(s.drop_last(), cuts);
        if cuts(s.drop_last(), s.last()) {
            before.push(Seq::empty())
        } else {
            before.drop_last().push(before.last().push(s.last()))
        }
    }
}

/// There is at least one piece.
pub proof fn lemma_pieces_nonempty(s: Seq<char>, cuts: spec_fn(Seq<char>, char) -> bool)
    ensures
        pieces(s, cuts).len() > 0,
    decreases s.len(),
{
    if s.len() > 0 {
        lemma_pieces_nonempty(s.drop_last(), cuts);
    }
}

/// Separators that are copies of one character.
pub open spec fn copies_of(c: char) -> spec_fn(Seq<char>, char) -> bool {
    |before: Seq<char>, x: char| x == c
}

/// The pieces of a text between the copies of one character.
pub open spec fn split_at(s: Seq<char>, c: char) -> Seq<Seq<char>> {
    pieces(s, copies_of(c))
}

/// One step of taking a text apart: the character `c` is put where it belongs.
proof fn lemma_piece_step(
    s: Seq<char>,
    i: int,
    cuts: spec_fn(Seq<char>, char) -> bool,
    done: Seq<Seq<char>>,
    open: Seq<char>,
)
    requires
        0 <= i < s.len(),
        pieces(s.take(i), cuts) == done.push(open),
    ensures
        cuts(s.take(i), s[i]) ==> pieces(s.take(i + 1), cuts) == done.push(open).push(Seq::empty()),
        !cuts(s.take(i), s[i]) ==> pieces(s.take(i + 1), cuts) == done.push(open.push(s[i])),
{
    let t = s.take(i + 1);
    assert(t.drop_last() =~= s.take(i));
    assert(t.last() == s[i]);
    assert(done.push(open).drop_last() =~= done);
}

/// The pieces of the text between the copies of `c`.
pub fn split(s: &str, c: char) -> (r: Vec<String>)
    ensures
        texts_of(r@) == split_at(s@, c),
        r@.len() > 0,
{
    let v = chars_of(s);
    let ghost cuts = copies_of(c);
    let mut done: Vec<String> = Vec::new();
    let mut open = String::new();
    let mut i: usize = 0;
    assert(v@.take(0) =~= Seq::<char>::empty());
    assert(texts_of(done@).push(open@) =~= pieces(v@.take(0), cuts));
    while i < v.len()
        invariant
            i <= v.len(),
            cuts == copies_of(c),
            pieces(v@.take(i as int), cuts) == texts_of(done@).push(open@),
        decreases v.len() - i,
    {
        proof {
            lemma_piece_step(v@, i as int, cuts, texts_of(done@), open@);
        }
        let ghost before = texts_of(done@).push(open@);
        if v[i] == c {
            done.push(open);
            open = String::new();
            assert(texts_of(done@) =~= before);
        } else {
            open.push(v[i]);
        }
        i += 1;
    }
    let ghost before = texts_of(done@).push(open@);
    done.push(open);
    assert(texts_of(done@) =~= before);
    assert(v@.take(i as int) =~= v@);
    done
}

/// A line without the carriage return that ends it.
pub open spec fn without_return(s: Seq<char>) -> Seq<char> {
    if s.len() > 0 && s.last() == '\r' {
        s.drop_last()
    } else {
        s
    }
}

/// The lines of a text: what stands before each line feed, without the carriage return that belongs
/// to it, and what follows the last one, unless that is empty.
pub open spec fn lines_of(s: Seq<char>) -> Seq<Seq<char>> {
    let parts = split_at(s, '\n');
    let ended = parts.drop_last().map_values(|p: Seq<char>| without_return(p));
    if parts.last().len() == 0 {
        ended
    } else {
        ended.push(parts.last())
    }
}

/// The lines of the text.
pub fn lines(s: &str) -> (r: Vec<String>)
    ensures
        texts_of(r@) == lines_of(s@),
{
    let parts = split(s, '\n');
    let ghost all = split_at(s@, '\n');
    let ghost ended = all.drop_last().map_values(|p: Seq<char>| without_return(p));
    let mut out: Vec<String> = Vec::new();
    let mut i: usize = 0;
    assert(texts_of(parts@).len() == parts@.len());
    while i + 1 < parts.len()
        invariant
            parts@.len() > 0,
            i < parts.len(),
            texts_of(parts@) == all,
            all.len() == parts@.len(),
            ended == all.drop_last().map_values(|p: Seq<char>| without_return(p)),
            texts_of(out@) == ended.take(i as int),
        decreases parts.len() - i,
    {
        let v = chars_of(&parts[i]);
        assert(all[i as int] == parts@[i as int]@);
        let n: usize = v.len();
        let keep: usize = if n > 0 && v[n - 1] == '\r' {
            n - 1
        } else {
            n
        };
        let line = parts[i].substring_char(0, keep).to_owned();
        assert(line@ =~= without_return(all[i as int]));
        let ghost before = texts_of(out@);
        out.push(line);
        assert(texts_of(out@) =~= before.push(line@));
        assert(texts_of(out@) =~= ended.take(i + 1));
        i += 1;
    }
    assert(texts_of(out@) =~= ended);
    let last = parts[i].clone();
    assert(all.last() == last@);
    if !last.as_str().is_empty() {
        out.push(last);
        assert(texts_of(out@) =~= ended.push(all.last()));
    }
    out
}

/// Texts one after the other, with `sep` between each two.
pub open spec fn joined(parts: Seq<Seq<char>>, sep: Seq<char>) -> Seq<char>
    decreases parts.len(),
{
    if parts.len() == 0 {
        Seq::empty()
    } else if parts.len() == 1 {
        parts[0]
    } else {
        joined(parts.drop_last(), sep) + sep + parts.last()
    }
}

/// The strings one after the other, with `sep` between each two.
pub fn join(parts: &Vec<String>, sep: &str) -> (r: String)
    ensures
        r@ == joined(texts_of(parts@), sep@),
{
    let mut out = String::new();
    let mut i: usize = 0;
    let ghost all = texts_of(parts@);
    assert(all.take(0) =~= Seq::<Seq<char>>::empty());
    while i < parts.len()
        invariant
            i <= parts.len(),
            all == texts_of(parts@),
            out@ == joined(all.take(i as int), sep@),
        decreases parts.len() - i,
    {
        let ghost t = all.take(i + 1);
        assert(t.drop_last() =~= all.take(i as int));
        assert(t.last() == parts@[i as int]@);
        if i > 0 {
            out.push_str(sep);
        }
        out.push_str(&parts[i]);
        proof {
            if i == 0 {
                assert(out@ =~= parts@[0]@);
                assert(t[0] == parts@[0]@);
            }
        }
        i += 1;
    }
    assert(all.take(i as int) =~= all);
    out
}

/// The words of a text: the pieces between white space that are not empty.
pub open spec fn words_of(s: Seq<char>) -> Seq<Seq<char>> {
    pieces(s, |before: Seq<char>, x: char| white(x)).filter(|p: Seq<char>| p.len() > 0)
}

/// The words of the text.
pub fn words(s: &str) -> (r: Vec<String>)
    ensures
        texts_of(r@) == words_of(s@),
{
    let v = chars_of(s);
    let ghost cuts = |before: Seq<char>, x: char| white(x);
    let ghost full = |p: Seq<char>| p.len() > 0;
    let ghost mut parts: Seq<Seq<char>> = Seq::empty();
    let mut done: Vec<String> = Vec::new();
    let mut open = String::new();
    let mut i: usize = 0;
    assert(v@.take(0) =~= Seq::<char>::empty());
    assert(parts.push(open@) =~= pieces(v@.take(0), cuts));
    assert(texts_of(done@) =~= parts.filter(full));
    while i < v.len()
        invariant
            i <= v.len(),
            cuts == |before: Seq<char>, x: char| white(x),
            full == |p: Seq<char>| p.len() > 0,
            pieces(v@.take(i as int), cuts) == parts.push(open@),
            texts_of(done@) == parts.filter(full),
        decreases v.len() - i,
    {
        proof {
            lemma_piece_step(v@, i as int, cuts, parts, open@);
        }
        if is_white(v[i]) {
            proof {
                parts.lemma_filter_push(open@, full);
                parts = parts.push(open@);
            }
            let ghost before = texts_of(done@);
            if !open.as_str().is_empty() {
                done.push(open);
                assert(texts_of(done@) =~= before.push(open@));
            }
            open = String::new();
        } else {
            open.push(v[i]);
        }
        i += 1;
    }
    proof {
        parts.lemma_filter_push(open@, full);
    }
    let ghost before = texts_of(done@);
    if !open.as_str().is_empty() {
        done.push(open);
        assert(texts_of(done@) =~= before.push(open@));
    }
    assert(v@.take(i as int) =~= v@);
    done
}

/// The number of double quotes in a text is odd: a quotation is open at its end.
pub open spec fn quote_open(s: Seq<char>) -> bool
    decreases s.len(),
{
    if s.len() == 0 {
        false
    } else if s.last() == '"' {
        !quote_open(s.drop_last())
    } else {
        quote_open(s.drop_last())
    }
}

/// The entries of a list of addresses: what stands between the commas that are not within double
/// quotes, without white space around it, unless it is blank.
pub open spec fn addresses_of(s: Seq<char>) -> Seq<Seq<char>> {
    pieces(s, |before: Seq<char>, x: char| x == ',' && !quote_open(before)).map_values(
        |p: Seq<char>| trimmed(p),
    ).filter(|p: Seq<char>| p.len() > 0)
}

/// The entries of a list of addresses.
pub fn address_entries(s: &str) -> (r: Vec<String>)
    ensures
        texts_of(r@) == addresses_of(s@),
{
    let v = chars_of(s);
    let ghost cuts = |before: Seq<char>, x: char| x == ',' && !quote_open(before);
    let ghost cut = |p: Seq<char>| trimmed(p);
    let ghost full = |p: Seq<char>| p.len() > 0;
    let ghost mut parts: Seq<Seq<char>> = Seq::empty();
    let mut done: Vec<String> = Vec::new();
    let mut open = String::new();
    let mut quoted = false;
    let mut i: usize = 0;
    assert(v@.take(0) =~= Seq::<char>::empty());
    assert(parts.push(open@) =~= pieces(v@.take(0), cuts));
    assert(texts_of(done@) =~= parts.map_values(cut).filter(full));
    while i < v.len()
        invariant
            i <= v.len(),
            cuts == |before: Seq<char>, x: char| x == ',' && !quote_open(before),
            cut == |p: Seq<char>| trimmed(p),
            full == |p: Seq<char>| p.len() > 0,
            quoted == quote_open(v@.take(i as int)),
            pieces(v@.take(i as int), cuts) == parts.push(open@),
            texts_of(done@) == parts.map_values(cut).filter(full),
        decreases v.len() - i,
    {
        proof {
            lemma_piece_step(v@, i as int, cuts, parts, open@);
            assert(v@.take(i + 1).drop_last() =~= v@.take(i as int));
        }
        if v[i] == ',' && !quoted {
            let ghost trimmed_parts = parts.map_values(cut);
            proof {
                trimmed_parts.lemma_filter_push(trimmed(open@), full);
                assert(parts.push(open@).map_values(cut) =~= trimmed_parts.push(trimmed(open@)));
                parts = parts.push(open@);
            }
            let entry = trim(&open).to_owned();
            let ghost before = texts_of(done@);
            if !entry.as_str().is_empty() {
                done.push(entry);
                assert(texts_of(done@) =~= before.push(entry@));
            }
            open = String::new();
        } else {
            if v[i] == '"' {
                quoted = !quoted;
            }
            open.push(v[i]);
        }
        i += 1;
    }
    let ghost trimmed_parts = parts.map_values(cut);
    proof {
        trimmed_parts.lemma_filter_push(trimmed(open@), full);
        assert(parts.push(open@).map_values(cut) =~= trimmed_parts.push(trimmed(open@)));
    }
    let entry = trim(&open).to_owned();
    let ghost before = texts_of(done@);
    if !entry.as_str().is_empty() {
        done.push(entry);
        assert(texts_of(done@) =~= before.push(entry@));
    }
    assert(v@.take(i as int) =~= v@);
    done
}

/// The entries of a list of tags: what stands between the commas, without white space around it,
/// unless it is blank.
pub open spec fn tags_of(s: Seq<char>) -> Seq<Seq<char>> {
    split_at(s, ',').map_values(|p: Seq<char>| trimmed(p)).filter(|p: Seq<char>| p.len() > 0)
}

/// The entries of a list of tags.
pub fn tags(s: &str) -> (r: Vec<String>)
    ensures
        texts_of(r@) == tags_of(s@),
{
    let parts = split(s, ',');
    let ghost cut = |p: Seq<char>| trimmed(p);
    let ghost full = |p: Seq<char>| p.len() > 0;
    let ghost all = split_at(s@, ',').map_values(cut);
    let mut out: Vec<String> = Vec::new();
    let mut i: usize = 0;
    assert(texts_of(parts@).len() == parts@.len());
    assert(texts_of(out@) =~= all.take(0).filter(full));
    while i < parts.len()
        invariant
            i <= parts.len(),
            cut == |p: Seq<char>| trimmed(p),
            full == |p: Seq<char>| p.len() > 0,
            texts_of(parts@) == split_at(s@, ','),
            texts_of(parts@).len() == parts@.len(),
            all == split_at(s@, ',').map_values(cut),
            texts_of(out@) == all.take(i as int).filter(full),
        decreases parts.len() - i,
    {
        let tag = trim(&parts[i]).to_owned();
        assert(texts_of(parts@)[i as int] == parts@[i as int]@);
        assert(all[i as int] == tag@);
        proof {
            all.take(i as int).lemma_filter_push(tag@, full);
            assert(all.take(i + 1) =~= all.take(i as int).push(tag@));
        }
        let ghost before = texts_of(out@);
        if !tag.as_str().is_empty() {
            out.push(tag);
            assert(texts_of(out@) =~= before.push(tag@));
        }
        i += 1;
    }
    assert(all.take(i as int) =~= all);
    out
}

/// The lower-case form of an ASCII letter; any other character itself.
pub open spec fn ascii_lower(c: char) -> char {
    if 'A' <= c <= 'Z' {
        ((c as u32 + 32) as u32) as char
    } else {
        c
    }
}

/// Two texts that differ in the case of ASCII letters at most.
pub open spec fn same_ignoring_case(a: Seq<char>, b: Seq<char>) -> bool {
    a.len() == b.len() && forall|i: int|
        0 <= i < a.len() ==> ascii_lower(#[trigger] a[i]) == ascii_lower(b[i])
}

fn to_ascii_lower(c: char) -> (r: char)
    ensures
        r == ascii_lower(c),
{
    if 'A' <= c && c <= 'Z' {
        (c as u8 + 32) as char
    } else {
        c
    }
}

/// Whether two texts differ in the case of ASCII letters at most.
pub fn eq_ignore_ascii_case(a: &str, b: &str) -> (r: bool)
    ensures
        r == same_ignoring_case(a@, b@),
{
    let x = chars_of(a);
    let y = chars_of(b);
    if x.len() != y.len() {
        return false;
    }
    let mut i: usize = 0;
    while i < x.len()
        invariant
            i <= x.len(),
            x.len() == y.len(),
            x@ == a@,
            y@ == b@,
            forall|k: int| 0 <= k < i ==> ascii_lower(#[trigger] a@[k]) == ascii_lower(b@[k]),
        decreases x.len() - i,
    {
        if to_ascii_lower(x[i]) != to_ascii_lower(y[i]) {
            assert(ascii_lower(a@[i as int]) != ascii_lower(b@[i as int]));
            return false;
        }
        i += 1;
    }
    true
}

} // verus!
