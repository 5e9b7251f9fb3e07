//! Plain text as HTML for the rich-text editor.

use crate::model::texts_of;
use crate::pieces::{joined, lines, lines_of};
use crate::text::{blank, chars_of, first_of, is_blank, lemma_first_of, same, split_once, trim, trimmed};
use vstd::prelude::*;

verus! {

/// A character as HTML text.
pub open spec fn escaped_char(c: char) -> Seq<char> {
    if c == '&' {
        "&amp;"@
    } else if c == '<' {
        "&lt;"@
    } else if c == '>' {
        "&gt;"@
    } else if c == '"' {
        "&quot;"@
    } else if c == '\'' {
        "&#39;"@
    } else {
        seq![c]
    }
}

/// A text as HTML text.
pub open spec fn escaped(s: Seq<char>) -> Seq<char>
    decreases s.len(),
{
    if s.len() == 0 {
        Seq::empty()
    } else {
        escaped(s.drop_last()) + escaped_char(s.last())
    }
}

/// Writes a text as HTML text: `&`, `<`, `>` and quotes become entities.
pub fn escape_html(text: &str) -> (r: String)
    ensures
        r@ == escaped(text@),
{
    let v = chars_of(text);
    let mut out = String::new();
    let mut i: usize = 0;
    assert(v@.take(0) =~= Seq::<char>::empty());
    while i < v.len()
        invariant
            i <= v.len(),
            out@ == escaped(v@.take(i as int)),
        decreases v.len() - i,
    {
        let ghost before = out@;
        assert(v@.take(i + 1).drop_last() =~= v@.take(i as int));
        let c = v[i];
        if c == '&' {
            out.push_str("&amp;");
        } else if c == '<' {
            out.push_str("&lt;");
        } else if c == '>' {
            out.push_str("&gt;");
        } else if c == '"' {
            out.push_str("&quot;");
        } else if c == '\'' {
            out.push_str("&#39;");
        } else {
            out.push(c);
            assert(out@ =~= before + seq![c]);
        }
        i += 1;
    }
    assert(v@.take(i as int) =~= v@);
    out
}

/// Text that was written as HTML text holds no character that could start or end a tag or an
/// attribute value.
pub proof fn lemma_escaped_is_inert(s: Seq<char>, i: int)
    requires
        0 <= i < escaped(s).len(),
    ensures
        escaped(s)[i] != '<',
        escaped(s)[i] != '>',
        escaped(s)[i] != '"',
        escaped(s)[i] != '\'',
    decreases s.len(),
{
    reveal_strlit("&amp;");
    reveal_strlit("&lt;");
    reveal_strlit("&gt;");
    reveal_strlit("&quot;");
    reveal_strlit("&#39;");
    let head = escaped(s.drop_last());
    if i < head.len() {
        lemma_escaped_is_inert(s.drop_last(), i);
    } else {
        assert(escaped(s)[i] == escaped_char(s.last())[i - head.len()]);
    }
}

/// What a line of a plain text is.
#[derive(Clone, Copy, PartialEq, Eq, Structural, Debug)]
pub enum LineKind {
    /// It starts with `>`.
    Quote,
    /// It holds at least three of `-`, `_` and `*`, and nothing else but white space around them.
    Rule,
    /// It is blank.
    Blank,
    /// It is anything else.
    Text,
}

/// A character that rules are drawn with.
pub open spec fn rule_char(c: char) -> bool {
    c == '-' || c == '_' || c == '*'
}

/// The kind of a line.
pub open spec fn kind_of(line: Seq<char>) -> LineKind {
    let t = trimmed(line);
    if line.len() > 0 && line[0] == '>' {
        LineKind::Quote
    } else if t.len() >= 3 && forall|i: int| 0 <= i < t.len() ==> rule_char(#[trigger] t[i]) {
        LineKind::Rule
    } else if t.len() == 0 {
        LineKind::Blank
    } else {
        LineKind::Text
    }
}

/// A quoted line without its `>` and the space behind it.
pub open spec fn unquoted(line: Seq<char>) -> Seq<char> {
    let rest = line.drop_first();
    if rest.len() > 0 && rest[0] == ' ' {
        rest.drop_first()
    } else {
        rest
    }
}

/// How many lines of one kind a text starts with.
pub open spec fn run(lines: Seq<Seq<char>>, kind: LineKind) -> int
    decreases lines.len(),
{
    if lines.len() == 0 || kind_of(lines[0]) != kind {
        0
    } else {
        1 + run(lines.skip(1), kind)
    }
}

/// Lines as HTML text, with a line break between each two.
pub open spec fn broken(lines: Seq<Seq<char>>) -> Seq<char> {
    joined(lines.map_values(|l: Seq<char>| escaped(l)), "<br>"@)
}

/// Quoted lines as a block quotation.
pub open spec fn quotation(lines: Seq<Seq<char>>) -> Seq<char> {
    "<blockquote>"@ + broken(lines.map_values(|l: Seq<char>| unquoted(l))) + "</blockquote>"@
}

/// Lines as a paragraph.
pub open spec fn paragraph(lines: Seq<Seq<char>>) -> Seq<char> {
    "<p>"@ + broken(lines) + "</p>"@
}

/// Lines as HTML: runs of quoted lines become block quotations, runs of text become paragraphs,
/// rules become rules, and blank lines only keep paragraphs apart.
pub open spec fn html_of(lines: Seq<Seq<char>>) -> Seq<char>
    decreases lines.len(),
{
    proof {
        lemma_run(lines, LineKind::Quote);
        lemma_run(lines, LineKind::Text);
    }
    if lines.len() == 0 {
        Seq::empty()
    } else {
        match kind_of(lines[0]) {
            LineKind::Blank => html_of(lines.skip(1)),
            LineKind::Rule => "<hr>"@ + html_of(lines.skip(1)),
            LineKind::Quote => {
                let n = run(lines, LineKind::Quote);
                quotation(lines.take(n)) + html_of(lines.skip(n))
            },
            LineKind::Text => {
                let n = run(lines, LineKind::Text);
                paragraph(lines.take(n)) + html_of(lines.skip(n))
            },
        }
    }
}

/// A run ends before the first line that is of another kind.
pub proof fn lemma_run(lines: Seq<Seq<char>>, kind: LineKind)
    ensures
        0 <= run(lines, kind) <= lines.len(),
        lines.len() > 0 && kind_of(lines[0]) == kind ==> run(lines, kind) > 0,
        forall|i: int| 0 <= i < run(lines, kind) ==> kind_of(#[trigger] lines[i]) == kind,
        run(lines, kind) < lines.len() ==> kind_of(lines[run(lines, kind)]) != kind,
    decreases lines.len(),
{
    if lines.len() > 0 && kind_of(lines[0]) == kind {
        let t = lines.skip(1);
        lemma_run(t, kind);
        assert forall|i: int| 0 <= i < run(lines, kind) implies kind_of(#[trigger] lines[i]) == kind by {
            if i > 0 {
                assert(t[i - 1] == lines[i]);
            }
        }
    }
}

proof fn lemma_run_unique(lines: Seq<Seq<char>>, kind: LineKind, n: int)
    requires
        0 <= n <= lines.len(),
        forall|i: int| 0 <= i < n ==> kind_of(#[trigger] lines[i]) == kind,
        n < lines.len() ==> kind_of(lines[n]) != kind,
    ensures
        run(lines, kind) == n,
{
    lemma_run(lines, kind);
    let r = run(lines, kind);
    if r < n {
        assert(kind_of(lines[r]) == kind);
    } else if n < r {
        assert(kind_of(lines[n]) == kind);
    }
}

fn line_kind(line: &str) -> (r: LineKind)
    ensures
        r == kind_of(line@),
{
    let v = chars_of(line);
    if v.len() > 0 && v[0] == '>' {
        return LineKind::Quote;
    }
    let t = chars_of(trim(line));
    if t.len() == 0 {
        return LineKind::Blank;
    }
    if t.len() < 3 {
        return LineKind::Text;
    }
    let mut i: usize = 0;
    while i < t.len()
        invariant
            i <= t.len(),
            t.len() >= 3,
            v@ == line@,
            t@ == trimmed(line@),
            !(v.len() > 0 && v[0] == '>'),
            forall|k: int| 0 <= k < i ==> rule_char(#[trigger] t@[k]),
        decreases t.len() - i,
    {
        let c = t[i];
        if !(c == '-' || c == '_' || c == '*') {
            assert(!rule_char(t@[i as int]));
            return LineKind::Text;
        }
        i += 1;
    }
    LineKind::Rule
}

/// Appends lines as HTML text, with a line break between each two.
fn push_broken(out: &mut String, lines: &Vec<String>)
    ensures
        final(out)@ == old(out)@ + broken(texts_of(lines@)),
{
    let ghost all = texts_of(lines@).map_values(|l: Seq<char>| escaped(l));
    let ghost start = out@;
    let mut i: usize = 0;
    assert(all.take(0) =~= Seq::<Seq<char>>::empty());
    assert(out@ =~= start + joined(all.take(0), "<br>"@));
    while i < lines.len()
        invariant
            i <= lines.len(),
            all == texts_of(lines@).map_values(|l: Seq<char>| escaped(l)),
            out@ == start + joined(all.take(i as int), "<br>"@),
        decreases lines.len() - i,
    {
        let ghost t = all.take(i + 1);
        let ghost before = joined(all.take(i as int), "<br>"@);
        assert(t.drop_last() =~= all.take(i as int));
        let line = escape_html(&lines[i]);
        assert(texts_of(lines@)[i as int] == lines@[i as int]@);
        assert(t.last() == line@);
        if i > 0 {
            out.push_str("<br>");
        }
        out.push_str(&line);
        proof {
            if i == 0 {
                assert(t[0] == line@);
                assert(out@ =~= start + line@);
            } else {
                assert(out@ =~= start + (before + "<br>"@ + line@));
            }
        }
        i += 1;
    }
    assert(all.take(i as int) =~= all);
}

/// Appends lines as a block quotation.
fn push_blockquote(out: &mut String, lines: &Vec<String>)
    ensures
        final(out)@ == old(out)@ + ("<blockquote>"@ + broken(texts_of(lines@)) + "</blockquote>"@),
{
    let ghost start = out@;
    out.push_str("<blockquote>");
    push_broken(out, lines);
    out.push_str("</blockquote>");
    assert(out@ =~= start + ("<blockquote>"@ + broken(texts_of(lines@)) + "</blockquote>"@));
}

/// Appends the collected lines as a paragraph, if there are any, and forgets them.
fn flush_paragraph(out: &mut String, lines: &mut Vec<String>)
    ensures
        final(lines)@.len() == 0,
        final(out)@ == old(out)@ + if old(lines)@.len() == 0 {
            Seq::empty()
        } else {
            paragraph(texts_of(old(lines)@))
        },
{
    let ghost start = out@;
    if lines.is_empty() {
        assert(out@ =~= start + Seq::<char>::empty());
        return;
    }
    out.push_str("<p>");
    push_broken(out, lines);
    out.push_str("</p>");
    assert(out@ =~= start + paragraph(texts_of(lines@)));
    lines.clear();
}

/// Takes the `>` and one space off a quoted line.
fn unquote(line: &str) -> (r: String)
    requires
        line@.len() > 0,
        line@[0] == '>',
    ensures
        r@ == unquoted(line@),
{
    let v = chars_of(line);
    let from: usize = if v.len() > 1 && v[1] == ' ' {
        2
    } else {
        1
    };
    let rest = line.substring_char(from, v.len());
    assert(rest@ =~= unquoted(line@));
    rest.to_owned()
}

/// Writes a plain text as simple HTML: quoted lines become block quotations, lines of `-`, `_` or
/// `*` become rules, blank lines separate paragraphs, and line ends within a paragraph become
/// line breaks.
pub fn text_to_html(text: &str) -> (r: String)
    ensures
        r@ == html_of(lines_of(text@)),
{
    let all = lines(text);
    let ghost texts = lines_of(text@);
    let mut out = String::new();
    let mut i: usize = 0;
    assert(texts_of(all@).len() == all@.len());
    assert(texts.skip(0) =~= texts);
    assert(out@ + html_of(texts) =~= html_of(texts));
    while i < all.len()
        invariant
            i <= all.len(),
            texts_of(all@) == texts,
            texts.len() == all@.len(),
            out@ + html_of(texts.skip(i as int)) == html_of(texts),
        decreases all.len() - i,
    {
        let ghost rest = texts.skip(i as int);
        let ghost before = out@;
        proof {
            assert(rest[0] == texts[i as int]);
            assert(texts[i as int] == all@[i as int]@);
        }
        let kind = line_kind(&all[i]);
        match kind {
            LineKind::Blank => {
                assert(rest.skip(1) =~= texts.skip(i + 1));
                i += 1;
            },
            LineKind::Rule => {
                out.push_str("<hr>");
                assert(rest.skip(1) =~= texts.skip(i + 1));
                assert(before + ("<hr>"@ + html_of(texts.skip(i + 1))) =~= out@ + html_of(
                    texts.skip(i + 1),
                ));
                i += 1;
            },
            LineKind::Quote => {
                let mut block: Vec<String> = Vec::new();
                let start: usize = i;
                let ghost want = |l: Seq<char>| unquoted(l);
                while i < all.len() && line_kind(&all[i]) == LineKind::Quote
                    invariant
                        start <= i <= all.len(),
                        texts_of(all@) == texts,
                        texts.len() == all@.len(),
                        rest == texts.skip(start as int),
                        want == |l: Seq<char>| unquoted(l),
                        texts_of(block@) == rest.take(i - start).map_values(want),
                        forall|k: int| 0 <= k < i - start ==> kind_of(#[trigger] rest[k]) == LineKind::Quote,
                    decreases all.len() - i,
                {
                    assert(texts[i as int] == all@[i as int]@);
                    assert(rest[i - start] == texts[i as int]);
                    let line = unquote(&all[i]);
                    let ghost earlier = texts_of(block@);
                    block.push(line);
                    assert(texts_of(block@) =~= earlier.push(line@));
                    assert(rest.take(i - start + 1).map_values(want) =~= rest.take(i - start).map_values(want).push(
                        line@,
                    ));
                    i += 1;
                }
                proof {
                    if i < all.len() {
                        assert(texts[i as int] == all@[i as int]@);
                        assert(rest[i - start] == texts[i as int]);
                    }
                    lemma_run_unique(rest, LineKind::Quote, i - start);
                    assert(rest.skip(i - start) =~= texts.skip(i as int));
                }
                push_blockquote(&mut out, &block);
                assert(out@ + html_of(texts.skip(i as int)) =~= before + (quotation(rest.take(i - start))
                    + html_of(texts.skip(i as int))));
            },
            LineKind::Text => {
                let mut block: Vec<String> = Vec::new();
                let start: usize = i;
                while i < all.len() && line_kind(&all[i]) == LineKind::Text
                    invariant
                        start <= i <= all.len(),
                        texts_of(all@) == texts,
                        texts.len() == all@.len(),
                        rest == texts.skip(start as int),
                        block@.len() == i - start,
                        texts_of(block@) == rest.take(i - start),
                        forall|k: int| 0 <= k < i - start ==> kind_of(#[trigger] rest[k]) == LineKind::Text,
                    decreases all.len() - i,
                {
                    assert(texts[i as int] == all@[i as int]@);
                    assert(rest[i - start] == texts[i as int]);
                    let line = all[i].clone();
                    let ghost earlier = texts_of(block@);
                    block.push(line);
                    assert(texts_of(block@) =~= earlier.push(line@));
                    assert(rest.take(i - start + 1) =~= rest.take(i - start).push(line@));
                    i += 1;
                }
                proof {
                    if i < all.len() {
                        assert(texts[i as int] == all@[i as int]@);
                        assert(rest[i - start] == texts[i as int]);
                    }
                    lemma_run_unique(rest, LineKind::Text, i - start);
                    assert(rest.skip(i - start) =~= texts.skip(i as int));
                }
                flush_paragraph(&mut out, &mut block);
                assert(out@ + html_of(texts.skip(i as int)) =~= before + (paragraph(rest.take(i - start))
                    + html_of(texts.skip(i as int))));
            },
        }
    }
    assert(out@ + html_of(texts.skip(i as int)) =~= out@);
    out
}

/// The document that the editor shows a body in.
pub open spec fn document(body: Seq<char>) -> Seq<char> {
    "<!DOCTYPE html><html><head><meta charset=\"utf-8\"><style>\nbody { font-family: system-ui, sans-serif; font-size: 12pt; margin: 8px; }\nblockquote { margin: 4px 0 4px 16px; padding-left: 8px; border-left: 2px solid #999; color: #555; }\n</style></head><body>"@
        + body + "</body></html>"@
}

/// Puts a body into a whole document for the editor.
pub fn html_document(body: &str) -> (r: String)
    ensures
        r@ == document(body@),
{
    let mut out =
        "<!DOCTYPE html><html><head><meta charset=\"utf-8\"><style>\nbody { font-family: system-ui, sans-serif; font-size: 12pt; margin: 8px; }\nblockquote { margin: 4px 0 4px 16px; padding-left: 8px; border-left: 2px solid #999; color: #555; }\n</style></head><body>".to_owned();
    out.push_str(body);
    out.push_str("</body></html>");
    out
}

/// The body that the editor starts with: an empty paragraph in place of a blank one.
pub open spec fn first_body(html: Seq<char>) -> Seq<char> {
    if blank(html) {
        "<p><br></p>"@
    } else {
        html
    }
}

/// The document that the editor starts with.
pub fn editor_document(initial_html: &str) -> (r: String)
    ensures
        r@ == document(first_body(initial_html@)),
{
    if is_blank(initial_html) {
        html_document("<p><br></p>")
    } else {
        html_document(initial_html)
    }
}

/// A text repeated `n` times.
pub open spec fn repeated(s: Seq<char>, n: nat) -> Seq<char>
    decreases n,
{
    if n == 0 {
        Seq::empty()
    } else {
        repeated(s, (n - 1) as nat) + s
    }
}

/// A cell of a new table.
pub open spec fn table_cell() -> Seq<char> {
    "<td style=\"border:1px solid #ccc;padding:4px;\">&nbsp;</td>"@
}

/// A row of a new table.
pub open spec fn table_row(cols: nat) -> Seq<char> {
    "<tr>"@ + repeated(table_cell(), cols) + "</tr>"@
}

/// A new table and an empty paragraph behind it.
pub open spec fn table(rows: nat, cols: nat) -> Seq<char> {
    "<table style=\"border-collapse:collapse;width:100%\">"@ + repeated(table_row(cols), rows)
        + "</table><p><br></p>"@
}

/// A new table of empty cells and an empty paragraph behind it.
pub fn table_html(rows: u32, cols: u32) -> (r: String)
    ensures
        r@ == table(rows as nat, cols as nat),
{
    let mut html = "<table style=\"border-collapse:collapse;width:100%\">".to_owned();
    let ghost start = html@;
    let mut row: u32 = 0;
    assert(html@ =~= start + repeated(table_row(cols as nat), 0));
    while row < rows
        invariant
            row <= rows,
            html@ == start + repeated(table_row(cols as nat), row as nat),
        decreases rows - row,
    {
        let ghost before = html@;
        html.push_str("<tr>");
        let ghost opened = html@;
        let mut col: u32 = 0;
        assert(html@ =~= opened + repeated(table_cell(), 0));
        while col < cols
            invariant
                col <= cols,
                html@ == opened + repeated(table_cell(), col as nat),
            decreases cols - col,
        {
            let ghost so_far = repeated(table_cell(), col as nat);
            html.push_str("<td style=\"border:1px solid #ccc;padding:4px;\">&nbsp;</td>");
            assert(html@ =~= opened + (so_far + table_cell()));
            col += 1;
        }
        html.push_str("</tr>");
        assert(html@ =~= before + table_row(cols as nat));
        assert(html@ =~= start + (repeated(table_row(cols as nat), row as nat) + table_row(cols as nat)));
        row += 1;
    }
    html.push_str("</table><p><br></p>");
    html
}

/// The scheme of a URI: what stands before its first colon, or all of it.
pub open spec fn scheme(uri: Seq<char>) -> Seq<char> {
    uri.take(first_of(uri, ':'))
}

/// A URI whose content is at hand, so that the editor may load it.
pub open spec fn local_uri(uri: Seq<char>) -> bool {
    let s = scheme(uri);
    s == "data"@ || s == "cid"@ || s == "about"@ || s == "file"@
}

/// Whether the editor may load a URI: nothing may be fetched while composing.
pub fn uri_is_local(uri: &str) -> (r: bool)
    ensures
        r == local_uri(uri@),
{
    proof {
        lemma_first_of(uri@, ':');
    }
    let s = match split_once(uri, ':') {
        Some((s, _)) => s,
        None => {
            assert(uri@.take(first_of(uri@, ':')) =~= uri@);
            uri
        },
    };
    same(s, "data") || same(s, "cid") || same(s, "about") || same(s, "file")
}

/// A plain body with a signature on a line of its own below it, and a line end behind that. A blank
/// signature is left out.
pub open spec fn signed_body(body: Seq<char>, signature: Seq<char>) -> Seq<char> {
    if blank(signature) {
        body
    } else if body.len() == 0 {
        trimmed(signature) + "\n"@
    } else {
        body + "\n"@ + trimmed(signature) + "\n"@
    }
}

/// Appends a signature to a plain body.
pub fn append_signature(body: &str, signature: &str) -> (r: String)
    ensures
        r@ == signed_body(body@, signature@),
{
    let mut out = body.to_owned();
    let t = trim(signature);
    if t.is_empty() {
        return out;
    }
    if !body.is_empty() {
        out.push_str("\n");
    }
    out.push_str(t);
    out.push_str("\n");
    assert(body@.len() == 0 ==> out@ =~= trimmed(signature@) + "\n"@);
    out
}

} // verus!
