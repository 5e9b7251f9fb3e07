//! What holds of the markup that the composer makes from text.

use crate::calendar_colors::{color_rgb, hex_color};
use crate::compose::ComposePrefill;
use crate::compose_html::{document, escaped, first_body, html_of, kind_of, lemma_run, local_uri};
use crate::compose_html::{paragraph, quotation, repeated, run, rule_char, signed_body, table, table_cell, table_row};
use crate::compose_html::{unquoted, LineKind};
use crate::composer::{hex_byte, opens_with, vetoed, ComposerOpening, LoadKind, Signature};
use crate::editor_content::{answered_image, answered_images, append_script, data_uri, insert_script, whole_image};
use crate::encodings::{base64_text, base64_value, json_quoted, json_string_at};
use crate::pieces::{joined, lines_of};
use crate::text::{blank, decimal, first_of, has_prefix, lemma_blank_is_all_white, lemma_first_of, trimmed, white};
use vstd::prelude::*;

verus! {

/// Escaping goes character by character: five characters become entities, and all others stay.
pub proof fn lemma_escaped_apart(a: Seq<char>, b: Seq<char>, c: char)
    ensures
        escaped(a + b) == escaped(a) + escaped(b),
        escaped(a + seq!['<'] + b) == escaped(a) + "&lt;"@ + escaped(b),
        escaped(a + seq!['>'] + b) == escaped(a) + "&gt;"@ + escaped(b),
        escaped(a + seq!['&'] + b) == escaped(a) + "&amp;"@ + escaped(b),
        escaped(a + seq!['"'] + b) == escaped(a) + "&quot;"@ + escaped(b),
        escaped(a + seq!['\''] + b) == escaped(a) + "&#39;"@ + escaped(b),
        c != '<' && c != '>' && c != '&' && c != '"' && c != '\'' ==> escaped(a + seq![c] + b) == escaped(a) + seq![c]
            + escaped(b),
{
    lemma_escaped_join(a, b);
    lemma_escaped_around(a, '<', b);
    lemma_escaped_around(a, '>', b);
    lemma_escaped_around(a, '&', b);
    lemma_escaped_around(a, '"', b);
    lemma_escaped_around(a, '\'', b);
    lemma_escaped_around(a, c, b);
}

proof fn lemma_escaped_join(a: Seq<char>, b: Seq<char>)
    ensures
        escaped(a + b) == escaped(a) + escaped(b),
    decreases b.len(),
{
    if b.len() == 0 {
        assert(a + b =~= a);
        assert(escaped(a) + escaped(b) =~= escaped(a));
    } else {
        lemma_escaped_join(a, b.drop_last());
        assert((a + b).drop_last() =~= a + b.drop_last());
        assert(escaped(a + b) =~= escaped(a) + escaped(b));
    }
}

proof fn lemma_escaped_around(a: Seq<char>, c: char, b: Seq<char>)
    ensures
        escaped(a + seq![c] + b) == escaped(a) + crate::compose_html::escaped_char(c) + escaped(b),
{
    lemma_escaped_join(a + seq![c], b);
    assert((a + seq![c]).drop_last() =~= a);
    assert(escaped(a + seq![c]) == escaped(a) + crate::compose_html::escaped_char(c));
}

/// A line whose kind differs from the line before it starts something of its own, and so does every line
/// that follows a blank line or a rule.
pub proof fn lemma_html_apart(a: Seq<Seq<char>>, b: Seq<Seq<char>>)
    requires
        a.len() > 0 && b.len() > 0 ==> kind_of(a.last()) != kind_of(b[0]) || kind_of(a.last()) == LineKind::Blank
            || kind_of(a.last()) == LineKind::Rule,
    ensures
        html_of(a + b) == html_of(a) + html_of(b),
    decreases a.len(),
{
    let all = a + b;
    if a.len() == 0 {
        assert(all =~= b);
        assert(html_of(a) + html_of(b) =~= html_of(b));
    } else if b.len() == 0 {
        assert(all =~= a);
        assert(html_of(a) + html_of(b) =~= html_of(a));
    } else {
        let kind = kind_of(a[0]);
        assert(all[0] == a[0]);
        if kind == LineKind::Blank || kind == LineKind::Rule {
            let rest = a.skip(1);
            if rest.len() > 0 {
                assert(rest.last() == a.last());
            }
            lemma_html_apart(rest, b);
            assert(all.skip(1) =~= rest + b);
            if kind == LineKind::Rule {
                assert("<hr>"@ + (html_of(rest) + html_of(b)) =~= ("<hr>"@ + html_of(rest)) + html_of(b));
            }
        } else {
            lemma_run(a, kind);
            lemma_run(all, kind);
            lemma_run_of_first(a, b, kind);
            let n = run(a, kind);
            let rest = a.skip(n);
            if rest.len() > 0 {
                assert(rest.last() == a.last());
            }
            lemma_html_apart(rest, b);
            assert(all.take(n) =~= a.take(n));
            assert(all.skip(n) =~= rest + b);
            let head = if kind == LineKind::Quote {
                quotation(a.take(n))
            } else {
                paragraph(a.take(n))
            };
            assert(head + (html_of(rest) + html_of(b)) =~= (head + html_of(rest)) + html_of(b));
        }
    }
}

proof fn lemma_run_of_first(a: Seq<Seq<char>>, b: Seq<Seq<char>>, kind: LineKind)
    requires
        a.len() > 0 && b.len() > 0 ==> kind_of(a.last()) != kind_of(b[0]) || kind_of(a.last()) != kind,
        a.len() == 0 ==> b.len() > 0 ==> kind_of(b[0]) != kind,
    ensures
        run(a + b, kind) == run(a, kind),
    decreases a.len(),
{
    let all = a + b;
    if a.len() > 0 {
        assert(all[0] == a[0]);
        if kind_of(a[0]) == kind {
            assert(all.skip(1) =~= a.skip(1) + b);
            if a.len() > 1 {
                assert(a.skip(1).last() == a.last());
            }
            lemma_run_of_first(a.skip(1), b, kind);
        }
    } else {
        assert(all =~= b);
    }
}

proof fn lemma_run_of_all(lines: Seq<Seq<char>>, kind: LineKind)
    requires
        forall|i: int| 0 <= i < lines.len() ==> kind_of(#[trigger] lines[i]) == kind,
    ensures
        run(lines, kind) == lines.len(),
    decreases lines.len(),
{
    if lines.len() > 0 {
        assert(kind_of(lines[0]) == kind);
        let rest = lines.skip(1);
        assert forall|i: int| 0 <= i < rest.len() implies kind_of(#[trigger] rest[i]) == kind by {
            assert(rest[i] == lines[i + 1]);
        }
        lemma_run_of_all(rest, kind);
    }
}

/// Lines of text that follow each other are one paragraph; quoted lines are one quotation, without
/// their marks; blank lines leave nothing, and a rule is a rule.
pub proof fn lemma_html_of_block(lines: Seq<Seq<char>>)
    requires
        lines.len() > 0,
    ensures
        (forall|i: int| 0 <= i < lines.len() ==> kind_of(#[trigger] lines[i]) == LineKind::Text) ==> html_of(lines)
            == "<p>"@ + joined(lines.map_values(|l: Seq<char>| escaped(l)), "<br>"@) + "</p>"@,
        (forall|i: int| 0 <= i < lines.len() ==> kind_of(#[trigger] lines[i]) == LineKind::Quote) ==> html_of(lines)
            == "<blockquote>"@ + joined(lines.map_values(|l: Seq<char>| escaped(unquoted(l))), "<br>"@)
            + "</blockquote>"@,
        lines.len() == 1 && kind_of(lines[0]) == LineKind::Rule ==> html_of(lines) == "<hr>"@,
        lines.len() == 1 && kind_of(lines[0]) == LineKind::Blank ==> html_of(lines).len() == 0,
{
    let n = lines.len() as int;
    assert(lines.take(n) =~= lines);
    assert(lines.skip(n) =~= Seq::<Seq<char>>::empty());
    assert(html_of(lines.skip(n)).len() == 0);
    if forall|i: int| 0 <= i < lines.len() ==> kind_of(#[trigger] lines[i]) == LineKind::Text {
        assert(kind_of(lines[0]) == LineKind::Text);
        lemma_run_of_all(lines, LineKind::Text);
        assert(html_of(lines) =~= paragraph(lines));
    }
    if forall|i: int| 0 <= i < lines.len() ==> kind_of(#[trigger] lines[i]) == LineKind::Quote {
        assert(kind_of(lines[0]) == LineKind::Quote);
        lemma_run_of_all(lines, LineKind::Quote);
        assert(html_of(lines) =~= quotation(lines));
        let bare = lines.map_values(|l: Seq<char>| unquoted(l));
        assert(bare.map_values(|l: Seq<char>| escaped(l)) =~= lines.map_values(
            |l: Seq<char>| escaped(unquoted(l)),
        ));
    }
    if lines.len() == 1 && kind_of(lines[0]) == LineKind::Rule {
        assert(lines.skip(1) =~= lines.skip(n));
        assert(html_of(lines) =~= "<hr>"@);
    }
    if lines.len() == 1 && kind_of(lines[0]) == LineKind::Blank {
        assert(lines.skip(1) =~= lines.skip(n));
    }
}

/// Which lines are which: a mark at the start makes a quotation, nothing but white space a blank line,
/// and three or more dashes, underscores or stars a rule.
pub proof fn lemma_kinds(line: Seq<char>)
    ensures
        line.len() > 0 && line[0] == '>' <==> kind_of(line) == LineKind::Quote,
        (forall|i: int| 0 <= i < line.len() ==> white(#[trigger] line[i])) <==> kind_of(line) == LineKind::Blank,
        kind_of(line) == LineKind::Rule ==> trimmed(line).len() >= 3 && forall|i: int|
            0 <= i < trimmed(line).len() ==> (#[trigger] trimmed(line)[i] == '-' || trimmed(line)[i] == '_' || trimmed(
                line,
            )[i] == '*'),
        trimmed(line).len() >= 3 && (forall|i: int|
            0 <= i < trimmed(line).len() ==> (#[trigger] trimmed(line)[i] == '-' || trimmed(line)[i] == '_' || trimmed(
                line,
            )[i] == '*')) && !(line.len() > 0 && line[0] == '>') ==> kind_of(line) == LineKind::Rule,
{
    lemma_blank_is_all_white(line);
    let t = trimmed(line);
    if forall|i: int| 0 <= i < line.len() ==> white(#[trigger] line[i]) {
        if line.len() > 0 {
            assert(white(line[0]));
        }
    }
    if forall|i: int| 0 <= i < t.len() ==> (#[trigger] t[i] == '-' || t[i] == '_' || t[i] == '*') {
        assert forall|i: int| 0 <= i < t.len() implies rule_char(#[trigger] t[i]) by {}
    }
    if kind_of(line) == LineKind::Rule {
        assert forall|i: int| 0 <= i < t.len() implies (#[trigger] t[i] == '-' || t[i] == '_' || t[i] == '*') by {
            assert(rule_char(t[i]));
        }
    }
}

/// The mark of a quotation and one blank behind it come off, and nothing else.
pub proof fn lemma_mark_comes_off(text: Seq<char>)
    ensures
        unquoted(seq!['>', ' '] + text) == text,
        !(text.len() > 0 && text[0] == ' ') ==> unquoted(seq!['>'] + text) == text,
{
    assert((seq!['>', ' '] + text).drop_first().drop_first() =~= text);
    assert((seq!['>'] + text).drop_first() =~= text);
    assert((seq!['>', ' '] + text).drop_first()[0] == ' ');
}

/// A document holds its body as it is; an empty one starts with an empty paragraph.
pub proof fn lemma_document_holds_body(body: Seq<char>)
    ensures
        document(body).len() == document(Seq::empty()).len() + body.len(),
        exists|head: Seq<char>| document(body) == #[trigger] (head + "<body>"@ + body + "</body></html>"@),
        blank(body) ==> first_body(body) == "<p><br></p>"@,
        !blank(body) ==> first_body(body) == body,
{
    let doc = document(body);
    let start =
        "<!DOCTYPE html><html><head><meta charset=\"utf-8\"><style>\nbody { font-family: system-ui, sans-serif; font-size: 12pt; margin: 8px; }\nblockquote { margin: 4px 0 4px 16px; padding-left: 8px; border-left: 2px solid #999; color: #555; }\n</style></head><body>"@;
    reveal_strlit(
        "<!DOCTYPE html><html><head><meta charset=\"utf-8\"><style>\nbody { font-family: system-ui, sans-serif; font-size: 12pt; margin: 8px; }\nblockquote { margin: 4px 0 4px 16px; padding-left: 8px; border-left: 2px solid #999; color: #555; }\n</style></head><body>",
    );
    reveal_strlit("<body>");
    let head = start.take(start.len() - 6);
    assert(start =~= head + "<body>"@);
    assert(doc =~= head + "<body>"@ + body + "</body></html>"@);
}

proof fn lemma_repeated_len(s: Seq<char>, n: nat)
    ensures
        repeated(s, n).len() == n * s.len(),
    decreases n,
{
    if n > 0 {
        lemma_repeated_len(s, (n - 1) as nat);
        assert(n * s.len() == (n - 1) * s.len() + s.len()) by (nonlinear_arith);
    } else {
        assert(0 * s.len() == 0) by (nonlinear_arith);
    }
}

/// A table has as many rows as it is asked for, and each of them as many cells.
pub proof fn lemma_table_size(rows: nat, cols: nat)
    ensures
        table_row(cols).len() == 9 + cols * table_cell().len(),
        table(rows, cols).len() == table(0, 0).len() + rows * table_row(cols).len(),
        table(rows + 1, cols) == table(rows, cols).take(table(rows, cols).len() - 19) + table_row(cols)
            + "</table><p><br></p>"@,
        table_row(cols + 1) == table_row(cols).take(table_row(cols).len() - 5) + table_cell() + "</tr>"@,
{
    reveal_strlit("<tr>");
    reveal_strlit("</tr>");
    reveal_strlit("</table><p><br></p>");
    lemma_repeated_len(table_cell(), cols);
    lemma_repeated_len(table_row(cols), rows);
    lemma_repeated_len(table_row(0), 0);
    assert(0 * table_row(0).len() == 0) by (nonlinear_arith);
    assert(table(rows + 1, cols) =~= table(rows, cols).take(table(rows, cols).len() - 19) + table_row(cols)
        + "</table><p><br></p>"@);
    assert(table_row(cols + 1) =~= table_row(cols).take(table_row(cols).len() - 5) + table_cell() + "</tr>"@);
}

/// What is loaded without asking is told by what stands before the colon, whatever follows it.
pub proof fn lemma_local_by_scheme(scheme: Seq<char>, rest: Seq<char>)
    requires
        !scheme.contains(':'),
    ensures
        local_uri(scheme + seq![':'] + rest) <==> scheme == "data"@ || scheme == "cid"@ || scheme == "about"@ || scheme
            == "file"@,
{
    let uri = scheme + seq![':'] + rest;
    lemma_first_of(uri, ':');
    let k = first_of(uri, ':');
    assert(uri[scheme.len() as int] == ':');
    assert(k == scheme.len()) by {
        if k < scheme.len() {
            assert(uri[k] == scheme[k]);
            assert(scheme.contains(':'));
        }
    }
    assert(uri.take(k) =~= scheme);
}

/// What is on the machine is never blocked; what is not is blocked where the editor would go to it or
/// fetch it for its document.
pub proof fn lemma_load_blocked(uri: Seq<char>)
    ensures
        forall|kind: LoadKind| local_uri(uri) ==> !vetoed(kind, Some(uri)),
        forall|kind: LoadKind| !vetoed(kind, None),
        !local_uri(uri) ==> vetoed(LoadKind::Navigation, Some(uri)),
        !local_uri(uri) ==> vetoed(LoadKind::Response { main_resource: false }, Some(uri)),
        !vetoed(LoadKind::Response { main_resource: true }, Some(uri)),
{
}

/// A signature stands below the body, which stays as it is; a blank one adds nothing.
pub proof fn lemma_signed(body: Seq<char>, signature: Seq<char>)
    ensures
        has_prefix(signed_body(body, signature), body),
        blank(signature) ==> signed_body(body, signature) == body,
        !blank(signature) ==> ({
            let s = signed_body(body, signature);
            let tail = trimmed(signature) + "\n"@;
            s.len() >= tail.len() && s.skip(s.len() - tail.len()) == tail && (body.len() > 0 ==> s.len() == body.len() + 1
                + tail.len() && s[body.len() as int] == '\n')
        }),
{
    reveal_strlit("\n");
    let s = signed_body(body, signature);
    assert(s.take(body.len() as int) =~= body);
    if !blank(signature) {
        let tail = trimmed(signature) + "\n"@;
        assert(s.skip(s.len() - tail.len()) =~= tail);
    }
}

/// What the composer opens with: the fields that were filled in beforehand, each in its place, the
/// signature of the account below the body, and the field for copies shown only with something in it.
pub proof fn lemma_opens_as_filled(
    o: ComposerOpening,
    prefill: ComposePrefill,
    signature: Option<Signature>,
    rich: bool,
)
    requires
        opens_with(o, prefill, signature, rich),
    ensures
        prefill.to is Some ==> o.to@ == (prefill.to->0)@,
        prefill.to is None ==> o.to@.len() == 0,
        prefill.cc is Some ==> o.cc@ == (prefill.cc->0)@,
        prefill.cc is None ==> o.cc@.len() == 0 && !o.cc_shown,
        o.cc_shown <==> exists|i: int| 0 <= i < o.cc@.len() && !white(#[trigger] o.cc@[i]),
        prefill.subject is Some ==> o.subject@ == (prefill.subject->0)@,
        prefill.subject is None ==> o.subject@.len() == 0,
        prefill.body is Some ==> has_prefix(o.plain_body@, (prefill.body->0)@),
        prefill.body is Some && signature is None ==> o.plain_body@ == (prefill.body->0)@,
        prefill.body is None && signature is None ==> o.plain_body@.len() == 0,
        prefill.body is None && signature is Some && !blank((signature->0).text@) ==> o.plain_body@ == trimmed(
            (signature->0).text@,
        ) + "\n"@,
        prefill.body is None ==> o.rich_document@ == document("<p><br></p>"@),
        prefill.body is Some && !blank(html_of(lines_of((prefill.body->0)@))) ==> o.rich_document@ == document(
            html_of(lines_of((prefill.body->0)@)),
        ),
        signature is Some <==> o.signature_script is Some,
        signature is Some ==> (o.signature_script->0)@ == append_script((signature->0).html@),
        o.rich == rich,
{
    lemma_blank_is_all_white(o.cc@);
    lemma_blank_is_all_white(Seq::empty());
    if prefill.body is Some {
        let body = (prefill.body->0)@;
        if signature is Some {
            lemma_signed(body, (signature->0).text@);
        } else {
            assert(body.take(body.len() as int) =~= body);
        }
    }
}

/// A colour is written as the three bytes that are read back from it.
pub proof fn lemma_color_reads_back(red: u8, green: u8, blue: u8)
    ensures
        color_rgb("#"@ + hex_byte(red) + hex_byte(green) + hex_byte(blue)) == Some(
            (red as int, green as int, blue as int),
        ),
{
    reveal_strlit("#");
    let c = "#"@ + hex_byte(red) + hex_byte(green) + hex_byte(blue);
    assert(c.len() == 7);
    assert(hex_color(c));
    let body = c.skip(1);
    assert(body[0] == hex_byte(red)[0] && body[1] == hex_byte(red)[1]);
    assert(body[2] == hex_byte(green)[0] && body[3] == hex_byte(green)[1]);
    assert(body[4] == hex_byte(blue)[0] && body[5] == hex_byte(blue)[1]);
}

/// The scripts hand the editor the markup as a quoted string; one goes to where the cursor is, the
/// other behind everything.
pub proof fn lemma_scripts_hold_markup(html: Seq<char>)
    ensures
        exists|head: Seq<char>| insert_script(html) == #[trigger] (head + json_quoted(html) + "); })()"@),
        exists|head: Seq<char>| append_script(html) == #[trigger] (head + json_quoted(html) + "); })()"@),
{
    let s = insert_script(html);
    let tail = json_quoted(html) + "); })()"@;
    let head = s.take(s.len() - tail.len());
    assert(s =~= head + json_quoted(html) + "); })()"@);
    let s = append_script(html);
    let head = s.take(s.len() - tail.len());
    assert(s =~= head + json_quoted(html) + "); })()"@);
}

/// An image's address says its type before its bytes.
pub proof fn lemma_image_address(content_type: Seq<char>, bytes: Seq<u8>)
    ensures
        has_prefix(data_uri(content_type, bytes), "data:"@ + content_type + ";base64,"@),
        data_uri(content_type, bytes).skip(
            ("data:"@ + content_type + ";base64,"@).len() as int,
        ) == base64_text(bytes),
{
    let head = "data:"@ + content_type + ";base64,"@;
    let s = data_uri(content_type, bytes);
    assert(s.take(head.len() as int) =~= head);
    assert(s.skip(head.len() as int) =~= base64_text(bytes));
}

/// An image comes along exactly if its id, its type and its bytes are all there, each in its place.
pub proof fn lemma_whole_image(cid: Seq<char>, content_type: Seq<char>, bytes: Seq<u8>)
    ensures
        whole_image(Some(cid), Some(content_type), Some(bytes)) matches Some(i) && i.cid == cid && i.content_type
            == content_type && i.bytes == bytes,
        whole_image(None, Some(content_type), Some(bytes)) is None,
        whole_image(Some(cid), None, Some(bytes)) is None,
        whole_image(Some(cid), Some(content_type), None) is None,
{
}

/// An image of the editor's answer has its id, its type and its bytes from the members of its entry, and
/// every entry that has all three gives one.
pub proof fn lemma_images_answered(answer: Seq<char>, n: int, k: int, i: int)
    requires
        0 <= n,
    ensures
        answered_image(answer, k) matches Some(image) ==> json_string_at(
            answer,
            "/images/"@ + decimal(k as nat) + "/"@ + "cid"@,
        ) == Some(image.cid) && json_string_at(answer, "/images/"@ + decimal(k as nat) + "/"@ + "contentType"@) == Some(
            image.content_type,
        ) && json_string_at(answer, "/images/"@ + decimal(k as nat) + "/"@ + "data"@) is Some && base64_value(
            json_string_at(answer, "/images/"@ + decimal(k as nat) + "/"@ + "data"@)->0,
        ) == Some(image.bytes),
        0 <= k < n && answered_image(answer, k) is Some ==> answered_images(answer, n).contains(
            answered_image(answer, k)->0,
        ),
        0 <= i < answered_images(answer, n).len() ==> exists|j: int|
            0 <= j < n && #[trigger] answered_image(answer, j) == Some(answered_images(answer, n)[i]),
    decreases n,
{
    if n > 0 {
        lemma_images_answered(answer, n - 1, k, i);
        let before = answered_images(answer, n - 1);
        let all = answered_images(answer, n);
        if 0 <= k < n && answered_image(answer, k) is Some {
            let want = answered_image(answer, k)->0;
            if k == n - 1 {
                assert(all[all.len() - 1] == want);
            } else {
                let x = choose|x: int| 0 <= x < before.len() && before[x] == want;
                assert(all[x] == want);
            }
        }
        if 0 <= i < all.len() && i >= before.len() {
            assert(answered_image(answer, n - 1) == Some(all[i]));
        }
    }
}

} // verus!
