//! The composer: what it opens with, and what its buttons do.

use crate::compose::ComposePrefill;
use crate::compose_html::{append_signature, document, editor_document, first_body, html_of, local_uri};
use crate::compose_html::{signed_body, text_to_html, uri_is_local};
use crate::drafts::PendingAttachment;
use crate::editor_content::{append_html_script, append_script, insert_html_script, insert_script};
use crate::model::text_of;
use crate::pieces::lines_of;
use crate::text::{blank, is_blank, same};
use vstd::prelude::*;

verus! {

/// A signature, as text and as HTML.
#[derive(Debug)]
pub struct Signature {
    pub name: String,
    pub text: String,
    pub html: String,
}

/// What the composer opens with.
#[derive(Debug)]
pub struct ComposerOpening {
    pub to: String,
    pub cc: String,
    /// Whether the field for copies is shown; if not, there is a button for it.
    pub cc_shown: bool,
    pub subject: String,
    /// The plain body, with the signature below it.
    pub plain_body: String,
    /// The document of the rich-text editor.
    pub rich_document: String,
    /// The script that puts the signature below the rich-text body, once its document is loaded.
    pub signature_script: Option<String>,
    /// Whether the composer opens with the rich-text editor.
    pub rich: bool,
}

/// A text, or nothing.
pub open spec fn or_empty(o: Option<String>) -> Seq<char> {
    match o {
        Some(s) => s@,
        None => Seq::empty(),
    }
}

/// The composer opens with a prefill and a signature.
pub open spec fn opens_with(
    o: ComposerOpening,
    prefill: ComposePrefill,
    signature: Option<Signature>,
    rich: bool,
) -> bool {
    &&& o.to@ == or_empty(prefill.to)
    &&& o.cc@ == or_empty(prefill.cc)
    &&& o.cc_shown == !blank(or_empty(prefill.cc))
    &&& o.subject@ == or_empty(prefill.subject)
    &&& o.plain_body@ == (match signature {
        Some(s) => signed_body(or_empty(prefill.body), s.text@),
        None => or_empty(prefill.body),
    })
    &&& o.rich_document@ == document(
        first_body(
            match prefill.body {
                Some(body) => html_of(lines_of(body@)),
                None => Seq::empty(),
            },
        ),
    )
    &&& text_of(o.signature_script) == (match signature {
        Some(s) => Some(append_script(s.html@)),
        None => None,
    })
    &&& o.rich == rich
}

fn owned_or_empty(o: &Option<String>) -> (r: String)
    ensures
        r@ == or_empty(*o),
{
    match o {
        Some(s) => s.clone(),
        None => String::new(),
    }
}

/// What the composer opens with. The field for copies is shown where someone gets one.
pub fn open_composer(prefill: &ComposePrefill, signature: &Option<Signature>, rich: bool) -> (r: ComposerOpening)
    ensures
        opens_with(r, *prefill, *signature, rich),
{
    let body = owned_or_empty(&prefill.body);
    let html = match &prefill.body {
        Some(text) => text_to_html(text),
        None => String::new(),
    };
    let cc = owned_or_empty(&prefill.cc);
    let cc_shown = !is_blank(&cc);
    let (plain_body, signature_script): (String, Option<String>) = match signature {
        Some(s) => (append_signature(&body, &s.text), Some(append_html_script(&s.html))),
        None => (body, None),
    };
    ComposerOpening {
        to: owned_or_empty(&prefill.to),
        cc,
        cc_shown,
        subject: owned_or_empty(&prefill.subject),
        plain_body,
        rich_document: editor_document(&html),
        signature_script,
        rich,
    }
}

/// How a picked signature goes into the body: by a script in the rich-text editor, as text in the
/// plain one.
#[derive(Debug)]
pub enum SignatureInsert {
    Script(String),
    Text(String),
}

/// How a picked signature goes into the body.
pub fn insert_signature(rich: bool, signature: &Signature) -> (r: SignatureInsert)
    ensures
        match r {
            SignatureInsert::Script(s) => rich && s@ == insert_script(signature.html@),
            SignatureInsert::Text(s) => !rich && s@ == signature.text@,
        },
{
    if rich {
        SignatureInsert::Script(insert_html_script(&signature.html))
    } else {
        SignatureInsert::Text(signature.text.clone())
    }
}

/// The argument of the editing command for a font size: small, normal, large or huge.
pub fn font_size_argument(index: usize) -> (r: Option<&'static str>)
    ensures
        (match r {
            Some(s) => Some(s@),
            None => None,
        }) == (if index == 0 {
            Some("2"@)
        } else if index == 1 {
            Some("3"@)
        } else if index == 2 {
            Some("5"@)
        } else if index == 3 {
            Some("7"@)
        } else {
            None
        }),
{
    if index == 0 {
        Some("2")
    } else if index == 1 {
        Some("3")
    } else if index == 2 {
        Some("5")
    } else if index == 3 {
        Some("7")
    } else {
        None
    }
}

/// The argument of the editing command for a font family.
pub fn font_family_argument(index: usize) -> (r: Option<&'static str>)
    ensures
        (match r {
            Some(s) => Some(s@),
            None => None,
        }) == (if index == 0 {
            Some("sans-serif"@)
        } else if index == 1 {
            Some("serif"@)
        } else if index == 2 {
            Some("monospace"@)
        } else if index == 3 {
            Some("cursive"@)
        } else {
            None
        }),
{
    if index == 0 {
        Some("sans-serif")
    } else if index == 1 {
        Some("serif")
    } else if index == 2 {
        Some("monospace")
    } else if index == 3 {
        Some("cursive")
    } else {
        None
    }
}

/// A digit of a hexadecimal number, in lower case.
pub open spec fn hex_digit_char(d: int) -> char {
    if d < 10 {
        (48 + d) as u8 as char
    } else {
        (87 + d) as u8 as char
    }
}

/// A byte as two hexadecimal digits.
pub open spec fn hex_byte(b: u8) -> Seq<char> {
    seq![hex_digit_char(b as int / 16), hex_digit_char(b as int % 16)]
}

fn push_hex(out: &mut String, b: u8)
    ensures
        final(out)@ == old(out)@ + hex_byte(b),
{
    let ghost before = out@;
    let high: u8 = b / 16;
    let low: u8 = b % 16;
    if high < 10 {
        out.push((48 + high) as char);
    } else {
        out.push((87 + high) as char);
    }
    if low < 10 {
        out.push((48 + low) as char);
    } else {
        out.push((87 + low) as char);
    }
    assert(out@ =~= before + hex_byte(b));
}

/// The argument of the editing command for a text colour.
pub fn color_argument(red: u8, green: u8, blue: u8) -> (r: String)
    ensures
        r@ == "#"@ + hex_byte(red) + hex_byte(green) + hex_byte(blue),
{
    let mut out = "#".to_owned();
    push_hex(&mut out, red);
    push_hex(&mut out, green);
    push_hex(&mut out, blue);
    out
}

/// The address of a link to make: what was typed, if it was confirmed and is not empty.
pub fn link_argument(response: &str, url: &str) -> (r: Option<String>)
    ensures
        text_of(r) == (if response@ == "insert"@ && url@.len() > 0 {
            Some(url@)
        } else {
            None
        }),
{
    if same(response, "insert") && !url.is_empty() {
        Some(url.to_owned())
    } else {
        None
    }
}

/// What the editor is about to do.
#[derive(Clone, Copy, PartialEq, Eq, Structural, Debug)]
pub enum LoadKind {
    /// It goes to another page.
    Navigation,
    /// It loads something: the page itself, or a part of it.
    Response { main_resource: bool },
    /// Anything else.
    Other,
}

/// Something is kept from the editor: every page and every part of one that is not at hand.
pub open spec fn vetoed(kind: LoadKind, uri: Option<Seq<char>>) -> bool {
    match uri {
        Some(u) => !local_uri(u) && (kind == LoadKind::Navigation || kind == (LoadKind::Response {
            main_resource: false,
        })),
        None => false,
    }
}

/// Whether something is kept from the editor: nothing may be fetched while composing.
pub fn blocks_load(kind: LoadKind, uri: Option<&str>) -> (r: bool)
    ensures
        r == vetoed(
            kind,
            match uri {
                Some(u) => Some(u@),
                None => None,
            },
        ),
{
    match uri {
        Some(u) => match kind {
            LoadKind::Navigation => !uri_is_local(u),
            LoadKind::Response { main_resource } => !main_resource && !uri_is_local(u),
            LoadKind::Other => false,
        },
        None => false,
    }
}

/// What is said when a draft was saved: only of the composer's own draft.
pub fn draft_saved_text(own_id: &str, saved_id: &str) -> (r: Option<&'static str>)
    ensures
        (match r {
            Some(s) => Some(s@),
            None => None,
        }) == (if own_id@ == saved_id@ {
            Some("Draft saved"@)
        } else {
            None
        }),
{
    if same(own_id, saved_id) {
        Some("Draft saved")
    } else {
        None
    }
}

/// Takes an attachment off the list. A place that is not on the list changes nothing.
pub fn remove_attachment(attachments: &mut Vec<PendingAttachment>, index: usize)
    ensures
        final(attachments)@ == (if index < old(attachments)@.len() {
            old(attachments)@.remove(index as int)
        } else {
            old(attachments)@
        }),
{
    if index < attachments.len() {
        attachments.remove(index);
    }
}

/// The label of an attachment: its name and its size.
pub fn attachment_label(filename: &str, size: &str) -> (r: String)
    ensures
        r@ == filename@ + "  ·  "@ + size@,
{
    let mut out = filename.to_owned();
    out.push_str("  ·  ");
    out.push_str(size);
    out
}

/// The type of an attached file or an image, where the desktop knows one or not.
pub fn content_type(known: Option<String>, image: bool) -> (r: String)
    ensures
        r@ == (match known {
            Some(t) => t@,
            None => if image {
                "image/png"@
            } else {
                "application/octet-stream"@
            },
        }),
{
    match known {
        Some(t) => t,
        None => if image {
            "image/png".to_owned()
        } else {
            "application/octet-stream".to_owned()
        },
    }
}

} // verus!
