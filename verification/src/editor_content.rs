//! What the rich-text editor holds, and the scripts that put content into it.

use crate::encodings::{base64_decode, base64_encode, base64_text, base64_value, is_json, json_array_at};
use crate::encodings::{json_array_len, json_document, json_quote, json_quoted, json_string, json_string_at};
use crate::model::text_of;
use crate::text::{decimal, decimal_text};
use vstd::prelude::*;

verus! {

/// An image within a message body.
#[derive(Debug)]
pub struct InlineImage {
    pub cid: String,
    pub content_type: String,
    pub bytes: Vec<u8>,
}

/// An image as text and bytes.
pub struct ImageView {
    pub cid: Seq<char>,
    pub content_type: Seq<char>,
    pub bytes: Seq<u8>,
}

impl View for InlineImage {
    type V = ImageView;

    open spec fn view(&self) -> ImageView {
        ImageView { cid: self.cid@, content_type: self.content_type@, bytes: self.bytes@ }
    }
}

impl Clone for InlineImage {
    fn clone(&self) -> (r: Self)
        ensures
            r@ == self@,
    {
        InlineImage {
            cid: self.cid.clone(),
            content_type: self.content_type.clone(),
            bytes: clone_bytes(&self.bytes),
        }
    }
}

/// A copy of bytes.
pub fn clone_bytes(v: &Vec<u8>) -> (r: Vec<u8>)
    ensures
        r@ == v@,
{
    let mut out: Vec<u8> = Vec::new();
    let mut i: usize = 0;
    while i < v.len()
        invariant
            i <= v.len(),
            out@ == v@.take(i as int),
        decreases v.len() - i,
    {
        out.push(v[i]);
        assert(out@ =~= v@.take(i + 1));
        i += 1;
    }
    assert(out@ =~= v@);
    out
}

/// Images as text and bytes.
pub open spec fn image_views(v: Seq<InlineImage>) -> Seq<ImageView> {
    v.map_values(|i: InlineImage| i@)
}

/// A copy of images.
pub fn clone_images(v: &Vec<InlineImage>) -> (r: Vec<InlineImage>)
    ensures
        image_views(r@) == image_views(v@),
        r@.len() == v@.len(),
{
    let mut out: Vec<InlineImage> = Vec::new();
    let mut i: usize = 0;
    while i < v.len()
        invariant
            i <= v.len(),
            out@.len() == i,
            image_views(out@) == image_views(v@).take(i as int),
        decreases v.len() - i,
    {
        let ghost before = image_views(out@);
        let image = v[i].clone();
        out.push(image);
        assert(image_views(out@) =~= before.push(image@));
        assert(image_views(v@).take(i + 1) =~= image_views(v@).take(i as int).push(image@));
        i += 1;
    }
    assert(image_views(v@).take(i as int) =~= image_views(v@));
    out
}

/// What the editor says of one image: each part, if it is there and can be read.
#[derive(Debug)]
pub struct ImageEntry {
    pub cid: Option<String>,
    pub content_type: Option<String>,
    pub bytes: Option<Vec<u8>>,
}

/// The image of an entry that has all its parts.
pub open spec fn whole_image(cid: Option<Seq<char>>, content_type: Option<Seq<char>>, bytes: Option<Seq<u8>>) -> Option<
    ImageView,
> {
    match (cid, content_type, bytes) {
        (Some(cid), Some(content_type), Some(bytes)) => Some(ImageView { cid, content_type, bytes }),
        _ => None,
    }
}

/// The bytes of an entry.
pub open spec fn entry_bytes(e: ImageEntry) -> Option<Seq<u8>> {
    match e.bytes {
        Some(b) => Some(b@),
        None => None,
    }
}

/// The images of the entries that have all their parts.
pub open spec fn whole_images(entries: Seq<ImageEntry>) -> Seq<ImageView> {
    entries.filter_map(
        |e: ImageEntry| whole_image(text_of(e.cid), text_of(e.content_type), entry_bytes(e)),
    )
}

/// What the editor holds.
#[derive(Debug)]
pub struct EditorContent {
    pub html: String,
    pub text: String,
    pub images: Vec<InlineImage>,
}

/// Puts together what the editor holds. A part that is missing is empty; an image that lacks a part
/// is left out.
pub fn editor_content(html: Option<String>, text: Option<String>, entries: Vec<ImageEntry>) -> (r: EditorContent)
    ensures
        r.html@ == (match text_of(html) {
            Some(s) => s,
            None => Seq::empty(),
        }),
        r.text@ == (match text_of(text) {
            Some(s) => s,
            None => Seq::empty(),
        }),
        image_views(r.images@) == whole_images(entries@),
{
    let mut images: Vec<InlineImage> = Vec::new();
    let ghost f = |e: ImageEntry| whole_image(text_of(e.cid), text_of(e.content_type), entry_bytes(e));
    let mut i: usize = 0;
    assert(entries@.take(0) =~= Seq::<ImageEntry>::empty());
    reveal_with_fuel(Seq::filter_map, 2);
    assert(image_views(images@) =~= entries@.take(0).filter_map(f));
    while i < entries.len()
        invariant
            i <= entries.len(),
            f == |e: ImageEntry| whole_image(text_of(e.cid), text_of(e.content_type), entry_bytes(e)),
            image_views(images@) == entries@.take(i as int).filter_map(f),
        decreases entries.len() - i,
    {
        let ghost before = image_views(images@);
        proof {
            entries@.lemma_filter_map_take_succ(f, i as int);
        }
        if let (Some(cid), Some(content_type), Some(bytes)) = (
            &entries[i].cid,
            &entries[i].content_type,
            &entries[i].bytes,
        ) {
            let image = InlineImage {
                cid: cid.clone(),
                content_type: content_type.clone(),
                bytes: clone_bytes(bytes),
            };
            assert(f(entries@[i as int]) == Some(image@));
            images.push(image);
            assert(image_views(images@) =~= before.push(image@));
        }
        assert(image_views(images@) =~= entries@.take(i + 1).filter_map(f));
        i += 1;
    }
    assert(entries@.take(i as int) =~= entries@);
    EditorContent { html: html.unwrap_or(String::new()), text: text.unwrap_or(String::new()), images }
}

/// The pointer to a part of the image `k` of the editor's answer.
pub open spec fn image_pointer(k: int, part: Seq<char>) -> Seq<char> {
    "/images/"@ + decimal(k as nat) + "/"@ + part
}

/// The image `k` of the editor's answer, if it has all its parts.
pub open spec fn answered_image(answer: Seq<char>, k: int) -> Option<ImageView> {
    whole_image(
        json_string_at(answer, image_pointer(k, "cid"@)),
        json_string_at(answer, image_pointer(k, "contentType"@)),
        match json_string_at(answer, image_pointer(k, "data"@)) {
            Some(data) => base64_value(data),
            None => None,
        },
    )
}

/// The images of the editor's answer among its first `n` that have all their parts.
pub open spec fn answered_images(answer: Seq<char>, n: int) -> Seq<ImageView>
    decreases n,
{
    if n <= 0 {
        Seq::empty()
    } else {
        match answered_image(answer, n - 1) {
            Some(image) => answered_images(answer, n - 1).push(image),
            None => answered_images(answer, n - 1),
        }
    }
}

/// The number of images that the editor's answer lists.
pub open spec fn answered_count(answer: Seq<char>) -> int {
    match json_array_at(answer, "/images"@) {
        Some(n) => n as int,
        None => 0,
    }
}

fn image_part(answer: &str, k: usize, part: &str) -> (r: Option<String>)
    ensures
        text_of(r) == json_string_at(answer@, image_pointer(k as int, part@)),
{
    let mut pointer = "/images/".to_owned();
    pointer.push_str(&decimal_text(k as u64));
    pointer.push_str("/");
    pointer.push_str(part);
    json_string(answer, &pointer)
}

/// Reads the editor's answer, a JSON document with the HTML, the text and the images. Nothing for
/// an answer that is no JSON.
pub fn read_content(answer: &str) -> (r: Option<EditorContent>)
    ensures
        match r {
            Some(c) => {
                &&& json_document(answer@)
                &&& c.html@ == (match json_string_at(answer@, "/html"@) {
                    Some(s) => s,
                    None => Seq::empty(),
                })
                &&& c.text@ == (match json_string_at(answer@, "/text"@) {
                    Some(s) => s,
                    None => Seq::empty(),
                })
                &&& image_views(c.images@) == answered_images(answer@, answered_count(answer@))
            },
            None => !json_document(answer@),
        },
{
    if !is_json(answer) {
        return None;
    }
    let html = json_string(answer, "/html");
    let text = json_string(answer, "/text");
    let count: usize = match json_array_len(answer, "/images") {
        Some(n) => n,
        None => 0,
    };
    let mut entries: Vec<ImageEntry> = Vec::new();
    let ghost f = |e: ImageEntry| whole_image(text_of(e.cid), text_of(e.content_type), entry_bytes(e));
    let mut k: usize = 0;
    reveal_with_fuel(Seq::filter_map, 2);
    assert(entries@.filter_map(f) =~= answered_images(answer@, 0));
    while k < count
        invariant
            k <= count,
            entries@.len() == k,
            f == |e: ImageEntry| whole_image(text_of(e.cid), text_of(e.content_type), entry_bytes(e)),
            entries@.filter_map(f) == answered_images(answer@, k as int),
        decreases count - k,
    {
        let bytes = match image_part(answer, k, "data") {
            Some(data) => base64_decode(&data),
            None => None,
        };
        let entry = ImageEntry {
            cid: image_part(answer, k, "cid"),
            content_type: image_part(answer, k, "contentType"),
            bytes,
        };
        let ghost before = entries@;
        entries.push(entry);
        proof {
            assert(f(entry) == answered_image(answer@, k as int));
            entries@.lemma_filter_map_take_succ(f, k as int);
            assert(entries@.take(k as int) =~= before);
            assert(entries@.take(k + 1) =~= entries@);
            assert(entries@.filter_map(f) =~= answered_images(answer@, k + 1));
        }
        k += 1;
    }
    Some(editor_content(html, text, entries))
}

/// The `data:` URI of an image.
pub open spec fn data_uri(content_type: Seq<char>, bytes: Seq<u8>) -> Seq<char> {
    "data:"@ + content_type + ";base64,"@ + base64_text(bytes)
}

/// The `data:` URI that an image is put into the editor with.
pub fn image_data_uri(content_type: &str, bytes: &Vec<u8>) -> (r: String)
    ensures
        r@ == data_uri(content_type@, bytes@),
        base64_value(base64_text(bytes@)) == Some(bytes@),
{
    let mut out = "data:".to_owned();
    out.push_str(content_type);
    out.push_str(";base64,");
    out.push_str(&base64_encode(bytes));
    out
}

/// The script that puts an image at the cursor, or at the end of a body without one.
pub fn insert_image_script(data_uri: &str) -> (r: String)
    ensures
        r@ == "(function () { document.body.focus(); var sel = window.getSelection(); var inBody = sel.rangeCount > 0 && document.body.contains(sel.getRangeAt(0).commonAncestorContainer); if (!inBody) { var r = document.createRange(); r.selectNodeContents(document.body); r.collapse(false); sel.removeAllRanges(); sel.addRange(r); } document.execCommand('insertImage', false, "@
            + json_quoted(data_uri@) + "); })()"@,
{
    let mut out =
        "(function () { document.body.focus(); var sel = window.getSelection(); var inBody = sel.rangeCount > 0 && document.body.contains(sel.getRangeAt(0).commonAncestorContainer); if (!inBody) { var r = document.createRange(); r.selectNodeContents(document.body); r.collapse(false); sel.removeAllRanges(); sel.addRange(r); } document.execCommand('insertImage', false, ".to_owned();
    out.push_str(&json_quote(data_uri));
    out.push_str("); })()");
    out
}

/// The script that puts HTML at the cursor, or at the end of a body without one.
pub open spec fn insert_script(html: Seq<char>) -> Seq<char> {
    "(function () { document.body.focus(); var sel = window.getSelection(); if (!sel || sel.rangeCount === 0) { var range = document.createRange(); range.selectNodeContents(document.body); range.collapse(false); sel.removeAllRanges(); sel.addRange(range); } document.execCommand('insertHTML', false, "@
        + json_quoted(html) + "); })()"@
}

/// The script that puts HTML at the cursor, or at the end of a body without one.
pub fn insert_html_script(html: &str) -> (r: String)
    ensures
        r@ == insert_script(html@),
{
    let mut out =
        "(function () { document.body.focus(); var sel = window.getSelection(); if (!sel || sel.rangeCount === 0) { var range = document.createRange(); range.selectNodeContents(document.body); range.collapse(false); sel.removeAllRanges(); sel.addRange(range); } document.execCommand('insertHTML', false, ".to_owned();
    out.push_str(&json_quote(html));
    out.push_str("); })()");
    out
}

/// The script that puts HTML at the end of the body.
pub open spec fn append_script(html: Seq<char>) -> Seq<char> {
    "(function () { var range = document.createRange(); range.selectNodeContents(document.body); range.collapse(false); var sel = window.getSelection(); sel.removeAllRanges(); sel.addRange(range); document.execCommand('insertHTML', false, "@
        + json_quoted(html) + "); })()"@
}

/// The script that puts HTML at the end of the body.
pub fn append_html_script(html: &str) -> (r: String)
    ensures
        r@ == append_script(html@),
{
    let mut out =
        "(function () { var range = document.createRange(); range.selectNodeContents(document.body); range.collapse(false); var sel = window.getSelection(); sel.removeAllRanges(); sel.addRange(range); document.execCommand('insertHTML', false, ".to_owned();
    out.push_str(&json_quote(html));
    out.push_str("); })()");
    out
}

} // verus!
