//! Reading JSON documents and base64.

use crate::model::text_of;
use vstd::prelude::*;

verus! {

/// A text is a JSON document.
pub uninterp spec fn json_document(doc: Seq<char>) -> bool;

/// The string at a pointer into a JSON document, if the text is one and there is a string.
pub uninterp spec fn json_string_at(doc: Seq<char>, pointer: Seq<char>) -> Option<Seq<char>>;

/// The length of the array at a pointer into a JSON document, if the text is one and there is an
/// array.
pub uninterp spec fn json_array_at(doc: Seq<char>, pointer: Seq<char>) -> Option<usize>;

/// The number at a pointer into a JSON document, if the text is one and there is a whole number
/// from 0 to `u64::MAX`.
pub uninterp spec fn json_unsigned_at(doc: Seq<char>, pointer: Seq<char>) -> Option<u64>;

/// The number at a pointer into a JSON document, if the text is one and there is a whole number
/// from `i64::MIN` to `i64::MAX`.
pub uninterp spec fn json_signed_at(doc: Seq<char>, pointer: Seq<char>) -> Option<i64>;

/// The value at a pointer into a JSON document, as JSON, if the text is one and there is a value.
pub uninterp spec fn json_value_at(doc: Seq<char>, pointer: Seq<char>) -> Option<Seq<char>>;

/// A text in double quotes, as `std::fmt::Debug` writes it.
pub uninterp spec fn debug_quoted(text: Seq<char>) -> Seq<char>;

/// A text as a JSON string, in double quotes.
pub uninterp spec fn json_quoted(text: Seq<char>) -> Seq<char>;

/// The bytes that a text stands for in standard base64 with padding, if it is that.
pub uninterp spec fn base64_value(text: Seq<char>) -> Option<Seq<u8>>;

/// Bytes in standard base64 with padding.
pub uninterp spec fn base64_text(bytes: Seq<u8>) -> Seq<char>;

/// `serde_json::from_str` into a `serde_json::Value`: whether it succeeds.
#[verifier::external_body]
pub(crate) fn is_json(doc: &str) -> (r: bool)
    ensures
        r == json_document(doc@),
{
    serde_json::from_str::<serde_json::Value>(doc).is_ok()
}

/// `serde_json::Value::pointer` and `as_str` on a parsed document.
#[verifier::external_body]
pub(crate) fn json_string(doc: &str, pointer: &str) -> (r: Option<String>)
    ensures
        text_of(r) == json_string_at(doc@, pointer@),
{
    let value = serde_json::from_str::<serde_json::Value>(doc).ok()?;
    value.pointer(pointer)?.as_str().map(str::to_owned)
}

/// `serde_json::Value::pointer` and `as_array` on a parsed document: the length of the array.
#[verifier::external_body]
pub(crate) fn json_array_len(doc: &str, pointer: &str) -> (r: Option<usize>)
    ensures
        r == json_array_at(doc@, pointer@),
{
    let value = serde_json::from_str::<serde_json::Value>(doc).ok()?;
    value.pointer(pointer)?.as_array().map(|a| a.len())
}

/// `serde_json::Value::pointer` and `as_u64` on a parsed document.
#[verifier::external_body]
pub(crate) fn json_u64(doc: &str, pointer: &str) -> (r: Option<u64>)
    ensures
        r == json_unsigned_at(doc@, pointer@),
{
    let value = serde_json::from_str::<serde_json::Value>(doc).ok()?;
    value.pointer(pointer)?.as_u64()
}

/// `serde_json::Value::pointer` and `as_i64` on a parsed document.
#[verifier::external_body]
pub(crate) fn json_i64(doc: &str, pointer: &str) -> (r: Option<i64>)
    ensures
        r == json_signed_at(doc@, pointer@),
{
    let value = serde_json::from_str::<serde_json::Value>(doc).ok()?;
    value.pointer(pointer)?.as_i64()
}

/// `serde_json::Value::pointer` on a parsed document, and `to_string` on the value there.
#[verifier::external_body]
pub(crate) fn json_value(doc: &str, pointer: &str) -> (r: Option<String>)
    ensures
        text_of(r) == json_value_at(doc@, pointer@),
{
    let value = serde_json::from_str::<serde_json::Value>(doc).ok()?;
    value.pointer(pointer).map(|v| v.to_string())
}

/// `std::fmt::Debug` on a `str`: the text in double quotes, with escapes.
#[verifier::external_body]
pub(crate) fn debug_quote(text: &str) -> (r: String)
    ensures
        r@ == debug_quoted(text@),
{
    format!("{text:?}")
}

/// `serde_json::Value::String` and `to_string`: a JSON string is written as JSON.
#[verifier::external_body]
pub(crate) fn json_quote(text: &str) -> (r: String)
    ensures
        r@ == json_quoted(text@),
{
    serde_json::Value::String(text.to_owned()).to_string()
}

/// `base64::engine::general_purpose::STANDARD.decode`.
#[verifier::external_body]
pub(crate) fn base64_decode(text: &str) -> (r: Option<Vec<u8>>)
    ensures
        match r {
            Some(bytes) => base64_value(text@) == Some(bytes@),
            None => base64_value(text@) is None,
        },
{
    base64::Engine::decode(&base64::engine::general_purpose::STANDARD, text).ok()
}

/// `base64::engine::general_purpose::STANDARD.encode`. Decoding gives the bytes back.
#[verifier::external_body]
pub(crate) fn base64_encode(bytes: &Vec<u8>) -> (r: String)
    ensures
        r@ == base64_text(bytes@),
        base64_value(r@) == Some(bytes@),
{
    base64::Engine::encode(&base64::engine::general_purpose::STANDARD, bytes)
}

} // verus!
