//! Reading values out of JSON text.

use vstd::prelude::*;

verus! {

/// An optional string as optional text.
pub open spec fn text_of(s: Option<String>) -> Option<Seq<char>> {
    match s {
        Some(t) => Some(t@),
        None => None,
    }
}

/// The string at a JSON pointer of a JSON text; None when the text is not JSON
/// or no string stands there.
pub uninterp spec fn json_string(text: Seq<char>, pointer: Seq<char>) -> Option<Seq<char>>;

/// The unsigned number at a JSON pointer of a JSON text.
pub uninterp spec fn json_number(text: Seq<char>, pointer: Seq<char>) -> Option<u64>;

/// The truth value at a JSON pointer of a JSON text.
pub uninterp spec fn json_flag(text: Seq<char>, pointer: Seq<char>) -> Option<bool>;

/// The length of the array at a JSON pointer of a JSON text.
pub uninterp spec fn json_length(text: Seq<char>, pointer: Seq<char>) -> Option<usize>;

/// The JSON string literal of a text.
pub uninterp spec fn json_literal(s: Seq<char>) -> Seq<char>;

/// `serde_json::from_str`, `serde_json::Value::pointer` and
/// `serde_json::Value::as_str` one after the other: a function of the text and
/// the pointer.
#[verifier::external_body]
pub(crate) fn json_str_at(text: &str, pointer: &str) -> (r: Option<String>)
    ensures
        text_of(r) == json_string(text@, pointer@),
{
    let value: serde_json::Value = serde_json::from_str(text).ok()?;
    value.pointer(pointer)?.as_str().map(String::from)
}

/// `serde_json::from_str`, `serde_json::Value::pointer` and
/// `serde_json::Value::as_u64` one after the other: a function of the text and
/// the pointer.
#[verifier::external_body]
pub(crate) fn json_u64_at(text: &str, pointer: &str) -> (r: Option<u64>)
    ensures
        r == json_number(text@, pointer@),
{
    let value: serde_json::Value = serde_json::from_str(text).ok()?;
    value.pointer(pointer)?.as_u64()
}

/// `serde_json::from_str`, `serde_json::Value::pointer` and
/// `serde_json::Value::as_bool` one after the other: a function of the text and
/// the pointer.
#[verifier::external_body]
pub(crate) fn json_bool_at(text: &str, pointer: &str) -> (r: Option<bool>)
    ensures
        r == json_flag(text@, pointer@),
{
    let value: serde_json::Value = serde_json::from_str(text).ok()?;
    value.pointer(pointer)?.as_bool()
}

/// `serde_json::from_str`, `serde_json::Value::pointer` and
/// `serde_json::Value::as_array` one after the other, and the length of the
/// array: a function of the text and the pointer.
#[verifier::external_body]
pub(crate) fn json_len_at(text: &str, pointer: &str) -> (r: Option<usize>)
    ensures
        r == json_length(text@, pointer@),
{
    let value: serde_json::Value = serde_json::from_str(text).ok()?;
    value.pointer(pointer)?.as_array().map(Vec::len)
}

/// `serde_json::to_string` on a string: a function of the string.
#[verifier::external_body]
pub(crate) fn json_quote(s: &str) -> (r: String)
    ensures
        r@ == json_literal(s@),
{
    serde_json::to_string(s).unwrap_or_default()
}

} // verus!
