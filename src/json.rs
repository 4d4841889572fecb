//! The JSON reader this crate relies on, seen through the values it reads.

use vstd::prelude::*;

verus! {

/// The number of elements of the array that `serde_json` reads from `text`, when
/// `text` is a JSON array.
pub uninterp spec fn json_array_len(text: Seq<char>) -> Option<usize>;

/// Relies on `serde_json::from_str` into a `serde_json::Value`, then `Value::as_array`:
/// the length of the array when the text is one.
#[verifier::external_body]
pub(crate) fn array_len(text: &str) -> (r: Option<usize>)
    ensures
        r == json_array_len(text@),
{
    serde_json::from_str::<serde_json::Value>(text).ok()?.as_array().map(Vec::len)
}

/// The string that `serde_json` finds at JSON pointer `pointer` in the document `text`.
pub uninterp spec fn json_str_at(text: Seq<char>, pointer: Seq<char>) -> Option<Seq<char>>;

/// The unsigned integer that `serde_json` finds at JSON pointer `pointer` in the
/// document `text`.
pub uninterp spec fn json_u64_at(text: Seq<char>, pointer: Seq<char>) -> Option<u64>;

/// Relies on `serde_json::from_str` into a `serde_json::Value`, then `Value::pointer`
/// and `Value::as_str`: the string at that place of the document, when there is one.
#[verifier::external_body]
pub(crate) fn str_at(text: &str, pointer: &str) -> (r: Option<String>)
    ensures
        r.deep_view() == json_str_at(text@, pointer@),
{
    let v = serde_json::from_str::<serde_json::Value>(text).ok()?;
    v.pointer(pointer)?.as_str().map(String::from)
}

/// Relies on `serde_json::from_str` into a `serde_json::Value`, then `Value::pointer`
/// and `Value::as_u64`: the non-negative integer at that place of the document, when
/// there is one.
#[verifier::external_body]
pub(crate) fn u64_at(text: &str, pointer: &str) -> (r: Option<u64>)
    ensures
        r == json_u64_at(text@, pointer@),
{
    serde_json::from_str::<serde_json::Value>(text).ok()?.pointer(pointer)?.as_u64()
}

} // verus!
