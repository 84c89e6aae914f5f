//! What the library reads from a JSON document. Documents and their parts
//! are handled as text; the `serde_json` crate parses them.

use serde_json::Value;
use vstd::prelude::*;

use crate::text::{optional_text, texts};

verus! {

/// The member `key` of the object that the JSON text `doc` writes, as JSON
/// text; `None` where `doc` is no JSON text, writes no object, or the object
/// has no such member.
pub uninterp spec fn json_member(doc: Seq<char>, key: Seq<char>) -> Option<Seq<char>>;

/// The elements of the array that the JSON text `doc` writes, each as JSON
/// text; `None` where `doc` is no JSON text or writes no array.
pub uninterp spec fn json_items(doc: Seq<char>) -> Option<Seq<Seq<char>>>;

/// The string that the JSON text `doc` writes; `None` where `doc` is no JSON
/// text or writes no string.
pub uninterp spec fn json_string(doc: Seq<char>) -> Option<Seq<char>>;

/// The truth value that the JSON text `doc` writes; `None` where `doc` is no
/// JSON text or writes no truth value.
pub uninterp spec fn json_flag(doc: Seq<char>) -> Option<bool>;

/// Why `doc` is no JSON text, in the parser's words; `None` where it is one.
pub uninterp spec fn json_fault(doc: Seq<char>) -> Option<Seq<char>>;

/// Parses `doc` with `serde_json::from_str`, looks the key up with
/// `Value::get` and writes the member found with `serde_json::to_string`.
/// The outcome depends on the two arguments alone and is named
/// `json_member`.
#[verifier::external_body]
pub(crate) fn member(doc: &str, key: &str) -> (r: Option<String>)
    ensures
        optional_text(r) == json_member(doc@, key@),
{
    let v: Value = serde_json::from_str(doc).ok()?;
    serde_json::to_string(v.get(key)?).ok()
}

/// Parses `doc` with `serde_json::from_str`, takes its elements with
/// `Value::as_array` and writes each with `serde_json::to_string`. The
/// outcome depends on the argument alone and is named `json_items`.
#[verifier::external_body]
pub(crate) fn items(doc: &str) -> (r: Option<Vec<String>>)
    ensures
        match r {
            Some(v) => json_items(doc@) == Some(texts(v@)),
            None => json_items(doc@) is None,
        },
{
    let v: Value = serde_json::from_str(doc).ok()?;
    v.as_array()?.iter().map(|e| serde_json::to_string(e).ok()).collect()
}

/// Parses `doc` with `serde_json::from_str` and reads it with
/// `Value::as_str`. The outcome depends on the argument alone and is named
/// `json_string`.
#[verifier::external_body]
pub(crate) fn string(doc: &str) -> (r: Option<String>)
    ensures
        optional_text(r) == json_string(doc@),
{
    let v: Value = serde_json::from_str(doc).ok()?;
    v.as_str().map(|s| s.to_string())
}

/// Parses `doc` with `serde_json::from_str` and reads it with
/// `Value::as_bool`. The outcome depends on the argument alone and is named
/// `json_flag`.
#[verifier::external_body]
pub(crate) fn flag(doc: &str) -> (r: Option<bool>)
    ensures
        r == json_flag(doc@),
{
    let v: Value = serde_json::from_str(doc).ok()?;
    v.as_bool()
}

/// Parses `doc` with `serde_json::from_str` and hands out the text of the
/// error, if there is one. The outcome depends on the argument alone and is
/// named `json_fault`.
#[verifier::external_body]
pub(crate) fn fault(doc: &str) -> (r: Option<String>)
    ensures
        optional_text(r) == json_fault(doc@),
{
    serde_json::from_str::<Value>(doc).err().map(|e| e.to_string())
}

/// The string that the member `key` of `doc` writes.
pub open spec fn text_member(doc: Seq<char>, key: Seq<char>) -> Option<Seq<char>> {
    match json_member(doc, key) {
        Some(m) => json_string(m),
        None => None,
    }
}

/// The string that the member `key` of `doc` writes.
pub fn read_text_member(doc: &str, key: &str) -> (r: Option<String>)
    ensures
        optional_text(r) == text_member(doc@, key@),
{
    match member(doc, key) {
        Some(m) => string(m.as_str()),
        None => None,
    }
}

} // verus!
