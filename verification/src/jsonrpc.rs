//! Trusted access to the JSON responses of the node daemons.
//!
//! The daemons answer RPC commands with JSON text. Decoding that text is
//! delegated to serde_json; each extraction below is a pure function of the
//! text and its arguments, named by an uninterpreted spec function that the
//! verified parsers build their contracts on.

use vstd::prelude::*;

verus! {

/// Whether a text is a well-formed JSON document.
pub uninterp spec fn json_valid(s: Seq<char>) -> bool;

/// The named top-level field of a JSON document, when it is a string.
pub uninterp spec fn json_str_field(s: Seq<char>, key: Seq<char>) -> Option<Seq<char>>;

/// The named top-level field of a JSON document, when it is an unsigned
/// integer.
pub uninterp spec fn json_u64_field(s: Seq<char>, key: Seq<char>) -> Option<u64>;

/// The named top-level field of a JSON document, when it is a boolean.
pub uninterp spec fn json_bool_field(s: Seq<char>, key: Seq<char>) -> Option<bool>;

/// The JSON text of the named top-level field of a document.
pub uninterp spec fn json_field_text(s: Seq<char>, key: Seq<char>) -> Option<Seq<char>>;

/// The document decoded as an array of strings.
pub uninterp spec fn json_string_array(s: Seq<char>) -> Option<Seq<Seq<char>>>;

/// The length of the named top-level field, when it is an array.
pub uninterp spec fn json_array_len(s: Seq<char>, key: Seq<char>) -> Option<int>;

/// The named string field of the `idx`-th element of the named array field.
pub uninterp spec fn json_arr_str(s: Seq<char>, key: Seq<char>, idx: int, field: Seq<char>) -> Option<
    Seq<char>,
>;

/// The named boolean field of the `idx`-th element of the named array field.
pub uninterp spec fn json_arr_bool(s: Seq<char>, key: Seq<char>, idx: int, field: Seq<char>) -> Option<
    bool,
>;

/// Relies on serde_json::from_str::<serde_json::Value>: whether the text
/// parses as JSON. Parsing is a pure function of the text.
#[verifier::external_body]
pub(crate) fn json_is_valid(raw: &str) -> (r: bool)
    ensures
        r == json_valid(raw@),
{
    serde_json::from_str::<serde_json::Value>(raw).is_ok()
}

/// Relies on serde_json::from_str::<serde_json::Value>, Value::get and
/// Value::as_str: the named top-level string field. A field is only found in
/// a document that parses.
#[verifier::external_body]
pub(crate) fn json_get_str(raw: &str, key: &str) -> (r: Option<String>)
    ensures
        r.deep_view() == json_str_field(raw@, key@),
        r is Some ==> json_valid(raw@),
{
    match serde_json::from_str::<serde_json::Value>(raw) {
        Ok(v) => v.get(key).and_then(|f| f.as_str()).map(|s| s.to_string()),
        Err(_) => None,
    }
}

/// Relies on serde_json::from_str::<serde_json::Value>, Value::get and
/// Value::as_u64: the named top-level unsigned integer field. A field is only
/// found in a document that parses.
#[verifier::external_body]
pub(crate) fn json_get_u64(raw: &str, key: &str) -> (r: Option<u64>)
    ensures
        r == json_u64_field(raw@, key@),
        r is Some ==> json_valid(raw@),
{
    match serde_json::from_str::<serde_json::Value>(raw) {
        Ok(v) => v.get(key).and_then(|f| f.as_u64()),
        Err(_) => None,
    }
}

/// Relies on serde_json::from_str::<serde_json::Value>, Value::get and
/// Value::as_bool: the named top-level boolean field. A field is only found
/// in a document that parses.
#[verifier::external_body]
pub(crate) fn json_get_bool(raw: &str, key: &str) -> (r: Option<bool>)
    ensures
        r == json_bool_field(raw@, key@),
        r is Some ==> json_valid(raw@),
{
    match serde_json::from_str::<serde_json::Value>(raw) {
        Ok(v) => v.get(key).and_then(|f| f.as_bool()),
        Err(_) => None,
    }
}

/// Relies on serde_json::from_str::<serde_json::Value>, Value::get and
/// Value::to_string: the named top-level field rendered back as JSON text,
/// whatever its type. Rendering is a pure function of the value.
#[verifier::external_body]
pub(crate) fn json_get_field_text(raw: &str, key: &str) -> (r: Option<String>)
    ensures
        r.deep_view() == json_field_text(raw@, key@),
        r is Some ==> json_valid(raw@),
{
    match serde_json::from_str::<serde_json::Value>(raw) {
        Ok(v) => v.get(key).map(|f| f.to_string()),
        Err(_) => None,
    }
}

/// Relies on serde_json::from_str::<Vec<String>>: the document decoded as an
/// array of strings.
#[verifier::external_body]
pub(crate) fn json_parse_string_array(raw: &str) -> (r: Option<Vec<String>>)
    ensures
        r.deep_view() == json_string_array(raw@),
        r is Some ==> json_valid(raw@),
{
    serde_json::from_str::<Vec<String>>(raw).ok()
}

/// Relies on serde_json::from_str::<serde_json::Value>, Value::get and
/// Value::as_array: the length of the named top-level array field.
#[verifier::external_body]
pub(crate) fn json_get_array_len(raw: &str, key: &str) -> (r: Option<usize>)
    ensures
        match r {
            Some(n) => json_array_len(raw@, key@) == Some(n as int) && json_valid(raw@),
            None => json_array_len(raw@, key@) is None,
        },
{
    match serde_json::from_str::<serde_json::Value>(raw) {
        Ok(v) => v.get(key).and_then(|f| f.as_array()).map(|a| a.len()),
        Err(_) => None,
    }
}

/// Relies on serde_json::from_str::<serde_json::Value>, Value::get,
/// Value::as_array and Value::as_str: a string field of one element of the
/// named top-level array field.
#[verifier::external_body]
pub(crate) fn json_get_arr_str(raw: &str, key: &str, idx: usize, field: &str) -> (r: Option<
    String,
>)
    ensures
        r.deep_view() == json_arr_str(raw@, key@, idx as int, field@),
{
    match serde_json::from_str::<serde_json::Value>(raw) {
        Ok(v) => v
            .get(key)
            .and_then(|f| f.as_array())
            .and_then(|a| a.get(idx))
            .and_then(|o| o.get(field))
            .and_then(|f| f.as_str())
            .map(|s| s.to_string()),
        Err(_) => None,
    }
}

/// Relies on serde_json::from_str::<serde_json::Value>, Value::get,
/// Value::as_array and Value::as_bool: a boolean field of one element of the
/// named top-level array field.
#[verifier::external_body]
pub(crate) fn json_get_arr_bool(raw: &str, key: &str, idx: usize, field: &str) -> (r: Option<bool>)
    ensures
        r == json_arr_bool(raw@, key@, idx as int, field@),
{
    match serde_json::from_str::<serde_json::Value>(raw) {
        Ok(v) => v
            .get(key)
            .and_then(|f| f.as_array())
            .and_then(|a| a.get(idx))
            .and_then(|o| o.get(field))
            .and_then(|f| f.as_bool()),
        Err(_) => None,
    }
}

} // verus!
