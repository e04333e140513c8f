//! The JSON boundary: declarations and trusted wrappers around the outside
//! JSON library. Parsed values are opaque here; the verified decoding logic
//! reads them only through these wrappers.

use vstd::prelude::*;

verus! {

#[verifier::external_type_specification]
#[verifier::external_body]
pub struct ExJsonValue(serde_json::Value);

/// The structural height of a JSON value. Nothing is assumed of it beyond
/// the strict decrease that `json_object_entries` states for the members of
/// an object, which grounds recursion over sub-module values.
pub uninterp spec fn json_height(v: serde_json::Value) -> nat;

/// Whether the JSON parser accepts the text; its outcome depends on the
/// text alone.
pub uninterp spec fn json_parses(s: Seq<char>) -> bool;

/// The rendered message of the parse error the JSON parser reports for a
/// rejected text; it too depends on the text alone.
pub uninterp spec fn json_parse_err(s: Seq<char>) -> Seq<char>;

/// Relies on serde_json::from_str::<serde_json::Value>: parses JSON text
/// into a value, or reports the parse error; both the outcome and the
/// error's rendered message, which is carried out as a string, are
/// functions of the text alone.
#[verifier::external_body]
pub fn json_parse(s: &str) -> (r: Result<serde_json::Value, String>)
    ensures
        r is Ok <==> json_parses(s@),
        r matches Err(m) ==> m@ == json_parse_err(s@),
{
    match serde_json::from_str::<serde_json::Value>(s) {
        Ok(v) => Ok(v),
        Err(e) => Err(e.to_string()),
    }
}

/// Relies on serde_json::Value::is_null: whether the value is JSON `null`.
#[verifier::external_body]
pub fn json_is_null(v: &serde_json::Value) -> (r: bool) {
    v.is_null()
}

/// Relies on serde_json::Value::as_str: the content of a JSON string value,
/// and nothing for a value of any other kind.
#[verifier::external_body]
pub fn json_as_str(v: &serde_json::Value) -> (r: Option<String>) {
    v.as_str().map(|s| s.to_owned())
}

/// Relies on serde_json::Value::as_u64: the content of a JSON number that
/// is a non-negative integer fitting in 64 bits, and nothing otherwise.
#[verifier::external_body]
pub fn json_as_u64(v: &serde_json::Value) -> (r: Option<u64>) {
    v.as_u64()
}

/// Relies on serde_json::Value::as_array: the elements of a JSON array, in
/// order, and nothing for a value of any other kind.
#[verifier::external_body]
pub fn json_as_array(v: &serde_json::Value) -> (r: Option<Vec<serde_json::Value>>) {
    v.as_array().map(|a| a.clone())
}

/// Relies on serde_json::Value::as_object and the object map's iteration
/// order: the members of a JSON object, in that order. Each member's value
/// is a strict part of the object, so it stands strictly below the object
/// in structural height.
#[verifier::external_body]
pub fn json_object_entries(v: &serde_json::Value) -> (r: Option<
    Vec<(String, serde_json::Value)>,
>)
    ensures
        r matches Some(entries) ==> json_height(*v) >= 1 && forall|i: int|
            0 <= i < entries@.len() ==> json_height(entries@[i].1) < json_height(*v),
{
    v.as_object().map(|m| m.iter().map(|(k, val)| (k.clone(), val.clone())).collect())
}

} // verus!
