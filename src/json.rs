//! Members of JSON objects, read with serde_json.
use vstd::prelude::*;

verus! {

/// The string that the JSON text `doc` holds under `key`, where `doc` is an
/// object with such a member and the member is a string.
pub uninterp spec fn json_string_field(doc: Seq<char>, key: Seq<char>) -> Option<Seq<char>>;

/// The number that the JSON text `doc` holds under `key`, where `doc` is an
/// object with such a member and the member is an integer that fits in `u16`.
pub uninterp spec fn json_u16_field(doc: Seq<char>, key: Seq<char>) -> Option<u16>;

/// Relies on `serde_json::from_str` (into `serde_json::Value`),
/// `Value::get` and `serde_json::from_value` (into `String`): the result is a
/// function of the two texts alone.
#[verifier::external_body]
pub(crate) fn string_field(doc: &str, key: &str) -> (r: Option<String>)
    ensures
        match r {
            Some(v) => json_string_field(doc@, key@) == Some(v@),
            None => json_string_field(doc@, key@) is None,
        },
{
    let v: serde_json::Value = serde_json::from_str(doc).ok()?;
    serde_json::from_value(v.get(key)?.clone()).ok()
}

/// Relies on `serde_json::from_str` (into `serde_json::Value`),
/// `Value::get` and `serde_json::from_value` (into `u16`): the result is a
/// function of the two texts alone.
#[verifier::external_body]
pub(crate) fn u16_field(doc: &str, key: &str) -> (r: Option<u16>)
    ensures
        r == json_u16_field(doc@, key@),
{
    let v: serde_json::Value = serde_json::from_str(doc).ok()?;
    serde_json::from_value(v.get(key)?.clone()).ok()
}

} // verus!
