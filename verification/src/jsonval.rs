//! The JSON documents the outbound APIs answer with, as opaque values. The
//! outside crate parses and navigates them; every decision taken on what
//! comes out — which field, which default, which message — is verified in
//! the modules that call these wrappers.
use vstd::prelude::*;

verus! {

#[verifier::external_type_specification]
#[verifier::external_body]
pub struct ExValue(serde_json::Value);

/// Relies on `serde_json::from_str`: parses a JSON document; yields nothing
/// when the text is not valid JSON. The value is opaque here; callers state
/// their contracts over what the field accessors hand back.
#[verifier::external_body]
pub(crate) fn json_parse(s: &str) -> (r: Option<serde_json::Value>) {
    serde_json::from_str(s).ok()
}

/// Relies on `serde_json::Value::get`: the member of an object under a key,
/// if the value is an object with that member.
#[verifier::external_body]
pub(crate) fn json_get<'a>(v: &'a serde_json::Value, key: &str) -> (r: Option<&'a serde_json::Value>) {
    v.get(key)
}

/// Relies on `serde_json::Value::get`: the element of an array at an index,
/// if the value is an array that long.
#[verifier::external_body]
pub(crate) fn json_at<'a>(v: &'a serde_json::Value, index: usize) -> (r: Option<&'a serde_json::Value>) {
    v.get(index)
}

/// Relies on `serde_json::Value::as_str`: the text of a JSON string value.
#[verifier::external_body]
pub(crate) fn json_as_string(v: &serde_json::Value) -> (r: Option<String>) {
    v.as_str().map(str::to_owned)
}

/// Relies on `serde_json::Value::as_u64`: the value of a JSON number that
/// is a whole number in range.
#[verifier::external_body]
pub(crate) fn json_as_u64(v: &serde_json::Value) -> (r: Option<u64>) {
    v.as_u64()
}

/// Relies on `serde_json::Value::as_bool`: the value of a JSON boolean.
#[verifier::external_body]
pub(crate) fn json_as_bool(v: &serde_json::Value) -> (r: Option<bool>) {
    v.as_bool()
}

/// Relies on `serde_json::Value::as_array`: how many elements a JSON array
/// value has.
#[verifier::external_body]
pub(crate) fn json_array_len(v: &serde_json::Value) -> (r: Option<usize>) {
    v.as_array().map(Vec::len)
}

/// The string member of an object under a key, if there is one.
pub(crate) fn json_str_field(v: &serde_json::Value, key: &str) -> Option<String> {
    match json_get(v, key) {
        Some(f) => json_as_string(f),
        None => None,
    }
}

/// The whole-number member of an object under a key, if there is one.
pub(crate) fn json_u64_field(v: &serde_json::Value, key: &str) -> Option<u64> {
    match json_get(v, key) {
        Some(f) => json_as_u64(f),
        None => None,
    }
}

/// The boolean member of an object under a key, or `false` when absent or
/// of another type.
pub(crate) fn json_bool_field(v: &serde_json::Value, key: &str) -> bool {
    match json_get(v, key) {
        Some(f) => match json_as_bool(f) {
            Some(b) => b,
            None => false,
        },
        None => false,
    }
}

} // verus!
