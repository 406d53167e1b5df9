//! Thin trusted wrappers over the JSON tree type.
//!
//! Text frames and token claims arrive as arbitrary JSON.  The tree value
//! itself stays opaque; field lookup on a given tree is deterministic, so
//! what a lookup yields is named and the verified code composes the
//! wrappers and decides everything else.

use vstd::prelude::*;

verus! {

#[verifier::external_type_specification]
#[verifier::external_body]
pub struct ExJsonValue(serde_json::Value);

/// The string content under `key` when the tree `v` is an object holding
/// a JSON string there.
pub uninterp spec fn json_str_field(v: serde_json::Value, key: Seq<char>) -> Option<Seq<char>>;

/// The numeric content under `key` when the tree `v` is an object holding
/// a non-negative integer in `u64` range there.
pub uninterp spec fn json_u64_field(v: serde_json::Value, key: Seq<char>) -> Option<u64>;

/// Relies on `Value::get` and `Value::as_str`: the string under `key`.
#[verifier::external_body]
pub fn json_get_str(v: &serde_json::Value, key: &str) -> (r: Option<String>)
    ensures
        match r {
            Some(s) => json_str_field(*v, key@) == Some(s@),
            None => json_str_field(*v, key@) is None,
        },
{
    match v.get(key) {
        Some(inner) => match inner.as_str() {
            Some(s) => Some(s.to_string()),
            None => None,
        },
        None => None,
    }
}

/// Relies on `Value::get` and `Value::as_u64`: the integer under `key`.
#[verifier::external_body]
pub fn json_get_u64(v: &serde_json::Value, key: &str) -> (r: Option<u64>)
    ensures
        match r {
            Some(n) => json_u64_field(*v, key@) == Some(n),
            None => json_u64_field(*v, key@) is None,
        },
{
    match v.get(key) {
        Some(inner) => inner.as_u64(),
        None => None,
    }
}

/// Relies on `serde_json::to_string`: the serialized text of `v`; for
/// trees read back from parsed text this cannot fail.
#[verifier::external_body]
pub fn json_to_string(v: &serde_json::Value) -> (r: Option<String>) {
    match serde_json::to_string(v) {
        Ok(s) => Some(s),
        Err(_) => None,
    }
}

} // verus!
