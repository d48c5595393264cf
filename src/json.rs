//! Event records are JSON documents held as `serde_json::Value`. The library
//! reads and edits them only through the few calls below, whose contracts speak
//! of an object's fields as a map from key text to value.
use serde_json::Value;
use vstd::prelude::*;

verus! {

#[verifier::external_type_specification]
#[verifier::external_body]
pub struct ExValue(serde_json::Value);

/// The fields of a JSON value that is an object; `None` for any other value.
pub uninterp spec fn object_fields(v: Value) -> Option<Map<Seq<char>, Value>>;

/// The text of a JSON value that is a string; `None` for any other value.
pub uninterp spec fn string_text(v: Value) -> Option<Seq<char>>;

/// The JSON document that serde_json reads from a byte string, if it reads one.
pub uninterp spec fn json_document(b: Seq<u8>) -> Option<Value>;

/// The text of the string field `key` of the object `fields`.
pub open spec fn text_in(fields: Map<Seq<char>, Value>, key: Seq<char>) -> Option<Seq<char>> {
    if fields.contains_key(key) {
        string_text(fields[key])
    } else {
        None
    }
}

/// The text of the string field `key` of `v`, when `v` is an object that has one.
pub open spec fn text_field(v: Value, key: Seq<char>) -> Option<Seq<char>> {
    match object_fields(v) {
        Some(m) => text_in(m, key),
        None => None,
    }
}

/// Relies on serde_json::from_slice::<Value>: the document is a function of the
/// bytes alone (invalid UTF-8 or JSON gives none).
#[verifier::external_body]
pub(crate) fn parse_json(bytes: &[u8]) -> (r: Option<Value>)
    ensures
        r == json_document(bytes@),
{
    serde_json::from_slice::<Value>(bytes).ok()
}

/// Relies on serde_json::Map::remove: the key is gone afterwards and every other
/// field is kept. A value that is not an object is left alone.
#[verifier::external_body]
pub(crate) fn remove_field(v: &mut Value, key: &str)
    ensures
        match object_fields(*old(v)) {
            Some(m) => object_fields(*final(v)) == Some(m.remove(key@)),
            None => *final(v) == *old(v),
        },
{
    if let Value::Object(m) = v {
        m.remove(key);
    }
}

/// Relies on serde_json::Map::insert: the key then maps to the new value and
/// every other field is kept. A value that is not an object is left alone.
#[verifier::external_body]
pub(crate) fn insert_field(v: &mut Value, key: String, x: Value)
    ensures
        match object_fields(*old(v)) {
            Some(m) => object_fields(*final(v)) == Some(m.insert(key@, x)),
            None => *final(v) == *old(v),
        },
{
    if let Value::Object(m) = v {
        m.insert(key, x);
    }
}

/// Relies on serde_json::Value::get with a string key and Value::as_str: the text
/// of a string field of an object, nothing for a missing or non-string field.
#[verifier::external_body]
pub(crate) fn string_field(v: &Value, key: &str) -> (r: Option<String>)
    ensures
        match r {
            Some(s) => text_field(*v, key@) == Some(s@),
            None => text_field(*v, key@) is None,
        },
        r is Some ==> string_text(object_fields(*v)->Some_0[key@]) == Some(r->Some_0@),
{
    v.get(key).and_then(Value::as_str).map(String::from)
}

} // verus!
