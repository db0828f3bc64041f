//! The `serde_json` tree that the parsers and the JSONPath query work on,
//! and its conversion to and from the document model.
use serde_json::Value;
use vstd::prelude::*;

use crate::value::JsonValue;

verus! {

/// `serde_json::Value`, the tree that the JSON, TOML and YAML parsers build
/// and that `jsonpath_rust` queries.
#[verifier::external_type_specification]
#[verifier::external_body]
pub struct ExSerdeValue(serde_json::Value);

/// The `serde_json::Value` for a document: the same tree, a number parsed
/// back from its text (a text that does not parse as a JSON number becomes
/// a string). Nothing is stated of the result.
#[verifier::external_body]
pub(crate) fn to_serde_value(value: &JsonValue) -> Value {
    match value {
        JsonValue::Null => Value::Null,
        JsonValue::Bool(b) => Value::Bool(*b),
        JsonValue::Number(text) => serde_json::from_str(text).map_or_else(|_| Value::String(text.clone()), Value::Number),
        JsonValue::String(s) => Value::String(s.clone()),
        JsonValue::Array(items) => Value::Array(items.iter().map(to_serde_value).collect()),
        JsonValue::Object(entries) => Value::Object(entries.iter().map(|(k, v)| (k.clone(), to_serde_value(v))).collect()),
    }
}

/// The document for a `serde_json::Value`: the same tree, a number kept as
/// the text that `serde_json` displays for it. Nothing is stated of the
/// result.
#[verifier::external_body]
pub(crate) fn from_serde_value(value: &Value) -> JsonValue {
    match value {
        Value::Null => JsonValue::Null,
        Value::Bool(b) => JsonValue::Bool(*b),
        Value::Number(n) => JsonValue::Number(n.to_string()),
        Value::String(s) => JsonValue::String(s.clone()),
        Value::Array(items) => JsonValue::Array(items.iter().map(from_serde_value).collect()),
        Value::Object(map) => JsonValue::Object(map.iter().map(|(k, v)| (k.clone(), from_serde_value(v))).collect()),
    }
}

} // verus!
