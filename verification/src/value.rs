//! The document model.
use vstd::prelude::*;

verus! {

/// A parsed document: the data model that every input format is read into.
///
/// Numbers are kept as the decimal text that the parser rendered for them,
/// which is exactly what the flattened output shows. Object entries keep
/// their insertion order.
#[derive(Debug, PartialEq, Eq)]
pub enum JsonValue {
    Null,
    Bool(bool),
    Number(String),
    String(String),
    Array(Vec<JsonValue>),
    Object(Vec<(String, JsonValue)>),
}

} // verus!
