//! Filtering a document with a JSONPath expression.
use jsonpath_rust::JsonPath;
use vstd::prelude::*;

use crate::tree::{from_serde_value, to_serde_value};
use crate::value::JsonValue;

verus! {

/// What the JSONPath expression `path` selects from `doc`: the matched
/// values in the order `jsonpath_rust` yields them, or `None` where the
/// expression does not parse. The query runs on the document as
/// `to_serde_value` hands it over (a number whose text is not a JSON number
/// is queried as a string).
pub uninterp spec fn json_path_matches(doc: JsonValue, path: Seq<char>) -> Option<Seq<JsonValue>>;

/// Calls `JsonPath::query` of `jsonpath_rust` on the document with the
/// expression `path`. The query is a function of the document and the
/// expression: it yields the matched values (`Ok`), or an error where the
/// expression does not parse. The matches are named
/// `json_path_matches(*doc, path@)`; the error's text is `JsonPathError`'s
/// display and is not stated.
#[verifier::external_body]
pub fn query_json_path(doc: &JsonValue, path: &str) -> (r: Result<Vec<JsonValue>, String>)
    ensures
        match r {
            Ok(items) => json_path_matches(*doc, path@) == Some(items@),
            Err(_) => json_path_matches(*doc, path@) is None,
        },
{
    match to_serde_value(doc).query(path) {
        Ok(found) => Ok(found.into_iter().map(from_serde_value).collect()),
        Err(error) => Err(error.to_string()),
    }
}

/// The document that a query answers with: its matches gathered into one
/// array, or the query's error unchanged.
pub fn collect_matches(found: Result<Vec<JsonValue>, String>) -> (r: Result<JsonValue, String>)
    ensures
        match found {
            Ok(items) => r == Ok::<JsonValue, String>(JsonValue::Array(items)),
            Err(e) => r == Err::<JsonValue, String>(e),
        },
{
    match found {
        Ok(items) => Ok(JsonValue::Array(items)),
        Err(e) => Err(e),
    }
}

/// Filters the document with an optional JSONPath expression: without one
/// the document is returned unchanged; with one, the values it selects are
/// returned as an array, and an expression that does not parse is an error.
pub fn filter_by_path(value: JsonValue, path: Option<&str>) -> (r: Result<JsonValue, String>)
    ensures
        path is None ==> r == Ok::<JsonValue, String>(value),
        path matches Some(p) ==> match json_path_matches(value, p@) {
            Some(items) => r matches Ok(JsonValue::Array(a)) && a@ == items,
            None => r is Err,
        },
{
    match path {
        None => Ok(value),
        Some(p) => collect_matches(query_json_path(&value, p)),
    }
}

} // verus!
