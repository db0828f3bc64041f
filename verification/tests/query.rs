use fltn::query::{collect_matches, filter_by_path, query_json_path};
use fltn::value::JsonValue;

fn text(s: &str) -> JsonValue {
    JsonValue::String(s.to_string())
}

fn num(t: &str) -> JsonValue {
    JsonValue::Number(t.to_string())
}

fn obj(entries: Vec<(&str, JsonValue)>) -> JsonValue {
    JsonValue::Object(entries.into_iter().map(|(k, v)| (k.to_string(), v)).collect())
}

fn users() -> JsonValue {
    obj(vec![(
        "users",
        JsonValue::Array(vec![
            obj(vec![("name", text("alice")), ("age", num("30"))]),
            obj(vec![("name", text("bob")), ("age", num("25"))]),
        ]),
    )])
}

#[test]
fn filter_without_path_keeps_document() {
    assert_eq!(filter_by_path(users(), None), Ok(users()));
}

#[test]
fn filter_single_value_is_wrapped_in_array() {
    let r = filter_by_path(users(), Some("$.users[0].name"));
    assert_eq!(r, Ok(JsonValue::Array(vec![text("alice")])));
}

#[test]
fn filter_wildcard_keeps_match_order() {
    let r = filter_by_path(users(), Some("$.users[*].name"));
    assert_eq!(r, Ok(JsonValue::Array(vec![text("alice"), text("bob")])));
}

#[test]
fn filter_numbers_keep_their_text() {
    let doc = obj(vec![("a", obj(vec![("b", num("1.5"))]))]);
    let r = filter_by_path(doc, Some("$.a.b"));
    assert_eq!(r, Ok(JsonValue::Array(vec![num("1.5")])));
}

#[test]
fn filter_without_match_is_empty_array() {
    let r = filter_by_path(users(), Some("$.missing"));
    assert_eq!(r, Ok(JsonValue::Array(vec![])));
}

#[test]
fn filter_invalid_path_is_error() {
    assert!(filter_by_path(users(), Some("$[invalid")).is_err());
}

#[test]
fn query_returns_matched_subtrees() {
    let r = query_json_path(&users(), "$.users[1]");
    assert_eq!(r, Ok(vec![obj(vec![("name", text("bob")), ("age", num("25"))])]));
}

#[test]
fn collect_matches_wraps_or_passes_error() {
    assert_eq!(collect_matches(Ok(vec![num("1")])), Ok(JsonValue::Array(vec![num("1")])));
    assert_eq!(collect_matches(Err("bad".to_string())), Err("bad".to_string()));
}
