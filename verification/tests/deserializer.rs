use fltn::deserializer::{csv_document, trim_quotes, DeserializeError, Deserializer};
use fltn::format::Format;
use fltn::input::Input;
use fltn::value::JsonValue;

fn text(s: &str) -> JsonValue {
    JsonValue::String(s.to_string())
}

fn obj(entries: Vec<(&str, JsonValue)>) -> JsonValue {
    JsonValue::Object(entries.into_iter().map(|(k, v)| (k.to_string(), v)).collect())
}

fn field<'a>(v: &'a JsonValue, key: &str) -> &'a JsonValue {
    match v {
        JsonValue::Object(entries) => &entries.iter().find(|(k, _)| k == key).unwrap().1,
        _ => panic!("not an object"),
    }
}

fn item(v: &JsonValue, i: usize) -> &JsonValue {
    match v {
        JsonValue::Array(items) => &items[i],
        _ => panic!("not an array"),
    }
}

// CSV tests
#[test]
fn deserialize_csv_numbers_as_strings() {
    let csv = String::from(
        "zip,state\n\
        \"02345\",OH\n\
        13003,AL\n",
    );
    let json = Deserializer::new(Input::Stdin(csv), Format::Csv)
        .deserialize()
        .unwrap();

    let expected_json = JsonValue::Array(vec![
        obj(vec![("zip", text("02345")), ("state", text("OH"))]),
        obj(vec![("zip", text("13003")), ("state", text("AL"))]),
    ]);

    assert_eq!(json, expected_json);
}

#[test]
fn deserialize_csv_empty() {
    let csv = String::from("name,value\n");
    let json = Deserializer::new(Input::Stdin(csv), Format::Csv)
        .deserialize()
        .unwrap();

    assert_eq!(json, JsonValue::Array(vec![]));
}

#[test]
fn deserialize_csv_preserves_header_order() {
    let csv = String::from("z,a,m\n1,2,3\n");
    let json = Deserializer::new(Input::Stdin(csv), Format::Csv)
        .deserialize()
        .unwrap();

    let keys: Vec<&String> = match item(&json, 0) {
        JsonValue::Object(entries) => entries.iter().map(|(k, _)| k).collect(),
        _ => panic!("not an object"),
    };
    assert_eq!(keys, vec!["z", "a", "m"]);
}

#[test]
fn deserialize_csv_with_commas_in_values() {
    let csv = String::from("name,address\nJohn,\"123 Main St, Apt 4\"\n");
    let json = Deserializer::new(Input::Stdin(csv), Format::Csv)
        .deserialize()
        .unwrap();

    assert_eq!(field(item(&json, 0), "address"), &text("123 Main St, Apt 4"));
}

#[test]
fn deserialize_csv_uneven_row_is_error() {
    let csv = String::from("a,b\n1,2,3\n");
    let result = Deserializer::new(Input::Stdin(csv), Format::Csv).deserialize_csv();
    assert!(matches!(result, Err(DeserializeError::Csv(_))));
}

#[test]
fn deserialize_csv_trims_leftover_quotes() {
    let csv = String::from("\"\"\"k\"\"\"\n\"\"\"v\"\"\"\n");
    let json = Deserializer::new(Input::Stdin(csv), Format::Csv)
        .deserialize_csv()
        .unwrap();
    assert_eq!(json, JsonValue::Array(vec![obj(vec![("k", text("v"))])]));
}

#[test]
fn deserialize_csv_duplicate_header_keeps_first_place_last_value() {
    let csv = String::from("a,b,a\n1,2,3\n");
    let json = Deserializer::new(Input::Stdin(csv), Format::Csv)
        .deserialize_csv()
        .unwrap();
    assert_eq!(json, JsonValue::Array(vec![obj(vec![("a", text("3")), ("b", text("2"))])]));
}

#[test]
fn csv_document_merges_keys_equal_after_trimming() {
    let rows = vec![vec![
        ("\"k\"".to_string(), "1".to_string()),
        ("x".to_string(), "2".to_string()),
        ("k".to_string(), "\"3\"".to_string()),
    ]];
    let json = csv_document(&rows);
    assert_eq!(json, JsonValue::Array(vec![obj(vec![("k", text("3")), ("x", text("2"))])]));
}

#[test]
fn trim_quotes_cases() {
    assert_eq!(trim_quotes("\"abc\"".to_string()), "abc");
    assert_eq!(trim_quotes("\"\"".to_string()), "");
    assert_eq!(trim_quotes("\"".to_string()), "\"");
    assert_eq!(trim_quotes("\"abc".to_string()), "\"abc");
    assert_eq!(trim_quotes("abc\"".to_string()), "abc\"");
    assert_eq!(trim_quotes("\"日本\"".to_string()), "日本");
    assert_eq!(trim_quotes("plain".to_string()), "plain");
}

#[test]
fn deserializer_keeps_input_and_format() {
    let d = Deserializer::new(Input::Stdin("x".to_string()), Format::Yaml);
    assert_eq!(d.format(), Format::Yaml);
    assert_eq!(d.input().contents(), "x");
}

#[test]
fn deserialize_csv_error_carries_reader_message() {
    let csv = String::from("a,b\n1,2,3\n");
    let result = Deserializer::new(Input::Stdin(csv), Format::Csv).deserialize_csv();
    match result {
        Err(DeserializeError::Csv(message)) => {
            assert!(message.starts_with("CSV error: "));
            assert!(message.contains("found record with 3 fields, but the previous record has 2 fields"));
        }
        other => panic!("expected a CSV error, got {:?}", other),
    }
}

fn num(t: &str) -> JsonValue {
    JsonValue::Number(t.to_string())
}

fn arr(items: Vec<JsonValue>) -> JsonValue {
    JsonValue::Array(items)
}

fn read(input: &str, format: Format) -> Result<JsonValue, DeserializeError> {
    Deserializer::new(Input::Stdin(String::from(input)), format).deserialize()
}

// JSON tests
#[test]
fn deserialize_json_object() {
    let json = read(r#"{"name": "test", "value": 42}"#, Format::Json).unwrap();
    assert_eq!(json, obj(vec![("name", text("test")), ("value", num("42"))]));
}

#[test]
fn deserialize_json_array() {
    let json = read(r#"[1, 2, 3]"#, Format::Json).unwrap();
    assert_eq!(json, arr(vec![num("1"), num("2"), num("3")]));
}

#[test]
fn deserialize_json_nested() {
    let json = read(r#"{"outer": {"inner": {"deep": true}}}"#, Format::Json).unwrap();
    assert_eq!(field(field(field(&json, "outer"), "inner"), "deep"), &JsonValue::Bool(true));
}

#[test]
fn deserialize_json_with_all_types() {
    let json = read(
        r#"{"string": "hello", "number": 42, "float": 1.5, "bool": true, "null": null, "array": [1,2]}"#,
        Format::Json,
    )
    .unwrap();
    assert_eq!(field(&json, "string"), &text("hello"));
    assert_eq!(field(&json, "number"), &num("42"));
    assert_eq!(field(&json, "float"), &num("1.5"));
    assert_eq!(field(&json, "bool"), &JsonValue::Bool(true));
    assert_eq!(field(&json, "null"), &JsonValue::Null);
    assert_eq!(field(&json, "array"), &arr(vec![num("1"), num("2")]));
}

#[test]
fn deserialize_json_invalid() {
    let result = read(r#"{"invalid": }"#, Format::Json);
    assert!(result.is_err());
}

// TOML tests
#[test]
fn deserialize_toml_basic() {
    let json = read("name = \"test\"\nvalue = 42\n", Format::Toml).unwrap();
    assert_eq!(json, obj(vec![("name", text("test")), ("value", num("42"))]));
}

#[test]
fn deserialize_toml_nested_table() {
    let json = read("[server]\nhost = \"localhost\"\nport = 8080\n", Format::Toml).unwrap();
    assert_eq!(field(field(&json, "server"), "host"), &text("localhost"));
    assert_eq!(field(field(&json, "server"), "port"), &num("8080"));
}

#[test]
fn deserialize_toml_array() {
    let json = read("values = [1, 2, 3]\n", Format::Toml).unwrap();
    assert_eq!(field(&json, "values"), &arr(vec![num("1"), num("2"), num("3")]));
}

#[test]
fn deserialize_toml_invalid() {
    let result = read("invalid = [unclosed", Format::Toml);
    assert!(result.is_err());
}

// YAML tests
#[test]
fn deserialize_yaml_basic() {
    let json = read("name: test\nvalue: 42\n", Format::Yaml).unwrap();
    assert_eq!(json, obj(vec![("name", text("test")), ("value", num("42"))]));
}

#[test]
fn deserialize_yaml_nested() {
    let json = read("server:\n  host: localhost\n  port: 8080\n", Format::Yaml).unwrap();
    assert_eq!(field(field(&json, "server"), "host"), &text("localhost"));
    assert_eq!(field(field(&json, "server"), "port"), &num("8080"));
}

#[test]
fn deserialize_yaml_array() {
    let json = read("values:\n  - 1\n  - 2\n  - 3\n", Format::Yaml).unwrap();
    assert_eq!(field(&json, "values"), &arr(vec![num("1"), num("2"), num("3")]));
}

#[test]
fn deserialize_yaml_inline_array() {
    let json = read("values: [1, 2, 3]\n", Format::Yaml).unwrap();
    assert_eq!(field(&json, "values"), &arr(vec![num("1"), num("2"), num("3")]));
}

#[test]
fn deserialize_yaml_invalid() {
    let result = read("invalid:\n  - missing\n value", Format::Yaml);
    assert!(result.is_err());
}

// Errors of each format
#[test]
fn deserialize_errors_name_their_format() {
    assert!(matches!(read("{", Format::Json), Err(DeserializeError::Json(m)) if !m.is_empty()));
    assert!(matches!(read("a = [", Format::Toml), Err(DeserializeError::Toml(m)) if !m.is_empty()));
    assert!(matches!(read("a: [", Format::Yaml), Err(DeserializeError::Yaml(m)) if !m.is_empty()));
}

#[test]
fn deserialize_json_error_message_has_position() {
    match read("{\"a\": }", Format::Json) {
        Err(DeserializeError::Json(m)) => assert!(m.contains("line 1 column 7")),
        other => panic!("expected a JSON error, got {:?}", other),
    }
}

#[test]
fn deserialize_json_deep_nesting_without_limit() {
    let depth = 1000;
    let input = format!("{}{}", "[".repeat(depth), "]".repeat(depth));
    let mut json = read(&input, Format::Json).unwrap();
    let mut levels = 1;
    while let JsonValue::Array(mut items) = json {
        if items.is_empty() {
            break;
        }
        json = items.remove(0);
        levels += 1;
    }
    assert_eq!(levels, depth);
}
