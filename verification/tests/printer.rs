use fltn::printer::{plain_text, Printer, Span, Style};
use fltn::value::JsonValue;

fn null() -> JsonValue {
    JsonValue::Null
}

fn boolean(b: bool) -> JsonValue {
    JsonValue::Bool(b)
}

fn num(text: &str) -> JsonValue {
    JsonValue::Number(text.to_string())
}

fn text(s: &str) -> JsonValue {
    JsonValue::String(s.to_string())
}

fn arr(items: Vec<JsonValue>) -> JsonValue {
    JsonValue::Array(items)
}

fn obj(entries: Vec<(&str, JsonValue)>) -> JsonValue {
    JsonValue::Object(entries.into_iter().map(|(k, v)| (k.to_string(), v)).collect())
}

fn print_to_string(value: &JsonValue, sort: bool) -> String {
    let printer = Printer::new(sort);
    let mut buffer: Vec<Span> = Vec::new();
    printer.print(&mut buffer, value);
    plain_text(&buffer)
}

// Basic value tests
#[test]
fn print_null() {
    let output = print_to_string(&null(), false);
    assert_eq!(output, "json = null;\n");
}

#[test]
fn print_bool_true() {
    let output = print_to_string(&boolean(true), false);
    assert_eq!(output, "json = true;\n");
}

#[test]
fn print_bool_false() {
    let output = print_to_string(&boolean(false), false);
    assert_eq!(output, "json = false;\n");
}

#[test]
fn print_integer() {
    let output = print_to_string(&num("42"), false);
    assert_eq!(output, "json = 42;\n");
}

#[test]
fn print_negative_integer() {
    let output = print_to_string(&num("-42"), false);
    assert_eq!(output, "json = -42;\n");
}

#[test]
fn print_float() {
    let output = print_to_string(&num("1.5"), false);
    assert_eq!(output, "json = 1.5;\n");
}

#[test]
fn print_string() {
    let output = print_to_string(&text("hello"), false);
    assert_eq!(output, "json = \"hello\";\n");
}

#[test]
fn print_string_with_quotes() {
    let output = print_to_string(&text("say \"hello\""), false);
    assert_eq!(output, "json = \"say \\\"hello\\\"\";\n");
}

#[test]
fn print_empty_string() {
    let output = print_to_string(&text(""), false);
    assert_eq!(output, "json = \"\";\n");
}

// Array tests
#[test]
fn print_empty_array() {
    let output = print_to_string(&arr(vec![]), false);
    assert_eq!(output, "json = [];\n");
}

#[test]
fn print_array_of_numbers() {
    let output = print_to_string(&arr(vec![num("1"), num("2"), num("3")]), false);
    let expected = "json = [];\njson[0] = 1;\njson[1] = 2;\njson[2] = 3;\n";
    assert_eq!(output, expected);
}

#[test]
fn print_nested_array() {
    let output = print_to_string(&arr(vec![arr(vec![num("1"), num("2")])]), false);
    let expected = "json = [];\njson[0] = [];\njson[0][0] = 1;\njson[0][1] = 2;\n";
    assert_eq!(output, expected);
}

// Object tests
#[test]
fn print_empty_object() {
    let output = print_to_string(&obj(vec![]), false);
    assert_eq!(output, "json = {};\n");
}

#[test]
fn print_simple_object() {
    let output = print_to_string(&obj(vec![("name", text("test"))]), false);
    let expected = "json = {};\njson.name = \"test\";\n";
    assert_eq!(output, expected);
}

#[test]
fn print_nested_object() {
    let output = print_to_string(&obj(vec![("outer", obj(vec![("inner", num("42"))]))]), false);
    let expected = "json = {};\njson.outer = {};\njson.outer.inner = 42;\n";
    assert_eq!(output, expected);
}

#[test]
fn print_object_with_array() {
    let output = print_to_string(&obj(vec![("items", arr(vec![num("1"), num("2")]))]), false);
    let expected = "json = {};\njson.items = [];\njson.items[0] = 1;\njson.items[1] = 2;\n";
    assert_eq!(output, expected);
}

// Field name tests (dot notation vs bracket notation)
#[test]
fn print_valid_field_name() {
    let output = print_to_string(&obj(vec![("validName", num("1"))]), false);
    assert!(output.contains("json.validName"));
}

#[test]
fn print_field_with_hyphen_uses_bracket() {
    let output = print_to_string(&obj(vec![("field-name", num("1"))]), false);
    assert!(output.contains("json[\"field-name\"]"));
}

#[test]
fn print_field_with_space_uses_bracket() {
    let output = print_to_string(&obj(vec![("field name", num("1"))]), false);
    assert!(output.contains("json[\"field name\"]"));
}

#[test]
fn print_field_starting_with_number_uses_bracket() {
    let output = print_to_string(&obj(vec![("123abc", num("1"))]), false);
    assert!(output.contains("json[\"123abc\"]"));
}

#[test]
fn print_empty_field_name_uses_bracket() {
    let output = print_to_string(&obj(vec![("", num("1"))]), false);
    assert!(output.contains("json[\"\"]"));
}

#[test]
fn print_field_with_underscore() {
    let output = print_to_string(&obj(vec![("_private", num("1"))]), false);
    assert!(output.contains("json._private"));
}

#[test]
fn print_field_with_dollar() {
    let output = print_to_string(&obj(vec![("$special", num("1"))]), false);
    assert!(output.contains("json.$special"));
}

// Sort tests
#[test]
fn print_object_unsorted() {
    // Keys keep their insertion order
    let output = print_to_string(&obj(vec![("z", num("1")), ("a", num("2")), ("m", num("3"))]), false);
    let lines: Vec<&str> = output.lines().collect();
    // First line is "json = {};" so check the key order in subsequent lines
    assert!(lines[1].contains(".z"));
    assert!(lines[2].contains(".a"));
    assert!(lines[3].contains(".m"));
}

#[test]
fn print_object_sorted() {
    let output = print_to_string(&obj(vec![("z", num("1")), ("a", num("2")), ("m", num("3"))]), true);
    let lines: Vec<&str> = output.lines().collect();
    // When sorted, should be alphabetical
    assert!(lines[1].contains(".a"));
    assert!(lines[2].contains(".m"));
    assert!(lines[3].contains(".z"));
}

// Valid field name helper tests
#[test]
fn valid_field_name_simple() {
    let printer = Printer::new(false);
    assert!(printer.valid_field_name("name"));
    assert!(printer.valid_field_name("Name"));
    assert!(printer.valid_field_name("_name"));
    assert!(printer.valid_field_name("$name"));
    assert!(printer.valid_field_name("name123"));
}

#[test]
fn invalid_field_name_cases() {
    let printer = Printer::new(false);
    assert!(!printer.valid_field_name(""));
    assert!(!printer.valid_field_name("123"));
    assert!(!printer.valid_field_name("field-name"));
    assert!(!printer.valid_field_name("field name"));
    assert!(!printer.valid_field_name("field.name"));
}

#[test]
fn valid_field_name_unicode() {
    let printer = Printer::new(false);
    assert!(printer.valid_field_name("名前")); // Japanese
    assert!(printer.valid_field_name("имя")); // Russian
}

// Further cases

#[test]
fn sort_nested_objects_sorts_every_level() {
    let value = obj(vec![
        ("b", obj(vec![("y", num("1")), ("x", num("2"))])),
        ("a", num("3")),
    ]);
    let output = print_to_string(&value, true);
    assert_eq!(
        output,
        "json = {};\njson.a = 3;\njson.b = {};\njson.b.x = 2;\njson.b.y = 1;\n"
    );
}

#[test]
fn sort_compares_code_points() {
    let value = obj(vec![("é", num("1")), ("z", num("2")), ("Z", num("3")), ("aa", num("4")), ("a", num("5"))]);
    let output = print_to_string(&value, true);
    assert_eq!(
        output,
        "json = {};\njson.Z = 3;\njson.a = 5;\njson.aa = 4;\njson.z = 2;\njson.é = 1;\n"
    );
}

#[test]
fn mixed_array_types() {
    let value = arr(vec![num("1"), text("two"), boolean(true), null()]);
    let output = print_to_string(&value, false);
    assert_eq!(
        output,
        "json = [];\njson[0] = 1;\njson[1] = \"two\";\njson[2] = true;\njson[3] = null;\n"
    );
}

#[test]
fn index_with_several_digits() {
    let items: Vec<JsonValue> = (0..12).map(|i| num(&i.to_string())).collect();
    let output = print_to_string(&arr(items), false);
    let lines: Vec<&str> = output.lines().collect();
    assert_eq!(lines.len(), 13);
    assert_eq!(lines[11], "json[10] = 10;");
    assert_eq!(lines[12], "json[11] = 11;");
}

#[test]
fn bracket_key_escapes_quotes() {
    let output = print_to_string(&obj(vec![("a\"b", num("1"))]), false);
    assert_eq!(output, "json = {};\njson[\"a\\\"b\"] = 1;\n");
}

#[test]
fn spans_carry_styles() {
    let printer = Printer::new(false);
    let mut buffer: Vec<Span> = Vec::new();
    printer.print(&mut buffer, &obj(vec![("k", arr(vec![null()]))]));
    let styles: Vec<Style> = buffer.iter().map(|s| s.style).collect();
    assert_eq!(
        styles,
        vec![
            Style::Field, Style::Plain, Style::Brace, Style::Plain,
            Style::Field, Style::Plain, Style::Field, Style::Plain, Style::Brace, Style::Brace, Style::Plain,
            Style::Field, Style::Plain, Style::Field, Style::Brace, Style::Number, Style::Brace,
            Style::Plain, Style::Null, Style::Plain,
        ]
    );
}

#[test]
fn lines_one_at_a_time() {
    let value = obj(vec![("a", arr(vec![num("1")])), ("b", null())]);
    let printer = Printer::new(false);
    let mut lines = printer.lines(&value);
    let mut texts: Vec<String> = Vec::new();
    while let Some(line) = lines.next_line() {
        texts.push(plain_text(&line));
    }
    assert!(lines.next_line().is_none());
    assert_eq!(
        texts,
        vec!["json = {};\n", "json.a = [];\n", "json.a[0] = 1;\n", "json.b = null;\n"]
    );
}

#[test]
fn deeply_nested_structure() {
    let mut value = num("1");
    for _ in 0..500 {
        value = arr(vec![value]);
    }
    let output = print_to_string(&value, false);
    assert_eq!(output.lines().count(), 501);
    // Dropping a deep value recursively could exhaust the stack; leak it.
    std::mem::forget(value);
}

#[test]
fn plain_text_concatenates() {
    let spans = vec![
        Span { text: "ab".to_string(), style: Style::Plain },
        Span { text: "".to_string(), style: Style::Brace },
        Span { text: "c".to_string(), style: Style::Field },
    ];
    assert_eq!(plain_text(&spans), "abc");
}

#[test]
fn one_line_per_value_sorted_or_not() {
    let value = obj(vec![
        ("b", arr(vec![num("1"), obj(vec![("y", null()), ("x", boolean(false))])])),
        ("a", text("s")),
    ]);
    let unsorted = print_to_string(&value, false);
    let sorted = print_to_string(&value, true);
    assert_eq!(unsorted.lines().count(), 7);
    assert_eq!(sorted.lines().count(), 7);
    let mut u: Vec<&str> = unsorted.lines().collect();
    let mut s: Vec<&str> = sorted.lines().collect();
    u.sort();
    s.sort();
    assert_eq!(u, s);
}

#[test]
fn every_line_is_an_assignment_from_the_root() {
    let value = obj(vec![("a b", arr(vec![obj(vec![("c", null())])])), ("d", num("2"))]);
    let output = print_to_string(&value, false);
    assert!(output.ends_with(";\n"));
    for line in output.lines() {
        assert!(line.starts_with("json"));
        assert!(line.contains(" = "));
        assert!(line.ends_with(';'));
    }
    assert_eq!(output.lines().next(), Some("json = {};"));
}

#[test]
fn sort_is_stable_for_equal_keys() {
    let value = JsonValue::Object(vec![
        ("b".to_string(), num("1")),
        ("a".to_string(), num("2")),
        ("b".to_string(), num("3")),
        ("a".to_string(), num("4")),
    ]);
    let output = print_to_string(&value, true);
    assert_eq!(
        output,
        "json = {};\njson.a = 2;\njson.a = 4;\njson.b = 1;\njson.b = 3;\n"
    );
}

#[test]
fn unsorted_keeps_document_order() {
    let value = obj(vec![("m", num("1")), ("b", num("2")), ("x", num("3"))]);
    let output = print_to_string(&value, false);
    assert_eq!(output, "json = {};\njson.m = 1;\njson.b = 2;\njson.x = 3;\n");
}

#[test]
fn valid_first_and_following_letters() {
    let printer = Printer::new(false);
    assert!(printer.valid_first_field_letter('a'));
    assert!(printer.valid_first_field_letter('Z'));
    assert!(printer.valid_first_field_letter('$'));
    assert!(printer.valid_first_field_letter('_'));
    assert!(!printer.valid_first_field_letter('1'));
    assert!(!printer.valid_first_field_letter('-'));
    assert!(printer.valid_following_field_letter('1'));
    assert!(printer.valid_following_field_letter('a'));
    assert!(!printer.valid_following_field_letter('-'));
    assert!(!printer.valid_following_field_letter('.'));
}

#[test]
fn unicode_keys_and_values() {
    let value = obj(vec![("greeting", text("こんにちは"))]);
    let output = print_to_string(&value, false);
    assert_eq!(output, "json = {};\njson.greeting = \"こんにちは\";\n");
}

#[test]
fn array_of_objects() {
    let value = arr(vec![obj(vec![("a", num("1"))]), obj(vec![("b", num("2"))])]);
    let output = print_to_string(&value, false);
    assert_eq!(
        output,
        "json = [];\njson[0] = {};\njson[0].a = 1;\njson[1] = {};\njson[1].b = 2;\n"
    );
}

#[test]
fn control_characters_are_escaped() {
    let output = print_to_string(&text("a\nb\tc\\"), false);
    assert_eq!(output, "json = \"a\\nb\\tc\\\\\";\n");
}

#[test]
fn print_string_with_control_characters() {
    let output = print_to_string(&text("a\u{1}b\tc\n\\"), false);
    assert_eq!(output, "json = \"a\\u0001b\\tc\\n\\\\\";\n");
}

#[test]
fn print_key_with_escape_and_hex_digit() {
    let output = print_to_string(&obj(vec![("x\u{1f}\u{8}\u{c}\r", num("1"))]), false);
    assert_eq!(output, "json = {};\njson[\"x\\u001f\\b\\f\\r\"] = 1;\n");
}
