use fltn::format::Format;
use fltn::input::Input;

// contents() tests
#[test]
fn contents_from_stdin() {
    let input = Input::Stdin("test content".to_string());
    assert_eq!(input.contents(), "test content");
}

#[test]
fn contents_from_file() {
    let input = Input::File("/test/path.json".to_string(), "file content".to_string());
    assert_eq!(input.contents(), "file content");
}

#[test]
fn contents_empty_string() {
    let input = Input::Stdin(String::new());
    assert_eq!(input.contents(), "");
}

#[test]
fn contents_with_unicode() {
    let input = Input::Stdin("日本語 テスト 🎉".to_string());
    assert_eq!(input.contents(), "日本語 テスト 🎉");
}

#[test]
fn contents_with_newlines() {
    let input = Input::Stdin("line1\nline2\nline3".to_string());
    assert_eq!(input.contents(), "line1\nline2\nline3");
}

// guess_format() tests
#[test]
fn guess_format_json_file() {
    let input = Input::File("data.json".to_string(), String::new());
    assert!(matches!(input.guess_format(), Some(Format::Json)));
}

#[test]
fn guess_format_csv_file() {
    let input = Input::File("data.csv".to_string(), String::new());
    assert!(matches!(input.guess_format(), Some(Format::Csv)));
}

#[test]
fn guess_format_toml_file() {
    let input = Input::File("config.toml".to_string(), String::new());
    assert!(matches!(input.guess_format(), Some(Format::Toml)));
}

#[test]
fn guess_format_yaml_file() {
    let input = Input::File("config.yaml".to_string(), String::new());
    assert!(matches!(input.guess_format(), Some(Format::Yaml)));
}

#[test]
fn guess_format_yml_file() {
    let input = Input::File("config.yml".to_string(), String::new());
    assert!(matches!(input.guess_format(), Some(Format::Yaml)));
}

#[test]
fn guess_format_unknown_extension() {
    let input = Input::File("data.xyz".to_string(), String::new());
    assert!(input.guess_format().is_none());
}

#[test]
fn guess_format_stdin_returns_none() {
    let input = Input::Stdin("{}".to_string());
    assert!(input.guess_format().is_none());
}

#[test]
fn guess_format_no_extension() {
    let input = Input::File("README".to_string(), String::new());
    assert!(input.guess_format().is_none());
}

// choose_format() tests
#[test]
fn explicit_format_wins_over_extension() {
    let input = Input::File("data.json".to_string(), String::new());
    assert_eq!(input.choose_format(Some(Format::Csv)), Format::Csv);
}

#[test]
fn extension_used_without_explicit_format() {
    let input = Input::File("data.toml".to_string(), String::new());
    assert_eq!(input.choose_format(None), Format::Toml);
}

#[test]
fn stdin_without_format_defaults_to_json() {
    let input = Input::Stdin("a: 1".to_string());
    assert_eq!(input.choose_format(None), Format::Json);
}

#[test]
fn unknown_extension_defaults_to_json() {
    let input = Input::File("data.xyz".to_string(), String::new());
    assert_eq!(input.choose_format(None), Format::Json);
}
