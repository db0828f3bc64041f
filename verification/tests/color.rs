use colored::Colorize;
use fltn::color::Color;

#[test]
fn never_disables_colors() {
    colored::control::unset_override();
    Color::Never.set_color();
    let colored_str = "test".red();
    assert_eq!(colored_str.to_string(), "test");
}

#[test]
fn always_enables_colors() {
    colored::control::unset_override();
    Color::Always.set_color();
    let colored_str = "test".red();
    assert!(colored_str.to_string().contains("\x1b["));
}

#[test]
fn auto_does_not_override() {
    colored::control::unset_override();
    // Set to a known state first
    colored::control::set_override(true);
    Color::Auto.set_color();
    // Auto should not change the override, so it should still be true
    let colored_str = "test".red();
    assert!(colored_str.to_string().contains("\x1b["));
}

#[test]
fn color_override_per_choice() {
    assert_eq!(Color::Never.color_override(), Some(false));
    assert_eq!(Color::Auto.color_override(), None);
    assert_eq!(Color::Always.color_override(), Some(true));
}

#[test]
fn set_color_reports_applied_override() {
    colored::control::unset_override();
    assert_eq!(Color::Never.set_color(), Some(false));
    assert_eq!(Color::Always.set_color(), Some(true));
    assert_eq!(Color::Auto.set_color(), None);
    colored::control::unset_override();
}
