use oxidns::diagnostic::locate_in_config;

const CONFIG: &str = "plugins:\n  - tag: a\n    type: forward\n    args:\n      upstream: $cache\n";

#[test]
fn unknown_type_is_found_on_its_line() {
    let loc = locate_in_config(CONFIG, "Unknown plugin type 'forward'").unwrap();
    assert_eq!((loc.line, loc.column, loc.end_column), (3, 11, 18));
    let loc = locate_in_config(CONFIG, "Unknown plugin type: forward, expected one of ...").unwrap();
    assert_eq!((loc.line, loc.column, loc.end_column), (3, 11, 18));
}

#[test]
fn references_prefer_the_dollar_form() {
    let loc = locate_in_config(CONFIG, "plugin 'a' references missing plugin 'cache'").unwrap();
    assert_eq!((loc.line, loc.column, loc.end_column), (5, 17, 23));
}

#[test]
fn unknown_messages_and_missing_tokens_give_none() {
    assert!(locate_in_config(CONFIG, "something else went wrong").is_none());
    assert!(locate_in_config(CONFIG, "Duplicate plugin tag 'zzz'").is_none());
}

#[test]
fn columns_count_bytes() {
    let config = "é: $x\n";
    let loc = locate_in_config(config, "references missing plugin 'x'").unwrap();
    assert_eq!((loc.line, loc.column, loc.end_column), (1, 5, 7));
}
