use ssr_launcher::parse::{parse_env_line, parse_env_text, unquote_env_value};
use ssr_launcher::text::trim_str;

fn entry(line: &str) -> Option<(String, String)> {
    parse_env_line(line).map(|e| (e.key, e.value))
}

#[test]
fn key_value_line_yields_one_entry() {
    let vars = parse_env_text("FOO=bar");
    assert_eq!(vars.len(), 1);
    assert_eq!(vars[0].key, "FOO");
    assert_eq!(vars[0].value, "bar");
}

#[test]
fn key_and_value_are_trimmed() {
    assert_eq!(
        entry("  FOO  =  bar baz  "),
        Some(("FOO".to_string(), "bar baz".to_string()))
    );
}

#[test]
fn blank_lines_contribute_nothing() {
    assert_eq!(entry(""), None);
    assert_eq!(entry("   \t  "), None);
    let vars = parse_env_text("\n\n   \n");
    assert_eq!(vars.len(), 0);
}

#[test]
fn comment_lines_contribute_nothing() {
    assert_eq!(entry("# FOO=bar"), None);
    assert_eq!(entry("   #FOO=bar"), None);
    let vars = parse_env_text("# a\nFOO=1\n# b");
    assert_eq!(vars.len(), 1);
    assert_eq!(vars[0].key, "FOO");
}

#[test]
fn export_prefix_is_stripped() {
    assert_eq!(entry("export FOO=bar"), entry("FOO=bar"));
    assert_eq!(
        entry("export FOO=bar"),
        Some(("FOO".to_string(), "bar".to_string()))
    );
}

#[test]
fn double_quoted_value_loses_the_pair() {
    assert_eq!(
        entry("KEY=\"quoted value\""),
        Some(("KEY".to_string(), "quoted value".to_string()))
    );
}

#[test]
fn single_quoted_value_loses_the_pair() {
    assert_eq!(
        entry("KEY='quoted'"),
        Some(("KEY".to_string(), "quoted".to_string()))
    );
}

#[test]
fn mismatched_quotes_stay() {
    assert_eq!(unquote_env_value("\"abc'"), "\"abc'");
    assert_eq!(unquote_env_value("'abc\""), "'abc\"");
    assert_eq!(unquote_env_value("\"abc"), "\"abc");
}

#[test]
fn unquote_keeps_inner_quotes() {
    assert_eq!(unquote_env_value("\"a\"b\""), "a\"b");
    assert_eq!(unquote_env_value("\""), "\"");
    assert_eq!(unquote_env_value("\"\""), "");
    assert_eq!(unquote_env_value("plain"), "plain");
}

#[test]
fn missing_key_is_skipped() {
    assert_eq!(entry("=value"), None);
    assert_eq!(entry("   = value"), None);
}

#[test]
fn line_without_equals_keeps_empty_value() {
    assert_eq!(entry("KEY"), Some(("KEY".to_string(), String::new())));
}

#[test]
fn bare_export_is_a_key() {
    assert_eq!(entry("export"), Some(("export".to_string(), String::new())));
}

#[test]
fn value_splits_at_first_equals_only() {
    assert_eq!(
        entry("KEY=a=b=c"),
        Some(("KEY".to_string(), "a=b=c".to_string()))
    );
}

#[test]
fn crlf_lines_parse_cleanly() {
    let vars = parse_env_text("A=1\r\nB=2\r\n");
    assert_eq!(vars.len(), 2);
    assert_eq!(vars[0].key, "A");
    assert_eq!(vars[0].value, "1");
    assert_eq!(vars[1].key, "B");
    assert_eq!(vars[1].value, "2");
}

#[test]
fn duplicate_keys_both_parsed_in_order() {
    let vars = parse_env_text("A=1\nA=2");
    assert_eq!(vars.len(), 2);
    assert_eq!(vars[0].value, "1");
    assert_eq!(vars[1].value, "2");
}

#[test]
fn trim_str_removes_both_ends() {
    assert_eq!(trim_str("  a b \t"), "a b");
    assert_eq!(trim_str(""), "");
    assert_eq!(trim_str(" \r\n "), "");
}
