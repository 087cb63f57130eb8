use ssr_launcher::fmt::{format_usize, join_keys};
use ssr_launcher::logtext::{build_env_log, render_env_log, sorted_unique_env};
use ssr_launcher::notify::{
    alert_script, escape_js_string, invalid_env_message, loaded_message, missing_file_log_text,
    missing_file_message,
};
use ssr_launcher::parse::parse_env_text;
use ssr_launcher::validate::validate_env_vars;

#[test]
fn numbers_render_in_decimal() {
    assert_eq!(format_usize(0), "0");
    assert_eq!(format_usize(7), "7");
    assert_eq!(format_usize(17), "17");
    assert_eq!(format_usize(1430), "1430");
    assert_eq!(format_usize(100), "100");
}

#[test]
fn keys_join_with_comma_and_space() {
    assert_eq!(join_keys(&Vec::new()), "");
    assert_eq!(join_keys(&vec!["A".to_string()]), "A");
    assert_eq!(join_keys(&vec!["A".to_string(), "B".to_string(), "C".to_string()]), "A, B, C");
}

#[test]
fn escape_covers_the_four_characters() {
    assert_eq!(escape_js_string("a\\b'c\nd\re"), "a\\\\b\\'c\\nd\\re");
    assert_eq!(escape_js_string("plain"), "plain");
    assert_eq!(escape_js_string(""), "");
}

#[test]
fn alert_script_wraps_the_escaped_message() {
    assert_eq!(alert_script("x'y"), "alert('x\\'y')");
}

#[test]
fn notifier_messages_are_exact() {
    assert_eq!(missing_file_message("/a/.env"), "Missing .env file at /a/.env");
    assert_eq!(loaded_message("/a/.env"), "Loaded .env from /a/.env");
    assert_eq!(missing_file_log_text(), "missing .env file\n");
    let missing = vec!["REDIS_URL".to_string()];
    let empty = vec!["AUTH_SECRET".to_string()];
    assert_eq!(
        invalid_env_message("/a/.env", &missing, &empty),
        "Invalid env vars in /a/.env: missing [REDIS_URL], empty [AUTH_SECRET]"
    );
}

#[test]
fn dump_is_sorted_and_deduplicated() {
    let vars = parse_env_text("B=2\nA=1\nB=3");
    let sorted = sorted_unique_env(&vars);
    assert_eq!(sorted.len(), 2);
    assert_eq!(sorted[0].key, "A");
    assert_eq!(sorted[0].value, "1");
    assert_eq!(sorted[1].key, "B");
    assert_eq!(sorted[1].value, "3");
}

#[test]
fn log_block_with_findings() {
    let vars = parse_env_text("B=2\nA=\"\"");
    let required = vec!["A".to_string(), "C".to_string()];
    let report = validate_env_vars(&required, &vars);
    let sorted = sorted_unique_env(&vars);
    let log = build_env_log("/tmp/.env", &report, &sorted);
    assert_eq!(
        log,
        "env path: /tmp/.env\npresent keys: 2\nmissing: C\nempty: A\nvalues:\n  A=\n  B=2\n"
    );
}

#[test]
fn log_block_without_findings_says_ok() {
    let vars = parse_env_text("A=1");
    let required = vec!["A".to_string()];
    let report = validate_env_vars(&required, &vars);
    let sorted = sorted_unique_env(&vars);
    let log = build_env_log("/tmp/.env", &report, &sorted);
    assert_eq!(
        log,
        "env path: /tmp/.env\npresent keys: 1\nvalues:\n  A=1\nstatus: ok\n"
    );
}

#[test]
fn end_to_end_config_scenario() {
    let text = "AUTH_SECRET=\"x\"\n# comment\nDATABASE_URL=postgres://h/db\n";
    let vars = parse_env_text(text);
    assert_eq!(vars.len(), 2);
    let required = vec![
        "AUTH_SECRET".to_string(),
        "DATABASE_URL".to_string(),
        "REDIS_URL".to_string(),
    ];
    let report = validate_env_vars(&required, &vars);
    assert_eq!(report.missing, vec!["REDIS_URL".to_string()]);
    assert_eq!(report.empty, Vec::<String>::new());
    let (sorted, log) = render_env_log("/tmp/.env", &vars, &report);
    assert_eq!(sorted.len(), 2);
    assert_eq!(
        log,
        "env path: /tmp/.env\npresent keys: 2\nmissing: REDIS_URL\nvalues:\n  AUTH_SECRET=x\n  DATABASE_URL=postgres://h/db\n"
    );
}
