use ssr_launcher::parse::{parse_env_text, EnvEntry};
use ssr_launcher::validate::{lookup_env, required_keys, validate_env_vars};

fn entries(pairs: &[(&str, &str)]) -> Vec<EnvEntry> {
    pairs
        .iter()
        .map(|(k, v)| EnvEntry { key: k.to_string(), value: v.to_string() })
        .collect()
}

fn keys(list: &[&str]) -> Vec<String> {
    list.iter().map(|k| k.to_string()).collect()
}

#[test]
fn present_but_blank_value_is_reported_empty() {
    let required = keys(&["A", "B"]);
    let parsed = entries(&[("A", "1"), ("B", "")]);
    let report = validate_env_vars(&required, &parsed);
    assert_eq!(report.missing, Vec::<String>::new());
    assert_eq!(report.empty, vec!["B".to_string()]);
}

#[test]
fn no_entries_means_everything_missing() {
    let required = keys(&["A", "B"]);
    let report = validate_env_vars(&required, &Vec::new());
    assert_eq!(report.missing, vec!["A".to_string(), "B".to_string()]);
    assert_eq!(report.empty, Vec::<String>::new());
}

#[test]
fn full_required_set_missing_on_empty_parse() {
    let required = required_keys();
    let report = validate_env_vars(&required, &Vec::new());
    assert_eq!(report.missing, required);
    assert_eq!(report.empty, Vec::<String>::new());
}

#[test]
fn whitespace_only_value_counts_as_empty() {
    let required = keys(&["A"]);
    let parsed = parse_env_text("A=\"   \"");
    let report = validate_env_vars(&required, &parsed);
    assert_eq!(report.missing, Vec::<String>::new());
    assert_eq!(report.empty, vec!["A".to_string()]);
}

#[test]
fn last_occurrence_of_a_key_wins() {
    let parsed = parse_env_text("A=1\nA=2");
    let v = lookup_env(&parsed, &"A".to_string());
    assert_eq!(v, Some("2".to_string()));
    let required = keys(&["A"]);
    let report = validate_env_vars(&required, &parsed);
    assert_eq!(report.missing, Vec::<String>::new());
    assert_eq!(report.empty, Vec::<String>::new());
}

#[test]
fn last_wins_also_for_the_empty_finding() {
    let parsed = parse_env_text("A=1\nA=\"\"");
    let required = keys(&["A"]);
    let report = validate_env_vars(&required, &parsed);
    assert_eq!(report.empty, vec!["A".to_string()]);
}

#[test]
fn lookup_of_absent_key_is_none() {
    let parsed = entries(&[("A", "1")]);
    assert_eq!(lookup_env(&parsed, &"B".to_string()), None);
}

#[test]
fn required_key_list_is_fixed() {
    let required = required_keys();
    assert_eq!(required.len(), 17);
    assert_eq!(required[0], "AUTH_SECRET");
    assert_eq!(required[1], "DATABASE_URL");
    assert!(required.contains(&"REDIS_URL".to_string()));
    assert!(required.contains(&"NEXT_PUBLIC_DEPLOYMENT_ENV".to_string()));
}
