use ssr_launcher::launch::{build_launch_plan, plan_launch, resolve_entry_script};
use ssr_launcher::parse::{parse_env_text, EnvEntry};
use ssr_launcher::paths::{log_file_path, resolve_env_path};
use ssr_launcher::validate::lookup_env;

#[test]
fn missing_pointer_means_server_js_in_place() {
    let script = resolve_entry_script("/app/next/server", None);
    assert_eq!(script, "/app/next/server/server.js");
}

#[test]
fn pointer_subdirectory_is_honoured() {
    let pointer = "sub".to_string();
    let script = resolve_entry_script("/app/next/server", Some(&pointer));
    assert_eq!(script, "/app/next/server/sub/server.js");
}

#[test]
fn pointer_content_is_trimmed() {
    let pointer = "  sub \n".to_string();
    let script = resolve_entry_script("/app/next/server", Some(&pointer));
    assert_eq!(script, "/app/next/server/sub/server.js");
}

#[test]
fn dot_pointer_means_no_indirection() {
    let pointer = ".".to_string();
    let script = resolve_entry_script("/app/next/server", Some(&pointer));
    assert_eq!(script, "/app/next/server/server.js");
    let blank = "  \n".to_string();
    let script = resolve_entry_script("/app/next/server", Some(&blank));
    assert_eq!(script, "/app/next/server/server.js");
}

#[test]
fn absent_script_means_nothing_to_launch() {
    let vars = Vec::new();
    let plan = plan_launch("/app/next/server", None, false, &vars);
    assert!(plan.is_none());
}

#[test]
fn present_script_gets_a_plan() {
    let vars = Vec::new();
    let plan = plan_launch("/app/next/server", None, true, &vars).unwrap();
    assert_eq!(plan.program, "node");
    assert_eq!(plan.script, "/app/next/server/server.js");
    assert_eq!(plan.working_dir, "/app/next/server");
}

#[test]
fn baseline_environment_is_always_set() {
    let vars = Vec::new();
    let plan = build_launch_plan("/srv", "/srv/server.js".to_string(), &vars);
    assert_eq!(lookup_env(&plan.env, &"NODE_ENV".to_string()), Some("production".to_string()));
    assert_eq!(lookup_env(&plan.env, &"PORT".to_string()), Some("1430".to_string()));
}

#[test]
fn config_overlay_wins_over_baseline() {
    let vars = parse_env_text("PORT=9999\nEXTRA=1");
    let plan = build_launch_plan("/srv", "/srv/server.js".to_string(), &vars);
    assert_eq!(lookup_env(&plan.env, &"PORT".to_string()), Some("9999".to_string()));
    assert_eq!(lookup_env(&plan.env, &"NODE_ENV".to_string()), Some("production".to_string()));
    assert_eq!(lookup_env(&plan.env, &"EXTRA".to_string()), Some("1".to_string()));
}

#[test]
fn overlay_keeps_every_entry_in_order() {
    let vars = vec![EnvEntry { key: "K".to_string(), value: "v".to_string() }];
    let plan = build_launch_plan("/srv", "/srv/server.js".to_string(), &vars);
    assert_eq!(plan.env.len(), 3);
    assert_eq!(plan.env[0].key, "NODE_ENV");
    assert_eq!(plan.env[0].value, "production");
    assert_eq!(plan.env[1].key, "PORT");
    assert_eq!(plan.env[1].value, "1430");
    assert_eq!(plan.env[2].key, "K");
    assert_eq!(plan.env[2].value, "v");
}

#[test]
fn macos_default_path_uses_the_user() {
    let user = "alice".to_string();
    let path = resolve_env_path("macos", Some(&user), None);
    assert_eq!(path, "/Users/alice/Developer/discolaire/.env");
}

#[test]
fn macos_default_path_without_user() {
    let path = resolve_env_path("macos", None, None);
    assert_eq!(path, "/Users/unknown/Developer/discolaire/.env");
}

#[test]
fn linux_default_path_uses_home() {
    let home = "/home/bob".to_string();
    let path = resolve_env_path("linux", None, Some(&home));
    assert_eq!(path, "/home/bob/discolaire/.env");
}

#[test]
fn linux_default_path_without_home() {
    let path = resolve_env_path("linux", None, None);
    assert_eq!(path, "/home/unknown/discolaire/.env");
}

#[test]
fn other_hosts_use_the_relative_default() {
    let path = resolve_env_path("windows", None, None);
    assert_eq!(path, ".env");
}

#[test]
fn log_sits_beside_the_config_file() {
    assert_eq!(log_file_path("/home/bob/discolaire/.env"), "/home/bob/discolaire/env-check.log");
    assert_eq!(log_file_path(".env"), "env-check.log");
}
