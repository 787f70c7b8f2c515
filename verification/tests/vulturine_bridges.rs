use a_z::vulturine::external::{
    build_command_candidates, config_hint, discover_names, is_configured, parse_command_json, resolve_template,
    templates_for_executable, truncate_for_log, uses_out_file, ExternalKind, LADYBIRD_CMD_ENV, SERVO_CMD_ENV,
};
use a_z::vulturine::{RenderBackend, VulturineEngine};

fn strs(v: &[&str]) -> Vec<String> {
    v.iter().map(|s| s.to_string()).collect()
}

#[test]
fn bin_variable_generates_templates() {
    let c = build_command_candidates(ExternalKind::Servo, None, Some("  /opt/servo/servo "), None);
    assert_eq!(c.len(), 3);
    assert_eq!(
        c[0],
        strs(&["/opt/servo/servo", "--headless", "--exit", "--output", "{out}", "--window-size", "{width}x{height}", "{url}"])
    );
    assert_eq!(c[2], strs(&["/opt/servo/servo", "--headless", "--exit", "--output", "{out}", "{url}"]));
    assert!(build_command_candidates(ExternalKind::Servo, None, Some("   "), None).is_empty());
}

#[test]
fn command_json_comes_first_and_duplicates_go() {
    let json = r#"["/usr/bin/ladybird", "{url}", "--screenshot", "{out}"]"#;
    let c = build_command_candidates(ExternalKind::Ladybird, Some(json), None, Some("/usr/bin/ladybird"));
    assert_eq!(c.len(), 3);
    assert_eq!(c[0], strs(&["/usr/bin/ladybird", "{url}", "--screenshot", "{out}"]));
    assert_eq!(c[1][1], "--headless");
    assert_eq!(c[2][1], "--url");
    let bad = build_command_candidates(ExternalKind::Ladybird, Some("not json"), None, None);
    assert!(bad.is_empty());
}

#[test]
fn command_json_must_be_nonempty_string_array() {
    assert_eq!(parse_command_json(r#"["a","b"]"#), Some(strs(&["a", "b"])));
    assert_eq!(parse_command_json("[]"), None);
    assert_eq!(parse_command_json("[1]"), None);
    assert_eq!(parse_command_json(r#"{"a":1}"#), None);
}

#[test]
fn placeholders_are_filled() {
    let t = strs(&["render", "{url}", "{width}x{height}", "--to={out}"]);
    let r = resolve_template(&t, "https://a.test/", 800, 600, "/tmp/o.png");
    assert_eq!(r, strs(&["render", "https://a.test/", "800x600", "--to=/tmp/o.png"]));
    assert!(uses_out_file(&t));
    assert!(!uses_out_file(&strs(&["render", "{url}"])));
}

#[test]
fn executable_templates_and_names() {
    let l = templates_for_executable(ExternalKind::Ladybird, "lb");
    assert_eq!(l.len(), 3);
    assert_eq!(l[2], strs(&["lb", "{url}", "--screenshot", "{out}"]));
    assert_eq!(discover_names(ExternalKind::Servo), vec!["servo", "servo-headless", "servo_shell", "servoshell"]);
}

#[test]
fn backend_configuration() {
    let none: Vec<Vec<String>> = Vec::new();
    assert!(is_configured(RenderBackend::Software, &none));
    assert!(!is_configured(RenderBackend::Servo, &none));
    assert!(is_configured(RenderBackend::Ladybird, &vec![strs(&["lb"])]));
    assert_eq!(config_hint(RenderBackend::Software), None);
    assert_eq!(config_hint(RenderBackend::Servo), Some(SERVO_CMD_ENV));
    assert_eq!(config_hint(RenderBackend::Ladybird), Some(LADYBIRD_CMD_ENV));
    let engine = VulturineEngine::new(RenderBackend::default());
    assert_eq!(engine.current_backend(), RenderBackend::Software);
    engine.switch_engine(RenderBackend::Servo);
    assert_eq!(engine.current_backend(), RenderBackend::Servo);
}

#[test]
fn log_text_is_truncated() {
    assert_eq!(truncate_for_log("abcdef", 3), "abc...");
    assert_eq!(truncate_for_log("abc", 3), "abc");
    assert_eq!(truncate_for_log("", 0), "");
}
