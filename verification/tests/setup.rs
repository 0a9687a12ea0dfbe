use herdr_docs::config::{
    append_binding, assignment_value, bound_keys, config_path, has_action_binding, plan_startup,
    setup_marker, StartupPlan, BINDING_BLOCK,
};

#[test]
fn bound_keys_ignore_comments_and_other_assignments() {
    let config = r#"
# key = "prefix+d"
[keys]
prefix = "ctrl+b"
[[keys.command]]
key = "prefix+shift+l"
"#;
    assert_eq!(bound_keys(config), vec!["prefix+shift+l"]);
}

#[test]
fn action_binding_accepts_spacing_around_equals() {
    assert!(has_action_binding("command   =   \"herdr-docs.open\""));
    assert!(!has_action_binding("# command = \"herdr-docs.open\""));
}

#[test]
fn append_binding_preserves_existing_config() {
    let result = append_binding("onboarding = false\n");
    assert!(result.starts_with("onboarding = false\n"));
    assert!(result.contains("key = \"prefix+d\""));
    assert!(result.contains("command = \"herdr-docs.open\""));
}

#[test]
fn assignment_value_reads_the_quoted_value() {
    assert_eq!(assignment_value("  key = \"prefix+d\"  ", "key"), Some("prefix+d".to_string()));
    assert_eq!(assignment_value("key=\"a\" # note \"b\"", "key"), Some("a".to_string()));
    assert_eq!(assignment_value("key = \"\"", "key"), Some(String::new()));
}

#[test]
fn assignment_value_rejects_other_lines() {
    assert_eq!(assignment_value("", "key"), None);
    assert_eq!(assignment_value("   ", "key"), None);
    assert_eq!(assignment_value("# key = \"x\"", "key"), None);
    assert_eq!(assignment_value("keys = \"x\"", "key"), None);
    assert_eq!(assignment_value("key \"x\"", "key"), None);
    assert_eq!(assignment_value("key = x", "key"), None);
    assert_eq!(assignment_value("key = \"unterminated", "key"), None);
}

#[test]
fn has_action_binding_needs_the_exact_action() {
    assert!(!has_action_binding("command = \"herdr-docs.close\""));
    assert!(!has_action_binding("key = \"herdr-docs.open\""));
    assert!(has_action_binding("a = 1\r\ncommand = \"herdr-docs.open\"\r\n"));
}

#[test]
fn append_binding_adds_a_missing_line_break() {
    let result = append_binding("onboarding = false");
    assert_eq!(result, format!("onboarding = false\n{}", BINDING_BLOCK));
    assert_eq!(append_binding(""), BINDING_BLOCK);
}

#[test]
fn appended_config_is_recognised_as_configured() {
    let once = append_binding("onboarding = false\n");
    assert!(has_action_binding(&once));
    assert!(bound_keys(&once).iter().any(|key| key == "prefix+d"));
    assert!(matches!(plan_startup(&once), StartupPlan::AlreadyConfigured));
}

#[test]
fn plan_startup_leaves_bound_configs_alone() {
    assert!(matches!(
        plan_startup("[[keys.command]]\ncommand = \"herdr-docs.open\"\nkey = \"prefix+x\"\n"),
        StartupPlan::AlreadyConfigured
    ));
    assert!(matches!(
        plan_startup("[[keys.command]]\nkey = \"prefix+d\"\ncommand = \"other\"\n"),
        StartupPlan::KeyInUse
    ));
}

#[test]
fn plan_startup_writes_the_binding() {
    match plan_startup("") {
        StartupPlan::Write { backup, body } => {
            assert!(!backup);
            assert_eq!(body, BINDING_BLOCK);
        }
        _ => panic!("expected a write"),
    }
    match plan_startup("theme = \"dark\"") {
        StartupPlan::Write { backup, body } => {
            assert!(backup);
            assert_eq!(body, format!("theme = \"dark\"\n{}", BINDING_BLOCK));
        }
        _ => panic!("expected a write"),
    }
}

#[test]
fn setup_marker_uses_the_first_non_empty_directory() {
    assert_eq!(
        setup_marker(Some("/state"), Some("/config")),
        Some("/state/keybinding-v1".to_string())
    );
    assert_eq!(
        setup_marker(Some(""), Some("/config")),
        Some("/config/keybinding-v1".to_string())
    );
    assert_eq!(setup_marker(None, Some("")), None);
    assert_eq!(setup_marker(None, None), None);
}

#[test]
fn config_path_prefers_explicit_then_socket_then_xdg_then_home() {
    assert_eq!(
        config_path(Some("/etc/herdr.toml"), Some("/run/herdr/sock"), None, Some("/home/u")),
        Some("/etc/herdr.toml".to_string())
    );
    assert_eq!(
        config_path(Some(""), Some("/run/herdr/sock"), None, Some("/home/u")),
        Some("/run/herdr/config.toml".to_string())
    );
    assert_eq!(
        config_path(None, None, Some("/xdg"), Some("/home/u")),
        Some("/xdg/herdr/config.toml".to_string())
    );
    assert_eq!(
        config_path(None, None, None, Some("/home/u")),
        Some("/home/u/.config/herdr/config.toml".to_string())
    );
    assert_eq!(config_path(None, None, None, None), None);
}

#[test]
fn a_trimmed_line_reads_the_same() {
    let line = "\t key = \"prefix+x\" \r";
    assert_eq!(assignment_value(line, "key"), assignment_value(line.trim(), "key"));
    assert_eq!(assignment_value(line, "key"), Some("prefix+x".to_string()));
}

#[test]
fn appending_the_binding_adds_its_key_last() {
    let existing = "key = \"prefix+a\"\n[[keys.command]]\nkey = \"prefix+b\"\r";
    let mut expected = bound_keys(existing);
    expected.push("prefix+d".to_string());
    assert_eq!(bound_keys(&append_binding(existing)), expected);
    assert_eq!(bound_keys(&append_binding(existing)), vec!["prefix+a", "prefix+b", "prefix+d"]);
    assert_eq!(bound_keys(&append_binding("")), vec!["prefix+d"]);
}
