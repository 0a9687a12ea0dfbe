use herdr_docs::context::{directory_candidates, start_directory_candidates};

#[test]
fn candidates_follow_the_plugin_context() {
    let json = r#"{"focused_pane_cwd":"/a","workspace_cwd":"/b","worktree":{"checkout_path":"/c"}}"#;
    assert_eq!(directory_candidates(Some("/root"), Some(json)), vec!["/root", "/a", "/b", "/c"]);
    assert_eq!(directory_candidates(None, Some(json)), vec!["/a", "/b", "/c"]);
}

#[test]
fn candidates_skip_missing_or_non_string_values() {
    let json = r#"{"focused_pane_cwd":7,"worktree":{"checkout_path":"/c"}}"#;
    assert_eq!(directory_candidates(None, Some(json)), vec!["/c"]);
    assert_eq!(directory_candidates(Some("/r"), Some("not json")), vec!["/r"]);
    assert_eq!(directory_candidates(None, None), Vec::<String>::new());
}

#[test]
fn ordering_of_found_values() {
    assert_eq!(
        start_directory_candidates(None, Some("/f".into()), None, Some("/c".into())),
        vec!["/f", "/c"]
    );
}
