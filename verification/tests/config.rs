use ty_unnecessary::config::{config_of, project_options, read_pyright_config, PyrightConfig};

#[test]
fn no_file_configures_nothing() {
    let config = read_pyright_config(None).unwrap();
    assert!(config.extra_paths.is_empty());
    assert!(config.exclude.is_empty());
    assert_eq!(config.python_path, None);
}

#[test]
fn the_keys_are_read() {
    let config = read_pyright_config(Some(
        r#"{"reportMissingImports": "warning", "extraPaths": ["a", "b"], "exclude": ["**/_vendored"], "pythonPath": "/bin/python"}"#,
    ))
    .unwrap();
    assert_eq!(config.extra_paths, vec!["a", "b"]);
    assert_eq!(config.exclude, vec!["**/_vendored"]);
    assert_eq!(config.python_path.as_deref(), Some("/bin/python"));
}

#[test]
fn values_of_another_kind_do_not_count() {
    let config = read_pyright_config(Some(
        r#"{"extraPaths": "a", "exclude": ["x", 1, null, ["y"], "z"], "pythonPath": ["p"]}"#,
    ))
    .unwrap();
    assert!(config.extra_paths.is_empty());
    assert_eq!(config.exclude, vec!["x", "z"]);
    assert_eq!(config.python_path, None);
}

#[test]
fn a_document_that_is_no_object_configures_nothing() {
    for text in ["[]", "null", "\"extraPaths\"", "3"] {
        let config = read_pyright_config(Some(text)).unwrap();
        assert!(config.extra_paths.is_empty());
        assert!(config.exclude.is_empty());
        assert_eq!(config.python_path, None);
    }
}

#[test]
fn text_that_is_no_json_is_refused() {
    for text in ["", "{not json", "{\"exclude\": [}", "{} {}"] {
        let error = read_pyright_config(Some(text)).unwrap_err();
        assert_eq!(error.message(), "project config is not valid JSON");
    }
}

#[test]
fn a_document_is_read_by_value() {
    let document: serde_json::Value = serde_json::from_str(r#"{"exclude": ["e"]}"#).unwrap();
    let config = config_of(&document);
    assert_eq!(config.exclude, vec!["e"]);
    assert!(config.extra_paths.is_empty());
}

fn config(extra: &[&str], exclude: &[&str], python: Option<&str>) -> PyrightConfig {
    PyrightConfig {
        extra_paths: extra.iter().map(|s| s.to_string()).collect(),
        exclude: exclude.iter().map(|s| s.to_string()).collect(),
        python_path: python.map(|s| s.to_string()),
    }
}

#[test]
fn the_command_line_wins_over_the_configured_interpreter() {
    let options = project_options(config(&[], &[], Some("a")), Some("b".to_string()));
    assert_eq!(options.python.as_deref(), Some("b"));
    let options = project_options(config(&[], &[], Some("a")), None);
    assert_eq!(options.python.as_deref(), Some("a"));
    let options = project_options(config(&[], &[], None), None);
    assert_eq!(options.python, None);
}

#[test]
fn empty_lists_are_left_out() {
    let options = project_options(config(&[], &["x"], None), None);
    assert_eq!(options.extra_paths, None);
    assert_eq!(options.exclude, Some(vec!["x".to_string()]));
    assert!(!options.respect_ignore_files);
    assert_eq!(
        options.warn,
        vec![
            "unnecessary-isinstance",
            "unnecessary-comparison",
            "unnecessary-contains",
            "redundant-cast",
            "unresolved-import",
        ]
    );
}
