use ty_unnecessary::args::{parse_args, version_line, wants_version, ArgsError, ValueFlag};

fn line(args: &[&str]) -> Vec<String> {
    args.iter().map(|arg| arg.to_string()).collect()
}

#[test]
fn only_a_root_is_needed() {
    let args = parse_args(&line(&["src"])).unwrap();
    assert_eq!(args.threads, 4);
    assert_eq!(args.root, "src");
    assert_eq!(args.project_config, None);
    assert_eq!(args.python_path, None);
    assert_eq!(args.batch, None);
    assert!(!args.serve);
}

#[test]
fn every_flag_is_read() {
    let args = parse_args(&line(&[
        "--outputjson",
        "--threads",
        "8",
        "--project",
        "pyrightconfig.json",
        "--pythonpath",
        "/usr/bin/python",
        "--batch",
        "request.json",
        "--serve",
        "root",
    ]))
    .unwrap();
    assert_eq!(args.threads, 8);
    assert_eq!(args.project_config.as_deref(), Some("pyrightconfig.json"));
    assert_eq!(args.python_path.as_deref(), Some("/usr/bin/python"));
    assert_eq!(args.batch.as_deref(), Some("request.json"));
    assert!(args.serve);
    assert_eq!(args.root, "root");
}

#[test]
fn later_flags_and_roots_win() {
    let args = parse_args(&line(&["a", "-p", "x", "--project", "y", "b"])).unwrap();
    assert_eq!(args.project_config.as_deref(), Some("y"));
    assert_eq!(args.root, "b");
}

#[test]
fn unknown_double_dash_flags_are_ignored() {
    let args = parse_args(&line(&["--stats", "root", "--verbose"])).unwrap();
    assert_eq!(args.root, "root");
    // a single dash does not make a flag
    assert_eq!(parse_args(&line(&["-x"])).unwrap().root, "-x");
}

#[test]
fn a_flag_without_its_value_is_refused() {
    for (flag, kind) in [
        ("--threads", ValueFlag::Threads),
        ("--project", ValueFlag::Project),
        ("-p", ValueFlag::Project),
        ("--pythonpath", ValueFlag::PythonPath),
        ("--batch", ValueFlag::Batch),
    ] {
        let error = parse_args(&line(&["root", flag])).unwrap_err();
        assert_eq!(error, ArgsError::MissingValue(kind));
    }
    assert_eq!(
        parse_args(&line(&["--batch"])).unwrap_err().message(),
        "--batch requires a value"
    );
    assert_eq!(
        parse_args(&line(&["-p"])).unwrap_err().message(),
        "--project requires a value"
    );
}

#[test]
fn the_number_of_threads_is_a_number() {
    for text in ["", "+", "-1", "four", "1x", " 1", "99999999999999999999999999"] {
        let error = parse_args(&line(&["--threads", text, "root"])).unwrap_err();
        assert_eq!(error, ArgsError::InvalidThreads, "{text}");
        assert_eq!(error.message(), "--threads value must be an integer");
    }
    for (text, threads) in [("0", 0), ("007", 7), ("+12", 12), ("18446744073709551615", usize::MAX)] {
        let args = parse_args(&line(&["--threads", text, "root"])).unwrap();
        assert_eq!(args.threads, threads);
    }
}

#[test]
fn the_first_error_counts() {
    let error = parse_args(&line(&["--threads", "x", "--batch"])).unwrap_err();
    assert_eq!(error, ArgsError::InvalidThreads);
}

#[test]
fn a_root_is_required() {
    let error = parse_args(&line(&["--serve"])).unwrap_err();
    assert_eq!(error, ArgsError::MissingRoot);
    assert_eq!(error.message(), "missing root path argument");
}

#[test]
fn the_version_is_asked_for_anywhere() {
    assert!(wants_version(&line(&["--version"])));
    assert!(wants_version(&line(&["--threads", "--version"])));
    assert!(!wants_version(&line(&["root", "--versions"])));
    assert!(!wants_version(&line(&[])));
    assert_eq!(version_line("0123abcd"), "ty-unnecessary 0123abcd");
}
