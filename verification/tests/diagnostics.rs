use ty_unnecessary::diagnostics::{
    check_report, convert, entry_key, pyright_rule, reveal_answer, Annotation, Diagnostic,
    DiagnosticId, EntrySeverity, Position, Severity, SourceFile, Span,
};
use ty_unnecessary::display::SelfOwner;
use ty_unnecessary::syntax::TextRange;
use ty_unnecessary::types::FileId;

fn span(start: u32, end: u32, line: u32, from: u32, to: u32) -> Span {
    Span {
        range: TextRange { start, end },
        start: Position { line, character: from },
        end: Position { line, character: to },
    }
}

fn annotation(message: Option<&str>, path: Option<&str>, span: Span) -> Annotation {
    Annotation {
        message: message.map(|s| s.to_string()),
        file: Some(SourceFile {
            id: FileId(0),
            path: path.map(|s| s.to_string()),
        }),
        span: Some(span),
    }
}

fn lint(name: &str, severity: Severity, headline: &str) -> Diagnostic {
    Diagnostic {
        id: DiagnosticId::Lint(name.to_string()),
        id_text: name.to_string(),
        severity,
        headline: headline.to_string(),
        annotation: Some(annotation(None, Some("/r/m.py"), span(4, 9, 2, 4, 9))),
    }
}

fn revealed(message: Option<&str>, range: Span) -> Diagnostic {
    Diagnostic {
        id: DiagnosticId::RevealedType,
        id_text: "revealed-type".to_string(),
        severity: Severity::Info,
        headline: "Revealed type".to_string(),
        annotation: Some(annotation(message, Some("/r/m.py"), range)),
    }
}

#[test]
fn rules_have_their_names() {
    for (name, rule) in [
        ("unnecessary-isinstance", "reportUnnecessaryIsInstance"),
        ("unnecessary-comparison", "reportUnnecessaryComparison"),
        ("unnecessary-contains", "reportUnnecessaryContains"),
        ("redundant-cast", "reportUnnecessaryCast"),
        ("unresolved-import", "reportMissingImports"),
    ] {
        assert_eq!(pyright_rule(&DiagnosticId::Lint(name.to_string())), Some(rule));
    }
    assert_eq!(pyright_rule(&DiagnosticId::RevealedType), Some("reveal"));
    assert_eq!(pyright_rule(&DiagnosticId::Lint("division".to_string())), None);
    assert_eq!(pyright_rule(&DiagnosticId::Other), None);
}

#[test]
fn a_known_rule_is_a_warning() {
    let entry = convert(
        &lint("unresolved-import", Severity::Error, "Cannot resolve `torch`"),
        "",
    )
    .unwrap();
    assert_eq!(entry.file, "/r/m.py");
    assert_eq!(entry.severity, EntrySeverity::Warning);
    assert_eq!(entry.severity.name(), "warning");
    assert_eq!(entry.message, "Cannot resolve \"torch\"");
    assert_eq!(entry.rule.as_deref(), Some("reportMissingImports"));
    assert_eq!(entry.start, Position { line: 2, character: 4 });
    assert_eq!(entry.end, Position { line: 2, character: 9 });
}

#[test]
fn other_rules_pass_as_errors_only() {
    for severity in [Severity::Error, Severity::Fatal] {
        let entry = convert(&lint("invalid-argument-type", severity, "m"), "").unwrap();
        assert_eq!(entry.severity, EntrySeverity::Error);
        assert_eq!(entry.severity.name(), "error");
        assert_eq!(entry.rule.as_deref(), Some("invalid-argument-type"));
    }
    for severity in [Severity::Info, Severity::Warning] {
        assert!(convert(&lint("invalid-argument-type", severity, "m"), "").is_none());
    }
    let mut failure = lint("", Severity::Error, "m");
    failure.id = DiagnosticId::Other;
    failure.id_text = "invalid-syntax".to_string();
    assert_eq!(
        convert(&failure, "").unwrap().rule.as_deref(),
        Some("invalid-syntax")
    );
}

#[test]
fn a_diagnostic_without_a_place_is_dropped() {
    let mut diagnostic = lint("redundant-cast", Severity::Error, "m");
    diagnostic.annotation = Some(annotation(None, None, span(0, 1, 0, 0, 1)));
    assert!(convert(&diagnostic, "").is_none());
    diagnostic.annotation = Some(Annotation {
        message: None,
        file: None,
        span: Some(span(0, 1, 0, 0, 1)),
    });
    assert!(convert(&diagnostic, "").is_none());
    diagnostic.annotation = Some(Annotation {
        message: None,
        file: Some(SourceFile { id: FileId(0), path: Some("p".to_string()) }),
        span: None,
    });
    assert!(convert(&diagnostic, "").is_none());
    diagnostic.annotation = None;
    assert!(convert(&diagnostic, "").is_none());
}

#[test]
fn a_reveal_is_information() {
    let source = "reveal_type(x)\n";
    let entry = convert(&revealed(Some("`float*`"), span(12, 13, 0, 12, 13)), source).unwrap();
    assert_eq!(entry.severity, EntrySeverity::Information);
    assert_eq!(entry.severity.name(), "information");
    assert_eq!(entry.message, "Type of \"x\" is \"float\"");
    assert_eq!(entry.rule, None);
    assert!(convert(&revealed(None, span(12, 13, 0, 12, 13)), source).is_none());
}

#[test]
fn the_expression_of_a_reveal_is_cut_by_bytes() {
    let source = "é = 1\nreveal_type(é)";
    let message = |start: u32, end: u32| {
        convert(&revealed(Some("`int`"), span(start, end, 1, 12, 13)), source)
            .unwrap()
            .message
    };
    assert_eq!(message(19, 21), "Type of \"é\" is \"int\"");
    // inside a character, past the end, and backwards there is no text
    assert_eq!(message(20, 21), "Type of \"_\" is \"int\"");
    assert_eq!(message(19, 99), "Type of \"_\" is \"int\"");
    assert_eq!(message(21, 19), "Type of \"_\" is \"int\"");
    assert_eq!(message(7, 7), "Type of \"\" is \"int\"");
    assert_eq!(message(19, 22), "Type of \"é)\" is \"int\"");
}

#[test]
fn wide_characters_count_by_their_width() {
    let source = "a€😀b";
    let message = |start: u32, end: u32| {
        convert(&revealed(Some("`int`"), span(start, end, 0, 0, 1)), source)
            .unwrap()
            .message
    };
    assert_eq!(message(1, 4), "Type of \"€\" is \"int\"");
    assert_eq!(message(4, 8), "Type of \"😀\" is \"int\"");
    assert_eq!(message(8, 9), "Type of \"b\" is \"int\"");
    assert_eq!(message(4, 7), "Type of \"_\" is \"int\"");
}

#[test]
fn a_reveal_answers_on_its_line() {
    let owners = vec![SelfOwner { method: "who".to_string(), class: "K".to_string() }];
    let answer = reveal_answer(
        &revealed(Some("``def who(self) -> Self@who`"), span(0, 1, 6, 0, 1)),
        &owners,
    )
    .unwrap();
    assert_eq!(answer.file, FileId(0));
    assert_eq!(answer.line, 7);
    assert_eq!(answer.text, "(self) -> Self@K");
    assert!(reveal_answer(&revealed(None, span(0, 1, 6, 0, 1)), &owners).is_none());
    assert!(reveal_answer(&lint("redundant-cast", Severity::Error, "m"), &owners).is_none());
}

#[test]
fn entries_are_told_apart_by_file_line_and_rule() {
    let first = convert(&lint("redundant-cast", Severity::Warning, "one"), "").unwrap();
    let second = convert(&lint("redundant-cast", Severity::Warning, "two"), "").unwrap();
    let third = convert(&lint("unresolved-import", Severity::Warning, "one"), "").unwrap();
    assert!(entry_key(&first).same(&entry_key(&second)));
    assert!(!entry_key(&first).same(&entry_key(&third)));
    assert_eq!(entry_key(&first).line, 2);
    assert_eq!(entry_key(&first).rule, "reportUnnecessaryCast");
    let shown = convert(&revealed(Some("`int`"), span(0, 1, 2, 0, 1)), "x").unwrap();
    assert_eq!(entry_key(&shown).rule, "");
}

#[test]
fn a_check_reports_in_order() {
    let diagnostics = vec![
        lint("redundant-cast", Severity::Warning, "a"),
        lint("division", Severity::Warning, "b"),
        revealed(Some("`int`"), span(0, 1, 0, 0, 1)),
        lint("invalid-return-type", Severity::Error, "c"),
    ];
    let report = check_report(&diagnostics, &vec!["x\n".to_string()]);
    assert_eq!(report.version, "1.1.412-ty-unnecessary");
    let messages: Vec<&str> = report.entries.iter().map(|e| e.message.as_str()).collect();
    assert_eq!(messages, vec!["a", "Type of \"x\" is \"int\"", "c"]);
    assert_eq!(report.error_count, 0);
    assert_eq!(report.warning_count, 3);
    assert_eq!(report.information_count, 0);
    // a file whose text is not at hand
    let report = check_report(&diagnostics, &vec![]);
    assert_eq!(report.entries[1].message, "Type of \"_\" is \"int\"");
}
