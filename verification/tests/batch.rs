use ty_unnecessary::batch::{
    added_diagnostics, base_check, insert_in_order, Answer, BatchQuery, Overlay, Override,
    Reported, Request, RequestError, World,
};
use ty_unnecessary::diagnostics::{
    Annotation, Diagnostic, DiagnosticId, Position, Severity, SourceFile, Span,
};
use ty_unnecessary::display::SelfOwner;
use ty_unnecessary::reveals::append_reveals;
use ty_unnecessary::session::{
    override_changes, Action, BatchRun, EdgeEntry, EdgeTarget, Event, Response,
};
use ty_unnecessary::syntax::TextRange;
use ty_unnecessary::types::FileId;

const MAIN_PY: &str = "\
def helper(q: str):
    return q.count(\"x\")

def caller(n: int) -> int:
    return helper(\"abc\")
";

fn span_query(id: &str, file: &str, line: usize, col_start: usize, col_end: usize) -> BatchQuery {
    BatchQuery {
        id: id.to_string(),
        file: file.to_string(),
        line: Some(line),
        col_start: Some(col_start),
        col_end: Some(col_end),
        expr: None,
    }
}

fn expr_query(id: &str, file: &str, expr: &str) -> BatchQuery {
    BatchQuery {
        id: id.to_string(),
        file: file.to_string(),
        line: None,
        col_start: None,
        col_end: None,
        expr: Some(expr.to_string()),
    }
}

fn world(id: &str, overlays: &[(&str, &str)]) -> World {
    World {
        id: id.to_string(),
        overlays: overlays
            .iter()
            .map(|(file, content)| Overlay {
                file: file.to_string(),
                content: content.to_string(),
            })
            .collect(),
    }
}

fn request(queries: Vec<BatchQuery>, worlds: Vec<World>, call_edges: bool) -> Request {
    Request {
        queries,
        worlds,
        call_edges,
    }
}

fn at_line(id: DiagnosticId, severity: Severity, message: &str, file: usize, line: u32) -> Reported {
    let place = Position { line, character: 0 };
    Reported {
        diagnostic: Diagnostic {
            id,
            id_text: "invalid-argument-type".to_string(),
            severity,
            headline: message.to_string(),
            annotation: Some(Annotation {
                message: Some(message.to_string()),
                file: Some(SourceFile {
                    id: FileId(file),
                    path: Some(format!("/r/{file}.py")),
                }),
                span: Some(Span {
                    range: TextRange { start: 0, end: 0 },
                    start: place,
                    end: place,
                }),
            }),
        },
        owners: vec![SelfOwner {
            method: "who".to_string(),
            class: "K".to_string(),
        }],
    }
}

fn shown(text: &str, file: usize, line: u32) -> Reported {
    at_line(DiagnosticId::RevealedType, Severity::Info, text, file, line)
}

fn error(message: &str, file: usize, line: u32) -> Reported {
    at_line(
        DiagnosticId::Lint("invalid-argument-type".to_string()),
        Severity::Error,
        message,
        file,
        line,
    )
}

fn warning(message: &str, file: usize, line: u32) -> Reported {
    at_line(
        DiagnosticId::Lint("redundant-cast".to_string()),
        Severity::Warning,
        message,
        file,
        line,
    )
}

/// A type checker that knows `m.py` and `n.py`: it answers from scripts and notes the
/// overrides that were in force.
struct Host {
    checks: Vec<Vec<Reported>>,
    spans: Vec<Option<String>>,
    asked: Vec<(usize, usize, usize, usize)>,
    in_force: Vec<Vec<(usize, String)>>,
}

impl Host {
    fn new(checks: Vec<Vec<Reported>>, spans: &[Option<&str>]) -> Host {
        Host {
            checks,
            spans: spans.iter().map(|s| s.map(|s| s.to_string())).collect(),
            asked: Vec::new(),
            in_force: Vec::new(),
        }
    }

    fn resolve(name: &str) -> Option<FileId> {
        match name {
            "m.py" | "./m.py" => Some(FileId(0)),
            "n.py" => Some(FileId(1)),
            _ => None,
        }
    }

    fn drive(&mut self, request: Request) -> Result<Response, RequestError> {
        let mut run = BatchRun::start(request)?;
        loop {
            let overrides = run.overrides();
            let event = match run.action() {
                Action::Resolve { queries, overlays } => Event::Resolved {
                    queries: queries.iter().map(|name| Host::resolve(name)).collect(),
                    overlays: overlays
                        .iter()
                        .map(|names| names.iter().map(|name| Host::resolve(name)).collect())
                        .collect(),
                },
                Action::Read(files) => Event::Sources(
                    files
                        .iter()
                        .map(|file| if file.0 == 0 { MAIN_PY.to_string() } else { "x = 1".to_string() })
                        .collect(),
                ),
                Action::Check => {
                    self.in_force.push(
                        overrides
                            .iter()
                            .map(|o| (o.file.0, o.content.clone()))
                            .collect(),
                    );
                    Event::Checked(self.checks.remove(0))
                }
                Action::Span { file, line, col_start, col_end } => {
                    self.asked.push((file.0, line, col_start, col_end));
                    Event::SpanType(self.spans.remove(0))
                }
                Action::CallEdges => {
                    assert!(overrides.is_empty());
                    Event::Edges(vec![EdgeEntry {
                        file: "m.py".to_string(),
                        line: 5,
                        col: 11,
                        end_line: 5,
                        end_col: 24,
                        targets: vec![EdgeTarget {
                            file: "m.py".to_string(),
                            line: 1,
                        }],
                        external: vec![],
                    }])
                }
                Action::Respond => {
                    assert!(overrides.is_empty());
                    return Ok(run.respond().unwrap());
                }
            };
            run = run.advance(event)?;
        }
    }
}

fn answer_text(response: &Response, id: &str) -> String {
    let answered = response.answers.iter().find(|a| a.id == id).unwrap();
    match &answered.answer {
        Answer::Type(text) => text.clone(),
        Answer::Miss => "null".to_string(),
        Answer::Error(text) => format!("error: {text}"),
    }
}

#[test]
fn a_request_is_answered_id_by_id() {
    let queries = vec![
        span_query("span0", "m.py", 5, 18, 23),
        span_query("miss0", "m.py", 5, 11, 20),
        span_query("nofile0", "absent.py", 1, 0, 1),
        expr_query("expr0", "m.py", "helper"),
        expr_query("lost0", "missing.py", "x"),
        expr_query("expr1", "m.py", "undefined"),
    ];
    // the reveal of `helper` stands on line 6, that of `undefined` on line 7
    let base = vec![
        shown("`def helper(q: str) -> int`", 0, 5),
        shown("`int`", 0, 0),
        shown("`int`", 1, 6),
    ];
    let mut host = Host::new(vec![base], &[Some("Literal[\"abc\"]"), None]);
    let response = host.drive(request(queries, vec![], false)).unwrap();
    assert_eq!(response.version, "1.1.412-ty-unnecessary-batch");
    assert!(response.diagnostics.is_empty());
    assert!(response.call_edges.is_empty());
    assert!(response.worlds.is_empty());
    let ids: Vec<&str> = response.answers.iter().map(|a| a.id.as_str()).collect();
    assert_eq!(ids, vec!["span0", "miss0", "nofile0", "expr0", "lost0", "expr1"]);
    assert_eq!(answer_text(&response, "span0"), "Literal[\"abc\"]");
    assert_eq!(answer_text(&response, "miss0"), "null");
    assert_eq!(
        answer_text(&response, "nofile0"),
        "error: request names a file the project cannot resolve: `absent.py`"
    );
    assert_eq!(answer_text(&response, "expr0"), "(q: str) -> int");
    assert!(answer_text(&response, "lost0").contains("missing.py"));
    assert_eq!(answer_text(&response, "expr1"), "null");
    // only the spans of files there are were put to the type checker
    assert_eq!(host.asked, vec![(0, 5, 18, 23), (0, 5, 11, 20)]);
    assert_eq!(
        host.in_force,
        vec![vec![(
            0,
            format!("{MAIN_PY}reveal_type(helper)\nreveal_type(undefined)\n")
        )]]
    );
}

#[test]
fn worlds_report_what_they_add() {
    let queries = vec![expr_query("e", "m.py", "helper")];
    let worlds = vec![
        world("breaking", &[("m.py", "bad"), ("n.py", "also")]),
        world("clean", &[("m.py", "good"), ("m.py", "better")]),
    ];
    let base = || vec![warning("kept", 0, 3), shown("`int`", 0, 5)];
    let mut broken = base();
    broken.push(error("`str` is not `int`", 0, 4));
    broken.push(warning("kept but moved", 0, 4));
    broken.push(warning("kept, worded otherwise", 0, 3));
    let mut host = Host::new(vec![base(), broken, base()], &[]);
    let response = host.drive(request(queries, worlds, false)).unwrap();
    assert_eq!(response.diagnostics.len(), 1);
    assert_eq!(response.worlds.len(), 2);
    assert_eq!(response.worlds[0].id, "breaking");
    let added: Vec<&str> = response.worlds[0].added.iter().map(|e| e.message.as_str()).collect();
    assert_eq!(added, vec!["\"str\" is not \"int\"", "kept but moved"]);
    assert_eq!(response.worlds[1].id, "clean");
    assert!(response.worlds[1].added.is_empty());
    // each world stands on top of the base overrides alone
    let appended = format!("{MAIN_PY}reveal_type(helper)\n");
    assert_eq!(host.in_force[0], vec![(0, appended.clone())]);
    assert_eq!(
        host.in_force[1],
        vec![(0, appended.clone()), (0, "bad".to_string()), (1, "also".to_string())]
    );
    assert_eq!(
        host.in_force[2],
        vec![(0, appended), (0, "good".to_string()), (0, "better".to_string())]
    );
}

#[test]
fn call_edges_come_on_request() {
    let mut host = Host::new(vec![vec![], vec![]], &[]);
    let response = host.drive(request(vec![], vec![], true)).unwrap();
    assert_eq!(response.call_edges.len(), 1);
    assert_eq!(response.call_edges[0].targets[0].line, 1);
    let response = host.drive(request(vec![], vec![], false)).unwrap();
    assert!(response.call_edges.is_empty());
}

#[test]
fn an_incomplete_span_ends_the_request() {
    let mut query = span_query("half", "m.py", 1, 0, 1);
    query.col_end = None;
    let mut host = Host::new(vec![], &[]);
    let error = host
        .drive(request(vec![expr_query("e", "m.py", "x"), query], vec![], false))
        .unwrap_err();
    assert_eq!(
        error.message(),
        "query `half` has neither expr nor a complete line/col span"
    );
}

#[test]
fn a_world_needs_all_of_its_files() {
    let worlds = vec![
        world("fine", &[("m.py", "a")]),
        world("lost", &[("n.py", "b"), ("gone.py", "c"), ("also.py", "d")]),
    ];
    let mut host = Host::new(vec![], &[]);
    let error = host.drive(request(vec![], worlds, false)).unwrap_err();
    assert!(matches!(error, RequestError::UnresolvedFile(_)));
    assert_eq!(
        error.message(),
        "request names a file the project cannot resolve: `gone.py`"
    );
}

#[test]
fn requests_do_not_depend_on_earlier_ones() {
    let full = || {
        request(
            vec![expr_query("e", "m.py", "helper")],
            vec![world("w", &[("m.py", "bad")])],
            true,
        )
    };
    let script = || vec![vec![shown("`int`", 0, 5)], vec![error("new", 0, 1)]];
    let mut fresh = Host::new(script(), &[]);
    let expected = fresh.drive(full()).unwrap();
    let mut warm = Host::new(vec![script(), vec![vec![]], script()].into_iter().flatten().collect(), &[]);
    let _ = warm.drive(full()).unwrap();
    let _ = warm.drive(request(vec![], vec![], true)).unwrap();
    let again = warm.drive(full()).unwrap();
    assert_eq!(format!("{expected:?}"), format!("{again:?}"));
}

#[test]
fn an_event_out_of_turn_changes_nothing() {
    let run = BatchRun::start(request(vec![], vec![], false)).unwrap();
    let run = run.advance(Event::SpanType(None)).unwrap();
    assert!(matches!(run.action(), Action::Resolve { .. }));
    assert!(run.respond().is_none());
}

#[test]
fn a_run_that_is_done_stays_done() {
    let run = BatchRun::start(request(vec![], vec![], false)).unwrap();
    let run = run
        .advance(Event::Resolved {
            queries: vec![],
            overlays: vec![],
        })
        .unwrap();
    let run = run.advance(Event::Sources(vec![])).unwrap();
    let run = run.advance(Event::Checked(vec![error("e", 0, 1)])).unwrap();
    assert!(matches!(run.action(), Action::Respond));
    let run = run.advance(Event::Checked(vec![])).unwrap();
    let run = run.advance(Event::Edges(vec![])).unwrap();
    assert!(run.overrides().is_empty());
    assert_eq!(run.respond().unwrap().diagnostics.len(), 1);
}

#[test]
fn the_last_reveal_of_a_line_answers() {
    let queries = vec![expr_query("e", "m.py", "helper")];
    let base = vec![shown("`first`", 0, 5), shown("`last`", 0, 5)];
    let mut host = Host::new(vec![base], &[]);
    let response = host.drive(request(queries, vec![], false)).unwrap();
    assert_eq!(answer_text(&response, "e"), "last");
}

#[test]
fn the_spellings_of_a_file_take_turns() {
    // `./m.py` and `m.py` are one file, and the names go in order
    let queries = vec![
        expr_query("a", "m.py", "first"),
        expr_query("b", "n.py", "other"),
        expr_query("c", "./m.py", "second"),
        expr_query("d", "m.py", "third"),
        expr_query("e", "./m.py", "fourth"),
        expr_query("a", "./m.py", "again"),
    ];
    let base = vec![
        shown("`second`", 0, 5),
        shown("`fourth`", 0, 6),
        shown("`again`", 0, 7),
        shown("`first`", 0, 8),
        shown("`third`", 0, 9),
        shown("`other`", 1, 1),
    ];
    let mut host = Host::new(vec![base], &[]);
    let response = host.drive(request(queries, vec![], false)).unwrap();
    let calls: String = ["second", "fourth", "again", "first", "third"]
        .iter()
        .map(|expr| format!("reveal_type({expr})\n"))
        .collect();
    assert_eq!(
        host.in_force,
        vec![vec![
            (0, format!("{MAIN_PY}{calls}")),
            (1, "x = 1\nreveal_type(other)\n".to_string())
        ]]
    );
    for (id, text) in [("b", "other"), ("c", "second"), ("d", "third"), ("e", "fourth")] {
        assert_eq!(answer_text(&response, id), text);
    }
    // of the two answers for one id the later reveal counts
    assert_eq!(answer_text(&response, "a"), "first");
}

/// Serves requests one after the other on one set of overrides; a check reports one reveal
/// per file, whose text is the length of what the file is overridden with.
fn serve(requests: Vec<Request>) -> Vec<Vec<(String, String)>> {
    let mut texts: Vec<(usize, String)> = Vec::new();
    let mut noted: Vec<FileId> = Vec::new();
    let mut put = |texts: &mut Vec<(usize, String)>, wanted: Vec<Override>| {
        for change in override_changes(&noted, &wanted) {
            texts.retain(|(file, _)| *file != change.file.0);
            if let Some(content) = change.content {
                texts.push((change.file.0, content));
            }
        }
        noted = wanted.iter().map(|o| o.file).collect();
    };
    let mut responses = Vec::new();
    for request in requests {
        let mut run = BatchRun::start(request).unwrap();
        let response = loop {
            put(&mut texts, run.overrides());
            let event = match run.action() {
                Action::Resolve { queries, overlays } => Event::Resolved {
                    queries: queries.iter().map(|name| Host::resolve(name)).collect(),
                    overlays: overlays
                        .iter()
                        .map(|names| names.iter().map(|name| Host::resolve(name)).collect())
                        .collect(),
                },
                Action::Read(files) => Event::Sources(
                    files
                        .iter()
                        .map(|file| {
                            let over = texts.iter().find(|(other, _)| *other == file.0);
                            over.map_or("x = 1\n".to_string(), |(_, text)| text.clone())
                        })
                        .collect(),
                ),
                Action::Check => Event::Checked(
                    texts
                        .iter()
                        .flat_map(|(file, text)| {
                            let message = format!("`{}`", text.len());
                            vec![shown(&message, *file, 1), error(&message, *file, 0)]
                        })
                        .collect(),
                ),
                Action::Span { .. } => Event::SpanType(Some(format!("{texts:?}"))),
                Action::CallEdges => Event::Edges(vec![]),
                Action::Respond => break run.respond().unwrap(),
            };
            run = run.advance(event).unwrap();
        };
        put(&mut texts, Vec::new());
        assert!(texts.is_empty());
        let ids: Vec<String> = response.answers.iter().map(|a| a.id.clone()).collect();
        let mut lines: Vec<(String, String)> = Vec::new();
        for id in ids {
            let text = answer_text(&response, &id);
            lines.push((id, text));
        }
        for world in &response.worlds {
            for entry in &world.added {
                lines.push((world.id.clone(), entry.message.clone()));
            }
        }
        responses.push(lines);
    }
    responses
}

#[test]
fn a_served_request_is_answered_like_a_fresh_one() {
    let first = || {
        request(
            vec![expr_query("e", "m.py", "helper"), span_query("s", "n.py", 1, 0, 1)],
            vec![world("w", &[("m.py", "other"), ("n.py", "text"), ("m.py", "last one")])],
            false,
        )
    };
    let second = || {
        request(
            vec![span_query("s", "m.py", 1, 0, 1), expr_query("e", "n.py", "x")],
            vec![world("v", &[("n.py", "new")])],
            true,
        )
    };
    let in_a_row = serve(vec![first(), second(), first(), second()]);
    assert_eq!(in_a_row[0], serve(vec![first()])[0]);
    assert_eq!(in_a_row[1], serve(vec![second()])[0]);
    assert_eq!(in_a_row[0], in_a_row[2]);
    assert_eq!(in_a_row[1], in_a_row[3]);
    assert_ne!(in_a_row[0], in_a_row[1]);
}

#[test]
fn an_id_is_answered_once() {
    let queries = vec![
        span_query("both", "m.py", 5, 18, 23),
        expr_query("both", "m.py", "helper"),
        span_query("miss", "m.py", 5, 11, 20),
        expr_query("miss", "m.py", "caller"),
        expr_query("twice", "n.py", "x"),
        expr_query("twice", "m.py", "helper"),
        span_query("spans", "m.py", 1, 0, 3),
        span_query("spans", "m.py", 2, 0, 3),
        span_query("spans", "m.py", 3, 0, 3),
        expr_query("none", "missing.py", "x"),
        span_query("none", "m.py", 4, 0, 3),
        expr_query("alone", "m.py", "absent"),
    ];
    // `m.py` gets four reveals from line 6 on, `n.py` one on line 2
    let base = vec![
        shown("`revealed`", 0, 5),
        shown("`caller`", 0, 6),
        shown("`helper`", 0, 7),
        shown("`x`", 1, 1),
    ];
    let spans = [Some("span"), None, Some("one"), Some("two"), None, None];
    let mut host = Host::new(vec![base], &spans);
    let response = host.drive(request(queries, vec![], false)).unwrap();
    let ids: Vec<&str> = response.answers.iter().map(|a| a.id.as_str()).collect();
    assert_eq!(ids, vec!["both", "miss", "twice", "spans", "none", "alone"]);
    assert_eq!(answer_text(&response, "both"), "span");
    assert_eq!(answer_text(&response, "miss"), "caller");
    // the later reveal counts, not the later query
    assert_eq!(answer_text(&response, "twice"), "x");
    assert_eq!(answer_text(&response, "spans"), "two");
    assert_eq!(answer_text(&response, "none"), "null");
    assert_eq!(answer_text(&response, "alone"), "null");
}

fn at_offset(message: &str, file: usize, start: u32) -> Reported {
    let mut found = warning(message, file, 0);
    if let Some(Annotation { span: Some(span), .. }) = &mut found.diagnostic.annotation {
        span.range.start = start;
    }
    found
}

#[test]
fn further_diagnostics_go_to_their_file() {
    let mut reported = vec![
        at_offset("a3", 0, 3),
        at_offset("a9", 0, 9),
        at_offset("b1", 1, 1),
    ];
    for (message, file, start) in [("a5", 0, 5), ("a3+", 0, 3), ("a9+", 0, 12), ("c2", 2, 2), ("b0", 1, 0)] {
        insert_in_order(&mut reported, at_offset(message, file, start));
    }
    let mut lost = warning("nowhere", 0, 0);
    lost.diagnostic.annotation = None;
    insert_in_order(&mut reported, lost);
    let order: Vec<&str> = reported.iter().map(|r| r.diagnostic.headline.as_str()).collect();
    assert_eq!(order, vec!["a3", "a3+", "a5", "a9", "a9+", "b0", "b1", "c2", "nowhere"]);
}

#[test]
fn missing_replies_count_as_unresolved() {
    let run = BatchRun::start(request(vec![expr_query("e", "m.py", "x")], vec![], false)).unwrap();
    let run = run
        .advance(Event::Resolved {
            queries: vec![],
            overlays: vec![],
        })
        .unwrap();
    let run = run.advance(Event::Sources(vec![])).unwrap();
    let run = run.advance(Event::Checked(vec![])).unwrap();
    let response = run.respond().unwrap();
    assert!(answer_text(&response, "e").starts_with("error: "));
}

#[test]
fn self_types_in_answers_are_named_after_their_class() {
    let queries = vec![expr_query("who", "m.py", "K.who")];
    let base = vec![shown("`def who(self) -> Self@who`", 0, 5)];
    let mut host = Host::new(vec![base], &[]);
    let response = host.drive(request(queries, vec![], false)).unwrap();
    assert_eq!(answer_text(&response, "who"), "(self) -> Self@K");
}

#[test]
fn reveals_are_appended_line_by_line() {
    let exprs = vec!["a".to_string(), "f(b)".to_string()];
    let list: Vec<&String> = exprs.iter().collect();
    for (base, content, lines) in [
        ("", "reveal_type(a)\nreveal_type(f(b))\n", 0),
        ("x", "x\nreveal_type(a)\nreveal_type(f(b))\n", 1),
        ("x\n", "x\nreveal_type(a)\nreveal_type(f(b))\n", 1),
        ("x\n\n", "x\n\nreveal_type(a)\nreveal_type(f(b))\n", 2),
    ] {
        let appended = append_reveals(base, &list);
        assert_eq!(appended.content, content);
        assert_eq!(appended.lines_before, lines);
    }
    assert_eq!(append_reveals("x", &vec![]).content, "x\n");
}

#[test]
fn reveals_are_no_diagnostics() {
    let reported = vec![shown("`int`", 0, 1), error("e", 0, 2), shown("`str`", 1, 1)];
    let base = base_check(&reported);
    assert_eq!(base.entries.len(), 1);
    assert_eq!(base.reveals.len(), 2);
    assert_eq!(base.reveals[1].file, FileId(1));
    assert!(added_diagnostics(&base.entries, &reported).is_empty());
    assert_eq!(added_diagnostics(&vec![], &reported).len(), 1);
}

#[test]
fn overrides_change_to_exactly_the_wanted_ones() {
    let wanted = vec![
        Override { file: FileId(2), content: "two".to_string() },
        Override { file: FileId(3), content: "three".to_string() },
        Override { file: FileId(2), content: "two again".to_string() },
    ];
    let mut state = vec![(1, "old".to_string()), (2, "older".to_string())];
    for change in override_changes(&vec![FileId(1), FileId(2)], &wanted) {
        state.retain(|(file, _)| *file != change.file.0);
        if let Some(content) = change.content {
            state.push((change.file.0, content));
        }
    }
    state.sort();
    assert_eq!(
        state,
        vec![(2, "two again".to_string()), (3, "three".to_string())]
    );
    let cleared = override_changes(&vec![FileId(1)], &vec![]);
    assert_eq!(cleared.len(), 1);
    assert!(cleared[0].content.is_none());
}
