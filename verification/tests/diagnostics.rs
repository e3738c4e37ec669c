use gluon_language_server::compile::{CompileRun, ParseOutcome};
use gluon_language_server::diagnostics::{
    create_diagnostics, into_diagnostic, plain_diagnostic, run_diagnostics, without_syntax_errors,
    CompileError, Diagnostic, DiagnosticSet, PublishDiagnostics, Severity, SpannedMessage,
};
use gluon_language_server::position::{Location, LocationSpan, Position, Range};

fn spanned(line: usize, from: usize, to: usize, message: &str) -> SpannedMessage {
    SpannedMessage {
        span: LocationSpan {
            start: Location { line, column: from, absolute: 0 },
            end: Location { line, column: to, absolute: 0 },
        },
        message: message.as_bytes().to_vec(),
    }
}

fn expected(line: u64, from: u64, to: u64, message: &str) -> Diagnostic {
    Diagnostic {
        range: Range {
            start: Position { line, character: from },
            end: Position { line, character: to },
        },
        severity: Some(Severity::Error),
        message: message.as_bytes().to_vec(),
        source: Some(b"gluon".to_vec()),
    }
}

fn plain(message: &str) -> Diagnostic {
    Diagnostic {
        range: Range {
            start: Position { line: 0, character: 0 },
            end: Position { line: 0, character: 0 },
        },
        severity: Some(Severity::Error),
        message: message.as_bytes().to_vec(),
        source: None,
    }
}

fn notice(uri: &str, diagnostics: Vec<Diagnostic>) -> PublishDiagnostics {
    PublishDiagnostics { uri: uri.as_bytes().to_vec(), diagnostics }
}

#[test]
fn message_with_a_place_becomes_an_error_diagnostic() {
    assert_eq!(into_diagnostic(&spanned(2, 4, 9, "Expected Int")), expected(2, 4, 9, "Expected Int"));
    assert_eq!(plain_diagnostic(b"IO failure"), plain("IO failure"));
}

#[test]
fn successful_compile_clears_the_file() {
    let set = run_diagnostics(b"file:///t.x", &Ok(()));
    assert_eq!(set.into_notifications(), vec![notice("file:///t.x", vec![])]);
}

#[test]
fn type_errors_go_to_the_file_they_name() {
    let error = CompileError::Typecheck {
        uri: b"file:///imported.glu".to_vec(),
        errors: vec![spanned(1, 0, 3, "first"), spanned(5, 2, 4, "second")],
    };
    let set = run_diagnostics(b"file:///main.glu", &Err(error));
    assert_eq!(
        set.into_notifications(),
        vec![notice(
            "file:///imported.glu",
            vec![expected(1, 0, 3, "first"), expected(5, 2, 4, "second")]
        )]
    );
}

#[test]
fn other_errors_go_to_the_compiled_file() {
    let set = run_diagnostics(b"file:///main.glu", &Err(CompileError::Other(b"boom".to_vec())));
    assert_eq!(set.into_notifications(), vec![notice("file:///main.glu", vec![plain("boom")])]);
}

#[test]
fn several_errors_are_grouped_by_file_in_order() {
    let error = CompileError::Multiple(vec![
        CompileError::Parse { uri: b"file:///b.glu".to_vec(), errors: vec![spanned(0, 0, 1, "p1")] },
        CompileError::Multiple(vec![
            CompileError::Typecheck {
                uri: b"file:///a.glu".to_vec(),
                errors: vec![spanned(3, 1, 2, "t1")],
            },
            CompileError::Other(b"o1".to_vec()),
        ]),
        CompileError::Typecheck {
            uri: b"file:///b.glu".to_vec(),
            errors: vec![spanned(7, 0, 9, "t2")],
        },
        CompileError::Other(b"o2".to_vec()),
    ]);
    let mut set = DiagnosticSet::new();
    create_diagnostics(&mut set, b"file:///main.glu", &error);
    assert_eq!(set.len(), 3);
    assert_eq!(
        set.into_notifications(),
        vec![
            notice("file:///a.glu", vec![expected(3, 1, 2, "t1")]),
            notice("file:///b.glu", vec![expected(0, 0, 1, "p1"), expected(7, 0, 9, "t2")]),
            notice("file:///main.glu", vec![plain("o1"), plain("o2")]),
        ]
    );
}

#[test]
fn error_without_messages_still_names_its_file() {
    let error = CompileError::Parse { uri: b"file:///a.glu".to_vec(), errors: vec![] };
    let set = run_diagnostics(b"file:///main.glu", &Err(error));
    assert_eq!(set.into_notifications(), vec![notice("file:///a.glu", vec![])]);
}

#[test]
fn empty_list_of_errors_clears_the_file() {
    let set = run_diagnostics(b"file:///main.glu", &Err(CompileError::Multiple(vec![])));
    assert_eq!(set.into_notifications(), vec![notice("file:///main.glu", vec![])]);
}

#[test]
fn extend_adds_behind_what_is_held() {
    let mut set = DiagnosticSet::new();
    set.extend(b"u", vec![plain("one")]);
    set.extend(b"u", vec![]);
    set.extend(b"u", vec![plain("two"), plain("three")]);
    assert_eq!(
        set.into_notifications(),
        vec![notice("u", vec![plain("one"), plain("two"), plain("three")])]
    );
}

#[test]
fn clean_compile_stores_the_module() {
    let run = CompileRun::after_parse(ParseOutcome::Parsed).unwrap();
    let outcome = run.finish(Ok(()));
    assert!(outcome.store_module);
    assert!(outcome.result.is_ok());
}

#[test]
fn unrecoverable_parse_error_ends_the_compile() {
    let failed = CompileRun::after_parse(ParseOutcome::Failed(CompileError::Other(b"eof".to_vec())));
    match failed {
        Err(CompileError::Other(message)) => assert_eq!(message, b"eof".to_vec()),
        _ => panic!("expected the syntax error"),
    }
}

#[test]
fn recovered_parse_error_is_reported_with_later_errors() {
    let parse = CompileError::Parse { uri: b"f".to_vec(), errors: vec![spanned(0, 0, 1, "p")] };
    let check = CompileError::Typecheck { uri: b"f".to_vec(), errors: vec![spanned(1, 0, 1, "t")] };
    let mut run = CompileRun::after_parse(ParseOutcome::Recovered(parse)).unwrap();
    run.record(None);
    run.record(Some(check));
    let outcome = run.finish(Ok(()));
    assert!(!outcome.store_module);
    let set = run_diagnostics(b"f", &outcome.result);
    assert_eq!(
        set.into_notifications(),
        vec![notice("f", vec![expected(0, 0, 1, "p"), expected(1, 0, 1, "t")])]
    );
}

#[test]
fn failure_to_register_is_the_whole_result() {
    let mut run = CompileRun::after_parse(ParseOutcome::Parsed).unwrap();
    run.record(Some(CompileError::Other(b"macro".to_vec())));
    let outcome = run.finish(Err(CompileError::Other(b"global".to_vec())));
    assert!(!outcome.store_module);
    match outcome.result {
        Err(CompileError::Other(message)) => assert_eq!(message, b"global".to_vec()),
        _ => panic!("expected the failure to register"),
    }
}

#[test]
fn invalid_source_still_publishes_diagnostics() {
    let parse = CompileError::Parse {
        uri: b"file:///t.x".to_vec(),
        errors: vec![spanned(0, 4, 5, "Unexpected token")],
    };
    let failed = CompileRun::after_parse(ParseOutcome::Failed(parse));
    let result = match failed {
        Ok(run) => run.finish(Ok(())).result,
        Err(error) => Err(error),
    };
    let notices = run_diagnostics(b"file:///t.x", &result).into_notifications();
    assert_eq!(notices, vec![notice("file:///t.x", vec![expected(0, 4, 5, "Unexpected token")])]);
}

fn parse(message: &str) -> CompileError {
    CompileError::Parse { uri: b"f".to_vec(), errors: vec![spanned(0, 0, 1, message)] }
}

fn check(message: &str) -> CompileError {
    CompileError::Typecheck { uri: b"f".to_vec(), errors: vec![spanned(1, 0, 1, message)] }
}

fn notices_of(error: Option<CompileError>) -> Vec<PublishDiagnostics> {
    match error {
        Some(error) => run_diagnostics(b"main", &Err(error)).into_notifications(),
        None => vec![],
    }
}

#[test]
fn syntax_errors_alone_leave_nothing() {
    assert!(without_syntax_errors(parse("p")).is_none());
    assert!(without_syntax_errors(CompileError::Multiple(vec![])).is_none());
    let nested = CompileError::Multiple(vec![
        parse("p1"),
        CompileError::Multiple(vec![parse("p2"), CompileError::Multiple(vec![])]),
    ]);
    assert!(without_syntax_errors(nested).is_none());
}

#[test]
fn single_later_error_stands_alone() {
    match without_syntax_errors(check("t")) {
        Some(CompileError::Typecheck { errors, .. }) => assert_eq!(errors, vec![spanned(1, 0, 1, "t")]),
        _ => panic!("expected the type error"),
    }
    let nested = CompileError::Multiple(vec![
        parse("p"),
        CompileError::Multiple(vec![CompileError::Other(b"o".to_vec())]),
    ]);
    match without_syntax_errors(nested) {
        Some(CompileError::Other(message)) => assert_eq!(message, b"o".to_vec()),
        _ => panic!("expected the one error that is left"),
    }
}

#[test]
fn later_errors_keep_their_order() {
    let all = CompileError::Multiple(vec![
        parse("p1"),
        check("t1"),
        CompileError::Multiple(vec![CompileError::Other(b"o1".to_vec()), parse("p2"), check("t2")]),
        CompileError::Other(b"o2".to_vec()),
    ]);
    let rest = without_syntax_errors(all);
    match rest {
        Some(CompileError::Multiple(ref errors)) => assert_eq!(errors.len(), 4),
        _ => panic!("expected the four errors that are left"),
    }
    assert_eq!(
        notices_of(rest),
        vec![
            notice("f", vec![expected(1, 0, 1, "t1"), expected(1, 0, 1, "t2")]),
            notice("main", vec![plain("o1"), plain("o2")]),
        ]
    );
}
