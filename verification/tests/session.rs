use gluon_language_server::document::TextChange;
use gluon_language_server::edits::{document_highlights, formatting_edits, DocumentHighlight, TextEdit};
use gluon_language_server::error::ServerError;
use gluon_language_server::lifecycle::LifecycleEvent;
use gluon_language_server::modules::CompiledModule;
use gluon_language_server::output::{log_enabled, log_message_enabled, LogLevel, OutputSink, SendError};
use gluon_language_server::paths::{
    module_file_name, strip_file_prefix, strip_prefix, uri_file_path,
};
use gluon_language_server::position::{build_line_index, ByteSpan, Position, Range};
use gluon_language_server::scheduler::WorkItem;
use gluon_language_server::session::{ChangeOutcome, Session};

fn change(range: Option<((u64, u64), (u64, u64))>, text: &str) -> TextChange {
    TextChange {
        range: range.map(|(start, end)| Range {
            start: Position { line: start.0, character: start.1 },
            end: Position { line: end.0, character: end.1 },
        }),
        range_length: None,
        text: text.as_bytes().to_vec(),
    }
}

fn job(key: &str, value: &str) -> WorkItem {
    WorkItem { key: key.as_bytes().to_vec(), value: value.as_bytes().to_vec() }
}

#[test]
fn change_queues_a_compile_of_the_new_text() {
    let mut session = Session::new(2);
    session.did_open(b"file:///t.x".to_vec(), b"let test = 1\ntest".to_vec());
    let outcome = session.did_change(b"file:///t.x", &vec![change(Some(((0, 11), (0, 12))), "2")]);
    assert_eq!(outcome, ChangeOutcome::Queued);
    assert_eq!(session.next_job(), Some(job("file:///t.x", "let test = 2\ntest")));
    assert_eq!(session.next_job(), None);
}

#[test]
fn edits_during_a_compile_wait_behind_it() {
    let mut session = Session::new(2);
    session.did_open(b"u".to_vec(), b"a".to_vec());
    assert_eq!(session.did_change(b"u", &vec![change(None, "b")]), ChangeOutcome::Queued);
    assert_eq!(session.next_job(), Some(job("u", "b")));
    assert_eq!(session.did_change(b"u", &vec![change(None, "c")]), ChangeOutcome::Queued);
    assert_eq!(session.did_change(b"u", &vec![change(None, "d")]), ChangeOutcome::Queued);
    assert_eq!(session.next_job(), None);
    session.job_finished(b"u", None);
    assert_eq!(session.next_job(), Some(job("u", "d")));
    session.job_finished(b"u", None);
    assert_eq!(session.next_job(), None);
}

#[test]
fn failed_change_queues_nothing() {
    let mut session = Session::new(2);
    session.did_open(b"u".to_vec(), b"a".to_vec());
    let changes = vec![change(None, "b"), change(Some(((4, 0), (4, 0))), "x")];
    assert_eq!(
        session.did_change(b"u", &changes),
        ChangeOutcome::Rejected(ServerError::PositionOutOfRange { line: 4, character: 0 })
    );
    assert_eq!(session.next_job(), None);
    assert_eq!(
        session.did_change(b"unopened", &vec![change(None, "b")]),
        ChangeOutcome::Rejected(ServerError::DocumentNotOpen { uri: b"unopened".to_vec() })
    );
    assert_eq!(session.did_change(b"u", &vec![change(Some(((0, 1), (0, 1))), "c")]), ChangeOutcome::Queued);
    assert_eq!(session.next_job(), Some(job("u", "bc")));
}

#[test]
fn finished_job_replaces_the_cached_module() {
    let mut session = Session::new(1);
    session.did_open(b"file:///m.glu".to_vec(), b"1".to_vec());
    session.store_module(
        b"m".to_vec(),
        CompiledModule::new(b"file:///m.glu".to_vec(), b"1".to_vec(), vec![], 1),
    );
    assert_eq!(session.did_change(b"file:///m.glu", &vec![change(None, "12")]), ChangeOutcome::Queued);
    let work = session.next_job().unwrap();
    assert_eq!(session.module_cache().get(b"m").unwrap().get_source(), &b"1".to_vec());
    let compiled = CompiledModule::new(work.key.clone(), work.value.clone(), vec![], 2);
    session.job_finished(&work.key, Some((b"m".to_vec(), compiled)));
    assert_eq!(session.module_cache().get(b"m").unwrap().get_source(), &b"12".to_vec());
    assert_eq!(session.module_cache().get(b"m").unwrap().get_handle(), 2);
}

#[test]
fn exit_ends_the_session_with_jobs_outstanding() {
    let mut session = Session::new(1);
    session.did_open(b"a".to_vec(), b"1".to_vec());
    session.did_open(b"b".to_vec(), b"2".to_vec());
    assert_eq!(session.did_change(b"a", &vec![change(None, "x")]), ChangeOutcome::Queued);
    assert_eq!(session.did_change(b"b", &vec![change(None, "y")]), ChangeOutcome::Queued);
    assert_eq!(session.next_job(), Some(job("a", "x")));
    assert!(!session.has_exited());
    assert!(session.accepts_work());
    session.on_lifecycle(LifecycleEvent::Exit);
    assert!(session.has_exited());
    assert!(!session.accepts_work());
    session.on_lifecycle(LifecycleEvent::Initialize);
    assert!(session.has_exited());
}

#[test]
fn shutdown_stops_the_taking_of_work() {
    let mut session = Session::new(1);
    session.on_lifecycle(LifecycleEvent::Initialize);
    assert!(session.accepts_work());
    session.on_lifecycle(LifecycleEvent::Shutdown);
    assert!(!session.accepts_work());
    assert!(!session.has_exited());
}

#[test]
fn formatting_replaces_the_whole_text() {
    let module = CompiledModule::new(b"u".to_vec(), b"let x=1\nx\n".to_vec(), vec![], 0);
    assert_eq!(
        formatting_edits(&module, Ok(b"let x = 1\nx\n".to_vec())),
        Ok(vec![TextEdit {
            range: Range {
                start: Position { line: 0, character: 0 },
                end: Position { line: 2, character: 0 },
            },
            new_text: b"let x = 1\nx\n".to_vec(),
        }])
    );
}

#[test]
fn formatting_of_invalid_source_is_an_error() {
    let module = CompiledModule::new(b"u".to_vec(), b"let = ".to_vec(), vec![], 0);
    assert_eq!(
        formatting_edits(&module, Err(b"Unexpected token".to_vec())),
        Err(ServerError::FormatFailed { message: b"Unexpected token".to_vec() })
    );
}

#[test]
fn highlights_of_all_uses() {
    let lines = build_line_index(b"let test = 1\ntest");
    let spans = vec![ByteSpan { start: 4, end: 8 }, ByteSpan { start: 13, end: 17 }];
    let range = |line, from, to| Range {
        start: Position { line, character: from },
        end: Position { line, character: to },
    };
    assert_eq!(
        document_highlights(&lines, &spans),
        Ok(vec![
            DocumentHighlight { range: range(0, 4, 8) },
            DocumentHighlight { range: range(1, 0, 4) },
        ])
    );
    assert_eq!(document_highlights(&lines, &vec![]), Ok(vec![]));
    assert_eq!(
        document_highlights(&lines, &vec![ByteSpan { start: 4, end: 8 }, ByteSpan { start: 20, end: 30 }]),
        Err(ServerError::OffsetOutOfRange { offset: 20 })
    );
}

#[test]
fn file_uri_names_a_path() {
    assert_eq!(uri_file_path(b"file:///home/user/test.glu"), Ok(b"/home/user/test.glu".to_vec()));
    assert_eq!(uri_file_path(b"file:///c%3A/test/test.glu"), Ok(b"/c:/test/test.glu".to_vec()));
    assert_eq!(uri_file_path(b"file://localhost/etc/hosts"), Ok(b"/etc/hosts".to_vec()));
    assert_eq!(uri_file_path(b"file:///a%20b/%C3%A9.glu"), Ok("/a b/\u{e9}.glu".as_bytes().to_vec()));
}

#[test]
fn uri_that_names_no_file_is_refused() {
    assert_eq!(uri_file_path(b"http://example.com/test.glu"), Err(ServerError::InvalidFileName));
    assert_eq!(uri_file_path(b"mailto:someone@example.com"), Err(ServerError::InvalidFileName));
    assert_eq!(uri_file_path(b"test.glu"), Err(ServerError::InvalidFileName));
    assert_eq!(uri_file_path(b""), Err(ServerError::InvalidFileName));
    assert_eq!(uri_file_path(&[0x66, 0xff]), Err(ServerError::InvalidFileName));
    assert_eq!(uri_file_path(b"file:///a/%FF.glu"), Err(ServerError::InvalidFileName));
}

#[test]
fn test_strip_file_prefix() {
    let current_dir = b"/home/user/project".to_vec();
    let renamed = strip_file_prefix(&vec![current_dir.clone()], b"/home/user/project/test", &current_dir);
    assert_eq!(renamed, b"test".to_vec());
}

#[test]
fn first_matching_search_path_wins() {
    let paths = vec![b"/opt/lib".to_vec(), b"/home/user".to_vec(), b"/home/user/project".to_vec()];
    assert_eq!(
        strip_file_prefix(&paths, b"/home/user/project/std/prelude.glu", b"/home/user/project"),
        b"project/std/prelude.glu".to_vec()
    );
    assert_eq!(
        strip_file_prefix(&vec![b"/opt/lib".to_vec()], b"/home/user/project/a.glu", b"/home/user/project"),
        b"a.glu".to_vec()
    );
    assert_eq!(
        strip_file_prefix(&vec![b"/opt/lib".to_vec()], b"/srv/a.glu", b"/home/user"),
        b"/srv/a.glu".to_vec()
    );
}

#[test]
fn prefix_ends_at_a_separator() {
    assert_eq!(strip_prefix(b"/home/user/a", b"/home/user"), Some(b"a".to_vec()));
    assert_eq!(strip_prefix(b"/home/username/a", b"/home/user"), None);
    assert_eq!(strip_prefix(b"/home/user", b"/home/user"), Some(b"".to_vec()));
    assert_eq!(strip_prefix(b"/a", b"/"), Some(b"a".to_vec()));
    assert_eq!(strip_prefix(b"a/b", b""), Some(b"a/b".to_vec()));
    assert_eq!(strip_prefix(b"/a", b"/a/b"), None);
}

#[test]
fn module_file_name_of_a_module() {
    assert_eq!(module_file_name(b"std.prelude"), b"std/prelude.glu".to_vec());
    assert_eq!(module_file_name(b"main"), b"main.glu".to_vec());
    assert_eq!(module_file_name(b""), b".glu".to_vec());
}

#[test]
fn log_messages_need_debug_output() {
    assert!(!log_message_enabled(LogLevel::Error));
    assert!(!log_message_enabled(LogLevel::Warn));
    assert!(!log_message_enabled(LogLevel::Info));
    assert!(log_message_enabled(LogLevel::Debug));
    assert!(log_message_enabled(LogLevel::Trace));
    assert!(log_enabled(LogLevel::Info, LogLevel::Error));
    assert!(log_enabled(LogLevel::Info, LogLevel::Info));
    assert!(!log_enabled(LogLevel::Info, LogLevel::Trace));
}

#[test]
fn sink_writes_in_the_order_of_sending() {
    let mut sink = OutputSink::new(3);
    assert_eq!(sink.try_send(b"one".to_vec()), Ok(()));
    assert_eq!(sink.try_send(b"two".to_vec()), Ok(()));
    assert_eq!(sink.next_frame(), Some(b"Content-Length: 3\r\n\r\none".to_vec()));
    assert_eq!(sink.try_send(b"three".to_vec()), Ok(()));
    assert_eq!(sink.next_frame(), Some(b"Content-Length: 3\r\n\r\ntwo".to_vec()));
    assert_eq!(sink.next_frame(), Some(b"Content-Length: 5\r\n\r\nthree".to_vec()));
    assert_eq!(sink.next_frame(), None);
}

#[test]
fn full_sink_hands_the_message_back() {
    let mut sink = OutputSink::new(1);
    assert_eq!(sink.try_send(b"one".to_vec()), Ok(()));
    assert_eq!(sink.try_send(b"two".to_vec()), Err(SendError::Full(b"two".to_vec())));
    assert_eq!(sink.next_frame(), Some(b"Content-Length: 3\r\n\r\none".to_vec()));
    assert_eq!(sink.try_send(b"two".to_vec()), Ok(()));
    sink.close();
    assert_eq!(sink.try_send(b"three".to_vec()), Err(SendError::Closed(b"three".to_vec())));
    assert_eq!(sink.next_frame(), Some(b"Content-Length: 3\r\n\r\ntwo".to_vec()));
}
