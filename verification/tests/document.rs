use gluon_language_server::document::{apply_change, apply_changes, DocumentStore, TextChange};
use gluon_language_server::error::ServerError;
use gluon_language_server::position::{Position, Range};

fn range(start: (u64, u64), end: (u64, u64)) -> Range {
    Range {
        start: Position { line: start.0, character: start.1 },
        end: Position { line: end.0, character: end.1 },
    }
}

fn change(range: Option<Range>, text: &str) -> TextChange {
    TextChange { range, range_length: None, text: text.as_bytes().to_vec() }
}

#[test]
fn change_without_range_replaces_the_text() {
    let mut source = b"let x = 1\nx".to_vec();
    assert_eq!(apply_change(&mut source, &change(None, "new text")), Ok(()));
    assert_eq!(source, b"new text".to_vec());
}

#[test]
fn change_with_range_splices() {
    let mut source = b"let test = 1\ntest".to_vec();
    let edit = change(Some(range((0, 4), (0, 8))), "value");
    assert_eq!(apply_change(&mut source, &edit), Ok(()));
    assert_eq!(source, b"let value = 1\ntest".to_vec());
    let edit = change(Some(range((1, 0), (1, 4))), "value");
    assert_eq!(apply_change(&mut source, &edit), Ok(()));
    assert_eq!(source, b"let value = 1\nvalue".to_vec());
}

#[test]
fn empty_range_inserts_and_empty_text_deletes() {
    let mut source = b"ab\ncd".to_vec();
    assert_eq!(apply_change(&mut source, &change(Some(range((1, 1), (1, 1))), "XY")), Ok(()));
    assert_eq!(source, b"ab\ncXYd".to_vec());
    assert_eq!(apply_change(&mut source, &change(Some(range((0, 1), (1, 1))), "")), Ok(()));
    assert_eq!(source, b"aXYd".to_vec());
}

#[test]
fn range_length_is_accepted_with_a_range() {
    let mut source = b"abc".to_vec();
    let edit = TextChange {
        range: Some(range((0, 1), (0, 2))),
        range_length: Some(1),
        text: b"-".to_vec(),
    };
    assert_eq!(apply_change(&mut source, &edit), Ok(()));
    assert_eq!(source, b"a-c".to_vec());
}

#[test]
fn range_length_without_range_replaces_the_text() {
    for length in [0, 3, 7, u64::MAX] {
        let mut source = b"abc".to_vec();
        let edit = TextChange { range: None, range_length: Some(length), text: b"x".to_vec() };
        assert_eq!(apply_change(&mut source, &edit), Ok(()));
        assert_eq!(source, b"x".to_vec());
    }
}

#[test]
fn span_through_a_character_is_refused() {
    let text = "\u{e9}a\n\u{20ac}".as_bytes().to_vec();
    let mut source = text.clone();
    assert_eq!(
        apply_change(&mut source, &change(Some(range((0, 1), (0, 2))), "x")),
        Err(ServerError::SpanOutOfRange { start: 1, end: 2 })
    );
    assert_eq!(
        apply_change(&mut source, &change(Some(range((0, 0), (0, 1))), "x")),
        Err(ServerError::SpanOutOfRange { start: 0, end: 1 })
    );
    assert_eq!(
        apply_change(&mut source, &change(Some(range((1, 1), (1, 3))), "")),
        Err(ServerError::SpanOutOfRange { start: 5, end: 7 })
    );
    assert_eq!(source, text);
    assert_eq!(apply_change(&mut source, &change(Some(range((0, 0), (0, 2))), "e")), Ok(()));
    assert_eq!(source, "ea\n\u{20ac}".as_bytes().to_vec());
    assert_eq!(apply_change(&mut source, &change(Some(range((1, 0), (1, 3))), "\u{a3}")), Ok(()));
    assert_eq!(source, "ea\n\u{a3}".as_bytes().to_vec());
    assert!(String::from_utf8(source).is_ok());
}

#[test]
fn text_that_is_not_utf8_is_spliced_by_bytes() {
    let mut source = vec![0xff, 0xc3, 0xa9];
    assert_eq!(apply_change(&mut source, &change(Some(range((0, 2), (0, 3))), "x")), Ok(()));
    assert_eq!(source, vec![0xff, 0xc3, b'x']);
}

#[test]
fn range_outside_the_text_is_refused() {
    let mut source = b"ab\ncd".to_vec();
    assert_eq!(
        apply_change(&mut source, &change(Some(range((2, 0), (2, 1))), "x")),
        Err(ServerError::PositionOutOfRange { line: 2, character: 0 })
    );
    assert_eq!(
        apply_change(&mut source, &change(Some(range((1, 0), (1, 3))), "x")),
        Err(ServerError::SpanOutOfRange { start: 3, end: 6 })
    );
    assert_eq!(
        apply_change(&mut source, &change(Some(range((1, 1), (0, 1))), "x")),
        Err(ServerError::SpanOutOfRange { start: 4, end: 1 })
    );
    assert_eq!(source, b"ab\ncd".to_vec());
}

#[test]
fn whole_range_equals_no_range() {
    for text in ["", "one line", "two\nlines", "ends with newline\n", "\n\n"] {
        let lines = gluon_language_server::position::build_line_index(text.as_bytes());
        let end = lines.offset_to_position(text.len()).unwrap();
        let whole = Range { start: Position { line: 0, character: 0 }, end };
        let mut with_range = text.as_bytes().to_vec();
        let mut without_range = text.as_bytes().to_vec();
        let mut with_length_only = text.as_bytes().to_vec();
        let length_only = TextChange {
            range: None,
            range_length: Some(text.len() as u64),
            text: b"replaced\n".to_vec(),
        };
        assert_eq!(apply_change(&mut with_range, &change(Some(whole), "replaced\n")), Ok(()));
        assert_eq!(apply_change(&mut without_range, &change(None, "replaced\n")), Ok(()));
        assert_eq!(apply_change(&mut with_length_only, &length_only), Ok(()));
        assert_eq!(with_range, without_range);
        assert_eq!(with_length_only, without_range);
        assert_eq!(with_range, b"replaced\n".to_vec());
    }
}

#[test]
fn changes_apply_in_order_against_the_previous_result() {
    let mut source = b"a".to_vec();
    let changes = vec![
        change(Some(range((0, 1), (0, 1))), "\nb"),
        change(Some(range((1, 1), (1, 1))), "c"),
        change(Some(range((0, 0), (0, 1))), "A"),
    ];
    assert_eq!(apply_changes(&mut source, &changes), Ok(()));
    assert_eq!(source, b"A\nbc".to_vec());
}

#[test]
fn changes_stop_at_the_first_failure() {
    let mut source = b"a".to_vec();
    let changes = vec![
        change(Some(range((0, 1), (0, 1))), "b"),
        change(Some(range((3, 0), (3, 0))), "never"),
        change(None, "never either"),
    ];
    assert_eq!(
        apply_changes(&mut source, &changes),
        Err(ServerError::PositionOutOfRange { line: 3, character: 0 })
    );
    assert_eq!(source, b"ab".to_vec());
}

#[test]
fn store_opens_and_overwrites() {
    let mut store = DocumentStore::new();
    assert!(!store.is_open(b"file:///t.x"));
    assert_eq!(store.text(b"file:///t.x"), None);
    store.open(b"file:///t.x".to_vec(), b"one".to_vec());
    store.open(b"file:///a.x".to_vec(), b"other".to_vec());
    assert!(store.is_open(b"file:///t.x"));
    assert_eq!(store.text(b"file:///t.x"), Some(b"one".to_vec()));
    store.open(b"file:///t.x".to_vec(), b"two".to_vec());
    assert_eq!(store.text(b"file:///t.x"), Some(b"two".to_vec()));
    assert_eq!(store.text(b"file:///a.x"), Some(b"other".to_vec()));
}

#[test]
fn store_applies_changes_and_returns_a_copy() {
    let mut store = DocumentStore::new();
    store.open(b"file:///t.x".to_vec(), b"let x = 1".to_vec());
    let changes = vec![change(Some(range((0, 8), (0, 9))), "22")];
    assert_eq!(store.apply_changes(b"file:///t.x", &changes), Ok(b"let x = 22".to_vec()));
    assert_eq!(store.text(b"file:///t.x"), Some(b"let x = 22".to_vec()));
}

#[test]
fn store_keeps_changes_before_a_failure() {
    let mut store = DocumentStore::new();
    store.open(b"u".to_vec(), b"abc".to_vec());
    let changes = vec![change(None, "xyz"), change(Some(range((9, 0), (9, 0))), "!")];
    assert_eq!(
        store.apply_changes(b"u", &changes),
        Err(ServerError::PositionOutOfRange { line: 9, character: 0 })
    );
    assert_eq!(store.text(b"u"), Some(b"xyz".to_vec()));
}

#[test]
fn store_reports_a_document_that_is_not_open() {
    let mut store = DocumentStore::new();
    assert_eq!(
        store.apply_changes(b"file:///none", &vec![change(None, "x")]),
        Err(ServerError::DocumentNotOpen { uri: b"file:///none".to_vec() })
    );
    assert!(!store.is_open(b"file:///none"));
}
