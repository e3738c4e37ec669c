use gluon_language_server::completion::{
    completion_item, completion_items, label_of, resolve_item, CompletionData, CompletionItem,
    CompletionItemKind, Suggestion,
};
use gluon_language_server::position::Position;

fn suggestion(name: &str, typ: &str) -> Suggestion {
    Suggestion { name: name.as_bytes().to_vec(), typ: typ.as_bytes().to_vec() }
}

fn item(label: &str, detail: &str) -> CompletionItem {
    CompletionItem {
        label: label.as_bytes().to_vec(),
        kind: Some(CompletionItemKind::Variable),
        detail: Some(detail.as_bytes().to_vec()),
        documentation: None,
        data: Some(CompletionData {
            text_document_uri: b"file:///t.glu".to_vec(),
            position: Position { line: 3, character: 9 },
        }),
    }
}

fn at() -> Position {
    Position { line: 3, character: 9 }
}

#[test]
fn label_ends_at_the_first_colon() {
    assert_eq!(label_of(b"test"), b"test".to_vec());
    assert_eq!(label_of(b"test:Line 1, Row 2"), b"test".to_vec());
    assert_eq!(label_of(b"a:b:c"), b"a".to_vec());
    assert_eq!(label_of(b":x"), b"".to_vec());
    assert_eq!(label_of(b""), b"".to_vec());
}

#[test]
fn item_carries_type_and_request() {
    assert_eq!(
        completion_item(&suggestion("map:12", "(a -> b) -> f a -> f b"), b"file:///t.glu", at()),
        item("map", "(a -> b) -> f a -> f b")
    );
}

#[test]
fn items_are_sorted_by_label() {
    let suggestions = vec![
        suggestion("zip", "Z"),
        suggestion("abs", "A"),
        suggestion("map", "M"),
        suggestion("Map", "T"),
        suggestion("ab", "B"),
    ];
    assert_eq!(
        completion_items(&suggestions, b"file:///t.glu", at()),
        vec![item("Map", "T"), item("ab", "B"), item("abs", "A"), item("map", "M"), item("zip", "Z")]
    );
    assert_eq!(completion_items(&vec![], b"file:///t.glu", at()), vec![]);
}

#[test]
fn items_with_the_same_label_keep_their_order() {
    let suggestions = vec![
        suggestion("x:2", "second scope"),
        suggestion("a", "first"),
        suggestion("x:1", "first scope"),
        suggestion("x", "no scope"),
    ];
    assert_eq!(
        completion_items(&suggestions, b"file:///t.glu", at()),
        vec![
            item("a", "first"),
            item("x", "second scope"),
            item("x", "first scope"),
            item("x", "no scope"),
        ]
    );
}

#[test]
fn resolve_sets_the_documentation() {
    let mut expected = item("map", "M");
    expected.documentation = Some(b"Applies a function".to_vec());
    assert_eq!(resolve_item(item("map", "M"), Some(b"Applies a function".to_vec())), expected);
    let mut documented = item("map", "M");
    documented.documentation = Some(b"old".to_vec());
    assert_eq!(resolve_item(documented, None), item("map", "M"));
}
