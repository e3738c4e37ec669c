use gluon_language_server::error::ServerError;
use gluon_language_server::position::{build_line_index, ByteSpan, Position, Range};
use gluon_language_server::symbols::{
    completion_symbol_to_symbol_information, document_symbols, expr_to_kind, type_to_kind,
    workspace_symbols, BuiltinType, CompletionSymbol, ExprShape, FileRange, ModuleSymbols,
    SpannedSymbol, SymbolInformation, SymbolKind, TypeHead, TypeShape,
};

fn shape(head: TypeHead) -> TypeShape {
    TypeShape { is_function: false, head }
}

fn value(name: &str, start: usize, end: usize) -> SpannedSymbol {
    SpannedSymbol {
        span: ByteSpan { start, end },
        value: CompletionSymbol::Value {
            name: name.as_bytes().to_vec(),
            typ: shape(TypeHead::Builtin(BuiltinType::Int)),
            expr: ExprShape::Other,
        },
    }
}

fn information(name: &str, kind: SymbolKind, uri: &str, range: ((u64, u64), (u64, u64))) -> SymbolInformation {
    SymbolInformation {
        name: name.as_bytes().to_vec(),
        kind,
        location: FileRange {
            uri: uri.as_bytes().to_vec(),
            range: Range {
                start: Position { line: (range.0).0, character: (range.0).1 },
                end: Position { line: (range.1).0, character: (range.1).1 },
            },
        },
        container_name: None,
    }
}

#[test]
fn kinds_of_types() {
    assert_eq!(type_to_kind(&shape(TypeHead::Builtin(BuiltinType::Char))), SymbolKind::String);
    assert_eq!(type_to_kind(&shape(TypeHead::Builtin(BuiltinType::String))), SymbolKind::String);
    assert_eq!(type_to_kind(&shape(TypeHead::Builtin(BuiltinType::Byte))), SymbolKind::Number);
    assert_eq!(type_to_kind(&shape(TypeHead::Builtin(BuiltinType::Int))), SymbolKind::Number);
    assert_eq!(type_to_kind(&shape(TypeHead::Builtin(BuiltinType::Float))), SymbolKind::Number);
    assert_eq!(type_to_kind(&shape(TypeHead::Builtin(BuiltinType::Array))), SymbolKind::Array);
    assert_eq!(type_to_kind(&shape(TypeHead::Builtin(BuiltinType::Function))), SymbolKind::Function);
    assert_eq!(type_to_kind(&shape(TypeHead::Ident(b"Bool".to_vec()))), SymbolKind::Boolean);
    assert_eq!(type_to_kind(&shape(TypeHead::Alias(b"Bool".to_vec()))), SymbolKind::Boolean);
    assert_eq!(type_to_kind(&shape(TypeHead::Ident(b"Boolean".to_vec()))), SymbolKind::Variable);
    assert_eq!(type_to_kind(&shape(TypeHead::Alias(b"bool".to_vec()))), SymbolKind::Variable);
    assert_eq!(type_to_kind(&shape(TypeHead::Other)), SymbolKind::Variable);
}

#[test]
fn function_types_come_first() {
    let function = TypeShape { is_function: true, head: TypeHead::Ident(b"Bool".to_vec()) };
    assert_eq!(type_to_kind(&function), SymbolKind::Function);
    let function = TypeShape { is_function: true, head: TypeHead::Builtin(BuiltinType::Int) };
    assert_eq!(type_to_kind(&function), SymbolKind::Function);
}

#[test]
fn imported_modules_are_modules() {
    let int = shape(TypeHead::Builtin(BuiltinType::Int));
    assert_eq!(expr_to_kind(&ExprShape::Ident(b"std.prelude".to_vec()), &int), SymbolKind::Module);
    assert_eq!(expr_to_kind(&ExprShape::Ident(b"prelude".to_vec()), &int), SymbolKind::Number);
    assert_eq!(expr_to_kind(&ExprShape::Other, &int), SymbolKind::Number);
}

#[test]
fn symbol_information_of_types_and_values() {
    let lines = build_line_index(b"type Foo = Int\nlet foo = 1\nfoo");
    let class = SpannedSymbol {
        span: ByteSpan { start: 5, end: 8 },
        value: CompletionSymbol::Type { name: b"Foo".to_vec() },
    };
    assert_eq!(
        completion_symbol_to_symbol_information(&lines, &class, b"file:///t.glu"),
        Ok(information("Foo", SymbolKind::Class, "file:///t.glu", ((0, 5), (0, 8))))
    );
    assert_eq!(
        completion_symbol_to_symbol_information(&lines, &value("foo", 19, 22), b"file:///t.glu"),
        Ok(information("foo", SymbolKind::Number, "file:///t.glu", ((1, 4), (1, 7))))
    );
    assert_eq!(
        completion_symbol_to_symbol_information(&lines, &value("foo", 19, 99), b"file:///t.glu"),
        Err(ServerError::OffsetOutOfRange { offset: 99 })
    );
}

#[test]
fn document_symbols_lists_all_in_order() {
    let lines = build_line_index(b"let a = 1\nlet b = 2\n");
    let symbols = vec![value("a", 4, 5), value("b", 14, 15)];
    assert_eq!(
        document_symbols(&lines, &symbols, b"u"),
        Ok(vec![
            information("a", SymbolKind::Number, "u", ((0, 4), (0, 5))),
            information("b", SymbolKind::Number, "u", ((1, 4), (1, 5))),
        ])
    );
    assert_eq!(document_symbols(&lines, &vec![], b"u"), Ok(vec![]));
}

#[test]
fn workspace_symbols_filters_by_name_and_keeps_the_file() {
    let first_lines = build_line_index(b"let foo = 1\nlet bar = 2\nlet my_foo_2 = 3");
    let first_symbols = vec![value("foo", 4, 7), value("bar", 16, 19), value("my_foo_2", 28, 36)];
    let second_lines = build_line_index(b"let food = 1\nlet fo = 2");
    let second_symbols = vec![value("food", 4, 8), value("fo", 17, 19)];
    let modules = vec![
        ModuleSymbols { uri: b"file:///first.glu", lines: &first_lines, symbols: &first_symbols },
        ModuleSymbols { uri: b"file:///second.glu", lines: &second_lines, symbols: &second_symbols },
    ];
    assert_eq!(
        workspace_symbols(&modules, b"foo"),
        Ok(vec![
            information("foo", SymbolKind::Number, "file:///first.glu", ((0, 4), (0, 7))),
            information("my_foo_2", SymbolKind::Number, "file:///first.glu", ((2, 4), (2, 12))),
            information("food", SymbolKind::Number, "file:///second.glu", ((0, 4), (0, 8))),
        ])
    );
    assert_eq!(workspace_symbols(&modules, b"nothing"), Ok(vec![]));
    assert_eq!(workspace_symbols(&modules, b"").map(|found| found.len()), Ok(5));
}

#[test]
fn workspace_symbols_fails_on_a_span_outside_the_text() {
    let lines = build_line_index(b"let foo = 1");
    let symbols = vec![value("bar", 0, 400), value("foo", 4, 7), value("foo2", 4, 500)];
    let modules = vec![ModuleSymbols { uri: b"u", lines: &lines, symbols: &symbols }];
    assert_eq!(
        workspace_symbols(&modules, b"foo"),
        Err(ServerError::OffsetOutOfRange { offset: 500 })
    );
    assert_eq!(workspace_symbols(&modules, b"foo2").is_err(), true);
    assert_eq!(
        workspace_symbols(&modules, b"o = ").map(|found| found.len()),
        Ok(0)
    );
}
