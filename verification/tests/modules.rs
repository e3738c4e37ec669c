use gluon_language_server::error::ServerError;
use gluon_language_server::modules::{module_key, CompiledModule, ModuleCache};
use gluon_language_server::position::{ByteSpan, Position, Range};
use gluon_language_server::symbols::{
    BuiltinType, CompletionSymbol, ExprShape, FileRange, SpannedSymbol, SymbolInformation,
    SymbolKind, TypeHead, TypeShape,
};

fn module(uri: &str, source: &str, handle: u64) -> CompiledModule {
    CompiledModule::new(uri.as_bytes().to_vec(), source.as_bytes().to_vec(), vec![], handle)
}

#[test]
fn module_key_is_the_module_name_of_the_file() {
    assert_eq!(module_key(b"main.glu"), Some(b"main".to_vec()));
    assert_eq!(module_key(b"./main/test.glu"), Some(b"main.test".to_vec()));
    assert_eq!(module_key(b"std/prelude.glu"), Some(b"std.prelude".to_vec()));
    assert_eq!(module_key(b"test"), Some(b"test".to_vec()));
}

#[test]
fn file_name_that_is_not_text_has_no_key() {
    assert_eq!(module_key(&[0x66, 0xff, 0x6f]), None);
}

#[test]
fn compiled_module_keeps_what_it_was_made_from() {
    let compiled = module("file:///t.glu", "let x = 1\nx", 7);
    assert_eq!(compiled.get_uri(), &b"file:///t.glu".to_vec());
    assert_eq!(compiled.get_source(), &b"let x = 1\nx".to_vec());
    assert_eq!(compiled.get_handle(), 7);
    assert_eq!(compiled.get_symbols().len(), 0);
    assert_eq!(compiled.get_lines().line_count(), 2);
    assert_eq!(compiled.get_lines().text_len(), 11);
}

#[test]
fn cache_replaces_modules_whole() {
    let mut cache = ModuleCache::new();
    assert_eq!(cache.len(), 0);
    cache.insert(b"test".to_vec(), module("file:///test.glu", "1", 1));
    cache.insert(b"other".to_vec(), module("file:///other.glu", "2", 2));
    cache.insert(b"test".to_vec(), module("file:///test.glu", "123", 3));
    assert_eq!(cache.len(), 2);
    assert_eq!(cache.name_at(0), &b"other".to_vec());
    assert_eq!(cache.name_at(1), &b"test".to_vec());
    assert_eq!(cache.module_at(1).get_handle(), 3);
    assert_eq!(cache.get(b"test").map(|found| found.get_source().clone()), Some(b"123".to_vec()));
    assert!(cache.get(b"missing").is_none());
}

#[test]
fn retrieve_finds_the_module_of_a_file() {
    let mut cache = ModuleCache::new();
    cache.insert(b"main.test".to_vec(), module("file:///main/test.glu", "let test = 1\ntest", 1));
    let found = cache.retrieve(b"main/test.glu").unwrap();
    assert_eq!(found.get_handle(), 1);
    assert!(cache.retrieve(b"main.test").is_ok());
}

#[test]
fn retrieve_names_the_module_that_is_not_loaded() {
    let mut cache = ModuleCache::new();
    cache.insert(b"main".to_vec(), module("file:///main.glu", "1", 1));
    match cache.retrieve(b"other/file.glu") {
        Err(error) => assert_eq!(error, ServerError::ModuleNotLoaded { module: b"other.file".to_vec() }),
        Ok(_) => panic!("no module is cached for the file"),
    }
    match cache.retrieve(&[0xc3, 0x28]) {
        Err(error) => assert_eq!(error, ServerError::InvalidFileName),
        Ok(_) => panic!("the file name is not text"),
    }
}

#[test]
fn retrieve_with_pos_translates_against_the_compiled_text() {
    let mut cache = ModuleCache::new();
    cache.insert(b"test".to_vec(), module("file:///test.glu", "\nlet test = 1\ntest\n", 4));
    let (found, offset) = cache
        .retrieve_with_pos(b"test.glu", &Position { line: 2, character: 2 })
        .unwrap();
    assert_eq!(found.get_handle(), 4);
    assert_eq!(offset, 16);
    match cache.retrieve_with_pos(b"test.glu", &Position { line: 9, character: 0 }) {
        Err(error) => assert_eq!(error, ServerError::PositionOutOfRange { line: 9, character: 0 }),
        Ok(_) => panic!("the text has no such line"),
    }
    assert!(cache.retrieve_with_pos(b"nope.glu", &Position { line: 0, character: 0 }).is_err());
}

fn value(name: &str, start: usize, end: usize) -> SpannedSymbol {
    SpannedSymbol {
        span: ByteSpan { start, end },
        value: CompletionSymbol::Value {
            name: name.as_bytes().to_vec(),
            typ: TypeShape { is_function: false, head: TypeHead::Builtin(BuiltinType::Int) },
            expr: ExprShape::Other,
        },
    }
}

fn found(name: &str, uri: &str, line: u64, from: u64, to: u64) -> SymbolInformation {
    SymbolInformation {
        name: name.as_bytes().to_vec(),
        kind: SymbolKind::Number,
        location: FileRange {
            uri: uri.as_bytes().to_vec(),
            range: Range {
                start: Position { line, character: from },
                end: Position { line, character: to },
            },
        },
        container_name: None,
    }
}

#[test]
fn symbols_matching_searches_every_cached_module() {
    let mut cache = ModuleCache::new();
    cache.insert(
        b"second".to_vec(),
        CompiledModule::new(
            b"file:///second.glu".to_vec(),
            b"let food = 1\nlet fo = 2".to_vec(),
            vec![value("food", 4, 8), value("fo", 17, 19)],
            2,
        ),
    );
    cache.insert(
        b"first".to_vec(),
        CompiledModule::new(
            b"file:///first.glu".to_vec(),
            b"let foo = 1\nlet bar = 2".to_vec(),
            vec![value("foo", 4, 7), value("bar", 16, 19)],
            1,
        ),
    );
    assert_eq!(
        cache.symbols_matching(b"foo"),
        Ok(vec![
            found("foo", "file:///first.glu", 0, 4, 7),
            found("food", "file:///second.glu", 0, 4, 8),
        ])
    );
    assert_eq!(cache.symbols_matching(b"bar").map(|symbols| symbols.len()), Ok(1));
    assert_eq!(cache.symbols_matching(b"none"), Ok(vec![]));
    assert_eq!(ModuleCache::new().symbols_matching(b""), Ok(vec![]));
}

#[test]
fn symbols_matching_fails_on_a_span_outside_the_text() {
    let mut cache = ModuleCache::new();
    cache.insert(
        b"m".to_vec(),
        CompiledModule::new(b"u".to_vec(), b"let foo = 1".to_vec(), vec![value("foo", 4, 70)], 1),
    );
    assert_eq!(cache.symbols_matching(b"foo"), Err(ServerError::OffsetOutOfRange { offset: 70 }));
    assert_eq!(cache.symbols_matching(b"bar"), Ok(vec![]));
}
