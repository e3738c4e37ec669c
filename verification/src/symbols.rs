//! Symbols of compiled modules as the editor shows them.

use vstd::prelude::*;
use crate::bytes::{contains_byte, contains_bytes, copy_bytes, spec_contains, DOT};
use crate::error::ServerError;
use crate::position::{spec_byte_span_to_range, ByteSpan, LineIndex, Range};

verus! {

/// What kind of thing a symbol names.
#[derive(Clone, Copy, Debug, PartialEq, Eq, Structural)]
pub enum SymbolKind {
    Module,
    Class,
    Function,
    Boolean,
    String,
    Number,
    Array,
    Variable,
}

/// The types the language has built in.
#[derive(Clone, Copy, Debug, PartialEq, Eq, Structural)]
pub enum BuiltinType {
    Char,
    String,
    Byte,
    Int,
    Float,
    Array,
    Function,
}

/// The outermost form of a type.
#[derive(Clone, Debug, PartialEq, Eq)]
pub enum TypeHead {
    /// A type known by its declared name.
    Ident(Vec<u8>),
    /// An alias known by its declared name.
    Alias(Vec<u8>),
    Builtin(BuiltinType),
    /// Any other form.
    Other,
}

/// What the kind of a value depends on in its type.
#[derive(Clone, Debug, PartialEq, Eq)]
pub struct TypeShape {
    /// The type is a function type, whatever its outermost form.
    pub is_function: bool,
    pub head: TypeHead,
}

/// What the kind of a value depends on in its defining expression.
#[derive(Clone, Debug, PartialEq, Eq)]
pub enum ExprShape {
    /// An identifier, by its declared name.
    Ident(Vec<u8>),
    /// Any other expression.
    Other,
}

/// A symbol that a module declares.
#[derive(Clone, Debug, PartialEq, Eq)]
pub enum CompletionSymbol {
    Type { name: Vec<u8> },
    Value { name: Vec<u8>, typ: TypeShape, expr: ExprShape },
}

/// A symbol with the bytes of the source it covers.
#[derive(Clone, Debug, PartialEq, Eq)]
pub struct SpannedSymbol {
    pub span: ByteSpan,
    pub value: CompletionSymbol,
}

/// A range in a file.
#[derive(Clone, Debug, PartialEq, Eq)]
pub struct FileRange {
    pub uri: Vec<u8>,
    pub range: Range,
}

/// A symbol as the editor is told of it.
#[derive(Clone, Debug, PartialEq, Eq)]
pub struct SymbolInformation {
    pub name: Vec<u8>,
    pub kind: SymbolKind,
    pub location: FileRange,
    pub container_name: Option<Vec<u8>>,
}

/// A symbol as the editor is told of it, as a value.
pub struct SymbolInformationView {
    pub name: Seq<u8>,
    pub kind: SymbolKind,
    pub uri: Seq<u8>,
    pub range: Range,
    pub container_name: Option<Seq<u8>>,
}

impl View for SymbolInformation {
    type V = SymbolInformationView;

    open spec fn view(&self) -> SymbolInformationView {
        SymbolInformationView {
            name: self.name@,
            kind: self.kind,
            uri: self.location.uri@,
            range: self.location.range,
            container_name: match self.container_name {
                Some(name) => Some(name@),
                None => None,
            },
        }
    }
}

/// The symbols of a list as values.
pub open spec fn symbol_views(symbols: Seq<SymbolInformation>) -> Seq<SymbolInformationView> {
    symbols.map_values(|symbol: SymbolInformation| symbol@)
}

/// The name of the boolean type: `Bool`.
pub open spec fn bool_name() -> Seq<u8> {
    seq![0x42u8, 0x6f, 0x6f, 0x6c]
}

/// The kind of a value of the given type: functions first, then the
/// boolean type by its name, then the built-in types; a variable
/// otherwise.
pub open spec fn spec_type_to_kind(typ: TypeShape) -> SymbolKind {
    if typ.is_function {
        SymbolKind::Function
    } else {
        match typ.head {
            TypeHead::Ident(name) => if name@ == bool_name() {
                SymbolKind::Boolean
            } else {
                SymbolKind::Variable
            },
            TypeHead::Alias(name) => if name@ == bool_name() {
                SymbolKind::Boolean
            } else {
                SymbolKind::Variable
            },
            TypeHead::Builtin(builtin) => match builtin {
                BuiltinType::Char => SymbolKind::String,
                BuiltinType::String => SymbolKind::String,
                BuiltinType::Byte => SymbolKind::Number,
                BuiltinType::Int => SymbolKind::Number,
                BuiltinType::Float => SymbolKind::Number,
                BuiltinType::Array => SymbolKind::Array,
                BuiltinType::Function => SymbolKind::Function,
            },
            TypeHead::Other => SymbolKind::Variable,
        }
    }
}

/// The kind of a value: a module if it is defined as an identifier with a
/// dot in its name, as an import leaves it; else the kind of its type.
pub open spec fn spec_expr_to_kind(expr: ExprShape, typ: TypeShape) -> SymbolKind {
    match expr {
        ExprShape::Ident(name) if name@.contains(DOT) => SymbolKind::Module,
        _ => spec_type_to_kind(typ),
    }
}

/// The declared name of a symbol.
pub open spec fn spec_symbol_name(symbol: CompletionSymbol) -> Seq<u8> {
    match symbol {
        CompletionSymbol::Type { name } => name@,
        CompletionSymbol::Value { name, .. } => name@,
    }
}

/// The kind of a symbol: a class for a type, else the kind of the value.
pub open spec fn spec_symbol_kind(symbol: CompletionSymbol) -> SymbolKind {
    match symbol {
        CompletionSymbol::Type { .. } => SymbolKind::Class,
        CompletionSymbol::Value { typ, expr, .. } => spec_expr_to_kind(expr, typ),
    }
}

/// What the editor is told of a symbol of the file `uri`, or the error if
/// its span does not lie in the text of the line table.
pub open spec fn spec_symbol_information(
    starts: Seq<int>,
    end: int,
    symbol: SpannedSymbol,
    uri: Seq<u8>,
) -> Result<SymbolInformationView, ServerError> {
    match spec_byte_span_to_range(starts, end, symbol.span) {
        Ok(range) => Ok(
            SymbolInformationView {
                name: spec_symbol_name(symbol.value),
                kind: spec_symbol_kind(symbol.value),
                uri,
                range,
                container_name: None,
            },
        ),
        Err(error) => Err(error),
    }
}

/// What the editor is told of those symbols of a file whose name contains
/// `query`, in their order; the first span that does not lie in the text
/// fails the whole.
pub open spec fn spec_matching_symbols(
    starts: Seq<int>,
    end: int,
    symbols: Seq<SpannedSymbol>,
    uri: Seq<u8>,
    query: Seq<u8>,
) -> Result<Seq<SymbolInformationView>, ServerError>
    decreases symbols.len(),
{
    if symbols.len() == 0 {
        Ok(Seq::empty())
    } else if !spec_contains(spec_symbol_name(symbols.first().value), query) {
        spec_matching_symbols(starts, end, symbols.drop_first(), uri, query)
    } else {
        match spec_symbol_information(starts, end, symbols.first(), uri) {
            Err(error) => Err(error),
            Ok(first) => match spec_matching_symbols(starts, end, symbols.drop_first(), uri, query) {
                Err(error) => Err(error),
                Ok(rest) => Ok(seq![first] + rest),
            },
        }
    }
}

fn is_bool_name(name: &[u8]) -> (is_bool: bool)
    ensures
        is_bool == (name@ == bool_name()),
{
    let matches = name.len() == 4 && name[0] == 0x42 && name[1] == 0x6f && name[2] == 0x6f
        && name[3] == 0x6c;
    proof {
        if matches {
            assert(name@ =~= bool_name());
        }
    }
    matches
}

/// The kind of a value of the given type.
pub fn type_to_kind(typ: &TypeShape) -> (kind: SymbolKind)
    ensures
        kind == spec_type_to_kind(*typ),
{
    if typ.is_function {
        return SymbolKind::Function;
    }
    match &typ.head {
        TypeHead::Ident(name) => if is_bool_name(name.as_slice()) {
            SymbolKind::Boolean
        } else {
            SymbolKind::Variable
        },
        TypeHead::Alias(name) => if is_bool_name(name.as_slice()) {
            SymbolKind::Boolean
        } else {
            SymbolKind::Variable
        },
        TypeHead::Builtin(builtin) => match builtin {
            BuiltinType::Char | BuiltinType::String => SymbolKind::String,
            BuiltinType::Byte | BuiltinType::Int | BuiltinType::Float => SymbolKind::Number,
            BuiltinType::Array => SymbolKind::Array,
            BuiltinType::Function => SymbolKind::Function,
        },
        TypeHead::Other => SymbolKind::Variable,
    }
}

/// The kind of a value, given its defining expression and its type.
pub fn expr_to_kind(expr: &ExprShape, typ: &TypeShape) -> (kind: SymbolKind)
    ensures
        kind == spec_expr_to_kind(*expr, *typ),
{
    match expr {
        ExprShape::Ident(name) => if contains_byte(name.as_slice(), DOT) {
            SymbolKind::Module
        } else {
            type_to_kind(typ)
        },
        ExprShape::Other => type_to_kind(typ),
    }
}

fn symbol_name(symbol: &CompletionSymbol) -> (name: &Vec<u8>)
    ensures
        name@ == spec_symbol_name(*symbol),
{
    match symbol {
        CompletionSymbol::Type { name } => name,
        CompletionSymbol::Value { name, .. } => name,
    }
}

/// What the editor is told of a symbol of the file `uri`.
pub fn completion_symbol_to_symbol_information(
    lines: &LineIndex,
    symbol: &SpannedSymbol,
    uri: &[u8],
) -> (result: Result<SymbolInformation, ServerError>)
    requires
        lines.wf(),
    ensures
        match spec_symbol_information(lines.starts(), lines.end(), *symbol, uri@) {
            Ok(expected) => result matches Ok(information) && information@ == expected,
            Err(error) => result == Err::<SymbolInformation, ServerError>(error),
        },
{
    let kind = match &symbol.value {
        CompletionSymbol::Type { .. } => SymbolKind::Class,
        CompletionSymbol::Value { typ, expr, .. } => expr_to_kind(expr, typ),
    };
    let range = lines.byte_span_to_range(symbol.span)?;
    Ok(
        SymbolInformation {
            name: copy_bytes(symbol_name(&symbol.value).as_slice()),
            kind,
            location: FileRange { uri: copy_bytes(uri), range },
            container_name: None,
        },
    )
}

/// Adds to `found` what the editor is told of those of `symbols` whose
/// name contains `query`. On failure `found` is left as it was.
fn collect_matching(
    found: &mut Vec<SymbolInformation>,
    lines: &LineIndex,
    symbols: &Vec<SpannedSymbol>,
    uri: &[u8],
    query: &[u8],
) -> (result: Result<(), ServerError>)
    requires
        lines.wf(),
    ensures
        match spec_matching_symbols(lines.starts(), lines.end(), symbols@, uri@, query@) {
            Ok(added) => result is Ok && symbol_views(final(found)@) == symbol_views(old(found)@)
                + added,
            Err(error) => result == Err::<(), ServerError>(error) && final(found)@ == old(found)@,
        },
{
    let mut added: Vec<SymbolInformation> = Vec::new();
    let mut i: usize = 0;
    assert(symbols@.skip(0) =~= symbols@);
    assert(symbol_views(added@) =~= Seq::<SymbolInformationView>::empty());
    while i < symbols.len()
        invariant
            i <= symbols.len(),
            lines.wf(),
            match spec_matching_symbols(
                lines.starts(),
                lines.end(),
                symbols@.skip(i as int),
                uri@,
                query@,
            ) {
                Ok(rest) => spec_matching_symbols(
                    lines.starts(),
                    lines.end(),
                    symbols@,
                    uri@,
                    query@,
                ) == Ok::<Seq<SymbolInformationView>, ServerError>(symbol_views(added@) + rest),
                Err(error) => spec_matching_symbols(
                    lines.starts(),
                    lines.end(),
                    symbols@,
                    uri@,
                    query@,
                ) == Err::<Seq<SymbolInformationView>, ServerError>(error),
            },
        decreases symbols.len() - i,
    {
        assert(symbols@.skip(i as int).drop_first() =~= symbols@.skip(i + 1));
        assert(symbols@.skip(i as int).first() == symbols@[i as int]);
        if contains_bytes(symbol_name(&symbols[i].value).as_slice(), query) {
            let information = completion_symbol_to_symbol_information(lines, &symbols[i], uri)?;
            let ghost before = symbol_views(added@);
            added.push(information);
            assert(symbol_views(added@) =~= before.push(information@));
            proof {
                match spec_matching_symbols(
                    lines.starts(),
                    lines.end(),
                    symbols@.skip(i + 1),
                    uri@,
                    query@,
                ) {
                    Ok(rest) => {
                        assert(before + (seq![information@] + rest) =~= before.push(information@)
                            + rest);
                    },
                    Err(_) => {},
                }
            }
        }
        i += 1;
    }
    let ghost held = symbol_views(found@);
    let ghost gathered = symbol_views(added@);
    found.append(&mut added);
    assert(symbol_views(found@) =~= held + gathered);
    assert(gathered + Seq::<SymbolInformationView>::empty() =~= gathered);
    Ok(())
}

/// A compiled module as far as symbol search reads it.
pub struct ModuleSymbols<'a> {
    pub uri: &'a [u8],
    pub lines: &'a LineIndex,
    pub symbols: &'a Vec<SpannedSymbol>,
}

/// What symbol search reads of a module, as a value: the file, the line
/// table of its text and its symbols.
pub struct SymbolSource {
    pub uri: Seq<u8>,
    pub starts: Seq<int>,
    pub end: int,
    pub symbols: Seq<SpannedSymbol>,
}

impl ModuleSymbols<'_> {
    pub open spec fn symbol_source(&self) -> SymbolSource {
        SymbolSource {
            uri: self.uri@,
            starts: self.lines.starts(),
            end: self.lines.end(),
            symbols: self.symbols@,
        }
    }
}

/// The modules of a list as values.
pub open spec fn sources_of(modules: Seq<ModuleSymbols>) -> Seq<SymbolSource> {
    modules.map_values(|module: ModuleSymbols| module.symbol_source())
}

/// What a search over all loaded modules answers: for each module in turn
/// the symbols whose name contains `query`, each attributed to the file
/// of its module.
pub open spec fn spec_workspace_symbols(modules: Seq<SymbolSource>, query: Seq<u8>) -> Result<
    Seq<SymbolInformationView>,
    ServerError,
>
    decreases modules.len(),
{
    if modules.len() == 0 {
        Ok(Seq::empty())
    } else {
        let module = modules.first();
        match spec_matching_symbols(module.starts, module.end, module.symbols, module.uri, query) {
            Err(error) => Err(error),
            Ok(first) => match spec_workspace_symbols(modules.drop_first(), query) {
                Err(error) => Err(error),
                Ok(rest) => Ok(first + rest),
            },
        }
    }
}

/// All symbols of one file.
pub fn document_symbols(lines: &LineIndex, symbols: &Vec<SpannedSymbol>, uri: &[u8]) -> (result:
    Result<Vec<SymbolInformation>, ServerError>)
    requires
        lines.wf(),
    ensures
        match spec_matching_symbols(lines.starts(), lines.end(), symbols@, uri@, Seq::empty()) {
            Ok(expected) => result matches Ok(found) && symbol_views(found@) == expected,
            Err(error) => result == Err::<Vec<SymbolInformation>, ServerError>(error),
        },
{
    let mut found: Vec<SymbolInformation> = Vec::new();
    let query: Vec<u8> = Vec::new();
    assert(symbol_views(found@) =~= Seq::<SymbolInformationView>::empty());
    collect_matching(&mut found, lines, symbols, uri, query.as_slice())?;
    proof {
        let expected = spec_matching_symbols(
            lines.starts(),
            lines.end(),
            symbols@,
            uri@,
            Seq::empty(),
        );
        assert(Seq::<SymbolInformationView>::empty() + expected.unwrap() =~= expected.unwrap());
    }
    Ok(found)
}

/// The symbols of all given modules whose name contains `query`.
pub fn workspace_symbols(modules: &Vec<ModuleSymbols>, query: &[u8]) -> (result: Result<
    Vec<SymbolInformation>,
    ServerError,
>)
    requires
        forall|i: int| 0 <= i < modules@.len() ==> (#[trigger] modules@[i]).lines.wf(),
    ensures
        match spec_workspace_symbols(sources_of(modules@), query@) {
            Ok(expected) => result matches Ok(found) && symbol_views(found@) == expected,
            Err(error) => result == Err::<Vec<SymbolInformation>, ServerError>(error),
        },
{
    let mut found: Vec<SymbolInformation> = Vec::new();
    let mut i: usize = 0;
    let ghost sources = sources_of(modules@);
    assert(sources.skip(0) =~= sources);
    assert(symbol_views(found@) =~= Seq::<SymbolInformationView>::empty());
    while i < modules.len()
        invariant
            i <= modules.len(),
            sources == sources_of(modules@),
            forall|k: int| 0 <= k < modules@.len() ==> (#[trigger] modules@[k]).lines.wf(),
            match spec_workspace_symbols(sources.skip(i as int), query@) {
                Ok(rest) => spec_workspace_symbols(sources, query@) == Ok::<
                    Seq<SymbolInformationView>,
                    ServerError,
                >(symbol_views(found@) + rest),
                Err(error) => spec_workspace_symbols(sources, query@) == Err::<
                    Seq<SymbolInformationView>,
                    ServerError,
                >(error),
            },
        decreases modules.len() - i,
    {
        assert(sources.skip(i as int).drop_first() =~= sources.skip(i + 1));
        assert(sources.skip(i as int).first() == modules@[i as int].symbol_source());
        let module = &modules[i];
        let ghost before = symbol_views(found@);
        collect_matching(&mut found, module.lines, module.symbols, module.uri, query)?;
        proof {
            let first = spec_matching_symbols(
                module.lines.starts(),
                module.lines.end(),
                module.symbols@,
                module.uri@,
                query@,
            ).unwrap();
            match spec_workspace_symbols(sources.skip(i + 1), query@) {
                Ok(rest) => {
                    assert(before + (first + rest) =~= (before + first) + rest);
                },
                Err(_) => {},
            }
        }
        i += 1;
    }
    assert(symbol_views(found@) + Seq::<SymbolInformationView>::empty() =~= symbol_views(found@));
    Ok(found)
}

/// `found` is what the editor is told of a symbol of `module` whose name
/// contains `query`.
pub open spec fn is_match_in(
    module: SymbolSource,
    query: Seq<u8>,
    found: SymbolInformationView,
) -> bool {
    exists|k: int|
        0 <= k < module.symbols.len() && spec_contains(
            spec_symbol_name((#[trigger] module.symbols[k]).value),
            query,
        ) && spec_symbol_information(module.starts, module.end, module.symbols[k], module.uri)
            == Ok::<SymbolInformationView, ServerError>(found)
}

/// Every symbol that a search answers is a symbol of one of the modules,
/// has a name that contains the query, and is attributed to the file of
/// that module, with the kind and the range of that symbol.
pub proof fn law_workspace_symbols(modules: Seq<SymbolSource>, query: Seq<u8>)
    ensures
        spec_workspace_symbols(modules, query) matches Ok(found) ==> forall|i: int|
            0 <= i < found.len() ==> spec_contains((#[trigger] found[i]).name, query) && exists|
                m: int,
            |
                0 <= m < modules.len() && found[i].uri == modules[m].uri && is_match_in(
                    #[trigger] modules[m],
                    query,
                    found[i],
                ),
    decreases modules.len(),
{
    if modules.len() > 0 {
        if let Ok(found) = spec_workspace_symbols(modules, query) {
            let module = modules.first();
            let first = spec_matching_symbols(
                module.starts,
                module.end,
                module.symbols,
                module.uri,
                query,
            ).unwrap();
            let shorter = modules.drop_first();
            let rest = spec_workspace_symbols(shorter, query).unwrap();
            lemma_matching_symbols(module, query);
            law_workspace_symbols(shorter, query);
            assert forall|i: int| 0 <= i < found.len() implies spec_contains(
                (#[trigger] found[i]).name,
                query,
            ) && exists|m: int|
                0 <= m < modules.len() && found[i].uri == modules[m].uri && is_match_in(
                    #[trigger] modules[m],
                    query,
                    found[i],
                ) by {
                if i < first.len() {
                    assert(found[i] == first[i]);
                    assert(is_match_in(modules[0], query, found[i]));
                } else {
                    let j = i - first.len();
                    assert(found[i] == rest[j]);
                    let m = choose|m: int|
                        0 <= m < shorter.len() && rest[j].uri == shorter[m].uri && is_match_in(
                            #[trigger] shorter[m],
                            query,
                            rest[j],
                        );
                    assert(shorter[m] == modules[m + 1]);
                    assert(is_match_in(modules[m + 1], query, found[i]));
                }
            }
        }
    }
}

/// Every symbol found in one module is a symbol of it whose name contains
/// the query, attributed to the file of the module.
pub proof fn lemma_matching_symbols(module: SymbolSource, query: Seq<u8>)
    ensures
        spec_matching_symbols(module.starts, module.end, module.symbols, module.uri, query) matches Ok(
            found,
        ) ==> forall|i: int|
            0 <= i < found.len() ==> spec_contains((#[trigger] found[i]).name, query)
                && found[i].uri == module.uri && is_match_in(module, query, found[i]),
    decreases module.symbols.len(),
{
    let symbols = module.symbols;
    if symbols.len() > 0 {
        if let Ok(found) = spec_matching_symbols(
            module.starts,
            module.end,
            symbols,
            module.uri,
            query,
        ) {
            let shorter = SymbolSource { symbols: symbols.drop_first(), ..module };
            lemma_matching_symbols(shorter, query);
            let rest = spec_matching_symbols(
                module.starts,
                module.end,
                shorter.symbols,
                module.uri,
                query,
            ).unwrap();
            let skipped = !spec_contains(spec_symbol_name(symbols.first().value), query);
            assert forall|i: int| 0 <= i < found.len() implies spec_contains(
                (#[trigger] found[i]).name,
                query,
            ) && found[i].uri == module.uri && is_match_in(module, query, found[i]) by {
                if !skipped && i == 0 {
                    assert(spec_symbol_information(
                        module.starts,
                        module.end,
                        module.symbols[0],
                        module.uri,
                    ) == Ok::<SymbolInformationView, ServerError>(found[0]));
                } else {
                    let j = if skipped { i } else { i - 1 };
                    assert(found[i] == rest[j]);
                    assert(is_match_in(shorter, query, rest[j]));
                    let k = choose|k: int|
                        0 <= k < shorter.symbols.len() && spec_contains(
                            spec_symbol_name((#[trigger] shorter.symbols[k]).value),
                            query,
                        ) && spec_symbol_information(
                            shorter.starts,
                            shorter.end,
                            shorter.symbols[k],
                            shorter.uri,
                        ) == Ok::<SymbolInformationView, ServerError>(rest[j]);
                    assert(module.symbols[k + 1] == shorter.symbols[k]);
                }
            }
        }
    }
}

} // verus!
