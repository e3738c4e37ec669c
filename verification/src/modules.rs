//! The cache of compiled modules: for each module name the last compile
//! that went through, which may be older than the live text.

use vstd::prelude::*;
use vstd::utf8::{decode_utf8, encode_utf8, valid_utf8};
use crate::bytemap::ByteMap;
use crate::bytes::{as_text, copy_bytes, spec_less};
use crate::error::ServerError;
use crate::position::{build_line_index, spec_checked_offset, LineIndex, Position};
use crate::symbols::{
    spec_workspace_symbols, symbol_views, workspace_symbols, ModuleSymbols, SpannedSymbol,
    SymbolInformation, SymbolSource,
};

verus! {

/// The module name that the language engine gives to a file name.
pub uninterp spec fn module_name(filename: Seq<char>) -> Seq<char>;

/// Wraps `gluon::base::filename_to_module`. That function works on the
/// text of the file name alone: it drops trailing slashes and the
/// extension `.glu`, then leading dots and slashes, and puts a dot for
/// every slash and backslash. The contract claims only that the result is
/// a function of the file name, under the name `module_name`.
#[verifier::external_body]
fn module_name_of(filename: &str) -> (name: String)
    ensures
        name@ == module_name(filename@),
{
    gluon::base::filename_to_module(filename)
}

/// The key under which the module of a file is cached: its module name as
/// UTF-8. A file name that is not valid UTF-8 has none.
pub open spec fn spec_module_key(filename: Seq<u8>) -> Option<Seq<u8>> {
    if valid_utf8(filename) {
        Some(encode_utf8(module_name(decode_utf8(filename))))
    } else {
        None
    }
}

/// The key under which the module of a file is cached.
pub fn module_key(filename: &[u8]) -> (key: Option<Vec<u8>>)
    ensures
        match spec_module_key(filename@) {
            Some(expected) => key matches Some(key) && key@ == expected,
            None => key is None,
        },
{
    match as_text(filename) {
        Some(text) => {
            let name = module_name_of(text);
            Some(copy_bytes(name.as_str().as_bytes()))
        },
        None => None,
    }
}

/// One compiled module: the file it came from, the text it was compiled
/// from, the line table of that text, its symbols, and the handle under
/// which the engine keeps the syntax tree and the types.
pub struct CompiledModule {
    uri: Vec<u8>,
    source: Vec<u8>,
    lines: LineIndex,
    symbols: Vec<SpannedSymbol>,
    handle: u64,
}

impl CompiledModule {
    pub closed spec fn uri(&self) -> Seq<u8> {
        self.uri@
    }

    pub closed spec fn source(&self) -> Seq<u8> {
        self.source@
    }

    pub closed spec fn lines(&self) -> LineIndex {
        self.lines
    }

    pub closed spec fn symbols(&self) -> Seq<SpannedSymbol> {
        self.symbols@
    }

    pub closed spec fn handle(&self) -> u64 {
        self.handle
    }

    /// What symbol search reads of the module.
    pub open spec fn symbol_source(&self) -> SymbolSource {
        SymbolSource {
            uri: self.uri(),
            starts: self.lines().starts(),
            end: self.lines().end(),
            symbols: self.symbols(),
        }
    }

    /// The line table is that of the text the module was compiled from.
    pub open spec fn wf(&self) -> bool {
        self.lines().wf() && self.lines().describes(self.source())
    }

    pub fn new(uri: Vec<u8>, source: Vec<u8>, symbols: Vec<SpannedSymbol>, handle: u64) -> (module:
        CompiledModule)
        ensures
            module.wf(),
            module.uri() == uri@,
            module.source() == source@,
            module.symbols() == symbols@,
            module.handle() == handle,
    {
        let lines = build_line_index(source.as_slice());
        CompiledModule { uri, source, lines, symbols, handle }
    }

    pub fn get_uri(&self) -> (uri: &Vec<u8>)
        ensures
            uri@ == self.uri(),
    {
        &self.uri
    }

    pub fn get_source(&self) -> (source: &Vec<u8>)
        ensures
            source@ == self.source(),
    {
        &self.source
    }

    pub fn get_lines(&self) -> (lines: &LineIndex)
        ensures
            *lines == self.lines(),
    {
        &self.lines
    }

    pub fn get_symbols(&self) -> (symbols: &Vec<SpannedSymbol>)
        ensures
            symbols@ == self.symbols(),
    {
        &self.symbols
    }

    pub fn get_handle(&self) -> (handle: u64)
        ensures
            handle == self.handle(),
    {
        self.handle
    }
}

/// The compiled modules by module name.
pub struct ModuleCache {
    modules: ByteMap<CompiledModule>,
}

impl View for ModuleCache {
    type V = Map<Seq<u8>, CompiledModule>;

    closed spec fn view(&self) -> Map<Seq<u8>, CompiledModule> {
        self.modules@
    }
}

impl ModuleCache {
    pub closed spec fn wf(&self) -> bool {
        &&& self.modules.wf()
        &&& forall|name: Seq<u8>| self.modules@.dom().contains(name) ==> (#[trigger] self.modules@[name]).wf()
    }

    /// The names of the cached modules in dictionary order.
    pub closed spec fn names(&self) -> Seq<Seq<u8>> {
        self.modules.keys()
    }

    /// What symbol search reads of the cached modules, in dictionary order
    /// of their names.
    pub open spec fn sources(&self) -> Seq<SymbolSource> {
        Seq::new(self.names().len(), |i: int| self@[self.names()[i]].symbol_source())
    }

    /// The names in `names` are those of the cached modules, each once, in
    /// dictionary order.
    pub proof fn lemma_names(&self)
        requires
            self.wf(),
        ensures
            forall|i: int, j: int|
                0 <= i < j < self.names().len() ==> spec_less(
                    #[trigger] self.names()[i],
                    #[trigger] self.names()[j],
                ),
            forall|i: int| 0 <= i < self.names().len() ==> self@.dom().contains(#[trigger] self.names()[i]),
            forall|name: Seq<u8>| self@.dom().contains(name) ==> self.names().contains(name),
    {
        self.modules.lemma_keys();
    }

    pub fn new() -> (cache: ModuleCache)
        ensures
            cache.wf(),
            cache@ == Map::<Seq<u8>, CompiledModule>::empty(),
    {
        ModuleCache { modules: ByteMap::new() }
    }

    /// Number of cached modules.
    pub fn len(&self) -> (count: usize)
        ensures
            count == self.names().len(),
    {
        self.modules.len()
    }

    /// The name of the cached module at `i` in dictionary order.
    pub fn name_at(&self, i: usize) -> (name: &Vec<u8>)
        requires
            i < self.names().len(),
        ensures
            name@ == self.names()[i as int],
    {
        self.modules.key_at(i)
    }

    /// The cached module at `i` in dictionary order of the names.
    pub fn module_at(&self, i: usize) -> (module: &CompiledModule)
        requires
            self.wf(),
            i < self.names().len(),
        ensures
            self@.dom().contains(self.names()[i as int]),
            *module == self@[self.names()[i as int]],
            module.wf(),
    {
        self.modules.value_at(i)
    }

    /// Puts a module in place of the one cached under `name`, whole.
    pub fn insert(&mut self, name: Vec<u8>, module: CompiledModule)
        requires
            old(self).wf(),
            module.wf(),
        ensures
            final(self).wf(),
            final(self)@ == old(self)@.insert(name@, module),
    {
        self.modules.insert(name, module);
    }

    /// The module cached under `name`.
    pub fn get(&self, name: &[u8]) -> (module: Option<&CompiledModule>)
        requires
            self.wf(),
        ensures
            match module {
                Some(module) => self@.dom().contains(name@) && *module == self@[name@]
                    && module.wf(),
                None => !self@.dom().contains(name@),
            },
    {
        self.modules.get(name)
    }

    /// The symbols of all cached modules whose name contains `query`, module
    /// by module in dictionary order of the module names.
    pub fn symbols_matching(&self, query: &[u8]) -> (result: Result<
        Vec<SymbolInformation>,
        ServerError,
    >)
        requires
            self.wf(),
        ensures
            match spec_workspace_symbols(self.sources(), query@) {
                Ok(expected) => result matches Ok(found) && symbol_views(found@) == expected,
                Err(error) => result == Err::<Vec<SymbolInformation>, ServerError>(error),
            },
    {
        let mut modules: Vec<ModuleSymbols> = Vec::new();
        let mut i: usize = 0;
        while i < self.modules.len()
            invariant
                i <= self.names().len(),
                self.wf(),
                modules@.len() == i,
                forall|k: int|
                    0 <= k < i ==> (#[trigger] modules@[k]).lines.wf() && modules@[k].symbol_source()
                        == self@[self.names()[k]].symbol_source(),
            decreases self.names().len() - i,
        {
            let module = self.module_at(i);
            modules.push(
                ModuleSymbols {
                    uri: module.get_uri().as_slice(),
                    lines: module.get_lines(),
                    symbols: module.get_symbols(),
                },
            );
            i += 1;
        }
        assert(crate::symbols::sources_of(modules@) =~= self.sources());
        workspace_symbols(&modules, query)
    }

    /// The module compiled from the file `filename`. Fails if the file
    /// name is not valid UTF-8, or no module is cached under its module
    /// name, which the error then carries.
    pub fn retrieve(&self, filename: &[u8]) -> (result: Result<&CompiledModule, ServerError>)
        requires
            self.wf(),
        ensures
            match spec_module_key(filename@) {
                None => result matches Err(ServerError::InvalidFileName),
                Some(key) => if self@.dom().contains(key) {
                    result matches Ok(module) && *module == self@[key] && module.wf()
                } else {
                    result matches Err(ServerError::ModuleNotLoaded { module }) && module@ == key
                },
            },
    {
        match module_key(filename) {
            None => Err(ServerError::InvalidFileName),
            Some(key) => match self.get(key.as_slice()) {
                Some(module) => Ok(module),
                None => Err(ServerError::ModuleNotLoaded { module: key }),
            },
        }
    }

    /// The module compiled from the file `filename` and the byte offset
    /// that `position` stands for in the text it was compiled from.
    pub fn retrieve_with_pos(&self, filename: &[u8], position: &Position) -> (result: Result<
        (&CompiledModule, usize),
        ServerError,
    >)
        requires
            self.wf(),
        ensures
            match spec_module_key(filename@) {
                None => result matches Err(ServerError::InvalidFileName),
                Some(key) => if self@.dom().contains(key) {
                    match spec_checked_offset(self@[key].lines().starts(), *position) {
                        Ok(offset) => result matches Ok(found) && *found.0 == self@[key] && found.1
                            == offset,
                        Err(error) => result matches Err(reported) && reported == error,
                    }
                } else {
                    result matches Err(ServerError::ModuleNotLoaded { module }) && module@ == key
                },
            },
    {
        let module = self.retrieve(filename)?;
        let offset = module.get_lines().position_to_offset(position)?;
        Ok((module, offset))
    }
}

} // verus!
