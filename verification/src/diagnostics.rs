//! What a compile reports, grouped by the file it is about.

use vstd::prelude::*;
use crate::bytemap::ByteMap;
use crate::bytes::{copy_bytes, spec_less};
use crate::position::{span_to_range, LocationSpan, Position, Range};

verus! {

#[derive(Clone, Copy, Debug, PartialEq, Eq, Structural)]
pub enum Severity {
    Error,
    Warning,
    Information,
    Hint,
}

/// One finding about a file.
#[derive(Clone, Debug, PartialEq, Eq)]
pub struct Diagnostic {
    pub range: Range,
    pub severity: Option<Severity>,
    pub message: Vec<u8>,
    /// Who reports it.
    pub source: Option<Vec<u8>>,
}

/// A diagnostic as a value.
pub struct DiagnosticView {
    pub range: Range,
    pub severity: Option<Severity>,
    pub message: Seq<u8>,
    pub source: Option<Seq<u8>>,
}

impl View for Diagnostic {
    type V = DiagnosticView;

    open spec fn view(&self) -> DiagnosticView {
        DiagnosticView {
            range: self.range,
            severity: self.severity,
            message: self.message@,
            source: match self.source {
                Some(source) => Some(source@),
                None => None,
            },
        }
    }
}

/// The diagnostics of a list as values.
pub open spec fn views(diagnostics: Seq<Diagnostic>) -> Seq<DiagnosticView> {
    diagnostics.map_values(|diagnostic: Diagnostic| diagnostic@)
}

/// A message of the compiler with the place it is about.
#[derive(Clone, Debug, PartialEq, Eq)]
pub struct SpannedMessage {
    pub span: LocationSpan,
    pub message: Vec<u8>,
}

/// What went wrong in a compile.
#[derive(Debug)]
pub enum CompileError {
    /// Type errors in the file `uri`, which may be an imported one.
    Typecheck { uri: Vec<u8>, errors: Vec<SpannedMessage> },
    /// Syntax errors in the file `uri`, which may be an imported one.
    Parse { uri: Vec<u8>, errors: Vec<SpannedMessage> },
    /// Several errors, in the order in which they came up.
    Multiple(Vec<CompileError>),
    /// Any other failure, known by its message only.
    Other(Vec<u8>),
}

/// The tag on every diagnostic that comes from the compiler: `gluon`.
pub open spec fn source_tag() -> Seq<u8> {
    seq![0x67u8, 0x6c, 0x75, 0x6f, 0x6e]
}

/// The range an engine span stands for.
pub open spec fn spec_span_to_range(span: LocationSpan) -> Range {
    Range {
        start: Position { line: span.start.line as u64, character: span.start.column as u64 },
        end: Position { line: span.end.line as u64, character: span.end.column as u64 },
    }
}

/// The diagnostic for a message with a place: an error at that place,
/// tagged as the compiler's.
pub open spec fn spec_diagnostic(error: SpannedMessage) -> DiagnosticView {
    DiagnosticView {
        range: spec_span_to_range(error.span),
        severity: Some(Severity::Error),
        message: error.message@,
        source: Some(source_tag()),
    }
}

/// The diagnostic for a message without a place: an error at the start of
/// the file, without a tag.
pub open spec fn spec_plain_diagnostic(message: Seq<u8>) -> DiagnosticView {
    DiagnosticView {
        range: Range {
            start: Position { line: 0, character: 0 },
            end: Position { line: 0, character: 0 },
        },
        severity: Some(Severity::Error),
        message,
        source: None,
    }
}

/// The diagnostics for a list of messages with places, in order.
pub open spec fn spec_diagnostics(errors: Seq<SpannedMessage>) -> Seq<DiagnosticView> {
    errors.map_values(|error: SpannedMessage| spec_diagnostic(error))
}

/// `set` with `added` behind what it holds for `uri`. The file has an
/// entry afterwards even if nothing was added.
pub open spec fn spec_extend(
    set: Map<Seq<u8>, Seq<DiagnosticView>>,
    uri: Seq<u8>,
    added: Seq<DiagnosticView>,
) -> Map<Seq<u8>, Seq<DiagnosticView>> {
    set.insert(
        uri,
        (if set.dom().contains(uri) {
            set[uri]
        } else {
            Seq::empty()
        }) + added,
    )
}

/// `set` with the diagnostics of `error` added. Type and syntax errors go
/// to the file they name, anything else to `filename`, the file that was
/// compiled.
pub open spec fn spec_create(
    set: Map<Seq<u8>, Seq<DiagnosticView>>,
    filename: Seq<u8>,
    error: CompileError,
) -> Map<Seq<u8>, Seq<DiagnosticView>>
    decreases error,
{
    match error {
        CompileError::Typecheck { uri, errors } => spec_extend(set, uri@, spec_diagnostics(errors@)),
        CompileError::Parse { uri, errors } => spec_extend(set, uri@, spec_diagnostics(errors@)),
        CompileError::Multiple(errors) => spec_create_each(set, filename, errors@),
        CompileError::Other(message) => spec_extend(
            set,
            filename,
            seq![spec_plain_diagnostic(message@)],
        ),
    }
}

/// `set` with the diagnostics of each of `errors` added, first to last.
pub open spec fn spec_create_each(
    set: Map<Seq<u8>, Seq<DiagnosticView>>,
    filename: Seq<u8>,
    errors: Seq<CompileError>,
) -> Map<Seq<u8>, Seq<DiagnosticView>>
    decreases errors,
{
    if errors.len() == 0 {
        set
    } else {
        spec_create_each(spec_create(set, filename, errors.first()), filename, errors.drop_first())
    }
}

/// What a finished compile reports when it went through, or failed with
/// `error`: the diagnostics of the error, or an empty list for the file
/// itself, which clears what was reported for it before. Some file always
/// gets a list.
pub open spec fn spec_run(filename: Seq<u8>, outcome: Result<(), CompileError>) -> Map<
    Seq<u8>,
    Seq<DiagnosticView>,
> {
    let cleared = Map::<Seq<u8>, Seq<DiagnosticView>>::empty().insert(filename, Seq::empty());
    match outcome {
        Ok(_) => cleared,
        Err(error) => {
            let created = spec_create(Map::empty(), filename, error);
            if created.dom() =~= Set::empty() {
                cleared
            } else {
                created
            }
        },
    }
}

/// The diagnostics to publish for one file, replacing what was published
/// for it before.
#[derive(Clone, Debug, PartialEq, Eq)]
pub struct PublishDiagnostics {
    pub uri: Vec<u8>,
    pub diagnostics: Vec<Diagnostic>,
}

/// Diagnostics grouped by file.
pub struct DiagnosticSet {
    by_uri: ByteMap<Vec<Diagnostic>>,
}

impl View for DiagnosticSet {
    type V = Map<Seq<u8>, Seq<DiagnosticView>>;

    closed spec fn view(&self) -> Map<Seq<u8>, Seq<DiagnosticView>> {
        self.by_uri@.map_values(|diagnostics: Vec<Diagnostic>| views(diagnostics@))
    }
}

impl DiagnosticSet {
    pub closed spec fn wf(&self) -> bool {
        self.by_uri.wf()
    }

    /// The files that have a list, in dictionary order.
    pub closed spec fn uris(&self) -> Seq<Seq<u8>> {
        self.by_uri.keys()
    }

    /// The files in `uris` are those of the set, each once, in dictionary
    /// order.
    pub proof fn lemma_uris(&self)
        requires
            self.wf(),
        ensures
            forall|i: int, j: int|
                0 <= i < j < self.uris().len() ==> spec_less(
                    #[trigger] self.uris()[i],
                    #[trigger] self.uris()[j],
                ),
            forall|i: int| 0 <= i < self.uris().len() ==> self@.dom().contains(#[trigger] self.uris()[i]),
            forall|uri: Seq<u8>| self@.dom().contains(uri) ==> self.uris().contains(uri),
    {
        self.by_uri.lemma_keys();
    }

    pub fn new() -> (set: DiagnosticSet)
        ensures
            set.wf(),
            set@ == Map::<Seq<u8>, Seq<DiagnosticView>>::empty(),
    {
        let set = DiagnosticSet { by_uri: ByteMap::new() };
        assert(set@ =~= Map::<Seq<u8>, Seq<DiagnosticView>>::empty());
        set
    }

    /// Number of files that have a list.
    pub fn len(&self) -> (count: usize)
        ensures
            count == self.uris().len(),
    {
        self.by_uri.len()
    }

    /// Puts `added` behind what the set holds for `uri`.
    pub fn extend(&mut self, uri: &[u8], added: Vec<Diagnostic>)
        requires
            old(self).wf(),
        ensures
            final(self).wf(),
            final(self)@ == spec_extend(old(self)@, uri@, views(added@)),
    {
        let ghost given = added@;
        let mut added = added;
        let mut list = match self.by_uri.remove(uri) {
            Some(list) => list,
            None => Vec::new(),
        };
        let ghost held = list@;
        list.append(&mut added);
        assert(views(list@) =~= views(held) + views(given));
        assert(views(Seq::<Diagnostic>::empty()) =~= Seq::<DiagnosticView>::empty());
        self.by_uri.insert(copy_bytes(uri), list);
        assert(self@ =~= spec_extend(old(self)@, uri@, views(given)));
    }

    /// One notice per file, in dictionary order of the files.
    pub fn into_notifications(self) -> (notices: Vec<PublishDiagnostics>)
        requires
            self.wf(),
        ensures
            notices@.len() == self.uris().len(),
            forall|i: int|
                0 <= i < notices@.len() ==> (#[trigger] notices@[i]).uri@ == self.uris()[i]
                    && self@.dom().contains(self.uris()[i]) && views(notices@[i].diagnostics@)
                    == self@[self.uris()[i]],
    {
        let ghost uris = self.uris();
        let ghost model = self@;
        let mut entries = self.by_uri.into_entries();
        let ghost all = entries@;
        let mut notices: Vec<PublishDiagnostics> = Vec::new();
        while entries.len() > 0
            invariant
                all.len() == uris.len(),
                entries@.len() <= all.len(),
                entries@ == all.take(entries@.len() as int),
                notices@.len() + entries@.len() == all.len(),
                forall|i: int|
                    0 <= i < all.len() ==> (#[trigger] all[i]).0@ == uris[i] && model.dom().contains(
                        uris[i],
                    ) && views(all[i].1@) == model[uris[i]],
                forall|k: int|
                    0 <= k < notices@.len() ==> (#[trigger] notices@[k]).uri@ == uris[all.len() - 1
                        - k] && views(notices@[k].diagnostics@) == model[uris[all.len() - 1 - k]],
            decreases entries@.len(),
        {
            let ghost at = entries@.len() - 1;
            let entry = entries.pop().unwrap();
            assert(entry == all[at]);
            assert(entries@ =~= all.take(at));
            notices.push(PublishDiagnostics { uri: entry.0, diagnostics: entry.1 });
        }
        let ghost gathered = notices@;
        reverse(&mut notices);
        assert forall|i: int| 0 <= i < notices@.len() implies (#[trigger] notices@[i]).uri@
            == uris[i] && model.dom().contains(uris[i]) && views(notices@[i].diagnostics@)
            == model[uris[i]] by {
            let k = all.len() - 1 - i;
            assert(notices@[i] == gathered[k]);
            assert(all[i].0@ == uris[i]);
        }
        notices
    }
}

/// Turns a list round.
fn reverse(list: &mut Vec<PublishDiagnostics>)
    ensures
        final(list)@.len() == old(list)@.len(),
        forall|i: int|
            0 <= i < old(list)@.len() ==> final(list)@[i] == old(list)@[old(list)@.len() - 1 - i],
{
    let mut turned: Vec<PublishDiagnostics> = Vec::new();
    let ghost all = list@;
    while list.len() > 0
        invariant
            list@.len() <= all.len(),
            list@ == all.take(list@.len() as int),
            turned@.len() + list@.len() == all.len(),
            forall|i: int| 0 <= i < turned@.len() ==> turned@[i] == all[all.len() - 1 - i],
        decreases list@.len(),
    {
        let ghost at = list@.len() - 1;
        let item = list.pop().unwrap();
        assert(item == all[at]);
        assert(list@ =~= all.take(at));
        turned.push(item);
    }
    *list = turned;
}

fn source_tag_bytes() -> (tag: Vec<u8>)
    ensures
        tag@ == source_tag(),
{
    let mut tag: Vec<u8> = Vec::new();
    tag.push(0x67);
    tag.push(0x6c);
    tag.push(0x75);
    tag.push(0x6f);
    tag.push(0x6e);
    assert(tag@ =~= source_tag());
    tag
}

/// The diagnostic for a message with a place.
pub fn into_diagnostic(error: &SpannedMessage) -> (diagnostic: Diagnostic)
    ensures
        diagnostic@ == spec_diagnostic(*error),
{
    Diagnostic {
        range: span_to_range(&error.span),
        severity: Some(Severity::Error),
        message: copy_bytes(error.message.as_slice()),
        source: Some(source_tag_bytes()),
    }
}

/// The diagnostic for a message without a place.
pub fn plain_diagnostic(message: &[u8]) -> (diagnostic: Diagnostic)
    ensures
        diagnostic@ == spec_plain_diagnostic(message@),
{
    Diagnostic {
        range: Range {
            start: Position { line: 0, character: 0 },
            end: Position { line: 0, character: 0 },
        },
        severity: Some(Severity::Error),
        message: copy_bytes(message),
        source: None,
    }
}

fn into_diagnostics(errors: &Vec<SpannedMessage>) -> (diagnostics: Vec<Diagnostic>)
    ensures
        views(diagnostics@) == spec_diagnostics(errors@),
{
    let mut diagnostics: Vec<Diagnostic> = Vec::new();
    let mut i: usize = 0;
    while i < errors.len()
        invariant
            i <= errors.len(),
            diagnostics@.len() == i,
            forall|j: int| 0 <= j < i ==> (#[trigger] diagnostics@[j])@ == spec_diagnostic(errors@[j]),
        decreases errors.len() - i,
    {
        diagnostics.push(into_diagnostic(&errors[i]));
        i += 1;
    }
    assert(views(diagnostics@) =~= spec_diagnostics(errors@));
    diagnostics
}

/// Adds the diagnostics of `error` to `set`. Type and syntax errors go to
/// the file they name, anything else to `filename`.
pub fn create_diagnostics(set: &mut DiagnosticSet, filename: &[u8], error: &CompileError)
    requires
        old(set).wf(),
    ensures
        final(set).wf(),
        final(set)@ == spec_create(old(set)@, filename@, *error),
    decreases error,
{
    match error {
        CompileError::Typecheck { uri, errors } => {
            set.extend(uri.as_slice(), into_diagnostics(errors));
        },
        CompileError::Parse { uri, errors } => {
            set.extend(uri.as_slice(), into_diagnostics(errors));
        },
        CompileError::Multiple(errors) => {
            let mut i: usize = 0;
            assert(errors@.skip(0) =~= errors@);
            while i < errors.len()
                invariant
                    i <= errors.len(),
                    set.wf(),
                    *error == CompileError::Multiple(*errors),
                    spec_create_each(old(set)@, filename@, errors@) == spec_create_each(
                        set@,
                        filename@,
                        errors@.skip(i as int),
                    ),
                decreases errors.len() - i,
            {
                assert(errors@.skip(i as int).drop_first() =~= errors@.skip(i + 1));
                proof {
                    vstd::std_specs::vec::axiom_vec_index_decreases(*errors, i as int);
                    assert(decreases_to!(*error => error->Multiple_0));
                }
                create_diagnostics(set, filename, &errors[i]);
                i += 1;
            }
        },
        CompileError::Other(message) => {
            let mut added: Vec<Diagnostic> = Vec::new();
            added.push(plain_diagnostic(message.as_slice()));
            assert(views(added@) =~= seq![spec_plain_diagnostic(message@)]);
            set.extend(filename, added);
        },
    }
}

/// What to publish after a compile of `filename` that ended in `outcome`.
pub fn run_diagnostics(filename: &[u8], outcome: &Result<(), CompileError>) -> (set: DiagnosticSet)
    ensures
        set.wf(),
        set@ == spec_run(filename@, *outcome),
        set.uris().len() >= 1,
{
    let mut set = DiagnosticSet::new();
    match outcome {
        Ok(_) => {},
        Err(error) => {
            create_diagnostics(&mut set, filename, error);
        },
    }
    proof {
        set.lemma_uris();
    }
    if set.len() == 0 {
        assert(set@.dom() =~= Set::<Seq<u8>>::empty()) by {
            assert forall|uri: Seq<u8>| !set@.dom().contains(uri) by {
                if set@.dom().contains(uri) {
                    assert(set.uris().contains(uri));
                }
            }
        }
        assert(set@ =~= Map::<Seq<u8>, Seq<DiagnosticView>>::empty());
        set.extend(filename, Vec::new());
        assert(views(Seq::<Diagnostic>::empty()) =~= Seq::<DiagnosticView>::empty());
        proof {
            set.lemma_uris();
            assert(set@.dom().contains(filename@));
            assert(set.uris().contains(filename@));
        }
    } else {
        assert(set@.dom().contains(set.uris()[0]));
    }
    set
}

/// The single errors that make up `error`, in order, without the syntax
/// errors among them.
pub open spec fn spec_without_syntax_errors(error: CompileError) -> Seq<CompileError>
    decreases error,
{
    match error {
        CompileError::Parse { .. } => Seq::empty(),
        CompileError::Multiple(errors) => spec_without_syntax_errors_each(errors@),
        _ => seq![error],
    }
}

/// The single errors that make up each of `errors`, in order, without the
/// syntax errors among them.
pub open spec fn spec_without_syntax_errors_each(errors: Seq<CompileError>) -> Seq<CompileError>
    decreases errors,
{
    if errors.len() == 0 {
        Seq::empty()
    } else {
        spec_without_syntax_errors(errors.first()) + spec_without_syntax_errors_each(
            errors.drop_first(),
        )
    }
}

/// Puts the single errors of `error` behind `kept`, without the syntax
/// errors.
fn keep_later_errors(error: CompileError, kept: &mut Vec<CompileError>)
    ensures
        final(kept)@ == old(kept)@ + spec_without_syntax_errors(error),
    decreases error,
{
    match error {
        CompileError::Parse { .. } => {
            assert(kept@ + Seq::<CompileError>::empty() =~= kept@);
        },
        CompileError::Multiple(errors) => {
            let ghost all = errors;
            let mut errors = errors;
            let ghost mut taken: int = 0;
            assert(all@.skip(0) =~= all@);
            assert(old(kept)@ + Seq::<CompileError>::empty() =~= old(kept)@);
            while errors.len() > 0
                invariant
                    error == CompileError::Multiple(all),
                    taken + errors@.len() == all@.len(),
                    0 <= taken,
                    errors@ == all@.skip(taken),
                    old(kept)@ + spec_without_syntax_errors_each(all@) == kept@
                        + spec_without_syntax_errors_each(errors@),
                decreases errors@.len(),
            {
                let ghost before = kept@;
                let ghost rest = spec_without_syntax_errors_each(errors@.drop_first());
                let first = errors.remove(0);
                proof {
                    assert(first == all@[taken]);
                    vstd::std_specs::vec::axiom_vec_index_decreases(all, taken);
                    assert(decreases_to!(error => error->Multiple_0));
                    assert(errors@ =~= all@.skip(taken + 1));
                    assert(all@.skip(taken).drop_first() =~= all@.skip(taken + 1));
                }
                keep_later_errors(first, kept);
                assert(before + (spec_without_syntax_errors(first) + rest) =~= (before
                    + spec_without_syntax_errors(first)) + rest);
                proof {
                    taken = taken + 1;
                }
            }
            assert(kept@ + Seq::<CompileError>::empty() =~= kept@);
        },
        other => {
            kept.push(other);
            assert(kept@ =~= old(kept)@ + seq![error]);
        },
    }
}

/// What the stages after parsing reported, given everything the engine
/// reported for a text whose syntax errors are known already: nothing if
/// only syntax errors are left out, the one error that remains, or the
/// remaining errors in order.
pub fn without_syntax_errors(error: CompileError) -> (rest: Option<CompileError>)
    ensures
        match rest {
            None => spec_without_syntax_errors(error).len() == 0,
            Some(CompileError::Multiple(errors)) => spec_without_syntax_errors(error).len() > 1
                && errors@ == spec_without_syntax_errors(error),
            Some(single) => spec_without_syntax_errors(error) == seq![single],
        },
{
    let mut kept: Vec<CompileError> = Vec::new();
    keep_later_errors(error, &mut kept);
    assert(Seq::<CompileError>::empty() + spec_without_syntax_errors(error) =~= kept@);
    proof {
        lemma_single_errors(error);
    }
    if kept.len() == 0 {
        None
    } else if kept.len() == 1 {
        let single = kept.pop().unwrap();
        assert(spec_without_syntax_errors(error) =~= seq![single]);
        Some(single)
    } else {
        Some(CompileError::Multiple(kept))
    }
}

/// None of the single errors is a list of errors or a syntax error.
pub proof fn lemma_single_errors(error: CompileError)
    ensures
        forall|i: int|
            0 <= i < spec_without_syntax_errors(error).len() ==> !(
            #[trigger] spec_without_syntax_errors(error)[i] is Multiple) && !(
            spec_without_syntax_errors(error)[i] is Parse),
    decreases error,
{
    match error {
        CompileError::Multiple(errors) => {
            lemma_single_errors_each(errors@);
        },
        _ => {},
    }
}

/// None of the single errors is a list of errors or a syntax error.
pub proof fn lemma_single_errors_each(errors: Seq<CompileError>)
    ensures
        forall|i: int|
            0 <= i < spec_without_syntax_errors_each(errors).len() ==> !(
            #[trigger] spec_without_syntax_errors_each(errors)[i] is Multiple) && !(
            spec_without_syntax_errors_each(errors)[i] is Parse),
    decreases errors,
{
    if errors.len() > 0 {
        lemma_single_errors(errors.first());
        lemma_single_errors_each(errors.drop_first());
    }
}

} // verus!
