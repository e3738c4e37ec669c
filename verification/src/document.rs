//! The live text of open documents and the edits applied to it.

use vstd::prelude::*;
use vstd::utf8::{
    is_char_boundary, is_char_boundary_iff_not_is_continuation_byte,
    is_char_boundary_start_end_of_seq, valid_utf8, valid_utf8_concat, valid_utf8_split,
};
use crate::bytemap::ByteMap;
use crate::bytes::{append_bytes, as_text, copy_bytes};
use crate::error::ServerError;
use crate::position::{
    build_line_index, is_line_table, law_offset_round_trip, lemma_line_starts_table, line_starts,
    spec_checked_offset, spec_offset_to_position, spec_position_to_offset,
    spec_range_to_byte_span, ByteSpan, Position, Range,
};

verus! {

/// One edit: new text for a range of the document, or for all of it.
#[derive(Clone, Debug, PartialEq, Eq)]
pub struct TextChange {
    /// The range to replace; `None` replaces the whole text.
    pub range: Option<Range>,
    /// Length of the replaced range as the client counted it; not used.
    pub range_length: Option<u64>,
    /// The new text.
    pub text: Vec<u8>,
}

/// `text` with the bytes from `start` up to `end` replaced by `inserted`.
pub open spec fn spec_splice(text: Seq<u8>, start: int, end: int, inserted: Seq<u8>) -> Seq<u8> {
    text.subrange(0, start) + inserted + text.subrange(end, text.len() as int)
}

/// A byte span can be cut out of `text`: it runs forwards, ends within the
/// text, and where the text is valid UTF-8 neither end lies inside a
/// character.
pub open spec fn is_splice_span(text: Seq<u8>, span: ByteSpan) -> bool {
    &&& span.start <= span.end <= text.len()
    &&& valid_utf8(text) ==> is_char_boundary(text, span.start as int) && is_char_boundary(
        text,
        span.end as int,
    )
}

/// The bytes that a change with the given range replaces. Positions are
/// translated against `text` itself; a span that cannot be cut out of the
/// text is refused.
pub open spec fn spec_change_span(text: Seq<u8>, range: Range) -> Result<ByteSpan, ServerError> {
    match spec_range_to_byte_span(line_starts(text), range) {
        Ok(span) => if is_splice_span(text, span) {
            Ok(span)
        } else {
            Err(ServerError::SpanOutOfRange { start: span.start, end: span.end })
        },
        Err(error) => Err(error),
    }
}

/// The text after one change, or why the change cannot be applied. A
/// change without a range puts its text in place of the whole text,
/// whether or not it carries a range length.
pub open spec fn spec_apply_change(text: Seq<u8>, change: TextChange) -> Result<
    Seq<u8>,
    ServerError,
> {
    match change.range {
        None => Ok(change.text@),
        Some(range) => match spec_change_span(text, range) {
            Ok(span) => Ok(spec_splice(text, span.start as int, span.end as int, change.text@)),
            Err(error) => Err(error),
        },
    }
}

/// The text after a list of changes, each applied to the result of the one
/// before. The first change that fails stops the list: the text stays as
/// the changes before it left it, and the error is reported.
pub open spec fn spec_apply_changes(text: Seq<u8>, changes: Seq<TextChange>) -> (
    Seq<u8>,
    Option<ServerError>,
)
    decreases changes.len(),
{
    if changes.len() == 0 {
        (text, None)
    } else {
        match spec_apply_change(text, changes.first()) {
            Ok(changed) => spec_apply_changes(changed, changes.drop_first()),
            Err(error) => (text, Some(error)),
        }
    }
}

/// The range from the first position of `text` to its last.
pub open spec fn spec_whole_range(text: Seq<u8>) -> Range {
    let end = spec_offset_to_position(line_starts(text), text.len() as int, text.len() as int).unwrap();
    Range {
        start: Position { line: 0, character: 0 },
        end: Position { line: end.0 as u64, character: end.1 as u64 },
    }
}

/// Whether `offset` lies between two characters of a valid UTF-8 text.
fn on_char_boundary(text: &[u8], offset: usize) -> (between: bool)
    requires
        valid_utf8(text@),
        offset <= text.len(),
    ensures
        between == is_char_boundary(text@, offset as int),
{
    proof {
        is_char_boundary_start_end_of_seq(text@);
        if offset < text.len() {
            is_char_boundary_iff_not_is_continuation_byte(text@, offset as int);
        }
    }
    offset == text.len() || text[offset] < 0x80 || text[offset] > 0xbf
}

/// Applies one change to `source`. On failure `source` is left as it was.
/// A valid UTF-8 text stays one if the new text is valid UTF-8.
pub fn apply_change(source: &mut Vec<u8>, change: &TextChange) -> (result: Result<(), ServerError>)
    ensures
        match spec_apply_change(old(source)@, *change) {
            Ok(changed) => result is Ok && final(source)@ == changed,
            Err(error) => result == Err::<(), ServerError>(error) && final(source)@ == old(source)@,
        },
        valid_utf8(old(source)@) && valid_utf8(change.text@) ==> valid_utf8(final(source)@),
{
    proof {
        if valid_utf8(source@) && valid_utf8(change.text@) {
            law_change_keeps_utf8(source@, *change);
        }
    }
    let span = match change.range {
        None => {
            assert(spec_splice(source@, 0, source@.len() as int, change.text@) =~= change.text@);
            ByteSpan { start: 0, end: source.len() }
        },
        Some(range) => {
            let lines = build_line_index(source.as_slice());
            let span = lines.range_to_byte_span(&range)?;
            if span.start > span.end || span.end > source.len() {
                return Err(ServerError::SpanOutOfRange { start: span.start, end: span.end });
            }
            if as_text(source.as_slice()).is_some() && !(on_char_boundary(
                source.as_slice(),
                span.start,
            ) && on_char_boundary(source.as_slice(), span.end)) {
                return Err(ServerError::SpanOutOfRange { start: span.start, end: span.end });
            }
            span
        },
    };
    let tail = source.split_off(span.end);
    source.truncate(span.start);
    append_bytes(source, change.text.as_slice());
    append_bytes(source, tail.as_slice());
    Ok(())
}

/// Every text of the changes is valid UTF-8.
pub open spec fn all_valid_utf8(changes: Seq<TextChange>) -> bool {
    forall|i: int| 0 <= i < changes.len() ==> valid_utf8((#[trigger] changes[i]).text@)
}

/// Applies the changes in order, each to the result of the one before,
/// and stops at the first that fails. A valid UTF-8 text stays one if the
/// new texts are valid UTF-8.
pub fn apply_changes(source: &mut Vec<u8>, changes: &Vec<TextChange>) -> (result: Result<
    (),
    ServerError,
>)
    ensures
        final(source)@ == spec_apply_changes(old(source)@, changes@).0,
        valid_utf8(old(source)@) && all_valid_utf8(changes@) ==> valid_utf8(final(source)@),
        match spec_apply_changes(old(source)@, changes@).1 {
            None => result is Ok,
            Some(error) => result == Err::<(), ServerError>(error),
        },
{
    let mut i: usize = 0;
    assert(changes@.skip(0) =~= changes@);
    while i < changes.len()
        invariant
            i <= changes.len(),
            spec_apply_changes(old(source)@, changes@) == spec_apply_changes(
                source@,
                changes@.skip(i as int),
            ),
            valid_utf8(old(source)@) && all_valid_utf8(changes@) ==> valid_utf8(source@),
        decreases changes.len() - i,
    {
        assert(changes@.skip(i as int).drop_first() =~= changes@.skip(i + 1));
        match apply_change(source, &changes[i]) {
            Ok(()) => {},
            Err(error) => {
                return Err(error);
            },
        }
        i += 1;
    }
    Ok(())
}

/// A change without a range, with or without a range length, does what
/// a change does whose range runs from the first position of the text to
/// its last: the new text takes the place of the whole text.
pub proof fn law_whole_range(
    text: Seq<u8>,
    inserted: Vec<u8>,
    length_without_range: Option<u64>,
    length_with_range: Option<u64>,
)
    requires
        text.len() <= usize::MAX,
    ensures
        spec_apply_change(
            text,
            TextChange { range: None, range_length: length_without_range, text: inserted },
        ) == Ok::<Seq<u8>, ServerError>(inserted@),
        spec_apply_change(
            text,
            TextChange {
                range: Some(spec_whole_range(text)),
                range_length: length_with_range,
                text: inserted,
            },
        ) == Ok::<Seq<u8>, ServerError>(inserted@),
{
    let starts = line_starts(text);
    let len = text.len() as int;
    lemma_line_starts_table(text);
    law_offset_round_trip(text, len);
    let end = spec_offset_to_position(starts, len, len).unwrap();
    lemma_table_bounds(starts, len, end.0);
    let range = spec_whole_range(text);
    assert(spec_checked_offset(starts, range.start) == Ok::<usize, ServerError>(0));
    assert(spec_position_to_offset(starts, end) == Some(len));
    assert(spec_checked_offset(starts, range.end) == Ok::<usize, ServerError>(len as usize));
    if valid_utf8(text) {
        is_char_boundary_start_end_of_seq(text);
    }
    assert(spec_splice(text, 0, len, inserted@) =~= inserted@);
}

/// A change that is applied to a valid UTF-8 text and brings valid UTF-8
/// leaves valid UTF-8.
pub proof fn law_change_keeps_utf8(text: Seq<u8>, change: TextChange)
    requires
        valid_utf8(text),
        valid_utf8(change.text@),
    ensures
        spec_apply_change(text, change) matches Ok(changed) ==> valid_utf8(changed),
{
    if let Some(range) = change.range {
        if let Ok(span) = spec_change_span(text, range) {
            let start = span.start as int;
            let end = span.end as int;
            valid_utf8_split(text, start);
            valid_utf8_split(text, end);
            valid_utf8_concat(text.subrange(0, start), change.text@);
            valid_utf8_concat(
                text.subrange(0, start) + change.text@,
                text.subrange(end, text.len() as int),
            );
        }
    }
}

/// Changes that are applied to a valid UTF-8 text and bring valid UTF-8
/// leave valid UTF-8, whether or not one of them fails.
pub proof fn law_changes_keep_utf8(text: Seq<u8>, changes: Seq<TextChange>)
    requires
        valid_utf8(text),
        all_valid_utf8(changes),
    ensures
        valid_utf8(spec_apply_changes(text, changes).0),
    decreases changes.len(),
{
    if changes.len() > 0 {
        law_change_keeps_utf8(text, changes.first());
        if let Ok(changed) = spec_apply_change(text, changes.first()) {
            let rest = changes.drop_first();
            assert forall|i: int| 0 <= i < rest.len() implies valid_utf8(
                (#[trigger] rest[i]).text@,
            ) by {
                assert(rest[i] == changes[i + 1]);
            }
            law_changes_keep_utf8(changed, rest);
        }
    }
}

/// Entry `i` of a line table is at least `i`.
pub proof fn lemma_table_bounds(starts: Seq<int>, end: int, i: int)
    requires
        is_line_table(starts, end),
        0 <= i < starts.len(),
    ensures
        i <= starts[i] <= end,
    decreases i,
{
    if i > 0 {
        lemma_table_bounds(starts, end, i - 1);
    }
}

/// The live text of every open document, by canonical URI.
pub struct DocumentStore {
    texts: ByteMap<Vec<u8>>,
}

impl View for DocumentStore {
    type V = Map<Seq<u8>, Seq<u8>>;

    closed spec fn view(&self) -> Map<Seq<u8>, Seq<u8>> {
        self.texts@.map_values(|text: Vec<u8>| text@)
    }
}

impl DocumentStore {
    pub closed spec fn wf(&self) -> bool {
        self.texts.wf()
    }

    pub fn new() -> (store: DocumentStore)
        ensures
            store.wf(),
            store@ == Map::<Seq<u8>, Seq<u8>>::empty(),
    {
        let store = DocumentStore { texts: ByteMap::new() };
        assert(store@ =~= Map::<Seq<u8>, Seq<u8>>::empty());
        store
    }

    /// Whether the document is open.
    pub fn is_open(&self, uri: &[u8]) -> (open: bool)
        requires
            self.wf(),
        ensures
            open == self@.dom().contains(uri@),
    {
        self.texts.contains_key(uri)
    }

    /// Opens a document, or gives an open one a new text.
    pub fn open(&mut self, uri: Vec<u8>, text: Vec<u8>)
        requires
            old(self).wf(),
        ensures
            final(self).wf(),
            final(self)@ == old(self)@.insert(uri@, text@),
    {
        self.texts.insert(uri, text);
        assert(self@ =~= old(self)@.insert(uri@, text@));
    }

    /// A copy of the text of an open document.
    pub fn text(&self, uri: &[u8]) -> (copy: Option<Vec<u8>>)
        requires
            self.wf(),
        ensures
            match copy {
                Some(text) => self@.dom().contains(uri@) && text@ == self@[uri@],
                None => !self@.dom().contains(uri@),
            },
    {
        match self.texts.get(uri) {
            Some(text) => Some(copy_bytes(text.as_slice())),
            None => None,
        }
    }

    /// Applies the changes of one notification to an open document and
    /// returns a copy of the text as it then stands, for the compiler to
    /// work on. The changes before a failing one stay applied. A document
    /// that is not open is reported and nothing changes.
    pub fn apply_changes(&mut self, uri: &[u8], changes: &Vec<TextChange>) -> (result: Result<
        Vec<u8>,
        ServerError,
    >)
        requires
            old(self).wf(),
        ensures
            final(self).wf(),
            !old(self)@.dom().contains(uri@) ==> final(self)@ == old(self)@ && (result matches Err(
                ServerError::DocumentNotOpen { uri: named },
            ) && named@ == uri@),
            old(self)@.dom().contains(uri@) ==> {
                let outcome = spec_apply_changes(old(self)@[uri@], changes@);
                &&& final(self)@ == old(self)@.insert(uri@, outcome.0)
                &&& match outcome.1 {
                    None => result matches Ok(text) && text@ == outcome.0,
                    Some(error) => result == Err::<Vec<u8>, ServerError>(error),
                }
            },
    {
        match self.texts.remove(uri) {
            Some(text) => {
                let mut text = text;
                let applied = apply_changes(&mut text, changes);
                let copy = copy_bytes(text.as_slice());
                self.texts.insert(copy_bytes(uri), text);
                assert(self@ =~= old(self)@.insert(
                    uri@,
                    spec_apply_changes(old(self)@[uri@], changes@).0,
                ));
                match applied {
                    Ok(()) => Ok(copy),
                    Err(error) => Err(error),
                }
            },
            None => {
                assert(self@ =~= old(self)@);
                Err(ServerError::DocumentNotOpen { uri: copy_bytes(uri) })
            },
        }
    }
}

} // verus!
