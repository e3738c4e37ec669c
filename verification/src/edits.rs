//! Answers to formatting and highlight requests, made from what the
//! language engine gives.

use vstd::prelude::*;
use crate::document::{lemma_table_bounds, spec_whole_range};
use crate::error::ServerError;
use crate::modules::CompiledModule;
use crate::position::{
    law_offset_round_trip, lemma_line_starts_table, spec_byte_span_to_range, ByteSpan, LineIndex,
    Range,
};

verus! {

/// New text for a range of a document.
#[derive(Clone, Debug, PartialEq, Eq)]
pub struct TextEdit {
    pub range: Range,
    pub new_text: Vec<u8>,
}

/// A range to set off in the editor.
#[derive(Clone, Copy, Debug, PartialEq, Eq, Structural)]
pub struct DocumentHighlight {
    pub range: Range,
}

/// The answer to a formatting request, given what the formatter made of
/// the text the module was compiled from: one edit that puts the formatted
/// text in place of the whole text, or the formatter's error as the
/// request's error.
pub fn formatting_edits(module: &CompiledModule, formatted: Result<Vec<u8>, Vec<u8>>) -> (result:
    Result<Vec<TextEdit>, ServerError>)
    requires
        module.wf(),
    ensures
        match formatted {
            Ok(text) => {
                &&& result matches Ok(edits)
                &&& edits@.len() == 1
                &&& edits@[0].new_text@ == text@
                &&& edits@[0].range == spec_whole_range(module.source())
            },
            Err(message) => result matches Err(ServerError::FormatFailed { message: reported })
                && reported@ == message@,
        },
{
    match formatted {
        Err(message) => Err(ServerError::FormatFailed { message }),
        Ok(text) => {
            let lines = module.get_lines();
            let end = lines.text_len();
            proof {
                let source = module.source();
                lemma_line_starts_table(source);
                law_offset_round_trip(source, 0);
                law_offset_round_trip(source, end as int);
                crate::position::lemma_line_at_unique(lines.starts(), lines.end(), 0, 0);
                let last = crate::position::line_at(lines.starts(), end as int);
                lemma_table_bounds(lines.starts(), lines.end(), last);
            }
            match lines.byte_span_to_range(ByteSpan { start: 0, end }) {
                Ok(range) => {
                    let mut edits: Vec<TextEdit> = Vec::new();
                    edits.push(TextEdit { range, new_text: text });
                    Ok(edits)
                },
                Err(error) => Err(error),
            }
        },
    }
}

/// The ranges of a list of byte spans; the first span that does not lie
/// in the text fails the whole.
pub open spec fn spec_ranges(starts: Seq<int>, end: int, spans: Seq<ByteSpan>) -> Result<
    Seq<Range>,
    ServerError,
>
    decreases spans.len(),
{
    if spans.len() == 0 {
        Ok(Seq::empty())
    } else {
        match spec_byte_span_to_range(starts, end, spans.first()) {
            Err(error) => Err(error),
            Ok(first) => match spec_ranges(starts, end, spans.drop_first()) {
                Err(error) => Err(error),
                Ok(rest) => Ok(seq![first] + rest),
            },
        }
    }
}

/// The ranges of a list of highlights.
pub open spec fn highlight_ranges(highlights: Seq<DocumentHighlight>) -> Seq<Range> {
    highlights.map_values(|highlight: DocumentHighlight| highlight.range)
}

/// The answer to a highlight request, given the spans of all uses of the
/// symbol at the position: one highlight per span, in order.
pub fn document_highlights(lines: &LineIndex, spans: &Vec<ByteSpan>) -> (result: Result<
    Vec<DocumentHighlight>,
    ServerError,
>)
    requires
        lines.wf(),
    ensures
        match spec_ranges(lines.starts(), lines.end(), spans@) {
            Ok(ranges) => result matches Ok(highlights) && highlight_ranges(highlights@) == ranges,
            Err(error) => result == Err::<Vec<DocumentHighlight>, ServerError>(error),
        },
{
    let mut highlights: Vec<DocumentHighlight> = Vec::new();
    let mut i: usize = 0;
    assert(spans@.skip(0) =~= spans@);
    assert(highlight_ranges(highlights@) =~= Seq::<Range>::empty());
    while i < spans.len()
        invariant
            i <= spans.len(),
            lines.wf(),
            match spec_ranges(lines.starts(), lines.end(), spans@.skip(i as int)) {
                Ok(rest) => spec_ranges(lines.starts(), lines.end(), spans@) == Ok::<
                    Seq<Range>,
                    ServerError,
                >(highlight_ranges(highlights@) + rest),
                Err(error) => spec_ranges(lines.starts(), lines.end(), spans@) == Err::<
                    Seq<Range>,
                    ServerError,
                >(error),
            },
        decreases spans.len() - i,
    {
        assert(spans@.skip(i as int).drop_first() =~= spans@.skip(i + 1));
        assert(spans@.skip(i as int).first() == spans@[i as int]);
        let range = lines.byte_span_to_range(spans[i])?;
        let ghost before = highlight_ranges(highlights@);
        highlights.push(DocumentHighlight { range });
        assert(highlight_ranges(highlights@) =~= before.push(range));
        proof {
            match spec_ranges(lines.starts(), lines.end(), spans@.skip(i + 1)) {
                Ok(rest) => {
                    assert(before + (seq![range] + rest) =~= before.push(range) + rest);
                },
                Err(_) => {},
            }
        }
        i += 1;
    }
    assert(highlight_ranges(highlights@) + Seq::<Range>::empty() =~= highlight_ranges(highlights@));
    Ok(highlights)
}

} // verus!
