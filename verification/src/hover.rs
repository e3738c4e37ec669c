//! The answer to a hover request, made from what the language engine
//! found at the position.

use vstd::prelude::*;
use crate::bytes::{append_bytes, copy_bytes};
use crate::position::{spec_byte_span_to_range, ByteSpan, LineIndex, Range};

verus! {

/// What the language engine found at a position: the rendered type, the
/// documentation comment if there is one, and the bytes the expression
/// covers.
#[derive(Clone, Debug, PartialEq, Eq)]
pub struct HoverInfo {
    pub typ: Vec<u8>,
    pub comment: Option<Vec<u8>>,
    pub span: ByteSpan,
}

/// The answer to a hover request.
#[derive(Clone, Debug, PartialEq, Eq)]
pub struct Hover {
    pub contents: Vec<Vec<u8>>,
    pub range: Option<Range>,
}

/// The text shown for a hover: the type, and the comment two line breaks
/// below it if there is one.
pub open spec fn spec_hover_text(info: HoverInfo) -> Seq<u8> {
    match info.comment {
        Some(comment) => info.typ@ + seq![0x0au8, 0x0a] + comment@,
        None => info.typ@,
    }
}

/// The range shown for a hover: that of the expression, or none if its
/// span does not lie in the text of the line table.
pub open spec fn spec_hover_range(starts: Seq<int>, end: int, info: HoverInfo) -> Option<Range> {
    match spec_byte_span_to_range(starts, end, info.span) {
        Ok(range) => Some(range),
        Err(_) => None,
    }
}

/// The answer for what the engine found: one text and the range of the
/// expression. Where the engine found nothing the answer is empty.
pub fn hover_response(lines: &LineIndex, found: Option<&HoverInfo>) -> (hover: Hover)
    requires
        lines.wf(),
    ensures
        match found {
            Some(info) => {
                &&& hover.contents@.len() == 1
                &&& hover.contents@[0]@ == spec_hover_text(*info)
                &&& hover.range == spec_hover_range(lines.starts(), lines.end(), *info)
            },
            None => hover.contents@.len() == 0 && hover.range is None,
        },
{
    match found {
        Some(info) => {
            let mut text = copy_bytes(info.typ.as_slice());
            match &info.comment {
                Some(comment) => {
                    text.push(0x0a);
                    text.push(0x0a);
                    assert(text@ =~= info.typ@ + seq![0x0au8, 0x0a]);
                    append_bytes(&mut text, comment.as_slice());
                },
                None => {},
            }
            let mut contents: Vec<Vec<u8>> = Vec::new();
            contents.push(text);
            let range = match lines.byte_span_to_range(info.span) {
                Ok(range) => Some(range),
                Err(_) => None,
            };
            Hover { contents, range }
        },
        None => Hover { contents: Vec::new(), range: None },
    }
}

} // verus!
