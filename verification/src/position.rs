//! Translation between byte offsets and line/character positions.

use vstd::prelude::*;
use crate::bytes::NEWLINE;
use crate::error::ServerError;

verus! {

/// Zero-based line and zero-based byte column within that line.
#[derive(Clone, Copy, Debug, PartialEq, Eq, Structural)]
pub struct Position {
    pub line: u64,
    pub character: u64,
}

/// A pair of positions; `end` is exclusive.
#[derive(Clone, Copy, Debug, PartialEq, Eq, Structural)]
pub struct Range {
    pub start: Position,
    pub end: Position,
}

/// A pair of byte offsets; `end` is exclusive.
#[derive(Clone, Copy, Debug, PartialEq, Eq, Structural)]
pub struct ByteSpan {
    pub start: usize,
    pub end: usize,
}

/// A place in a source file as the language engine reports it.
#[derive(Clone, Copy, Debug, PartialEq, Eq, Structural)]
pub struct Location {
    pub line: usize,
    pub column: usize,
    pub absolute: usize,
}

/// A pair of engine locations; `end` is exclusive.
#[derive(Clone, Copy, Debug, PartialEq, Eq, Structural)]
pub struct LocationSpan {
    pub start: Location,
    pub end: Location,
}

/// A line begins at offset 0 and after every newline byte.
pub open spec fn is_line_start(text: Seq<u8>, p: int) -> bool {
    p == 0 || (0 < p <= text.len() && text[p - 1] == NEWLINE)
}

/// The offsets at which the lines of `text` begin, in increasing order.
pub open spec fn line_starts(text: Seq<u8>) -> Seq<int>
    decreases text.len(),
{
    if text.len() == 0 {
        seq![0int]
    } else {
        let before = line_starts(text.drop_last());
        if text.last() == NEWLINE {
            before.push(text.len() as int)
        } else {
            before
        }
    }
}

/// What every line table satisfies: it begins with 0, increases strictly
/// and stays within the text.
pub open spec fn is_line_table(starts: Seq<int>, end: int) -> bool {
    &&& starts.len() > 0
    &&& starts[0] == 0
    &&& forall|i: int, j: int| 0 <= i < j < starts.len() ==> starts[i] < starts[j]
    &&& starts.last() <= end
}

/// Index of the last entry of `starts` that is at most `offset`, or -1.
pub open spec fn line_at(starts: Seq<int>, offset: int) -> int
    decreases starts.len(),
{
    if starts.len() == 0 {
        -1
    } else if starts.last() <= offset {
        starts.len() - 1
    } else {
        line_at(starts.drop_last(), offset)
    }
}

/// Position of a byte offset: `None` beyond the end of the text, else the
/// line that holds the offset and the distance from where that line begins.
pub open spec fn spec_offset_to_position(starts: Seq<int>, end: int, offset: int) -> Option<
    (int, int),
> {
    if 0 <= offset <= end {
        let line = line_at(starts, offset);
        Some((line, offset - starts[line]))
    } else {
        None
    }
}

/// Byte offset of a position: `None` if the text has no such line, else the
/// start of the line plus the character count, which is not held against
/// the length of the line.
pub open spec fn spec_position_to_offset(starts: Seq<int>, position: (int, int)) -> Option<int> {
    if 0 <= position.0 < starts.len() {
        Some(starts[position.0] + position.1)
    } else {
        None
    }
}

/// A position that lies on its line: the line exists and the character
/// count stops before the next line begins, or at the end of the text on
/// the last line.
pub open spec fn is_position_within(starts: Seq<int>, end: int, position: (int, int)) -> bool {
    &&& 0 <= position.0 < starts.len()
    &&& 0 <= position.1
    &&& starts[position.0] + position.1 <= end
    &&& position.0 + 1 < starts.len() ==> starts[position.0] + position.1 < starts[position.0 + 1]
}

pub proof fn lemma_line_starts_table(text: Seq<u8>)
    ensures
        is_line_table(line_starts(text), text.len() as int),
        forall|i: int| 0 <= i < line_starts(text).len() ==> 0 <= #[trigger] line_starts(text)[i] <= text.len(),
        forall|i: int|
            0 <= i < line_starts(text).len() ==> is_line_start(text, #[trigger] line_starts(text)[i]),
        forall|p: int| is_line_start(text, p) ==> line_starts(text).contains(p),
    decreases text.len(),
{
    let starts = line_starts(text);
    if text.len() == 0 {
        assert(starts[0] == 0);
        assert forall|p: int| is_line_start(text, p) implies starts.contains(p) by {
            assert(starts[0] == p);
        }
    } else {
        let shorter = text.drop_last();
        let before = line_starts(shorter);
        lemma_line_starts_table(shorter);
        assert forall|i: int| 0 <= i < starts.len() implies is_line_start(
            text,
            #[trigger] starts[i],
        ) by {
            if i < before.len() {
                assert(is_line_start(shorter, before[i]));
                assert(starts[i] == before[i]);
                if before[i] != 0 {
                    assert(shorter[before[i] - 1] == text[before[i] - 1]);
                }
            }
        }
        assert forall|p: int| is_line_start(text, p) implies starts.contains(p) by {
            if p == text.len() {
                assert(starts[starts.len() - 1] == p);
            } else {
                if p != 0 {
                    assert(shorter[p - 1] == text[p - 1]);
                }
                assert(is_line_start(shorter, p));
                let k = choose|k: int| 0 <= k < before.len() && before[k] == p;
                assert(starts[k] == p);
            }
        }
    }
}

pub proof fn lemma_line_at(starts: Seq<int>, end: int, offset: int)
    requires
        is_line_table(starts, end),
        0 <= offset,
    ensures
        0 <= line_at(starts, offset) < starts.len(),
        starts[line_at(starts, offset)] <= offset,
        forall|j: int| line_at(starts, offset) < j < starts.len() ==> offset < starts[j],
    decreases starts.len(),
{
    if starts.last() <= offset {
    } else {
        let shorter = starts.drop_last();
        assert(starts.len() > 1);
        assert(is_line_table(shorter, shorter.last()));
        lemma_line_at(shorter, shorter.last(), offset);
        let found = line_at(shorter, offset);
        assert forall|j: int| found < j < starts.len() implies offset < starts[j] by {
            if j < shorter.len() {
                assert(shorter[j] == starts[j]);
            }
        }
        assert(shorter[found] == starts[found]);
    }
}

/// The line that holds an offset is the only one that begins at or before
/// it while the next one begins after it.
pub proof fn lemma_line_at_unique(starts: Seq<int>, end: int, offset: int, line: int)
    requires
        is_line_table(starts, end),
        0 <= line < starts.len(),
        starts[line] <= offset,
        line + 1 < starts.len() ==> offset < starts[line + 1],
    ensures
        line_at(starts, offset) == line,
{
    lemma_line_at(starts, end, offset);
    let found = line_at(starts, offset);
    if found < line {
        assert(offset < starts[line]);
    } else if found > line {
        assert(starts[line + 1] <= starts[found]);
    }
}

/// Translating a position that lies on its line to an offset and back
/// gives the position again.
pub proof fn law_position_round_trip(text: Seq<u8>, position: (int, int))
    requires
        is_position_within(line_starts(text), text.len() as int, position),
    ensures
        spec_position_to_offset(line_starts(text), position) is Some,
        spec_offset_to_position(
            line_starts(text),
            text.len() as int,
            spec_position_to_offset(line_starts(text), position).unwrap(),
        ) == Some(position),
{
    let starts = line_starts(text);
    lemma_line_starts_table(text);
    let offset = starts[position.0] + position.1;
    lemma_line_at_unique(starts, text.len() as int, offset, position.0);
}

/// Translating an offset within the text to a position and back gives the
/// offset again, and the position lies on its line.
pub proof fn law_offset_round_trip(text: Seq<u8>, offset: int)
    requires
        0 <= offset <= text.len(),
    ensures
        spec_offset_to_position(line_starts(text), text.len() as int, offset) is Some,
        is_position_within(
            line_starts(text),
            text.len() as int,
            spec_offset_to_position(line_starts(text), text.len() as int, offset).unwrap(),
        ),
        spec_position_to_offset(
            line_starts(text),
            spec_offset_to_position(line_starts(text), text.len() as int, offset).unwrap(),
        ) == Some(offset),
{
    lemma_line_starts_table(text);
    lemma_line_at(line_starts(text), text.len() as int, offset);
}

/// The line table of one text.
pub struct LineIndex {
    starts: Vec<usize>,
    end: usize,
}

impl LineIndex {
    /// The offsets at which lines begin.
    pub closed spec fn starts(&self) -> Seq<int> {
        self.starts@.map_values(|start: usize| start as int)
    }

    /// The length of the text the table was built from.
    pub closed spec fn end(&self) -> int {
        self.end as int
    }

    pub open spec fn wf(&self) -> bool {
        is_line_table(self.starts(), self.end())
    }

    /// The table is the one of `text`.
    pub open spec fn describes(&self, text: Seq<u8>) -> bool {
        self.starts() == line_starts(text) && self.end() == text.len()
    }

    /// Number of lines; a text without a newline has one.
    pub fn line_count(&self) -> (count: usize)
        ensures
            count == self.starts().len(),
    {
        self.starts.len()
    }

    /// Length of the text the table was built from.
    pub fn text_len(&self) -> (len: usize)
        ensures
            len == self.end(),
    {
        self.end
    }

    /// The line that holds `offset`, found by binary search.
    pub fn line_number_at(&self, offset: usize) -> (line: usize)
        requires
            self.wf(),
        ensures
            line == line_at(self.starts(), offset as int),
            line < self.starts().len(),
    {
        let ghost starts = self.starts();
        let mut low: usize = 0;
        let mut high: usize = self.starts.len();
        while high - low > 1
            invariant
                starts == self.starts(),
                is_line_table(starts, self.end()),
                0 <= low < high <= starts.len(),
                starts[low as int] <= offset,
                high < starts.len() ==> offset < starts[high as int],
            decreases high - low,
        {
            let middle = low + (high - low) / 2;
            if self.starts[middle] <= offset {
                low = middle;
            } else {
                high = middle;
            }
        }
        proof {
            lemma_line_at_unique(starts, self.end(), offset as int, low as int);
        }
        low
    }

    /// Where the given line begins, if the text has that line.
    pub fn line(&self, line: u64) -> (start: Option<usize>)
        ensures
            start is Some <==> line < self.starts().len(),
            start matches Some(offset) ==> offset == self.starts()[line as int],
    {
        if line < self.starts.len() as u64 {
            Some(self.starts[line as usize])
        } else {
            None
        }
    }

    /// Line and character of a byte offset. Fails exactly when the offset
    /// lies beyond the end of the text.
    pub fn offset_to_position(&self, offset: usize) -> (result: Result<Position, ServerError>)
        requires
            self.wf(),
        ensures
            match result {
                Ok(position) => spec_offset_to_position(self.starts(), self.end(), offset as int)
                    == Some((position.line as int, position.character as int)),
                Err(error) => offset > self.end() && error == (ServerError::OffsetOutOfRange {
                    offset,
                }),
            },
    {
        if offset <= self.end {
            let line = self.line_number_at(offset);
            let start = self.starts[line];
            proof {
                lemma_line_at(self.starts(), self.end(), offset as int);
                assert(self.starts()[line as int] == start);
            }
            Ok(Position { line: line as u64, character: (offset - start) as u64 })
        } else {
            Err(ServerError::OffsetOutOfRange { offset })
        }
    }

    /// Byte offset of a position. Fails exactly when the text has no such
    /// line or the sum does not fit the offset type; the character count is
    /// not held against the length of the line.
    pub fn position_to_offset(&self, position: &Position) -> (result: Result<usize, ServerError>)
        ensures
            match result {
                Ok(offset) => spec_position_to_offset(
                    self.starts(),
                    (position.line as int, position.character as int),
                ) == Some(offset as int),
                Err(error) => {
                    &&& error == (ServerError::PositionOutOfRange {
                        line: position.line,
                        character: position.character,
                    })
                    &&& match spec_position_to_offset(
                        self.starts(),
                        (position.line as int, position.character as int),
                    ) {
                        Some(offset) => offset > usize::MAX,
                        None => true,
                    }
                },
            },
    {
        let failure = ServerError::PositionOutOfRange {
            line: position.line,
            character: position.character,
        };
        match self.line(position.line) {
            Some(start) => {
                if position.character <= (usize::MAX - start) as u64 {
                    Ok(start + position.character as usize)
                } else {
                    Err(failure)
                }
            },
            None => Err(failure),
        }
    }

    /// Byte offsets of both ends of a range.
    pub fn range_to_byte_span(&self, range: &Range) -> (result: Result<ByteSpan, ServerError>)
        ensures
            result == spec_range_to_byte_span(self.starts(), *range),
    {
        let start = self.position_to_offset(&range.start)?;
        let end = self.position_to_offset(&range.end)?;
        Ok(ByteSpan { start, end })
    }

    /// Positions of both ends of a byte span.
    pub fn byte_span_to_range(&self, span: ByteSpan) -> (result: Result<Range, ServerError>)
        requires
            self.wf(),
        ensures
            result == spec_byte_span_to_range(self.starts(), self.end(), span),
    {
        let start = self.offset_to_position(span.start)?;
        let end = self.offset_to_position(span.end)?;
        Ok(Range { start, end })
    }
}

/// The offset a position stands for, as the server computes it: the error
/// names the position where the line is missing or the offset too large.
pub open spec fn spec_checked_offset(starts: Seq<int>, position: Position) -> Result<
    usize,
    ServerError,
> {
    match spec_position_to_offset(starts, (position.line as int, position.character as int)) {
        Some(offset) if offset <= usize::MAX => Ok(offset as usize),
        _ => Err(
            ServerError::PositionOutOfRange { line: position.line, character: position.character },
        ),
    }
}

/// Both ends of a range as offsets; the first end that fails decides.
pub open spec fn spec_range_to_byte_span(starts: Seq<int>, range: Range) -> Result<
    ByteSpan,
    ServerError,
> {
    match spec_checked_offset(starts, range.start) {
        Ok(start) => match spec_checked_offset(starts, range.end) {
            Ok(end) => Ok(ByteSpan { start, end }),
            Err(error) => Err(error),
        },
        Err(error) => Err(error),
    }
}

/// The position of an offset, as the server computes it.
pub open spec fn spec_checked_position(starts: Seq<int>, end: int, offset: usize) -> Result<
    Position,
    ServerError,
> {
    match spec_offset_to_position(starts, end, offset as int) {
        Some(position) => Ok(Position { line: position.0 as u64, character: position.1 as u64 }),
        None => Err(ServerError::OffsetOutOfRange { offset }),
    }
}

/// Both ends of a byte span as positions; the first end that fails decides.
pub open spec fn spec_byte_span_to_range(starts: Seq<int>, end: int, span: ByteSpan) -> Result<
    Range,
    ServerError,
> {
    match spec_checked_position(starts, end, span.start) {
        Ok(start) => match spec_checked_position(starts, end, span.end) {
            Ok(end) => Ok(Range { start, end }),
            Err(error) => Err(error),
        },
        Err(error) => Err(error),
    }
}

/// Builds the line table of `text` in one pass over its bytes.
pub fn build_line_index(text: &[u8]) -> (index: LineIndex)
    ensures
        index.wf(),
        index.describes(text@),
{
    let mut starts: Vec<usize> = Vec::new();
    starts.push(0);
    let mut i: usize = 0;
    assert(text@.take(0) =~= Seq::<u8>::empty());
    assert(starts@.map_values(|start: usize| start as int) =~= line_starts(text@.take(0)));
    while i < text.len()
        invariant
            0 <= i <= text.len(),
            starts@.map_values(|start: usize| start as int) == line_starts(text@.take(i as int)),
        decreases text.len() - i,
    {
        let ghost before = starts@.map_values(|start: usize| start as int);
        proof {
            let longer = text@.take(i + 1);
            assert(longer.drop_last() =~= text@.take(i as int));
            assert(longer.last() == text@[i as int]);
        }
        if text[i] == NEWLINE {
            starts.push(i + 1);
            assert(starts@.map_values(|start: usize| start as int) =~= before.push(i + 1));
        }
        i += 1;
    }
    assert(text@.take(i as int) =~= text@);
    proof {
        lemma_line_starts_table(text@);
    }
    LineIndex { starts, end: text.len() }
}

/// The position an engine location stands for.
pub fn location_to_position(location: &Location) -> (position: Position)
    ensures
        position.line == location.line,
        position.character == location.column,
{
    Position { line: location.line as u64, character: location.column as u64 }
}

/// The range an engine span stands for.
pub fn span_to_range(span: &LocationSpan) -> (range: Range)
    ensures
        range.start.line == span.start.line,
        range.start.character == span.start.column,
        range.end.line == span.end.line,
        range.end.character == span.end.column,
{
    Range { start: location_to_position(&span.start), end: location_to_position(&span.end) }
}

} // verus!
