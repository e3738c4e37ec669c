use vstd::prelude::*;

verus! {

/// Why a request could not be answered. Every variant is reported to the
/// client as an error response; none of them ends the session.
#[derive(Clone, Debug, PartialEq, Eq)]
pub enum ServerError {
    /// A line/character position names a line the text does not have, or
    /// the offset it stands for cannot be represented.
    PositionOutOfRange { line: u64, character: u64 },
    /// A byte offset lies beyond the end of the text.
    OffsetOutOfRange { offset: usize },
    /// A byte range runs backwards or past the end of the text, or cuts
    /// through a character.
    SpanOutOfRange { start: usize, end: usize },
    /// No compiled module is cached under this name.
    ModuleNotLoaded { module: Vec<u8> },
    /// The document has not been opened.
    DocumentNotOpen { uri: Vec<u8> },
    /// A URI names no file, or a file name is not valid UTF-8, so that no
    /// module name can be derived.
    InvalidFileName,
    /// The source formatter rejected the text.
    FormatFailed { message: Vec<u8> },
}

/// The byte stream does not follow the wire format. The stream cannot be
/// resynchronised, so this ends the session.
#[derive(Clone, Copy, Debug, PartialEq, Eq, Structural)]
pub enum ProtocolError {
    /// A byte that no header can contain at its place.
    MalformedHeader,
    /// The announced length cannot be held in memory.
    LengthOverflow,
    /// The body of a message is not valid UTF-8.
    InvalidBody,
}

} // verus!
