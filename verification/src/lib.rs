//! Core of a language server: message framing, position translation,
//! document synchronisation, coalescing diagnostics scheduling and the
//! decisions behind each request handler.
//!
//! Text is handled as UTF-8 bytes throughout: documents, names, URIs and
//! messages are `Vec<u8>`, and every offset is a byte offset.

pub mod bytemap;
pub mod bytes;
pub mod error;
pub mod position;
pub mod framing;
pub mod document;
pub mod scheduler;
pub mod diagnostics;
pub mod compile;
pub mod symbols;
pub mod modules;
pub mod hover;
pub mod completion;
pub mod dispatch;
pub mod lifecycle;
pub mod edits;
pub mod paths;
pub mod session;
pub mod output;
