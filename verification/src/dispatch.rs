//! Which handler a message goes to, and what is answered where none does.

use vstd::prelude::*;
use vstd::string::StringSliceAdditionalSpecFns;
use crate::bytes::bytes_equal;

verus! {

/// The methods the server knows.
#[derive(Clone, Copy, Debug, PartialEq, Eq, Structural)]
pub enum Method {
    Initialize,
    Completion,
    CompletionResolve,
    Hover,
    Formatting,
    DocumentHighlight,
    DocumentSymbol,
    WorkspaceSymbol,
    Shutdown,
    Exit,
    DidOpen,
    DidChange,
}

/// Whether a method is answered.
#[derive(Clone, Copy, Debug, PartialEq, Eq, Structural)]
pub enum MethodKind {
    /// The client waits for a response with the id of its message.
    Request,
    /// Nothing is answered.
    Notification,
}

/// What is done with a message.
#[derive(Clone, Copy, Debug, PartialEq, Eq, Structural)]
pub enum Route {
    /// The handler runs and its result is sent back under the id.
    Call(Method),
    /// The handler runs and nothing is sent back.
    Notify(Method),
    /// An error response says that there is no such method.
    MethodNotFound,
    /// The message is dropped.
    Ignore,
}

/// The errors of the protocol that a response can carry.
#[derive(Clone, Copy, Debug, PartialEq, Eq, Structural)]
pub enum ErrorCode {
    ParseError,
    InvalidRequest,
    MethodNotFound,
    InvalidParams,
    InternalError,
}

/// How a request ended, as far as the response depends on it.
#[derive(Clone, Copy, Debug, PartialEq, Eq, Structural)]
pub enum RequestOutcome {
    /// The handler gave a result.
    Success,
    /// The parameters did not have the shape the method declares.
    InvalidParams,
    /// The handler reported an error.
    Failed,
}

/// The method of a name, if the server knows the name.
pub open spec fn spec_parse_method(name: Seq<u8>) -> Option<Method> {
    if name == "initialize".spec_bytes() {
        Some(Method::Initialize)
    } else if name == "textDocument/completion".spec_bytes() {
        Some(Method::Completion)
    } else if name == "completionItem/resolve".spec_bytes() {
        Some(Method::CompletionResolve)
    } else if name == "textDocument/hover".spec_bytes() {
        Some(Method::Hover)
    } else if name == "textDocument/formatting".spec_bytes() {
        Some(Method::Formatting)
    } else if name == "textDocument/documentHighlight".spec_bytes() {
        Some(Method::DocumentHighlight)
    } else if name == "textDocument/documentSymbol".spec_bytes() {
        Some(Method::DocumentSymbol)
    } else if name == "workspace/symbol".spec_bytes() {
        Some(Method::WorkspaceSymbol)
    } else if name == "shutdown".spec_bytes() {
        Some(Method::Shutdown)
    } else if name == "exit".spec_bytes() {
        Some(Method::Exit)
    } else if name == "textDocument/didOpen".spec_bytes() {
        Some(Method::DidOpen)
    } else if name == "textDocument/didChange".spec_bytes() {
        Some(Method::DidChange)
    } else {
        None
    }
}

pub open spec fn spec_method_kind(method: Method) -> MethodKind {
    match method {
        Method::Exit => MethodKind::Notification,
        Method::DidOpen => MethodKind::Notification,
        Method::DidChange => MethodKind::Notification,
        _ => MethodKind::Request,
    }
}

/// Where a message goes. A message with an id is a call: it reaches a
/// request handler, and is answered with an error if the name has none. A
/// message without an id is a notification: it reaches a notification
/// handler, and is dropped if the name has none.
pub open spec fn spec_route(name: Seq<u8>, has_id: bool) -> Route {
    match spec_parse_method(name) {
        Some(method) => match (spec_method_kind(method), has_id) {
            (MethodKind::Request, true) => Route::Call(method),
            (MethodKind::Notification, false) => Route::Notify(method),
            (MethodKind::Notification, true) => Route::MethodNotFound,
            (MethodKind::Request, false) => Route::Ignore,
        },
        None => if has_id {
            Route::MethodNotFound
        } else {
            Route::Ignore
        },
    }
}

/// The method of a name, if the server knows the name.
pub fn parse_method(name: &[u8]) -> (method: Option<Method>)
    ensures
        method == spec_parse_method(name@),
{
    if bytes_equal(name, "initialize".as_bytes()) {
        Some(Method::Initialize)
    } else if bytes_equal(name, "textDocument/completion".as_bytes()) {
        Some(Method::Completion)
    } else if bytes_equal(name, "completionItem/resolve".as_bytes()) {
        Some(Method::CompletionResolve)
    } else if bytes_equal(name, "textDocument/hover".as_bytes()) {
        Some(Method::Hover)
    } else if bytes_equal(name, "textDocument/formatting".as_bytes()) {
        Some(Method::Formatting)
    } else if bytes_equal(name, "textDocument/documentHighlight".as_bytes()) {
        Some(Method::DocumentHighlight)
    } else if bytes_equal(name, "textDocument/documentSymbol".as_bytes()) {
        Some(Method::DocumentSymbol)
    } else if bytes_equal(name, "workspace/symbol".as_bytes()) {
        Some(Method::WorkspaceSymbol)
    } else if bytes_equal(name, "shutdown".as_bytes()) {
        Some(Method::Shutdown)
    } else if bytes_equal(name, "exit".as_bytes()) {
        Some(Method::Exit)
    } else if bytes_equal(name, "textDocument/didOpen".as_bytes()) {
        Some(Method::DidOpen)
    } else if bytes_equal(name, "textDocument/didChange".as_bytes()) {
        Some(Method::DidChange)
    } else {
        None
    }
}

pub fn method_kind(method: Method) -> (kind: MethodKind)
    ensures
        kind == spec_method_kind(method),
{
    match method {
        Method::Exit | Method::DidOpen | Method::DidChange => MethodKind::Notification,
        _ => MethodKind::Request,
    }
}

/// Where a message with the method `name` goes, with or without an id.
pub fn route(name: &[u8], has_id: bool) -> (route: Route)
    ensures
        route == spec_route(name@, has_id),
{
    match parse_method(name) {
        Some(method) => match method_kind(method) {
            MethodKind::Request => if has_id {
                Route::Call(method)
            } else {
                Route::Ignore
            },
            MethodKind::Notification => if has_id {
                Route::MethodNotFound
            } else {
                Route::Notify(method)
            },
        },
        None => if has_id {
            Route::MethodNotFound
        } else {
            Route::Ignore
        },
    }
}

/// The number that stands for an error on the wire.
pub fn code_number(code: ErrorCode) -> (number: i64)
    ensures
        number == match code {
            ErrorCode::ParseError => -32700i64,
            ErrorCode::InvalidRequest => -32600i64,
            ErrorCode::MethodNotFound => -32601i64,
            ErrorCode::InvalidParams => -32602i64,
            ErrorCode::InternalError => -32603i64,
        },
{
    match code {
        ErrorCode::ParseError => -32700,
        ErrorCode::InvalidRequest => -32600,
        ErrorCode::MethodNotFound => -32601,
        ErrorCode::InvalidParams => -32602,
        ErrorCode::InternalError => -32603,
    }
}

/// The error that the response to a request carries: none after success,
/// else the one that says what went wrong.
pub fn response_error(outcome: RequestOutcome) -> (code: Option<ErrorCode>)
    ensures
        code == match outcome {
            RequestOutcome::Success => None,
            RequestOutcome::InvalidParams => Some(ErrorCode::InvalidParams),
            RequestOutcome::Failed => Some(ErrorCode::InternalError),
        },
{
    match outcome {
        RequestOutcome::Success => None,
        RequestOutcome::InvalidParams => Some(ErrorCode::InvalidParams),
        RequestOutcome::Failed => Some(ErrorCode::InternalError),
    }
}

} // verus!
