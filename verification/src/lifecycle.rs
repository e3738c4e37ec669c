//! The life of a session: the handshake, what the server announces, and
//! when the run loop ends.

use vstd::prelude::*;
use crate::error::ProtocolError;

verus! {

#[derive(Clone, Copy, Debug, PartialEq, Eq, Structural)]
pub enum LifecycleState {
    Uninitialized,
    Initialized,
    ShuttingDown,
    Exited,
}

#[derive(Clone, Copy, Debug, PartialEq, Eq, Structural)]
pub enum LifecycleEvent {
    /// The `initialize` request.
    Initialize,
    /// The `shutdown` request.
    Shutdown,
    /// The `exit` notification.
    Exit,
}

/// The state after an event. `exit` ends the session from every state,
/// and nothing leaves the end. `shutdown` stops the taking of work.
/// `initialize` counts once, before anything else.
pub open spec fn spec_next_state(state: LifecycleState, event: LifecycleEvent) -> LifecycleState {
    match (state, event) {
        (LifecycleState::Exited, _) => LifecycleState::Exited,
        (_, LifecycleEvent::Exit) => LifecycleState::Exited,
        (_, LifecycleEvent::Shutdown) => LifecycleState::ShuttingDown,
        (LifecycleState::Uninitialized, LifecycleEvent::Initialize) => LifecycleState::Initialized,
        (state, LifecycleEvent::Initialize) => state,
    }
}

/// Work is taken until `shutdown` or `exit` has come.
pub open spec fn spec_accepts_work(state: LifecycleState) -> bool {
    state == LifecycleState::Uninitialized || state == LifecycleState::Initialized
}

pub fn next_state(state: LifecycleState, event: LifecycleEvent) -> (next: LifecycleState)
    ensures
        next == spec_next_state(state, event),
{
    match (state, event) {
        (LifecycleState::Exited, _) => LifecycleState::Exited,
        (_, LifecycleEvent::Exit) => LifecycleState::Exited,
        (_, LifecycleEvent::Shutdown) => LifecycleState::ShuttingDown,
        (LifecycleState::Uninitialized, LifecycleEvent::Initialize) => LifecycleState::Initialized,
        (state, LifecycleEvent::Initialize) => state,
    }
}

pub fn accepts_work(state: LifecycleState) -> (accepts: bool)
    ensures
        accepts == spec_accepts_work(state),
{
    match state {
        LifecycleState::Uninitialized | LifecycleState::Initialized => true,
        _ => false,
    }
}

/// `exit` ends the session whatever went before it, and the session stays
/// ended whatever comes after.
pub proof fn law_exit_ends(state: LifecycleState, later: LifecycleEvent)
    ensures
        spec_next_state(state, LifecycleEvent::Exit) == LifecycleState::Exited,
        spec_next_state(spec_next_state(state, LifecycleEvent::Exit), later)
            == LifecycleState::Exited,
        !spec_accepts_work(spec_next_state(state, LifecycleEvent::Exit)),
{
}

/// What the run loop waits for, whichever comes first.
#[derive(Clone, Copy, Debug, PartialEq, Eq, Structural)]
pub enum RunEvent {
    /// The input stream ended.
    InputClosed,
    /// The input stream does not follow the wire format.
    InputFailed(ProtocolError),
    /// `exit` was received.
    ExitRequested,
    /// The output sink was closed or failed.
    SinkFailed,
}

/// Why the run loop ended in failure.
#[derive(Clone, Copy, Debug, PartialEq, Eq, Structural)]
pub enum RunError {
    Protocol(ProtocolError),
    Channel,
}

/// How the run loop ends on the first event that comes. It ends on every
/// one of them, and waits for no job that is still running.
pub fn run_result(event: RunEvent) -> (result: Result<(), RunError>)
    ensures
        result == match event {
            RunEvent::InputClosed => Ok::<(), RunError>(()),
            RunEvent::ExitRequested => Ok::<(), RunError>(()),
            RunEvent::InputFailed(error) => Err::<(), RunError>(RunError::Protocol(error)),
            RunEvent::SinkFailed => Err::<(), RunError>(RunError::Channel),
        },
{
    match event {
        RunEvent::InputClosed => Ok(()),
        RunEvent::ExitRequested => Ok(()),
        RunEvent::InputFailed(error) => Err(RunError::Protocol(error)),
        RunEvent::SinkFailed => Err(RunError::Channel),
    }
}

/// How documents are kept in step with the editor.
#[derive(Clone, Copy, Debug, PartialEq, Eq, Structural)]
pub enum TextDocumentSyncKind {
    Off,
    Full,
    Incremental,
}

#[derive(Clone, Debug, PartialEq, Eq)]
pub struct CompletionOptions {
    pub resolve_provider: Option<bool>,
    pub trigger_characters: Vec<Vec<u8>>,
}

/// What the server announces in answer to `initialize`.
#[derive(Clone, Debug, PartialEq, Eq)]
pub struct ServerCapabilities {
    pub text_document_sync: Option<TextDocumentSyncKind>,
    pub completion_provider: Option<CompletionOptions>,
    pub hover_provider: Option<bool>,
    pub document_formatting_provider: Option<bool>,
    pub document_highlight_provider: Option<bool>,
    pub document_symbol_provider: Option<bool>,
    pub workspace_symbol_provider: Option<bool>,
}

/// The capabilities of this server: incremental synchronisation,
/// completion with later resolution, triggered by a dot, hover,
/// formatting, highlights and both symbol searches.
pub fn server_capabilities() -> (capabilities: ServerCapabilities)
    ensures
        capabilities.text_document_sync == Some(TextDocumentSyncKind::Incremental),
        capabilities.completion_provider matches Some(options) && options.resolve_provider == Some(
            true,
        ) && options.trigger_characters@.len() == 1 && options.trigger_characters@[0]@ == seq![
            0x2eu8,
        ],
        capabilities.hover_provider == Some(true),
        capabilities.document_formatting_provider == Some(true),
        capabilities.document_highlight_provider == Some(true),
        capabilities.document_symbol_provider == Some(true),
        capabilities.workspace_symbol_provider == Some(true),
{
    let mut dot: Vec<u8> = Vec::new();
    dot.push(0x2e);
    let mut trigger_characters: Vec<Vec<u8>> = Vec::new();
    trigger_characters.push(dot);
    ServerCapabilities {
        text_document_sync: Some(TextDocumentSyncKind::Incremental),
        completion_provider: Some(
            CompletionOptions { resolve_provider: Some(true), trigger_characters },
        ),
        hover_provider: Some(true),
        document_formatting_provider: Some(true),
        document_highlight_provider: Some(true),
        document_symbol_provider: Some(true),
        workspace_symbol_provider: Some(true),
    }
}

} // verus!
