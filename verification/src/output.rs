//! The way out: one ordered, bounded queue of messages that a single
//! writer drains, and the guard in front of log messages.

use vstd::prelude::*;
use crate::framing::{encode, spec_encode};

verus! {

/// How much is logged, from least to most.
#[derive(Clone, Copy, Debug, PartialEq, Eq, Structural)]
pub enum LogLevel {
    Error,
    Warn,
    Info,
    Debug,
    Trace,
}

/// The place of a level in the order of levels.
pub open spec fn spec_rank(level: LogLevel) -> int {
    match level {
        LogLevel::Error => 1,
        LogLevel::Warn => 2,
        LogLevel::Info => 3,
        LogLevel::Debug => 4,
        LogLevel::Trace => 5,
    }
}

fn rank(level: LogLevel) -> (place: u8)
    ensures
        place == spec_rank(level),
{
    match level {
        LogLevel::Error => 1,
        LogLevel::Warn => 2,
        LogLevel::Info => 3,
        LogLevel::Debug => 4,
        LogLevel::Trace => 5,
    }
}

/// Whether a message of `level` is logged when `configured` is the most
/// that is logged. Asked before the message is made.
pub fn log_enabled(configured: LogLevel, level: LogLevel) -> (enabled: bool)
    ensures
        enabled == (spec_rank(level) <= spec_rank(configured)),
{
    rank(level) <= rank(configured)
}

/// Whether log messages are sent to the editor: only where debug output
/// is configured.
pub fn log_message_enabled(configured: LogLevel) -> (enabled: bool)
    ensures
        enabled == (spec_rank(LogLevel::Debug) <= spec_rank(configured)),
{
    log_enabled(configured, LogLevel::Debug)
}

/// Why a message was not taken.
#[derive(Clone, Debug, PartialEq, Eq)]
pub enum SendError {
    /// The queue is full. The message comes back: the sender waits and
    /// sends it again, nothing is dropped.
    Full(Vec<u8>),
    /// The writer is gone.
    Closed(Vec<u8>),
}

/// The queue of messages on their way out.
pub struct OutputSink {
    queue: Vec<Vec<u8>>,
    capacity: usize,
    closed: bool,
}

/// The queue as a value.
pub struct OutputSinkView {
    pub queue: Seq<Seq<u8>>,
    pub capacity: nat,
    pub closed: bool,
}

impl View for OutputSink {
    type V = OutputSinkView;

    closed spec fn view(&self) -> OutputSinkView {
        OutputSinkView {
            queue: self.queue@.map_values(|message: Vec<u8>| message@),
            capacity: self.capacity as nat,
            closed: self.closed,
        }
    }
}

impl OutputSink {
    /// The queue holds no more than its capacity.
    pub open spec fn wf(&self) -> bool {
        self@.queue.len() <= self@.capacity
    }

    /// An empty, open queue for up to `capacity` messages.
    pub fn new(capacity: usize) -> (sink: OutputSink)
        ensures
            sink.wf(),
            sink@.queue == Seq::<Seq<u8>>::empty(),
            sink@.capacity == capacity,
            !sink@.closed,
    {
        let sink = OutputSink { queue: Vec::new(), capacity, closed: false };
        assert(sink@.queue =~= Seq::<Seq<u8>>::empty());
        sink
    }

    /// Number of messages that wait.
    pub fn len(&self) -> (count: usize)
        ensures
            count == self@.queue.len(),
    {
        self.queue.len()
    }

    /// Whether the queue has been closed.
    pub fn is_closed(&self) -> (closed: bool)
        ensures
            closed == self@.closed,
    {
        self.closed
    }

    /// Puts a message at the end of the queue, if the queue is open and
    /// has room.
    pub fn try_send(&mut self, message: Vec<u8>) -> (result: Result<(), SendError>)
        requires
            old(self).wf(),
        ensures
            final(self).wf(),
            final(self)@.capacity == old(self)@.capacity,
            final(self)@.closed == old(self)@.closed,
            if old(self)@.closed {
                final(self)@.queue == old(self)@.queue && result == Err::<(), SendError>(
                    SendError::Closed(message),
                )
            } else if old(self)@.queue.len() == old(self)@.capacity {
                final(self)@.queue == old(self)@.queue && result == Err::<(), SendError>(
                    SendError::Full(message),
                )
            } else {
                final(self)@.queue == old(self)@.queue.push(message@) && result is Ok
            },
    {
        if self.closed {
            Err(SendError::Closed(message))
        } else if self.queue.len() >= self.capacity {
            Err(SendError::Full(message))
        } else {
            self.queue.push(message);
            assert(self@.queue =~= old(self)@.queue.push(message@));
            Ok(())
        }
    }

    /// Takes the first message off the queue, framed for the wire.
    pub fn next_frame(&mut self) -> (frame: Option<Vec<u8>>)
        requires
            old(self).wf(),
        ensures
            final(self).wf(),
            final(self)@.capacity == old(self)@.capacity,
            final(self)@.closed == old(self)@.closed,
            match frame {
                Some(frame) => old(self)@.queue.len() > 0 && frame@ == spec_encode(
                    old(self)@.queue.first(),
                ) && final(self)@.queue == old(self)@.queue.drop_first(),
                None => old(self)@.queue.len() == 0 && final(self)@.queue == old(self)@.queue,
            },
    {
        if self.queue.len() == 0 {
            None
        } else {
            let message = self.queue.remove(0);
            assert(self@.queue =~= old(self)@.queue.drop_first());
            Some(encode(message.as_slice()))
        }
    }

    /// Closes the queue: nothing more is taken, what waits can still be
    /// written.
    pub fn close(&mut self)
        requires
            old(self).wf(),
        ensures
            final(self).wf(),
            final(self)@.closed,
            final(self)@.queue == old(self)@.queue,
            final(self)@.capacity == old(self)@.capacity,
    {
        self.closed = true;
    }
}

} // verus!
