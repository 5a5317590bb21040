//! The per-connection task: one connection's whole lifecycle — read,
//! frame, parse, dispatch, respond — as a suspended unit of work that any
//! worker can resume.
//!
//! The task is a state machine driven by events. Every socket operation is
//! a suspension point: the worker performs the read or write, reports what
//! happened as a [`TaskEvent`], and the step here decides the next state
//! and hands back the next [`TaskAction`]. The step itself never blocks
//! and never panics, and an error only ever closes this one connection.

use vstd::prelude::*;

verus! {

use vstd::pervasive::unreached;

use crate::framing::FramingError;
use crate::framing::FramingParser;
use crate::framing::spec_header_count;
use crate::framing::terminator_at;
use crate::request::OwnedRequest;
use crate::request::parse_ok;
use crate::request::spec_parse_error;

/// What happened on the connection since the task last ran.
#[derive(Clone, Copy, Debug, PartialEq, Eq, Structural)]
pub enum TaskEvent {
    /// One byte of the request arrived.
    ByteRead(u8),
    /// The peer closed the stream before the request was complete.
    StreamClosed,
    /// Reading from the connection failed.
    ReadFailed,
    /// The endpoint finished writing its response.
    WriteDone,
    /// Writing the response failed.
    WriteFailed,
}

/// Why a task ended without a completed response.
#[derive(Clone, Copy, Debug, PartialEq, Eq, Structural)]
pub enum TaskError {
    /// Framing the request failed.
    Framing(FramingError),
    /// The framed request did not parse.
    Parse(crate::request::ParseError),
    /// The dispatched endpoint failed while responding.
    Dispatch,
}

/// What the worker must do next on the task's connection.
pub enum TaskAction {
    /// Await one more byte of the request.
    ReadByte,
    /// Route the parsed request and let the endpoint write the response to
    /// the connection; the view is consumed by the dispatch boundary.
    Dispatch(OwnedRequest),
    /// Close the connection; the task is finished.
    Close,
}

/// Where the task stands between two events.
enum TaskState {
    /// Reading and framing the request.
    Framing(FramingParser),
    /// The request is parsed and handed to the dispatch boundary; its
    /// response is being written.
    Dispatching,
    /// The connection is closed, cleanly or with the recorded error.
    Closed(Option<TaskError>),
}

/// A suspended unit of work handling one connection end to end. It holds
/// no thread-bound state, so it can be resumed on any worker.
pub struct EndpointFuture {
    state: TaskState,
}

impl EndpointFuture {
    /// Still reading and framing the request.
    pub closed spec fn is_framing(self) -> bool {
        self.state is Framing
    }

    /// Waiting for the endpoint's response to be written.
    pub closed spec fn is_dispatching(self) -> bool {
        self.state is Dispatching
    }

    /// Finished, cleanly or not.
    pub closed spec fn is_closed(self) -> bool {
        self.state is Closed
    }

    /// The request bytes consumed so far, while framing.
    pub closed spec fn framing_bytes(self) -> Seq<u8> {
        match self.state {
            TaskState::Framing(p) => p.bytes(),
            _ => Seq::empty(),
        }
    }

    /// The recorded error of a closed task, `None` after a clean finish.
    pub closed spec fn spec_outcome(self) -> Option<TaskError> {
        match self.state {
            TaskState::Closed(e) => e,
            _ => None,
        }
    }

    /// While framing, the scanner is sound and short of the terminator.
    pub closed spec fn wf(self) -> bool {
        match self.state {
            TaskState::Framing(p) => p.wf() && !p.done(),
            _ => true,
        }
    }

    /// The events a worker may report in the task's present state: bytes
    /// and read failures while framing, write completion or failure while
    /// dispatching, nothing once closed.
    pub open spec fn accepts(self, event: TaskEvent) -> bool {
        match event {
            TaskEvent::ByteRead(_) => self.is_framing(),
            TaskEvent::StreamClosed => self.is_framing(),
            TaskEvent::ReadFailed => self.is_framing(),
            TaskEvent::WriteDone => self.is_dispatching(),
            TaskEvent::WriteFailed => self.is_dispatching(),
        }
    }

    /// The whole transition relation of one step: which state follows the
    /// event, and which action the worker is handed.
    pub open spec fn step_spec(
        pre: EndpointFuture,
        event: TaskEvent,
        post: EndpointFuture,
        action: TaskAction,
    ) -> bool {
        match event {
            TaskEvent::ByteRead(b) => {
                let bytes = pre.framing_bytes().push(b);
                if !terminator_at(bytes, bytes.len() as int) {
                    &&& post.is_framing()
                    &&& post.framing_bytes() == bytes
                    &&& action is ReadByte
                } else {
                    let n = spec_header_count(bytes);
                    if parse_ok(bytes, n) {
                        &&& post.is_dispatching()
                        &&& action matches TaskAction::Dispatch(req) && req.matches_parse(bytes, n)
                    } else {
                        &&& post.is_closed()
                        &&& post.spec_outcome() == Some(
                            TaskError::Parse(spec_parse_error(bytes)),
                        )
                        &&& action is Close
                    }
                }
            },
            TaskEvent::StreamClosed => {
                &&& post.is_closed()
                &&& post.spec_outcome() == Some(TaskError::Framing(FramingError::Truncated))
                &&& action is Close
            },
            TaskEvent::ReadFailed => {
                &&& post.is_closed()
                &&& post.spec_outcome() == Some(TaskError::Framing(FramingError::Io))
                &&& action is Close
            },
            TaskEvent::WriteDone => {
                &&& post.is_closed()
                &&& post.spec_outcome() is None
                &&& action is Close
            },
            TaskEvent::WriteFailed => {
                &&& post.is_closed()
                &&& post.spec_outcome() == Some(TaskError::Dispatch)
                &&& action is Close
            },
        }
    }

    /// A fresh task for one just-admitted connection, about to read the
    /// first byte of its request.
    pub fn new() -> (t: EndpointFuture)
        ensures
            t.wf(),
            t.is_framing(),
            t.framing_bytes() == Seq::<u8>::empty(),
    {
        EndpointFuture { state: TaskState::Framing(FramingParser::new()) }
    }

    /// Resume the task with what happened on the connection, and learn
    /// what to do next. One step never blocks: the worker is back in its
    /// loop as soon as the decision is made.
    pub fn poll(self, event: TaskEvent) -> (r: (EndpointFuture, TaskAction))
        requires
            self.wf(),
            self.accepts(event),
        ensures
            r.0.wf(),
            EndpointFuture::step_spec(self, event, r.0, r.1),
    {
        match self.state {
            TaskState::Framing(parser) => {
                match event {
                    TaskEvent::ByteRead(b) => {
                        let mut p = parser;
                        p.push_byte(b);
                        if p.is_done() {
                            let (buf, n) = p.finish();
                            match OwnedRequest::build(buf, n) {
                                Ok(req) => (
                                    EndpointFuture { state: TaskState::Dispatching },
                                    TaskAction::Dispatch(req),
                                ),
                                Err(e) => (
                                    EndpointFuture {
                                        state: TaskState::Closed(Some(TaskError::Parse(e))),
                                    },
                                    TaskAction::Close,
                                ),
                            }
                        } else {
                            (EndpointFuture { state: TaskState::Framing(p) }, TaskAction::ReadByte)
                        }
                    },
                    TaskEvent::StreamClosed => (
                        EndpointFuture {
                            state: TaskState::Closed(
                                Some(TaskError::Framing(FramingError::Truncated)),
                            ),
                        },
                        TaskAction::Close,
                    ),
                    TaskEvent::ReadFailed => (
                        EndpointFuture {
                            state: TaskState::Closed(Some(TaskError::Framing(FramingError::Io))),
                        },
                        TaskAction::Close,
                    ),
                    TaskEvent::WriteDone => unreached(),
                    TaskEvent::WriteFailed => unreached(),
                }
            },
            TaskState::Dispatching => {
                match event {
                    TaskEvent::WriteDone => (
                        EndpointFuture { state: TaskState::Closed(None) },
                        TaskAction::Close,
                    ),
                    TaskEvent::WriteFailed => (
                        EndpointFuture { state: TaskState::Closed(Some(TaskError::Dispatch)) },
                        TaskAction::Close,
                    ),
                    _ => unreached(),
                }
            },
            TaskState::Closed(_) => unreached(),
        }
    }

    /// Whether the task has finished, for the worker's bookkeeping.
    pub fn has_closed(&self) -> (b: bool)
        ensures
            b == self.is_closed(),
    {
        match self.state {
            TaskState::Closed(_) => true,
            _ => false,
        }
    }

    /// The recorded error of a closed task, to be logged at the task
    /// boundary; `None` while running or after a clean finish.
    pub fn failure(&self) -> (e: Option<TaskError>)
        ensures
            e == self.spec_outcome(),
    {
        match self.state {
            TaskState::Closed(e) => e,
            _ => None,
        }
    }
}

} // verus!
