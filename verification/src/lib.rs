//! Core of a minimal concurrent TCP server: incremental request framing,
//! a zero-copy parsed request view over buffers the view itself owns, an
//! admission queue handing accepted connections to workers, and the
//! per-connection task state machine that a cooperative executor drives.
//!
//! Everything that touches a socket stays outside this crate: the library
//! takes plain bytes and events and hands back values and actions.

pub mod framing;
pub mod queue;
pub mod request;
pub mod task;
