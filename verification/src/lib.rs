//! Multi-path link aggregation engine.
//!
//! Bonds several independent reliable byte-stream links between two endpoints
//! into a single ordered, reliable, bidirectional byte stream.  This crate
//! holds the protocol logic: the wire codec, the sequenced send buffer, the
//! receive reassembler, the dispatcher that picks a link for each segment,
//! the per-link state machine, and connection control.  Transport I/O is left
//! to the caller, which feeds bytes and events in and carries packets out.

pub mod buffer;
pub mod codec;
pub mod conn;
pub mod dispatch;
pub mod error;
pub mod hello;
pub mod id;
pub mod link;
pub mod reassembler;
pub mod tag;
