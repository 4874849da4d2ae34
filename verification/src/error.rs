//! Error kinds of the aggregation engine and per-link error reports.

use vstd::prelude::*;
use crate::id::ConnId;
use crate::tag::Direction;
use crate::tag::LinkTag;
use crate::tag::tag_eq;

verus! {

/// The kinds of failure the engine distinguishes.
#[derive(Clone, Copy, Debug, PartialEq, Eq, Structural)]
pub enum ErrorKind {
    /// A member transport read or write failed; fatal only if it was the last link.
    LinkIo,
    /// Malformed packet, sequence out of window, or mismatched overlap; fatal to the connection.
    ProtocolViolation,
    /// Handshake saw a different protocol version; the link is refused.
    VersionMismatch,
    /// A link referenced a connection identifier this endpoint does not know.
    UnknownConnection,
    /// A link's tag is already a member of the connection.
    DuplicateLink,
    /// The send buffer stayed full beyond its timeout; surfaced as backpressure.
    BufferExhausted,
    /// No link made progress within the grace period; fatal to the connection.
    Timeout,
    /// Local abrupt close or peer abort; fatal to the connection.
    Aborted,
}

impl ErrorKind {
    /// A short name of the kind, for operator-facing reports.
    pub fn name(&self) -> (r: &'static str)
    {
        match self {
            ErrorKind::LinkIo => "link io error",
            ErrorKind::ProtocolViolation => "protocol violation",
            ErrorKind::VersionMismatch => "protocol version mismatch",
            ErrorKind::UnknownConnection => "unknown connection",
            ErrorKind::DuplicateLink => "duplicate link",
            ErrorKind::BufferExhausted => "send buffer exhausted",
            ErrorKind::Timeout => "timeout",
            ErrorKind::Aborted => "aborted",
        }
    }
}

/// Report of a failure on one member link: which link, on which connection
/// (for outgoing links), and what went wrong.  Such reports are surfaced as
/// events and are fatal to the connection only once no other link survives.
#[derive(Clone, Debug)]
pub struct LinkError {
    /// Connection id, present for outgoing links only.
    pub id: Option<ConnId>,
    /// Tag of the link the failure occurred on.
    pub tag: LinkTag,
    /// What went wrong.
    pub kind: ErrorKind,
}

impl LinkError {
    /// Builds error information for an outgoing link.
    pub fn outgoing(id: ConnId, tag: &LinkTag, kind: ErrorKind) -> (r: LinkError)
        ensures
            r.id == Some(id),
            tag_eq(r.tag, *tag),
            r.kind == kind,
    {
        LinkError { id: Some(id), tag: tag.dup(), kind }
    }

    /// Builds error information for an incoming link.
    pub fn incoming(tag: &LinkTag, kind: ErrorKind) -> (r: LinkError)
        ensures
            r.id is None,
            tag_eq(r.tag, *tag),
            r.kind == kind,
    {
        LinkError { id: None, tag: tag.dup(), kind }
    }

    /// Direction of the link the error occurred on: outgoing links carry a
    /// connection id, incoming ones do not.
    pub fn direction(&self) -> (r: Direction)
        ensures
            r == (if self.id is Some {
                Direction::Outgoing
            } else {
                Direction::Incoming
            }),
    {
        if self.id.is_some() {
            Direction::Outgoing
        } else {
            Direction::Incoming
        }
    }
}

} // verus!
