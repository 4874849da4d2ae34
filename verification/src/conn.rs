//! Connection control: membership of links, lifecycle, and routing of
//! arriving links to connections.

use vstd::prelude::*;
use crate::error::ErrorKind;
use crate::id::ConnId;
use crate::link::LinkState;
use crate::link::MAX_HEARTBEAT_MS;
use crate::tag::Direction;
use crate::tag::LinkTag;
use crate::tag::tag_eq;

verus! {

/// Negotiated connection parameters.
#[derive(Clone, Copy, Debug, PartialEq, Eq, Structural)]
pub struct Params {
    /// Protocol version, a single byte on the wire.
    pub version: u8,
    /// Largest payload body of one segment.
    pub max_seg: u16,
    /// Window: bytes either side may hold unacknowledged.
    pub window: u64,
    /// Heartbeat interval, milliseconds.
    pub heartbeat_ms: u64,
}

/// The parameters are usable: a nonzero segment size, a window that can
/// hold one segment, a sane heartbeat.
pub open spec fn params_wf(p: Params) -> bool {
    &&& 1 <= p.max_seg
    &&& p.max_seg <= p.window
    &&& 1 <= p.heartbeat_ms <= MAX_HEARTBEAT_MS
}

/// Lifecycle of a connection.
#[derive(Clone, Copy, Debug, PartialEq, Eq, Structural)]
pub enum ConnState {
    /// The first link is exchanging greetings.
    Handshaking,
    /// The channel carries payload.
    Established,
    /// A graceful close was requested; waiting for acks and the peer.
    Draining,
    /// Terminal; every member link and buffered byte is released.
    Closed,
}

/// One member link's record.
pub struct LinkEntry {
    /// The link's identity.
    pub tag: LinkTag,
    /// Who initiated the link.
    pub direction: Direction,
    /// The link's lifecycle state.
    pub state: LinkState,
}

/// The aggregated session: its identity, lifecycle, parameters, and the
/// set of member links, each tag present at most once.
pub struct Connection {
    id: ConnId,
    state: ConnState,
    params: Params,
    links: Vec<LinkEntry>,
}

impl Connection {
    /// The connection's identifier.
    pub closed spec fn conn_id(self) -> ConnId {
        self.id
    }

    /// The connection's lifecycle state.
    pub closed spec fn conn_state(self) -> ConnState {
        self.state
    }

    /// The negotiated parameters.
    pub closed spec fn parameters(self) -> Params {
        self.params
    }

    /// The member links, in admission order.
    pub closed spec fn members(self) -> Seq<LinkEntry> {
        self.links@
    }

    /// No two member links share a tag.
    pub open spec fn tags_unique(self) -> bool {
        forall|i: int, j: int|
            0 <= i < j < self.members().len() ==> !tag_eq(
                self.members()[i].tag,
                self.members()[j].tag,
            )
    }

    /// Internal consistency.
    pub open spec fn wf(self) -> bool {
        &&& self.tags_unique()
        &&& params_wf(self.parameters())
    }

    /// The connection's lifecycle state.
    pub fn current_state(&self) -> (r: ConnState)
        ensures
            r == self.conn_state(),
    {
        self.state
    }

    /// The connection's identifier.
    pub fn id_of(&self) -> (r: ConnId)
        ensures
            r == self.conn_id(),
    {
        self.id
    }

    /// How many member links the connection has, gone ones included.
    pub fn member_count(&self) -> (r: usize)
        ensures
            r == self.members().len(),
    {
        self.links.len()
    }

    /// The lifecycle state of the member link at `i`.
    pub fn member_state(&self, i: usize) -> (r: LinkState)
        requires
            i < self.members().len(),
        ensures
            r == self.members()[i as int].state,
    {
        self.links[i].state
    }

    /// A fresh connection, handshaking, with no member links yet.
    pub fn new(id: ConnId, params: Params) -> (r: Connection)
        requires
            params_wf(params),
        ensures
            r.wf(),
            r.conn_id() == id,
            r.conn_state() == ConnState::Handshaking,
            r.parameters() == params,
            r.members().len() == 0,
    {
        Connection { id, state: ConnState::Handshaking, params, links: Vec::new() }
    }

    /// The first link's greeting exchange succeeded: the channel is up.
    pub fn establish(&mut self)
        requires
            old(self).wf(),
        ensures
            final(self).wf(),
            final(self).conn_id() == old(self).conn_id(),
            final(self).parameters() == old(self).parameters(),
            final(self).members() == old(self).members(),
            final(self).conn_state() == (if old(self).conn_state() == ConnState::Handshaking {
                ConnState::Established
            } else {
                old(self).conn_state()
            }),
    {
        if self.state == ConnState::Handshaking {
            self.state = ConnState::Established;
        }
    }

    /// Admits a link whose greeting matched this connection: same
    /// identifier, same version, and a tag not yet present.  A version
    /// mismatch, a foreign identifier, or a duplicate tag is refused with
    /// the corresponding error and changes nothing; a closed connection
    /// admits nothing.
    pub fn add_link(
        &mut self,
        hello_id: ConnId,
        hello_version: u8,
        tag: LinkTag,
        direction: Direction,
    ) -> (r: Result<usize, ErrorKind>)
        requires
            old(self).wf(),
        ensures
            final(self).wf(),
            final(self).conn_id() == old(self).conn_id(),
            final(self).conn_state() == old(self).conn_state(),
            final(self).parameters() == old(self).parameters(),
            r is Err ==> final(self).members() == old(self).members(),
            old(self).conn_state() == ConnState::Closed ==> r == Err::<usize, ErrorKind>(
                ErrorKind::Aborted,
            ),
            old(self).conn_state() != ConnState::Closed ==> (if hello_version
                != old(self).parameters().version {
                r == Err::<usize, ErrorKind>(ErrorKind::VersionMismatch)
            } else if hello_id != old(self).conn_id() {
                r == Err::<usize, ErrorKind>(ErrorKind::UnknownConnection)
            } else if exists|i: int|
                0 <= i < old(self).members().len() && tag_eq(old(self).members()[i].tag, tag) {
                r == Err::<usize, ErrorKind>(ErrorKind::DuplicateLink)
            } else {
                &&& r == Ok::<usize, ErrorKind>(old(self).members().len() as usize)
                &&& final(self).members().len() == old(self).members().len() + 1
                &&& (forall|j: int|
                    0 <= j < old(self).members().len() ==> final(self).members()[j]
                        == old(self).members()[j])
                &&& tag_eq(final(self).members()[old(self).members().len() as int].tag, tag)
                &&& final(self).members()[old(self).members().len() as int].direction == direction
                &&& final(self).members()[old(self).members().len() as int].state
                    == LinkState::Active
            }),
    {
        if self.state == ConnState::Closed {
            return Err(ErrorKind::Aborted);
        }
        if hello_version != self.params.version {
            return Err(ErrorKind::VersionMismatch);
        }
        if !hello_id.eq_id(&self.id) {
            return Err(ErrorKind::UnknownConnection);
        }
        let mut i: usize = 0;
        while i < self.links.len()
            invariant
                i <= self.links@.len(),
                old(self).wf(),
                forall|j: int| 0 <= j < i ==> !tag_eq(self.links@[j].tag, tag),
                *self == *old(self),
                self.state != ConnState::Closed,
                hello_version == self.params.version,
                hello_id == self.id,
            decreases self.links@.len() - i,
        {
            if self.links[i].tag.eq_tag(&tag) {
                return Err(ErrorKind::DuplicateLink);
            }
            i = i + 1;
        }
        let idx = self.links.len();
        self.links.push(LinkEntry { tag, direction, state: LinkState::Active });
        Ok(idx)
    }

    /// Retires the member link with the given tag: its record turns `Gone`
    /// and its pending segments become eligible on surviving links.
    /// Answers whether the tag was a member.
    pub fn remove_link(&mut self, tag: &LinkTag) -> (removed: bool)
        requires
            old(self).wf(),
        ensures
            final(self).wf(),
            final(self).conn_id() == old(self).conn_id(),
            final(self).conn_state() == old(self).conn_state(),
            final(self).parameters() == old(self).parameters(),
            final(self).members().len() == old(self).members().len(),
            removed == exists|i: int|
                0 <= i < old(self).members().len() && tag_eq(old(self).members()[i].tag, *tag),
            forall|j: int|
                0 <= j < old(self).members().len() && !tag_eq(old(self).members()[j].tag, *tag)
                    ==> final(self).members()[j] == old(self).members()[j],
            forall|j: int|
                0 <= j < old(self).members().len() && tag_eq(old(self).members()[j].tag, *tag)
                    ==> final(self).members()[j].state == LinkState::Gone && tag_eq(
                    final(self).members()[j].tag,
                    old(self).members()[j].tag,
                ) && final(self).members()[j].direction == old(self).members()[j].direction,
    {
        let mut i: usize = 0;
        let mut removed: bool = false;
        while i < self.links.len()
            invariant
                i <= self.links@.len(),
                old(self).wf(),
                self.id == old(self).id,
                self.state == old(self).state,
                self.params == old(self).params,
                self.links@.len() == old(self).links@.len(),
                removed == exists|j: int| 0 <= j < i && tag_eq(old(self).links@[j].tag, *tag),
                forall|j: int|
                    i <= j < old(self).links@.len() ==> self.links@[j] == old(self).links@[j],
                forall|j: int|
                    0 <= j < i && !tag_eq(old(self).links@[j].tag, *tag) ==> self.links@[j]
                        == old(self).links@[j],
                forall|j: int|
                    0 <= j < i && tag_eq(old(self).links@[j].tag, *tag) ==> self.links@[j].state
                        == LinkState::Gone && tag_eq(self.links@[j].tag, old(self).links@[j].tag)
                        && self.links@[j].direction == old(self).links@[j].direction,
                forall|a: int, b: int|
                    0 <= a < b < self.links@.len() ==> !tag_eq(
                        self.links@[a].tag,
                        self.links@[b].tag,
                    ),
            decreases self.links@.len() - i,
        {
            if self.links[i].tag.eq_tag(tag) {
                let ghost before = self.links@;
                let entry_tag = self.links[i].tag.dup();
                let direction = self.links[i].direction;
                self.links.set(i, LinkEntry { tag: entry_tag, direction, state: LinkState::Gone });
                proof {
                    assert forall|a: int, b: int| 0 <= a < b < self.links@.len() implies !tag_eq(
                        self.links@[a].tag,
                        self.links@[b].tag,
                    ) by {
                        assert(!tag_eq(before[a].tag, before[b].tag));
                        assert(a != i ==> self.links@[a] == before[a]);
                        assert(b != i ==> self.links@[b] == before[b]);
                        assert(tag_eq(self.links@[i as int].tag, before[i as int].tag));
                    }
                }
                removed = true;
            }
            i = i + 1;
        }
        removed
    }

    /// Some member link still carries payload: per-link failures are not
    /// fatal to the connection while this holds.
    pub fn has_active_link(&self) -> (r: bool)
        ensures
            r == exists|i: int|
                0 <= i < self.members().len() && self.members()[i].state == LinkState::Active,
    {
        let mut i: usize = 0;
        while i < self.links.len()
            invariant
                i <= self.links@.len(),
                forall|j: int| 0 <= j < i ==> self.links@[j].state != LinkState::Active,
            decreases self.links@.len() - i,
        {
            if self.links[i].state == LinkState::Active {
                return true;
            }
            i = i + 1;
        }
        false
    }

    /// Requests close.  Graceful close starts draining: the caller sends a
    /// parting packet on every link and waits for acks and the peer's own
    /// parting before completion.  Abrupt close tears down at once: the
    /// connection is `Closed` and every member link is released.
    pub fn close(&mut self, graceful: bool)
        requires
            old(self).wf(),
        ensures
            final(self).wf(),
            final(self).conn_id() == old(self).conn_id(),
            final(self).parameters() == old(self).parameters(),
            graceful && old(self).conn_state() != ConnState::Closed ==> final(self).conn_state()
                == ConnState::Draining && final(self).members() == old(self).members(),
            graceful && old(self).conn_state() == ConnState::Closed ==> final(self).conn_state()
                == ConnState::Closed && final(self).members() == old(self).members(),
            !graceful ==> final(self).conn_state() == ConnState::Closed
                && final(self).members().len() == old(self).members().len() && forall|j: int|
                0 <= j < old(self).members().len() ==> final(self).members()[j].state
                    == LinkState::Gone && tag_eq(
                    final(self).members()[j].tag,
                    old(self).members()[j].tag,
                ) && final(self).members()[j].direction == old(self).members()[j].direction,
    {
        if graceful {
            if self.state != ConnState::Closed {
                self.state = ConnState::Draining;
            }
        } else {
            self.state = ConnState::Closed;
            let mut i: usize = 0;
            while i < self.links.len()
                invariant
                    i <= self.links@.len(),
                    old(self).wf(),
                    self.id == old(self).id,
                    self.state == ConnState::Closed,
                    self.params == old(self).params,
                    self.links@.len() == old(self).links@.len(),
                    forall|j: int|
                        i <= j < old(self).links@.len() ==> self.links@[j] == old(self).links@[j],
                    forall|j: int|
                        0 <= j < i ==> self.links@[j].state == LinkState::Gone && tag_eq(
                            self.links@[j].tag,
                            old(self).links@[j].tag,
                        ) && self.links@[j].direction == old(self).links@[j].direction,
                    forall|a: int, b: int|
                        0 <= a < b < self.links@.len() ==> !tag_eq(
                            self.links@[a].tag,
                            self.links@[b].tag,
                        ),
                decreases self.links@.len() - i,
            {
                let ghost before = self.links@;
                let entry_tag = self.links[i].tag.dup();
                let direction = self.links[i].direction;
                self.links.set(i, LinkEntry { tag: entry_tag, direction, state: LinkState::Gone });
                proof {
                    assert forall|a: int, b: int| 0 <= a < b < self.links@.len() implies !tag_eq(
                        self.links@[a].tag,
                        self.links@[b].tag,
                    ) by {
                        assert(!tag_eq(before[a].tag, before[b].tag));
                        assert(a != i ==> self.links@[a] == before[a]);
                        assert(b != i ==> self.links@[b] == before[b]);
                        assert(tag_eq(self.links@[i as int].tag, before[i as int].tag));
                    }
                }
                i = i + 1;
            }
        }
    }

    /// Completes a graceful close once everything sent is acknowledged and
    /// the peer's parting arrived: the connection turns `Closed` and every
    /// member link is released.  Answers whether the connection is closed.
    pub fn poll_close(&mut self, all_acked: bool, peer_goodbye: bool) -> (done: bool)
        requires
            old(self).wf(),
        ensures
            final(self).wf(),
            final(self).conn_id() == old(self).conn_id(),
            final(self).parameters() == old(self).parameters(),
            done == (final(self).conn_state() == ConnState::Closed),
            old(self).conn_state() == ConnState::Draining && all_acked && peer_goodbye
                ==> final(self).conn_state() == ConnState::Closed && forall|j: int|
                0 <= j < old(self).members().len() ==> final(self).members()[j].state
                    == LinkState::Gone,
            !(old(self).conn_state() == ConnState::Draining && all_acked && peer_goodbye)
                ==> final(self).conn_state() == old(self).conn_state() && final(self).members()
                == old(self).members(),
    {
        if self.state == ConnState::Draining && all_acked && peer_goodbye {
            self.close(false);
            return true;
        }
        self.state == ConnState::Closed
    }
}

/// What the acceptor does with an arriving link's greeting.
#[derive(Clone, Copy, Debug, PartialEq, Eq, Structural)]
pub enum RouteDecision {
    /// Refuse the link; no connection is created or touched.
    Refuse(ErrorKind),
    /// Add the link to the existing connection at this index.
    Attach(usize),
    /// Create a new connection for this identifier and yield the channel.
    NewConn,
}

/// Routes an arriving link by its greeting: a version other than ours
/// refuses the link with `VersionMismatch` and creates nothing; a known
/// identifier attaches the link to that connection; an unknown one asks
/// for a new connection.
pub fn route_hello(known: &Vec<ConnId>, hello_id: ConnId, local_version: u8, hello_version: u8) -> (
    r: RouteDecision)
    ensures
        hello_version != local_version ==> r == RouteDecision::Refuse(ErrorKind::VersionMismatch),
        hello_version == local_version ==> match r {
            RouteDecision::Attach(i) => 0 <= i < known@.len() && known@[i as int] == hello_id,
            RouteDecision::NewConn => forall|i: int| 0 <= i < known@.len() ==> known@[i] != hello_id,
            RouteDecision::Refuse(_) => false,
        },
{
    if hello_version != local_version {
        return RouteDecision::Refuse(ErrorKind::VersionMismatch);
    }
    let mut i: usize = 0;
    while i < known.len()
        invariant
            i <= known@.len(),
            hello_version == local_version,
            forall|j: int| 0 <= j < i ==> known@[j] != hello_id,
        decreases known@.len() - i,
    {
        if known[i].eq_id(&hello_id) {
            return RouteDecision::Attach(i);
        }
        i = i + 1;
    }
    RouteDecision::NewConn
}

} // verus!
