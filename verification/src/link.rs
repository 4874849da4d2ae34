//! Per-link state machine: lifecycle, liveness, and round-trip estimation.

use vstd::prelude::*;
use crate::codec::PacketKind;
use crate::error::ErrorKind;

verus! {

/// Lifecycle of one member link.
#[derive(Clone, Copy, Debug, PartialEq, Eq, Structural)]
pub enum LinkState {
    /// The underlying transport is being established.
    Connecting,
    /// Exchanging link greetings, binding the link to a connection.
    Authenticating,
    /// Send and receive pumps run; the link carries payload.
    Active,
    /// No credit or local backpressure; heartbeats only.
    Blocked,
    /// An I/O error or protocol violation occurred; pending segments are
    /// re-eligible on surviving links.
    Failed,
    /// Terminal; the link is drained from the connection's membership.
    Gone,
}

/// What happened on a link.
#[derive(Clone, Copy, Debug, PartialEq, Eq, Structural)]
pub enum LinkEvent {
    /// The underlying transport came up.
    TransportUp,
    /// The greeting exchange completed and was accepted.
    HelloExchanged,
    /// Receiver credit ran out or local backpressure set in.
    CreditExhausted,
    /// Credit or local capacity returned.
    CreditRestored,
    /// The transport failed reading or writing.
    IoError,
    /// The peer broke the protocol on this link.
    ProtocolError,
    /// A failed link's pending segments were reassigned.
    Drained,
}

/// The link lifecycle transition relation.  Errors send any live link to
/// `Failed`; `Gone` is terminal; everything else moves one step forward.
pub open spec fn spec_link_step(s: LinkState, ev: LinkEvent) -> LinkState {
    if s == LinkState::Gone {
        LinkState::Gone
    } else {
        match ev {
            LinkEvent::IoError => LinkState::Failed,
            LinkEvent::ProtocolError => LinkState::Failed,
            LinkEvent::Drained => if s == LinkState::Failed {
                LinkState::Gone
            } else {
                s
            },
            LinkEvent::TransportUp => if s == LinkState::Connecting {
                LinkState::Authenticating
            } else {
                s
            },
            LinkEvent::HelloExchanged => if s == LinkState::Authenticating {
                LinkState::Active
            } else {
                s
            },
            LinkEvent::CreditExhausted => if s == LinkState::Active {
                LinkState::Blocked
            } else {
                s
            },
            LinkEvent::CreditRestored => if s == LinkState::Blocked {
                LinkState::Active
            } else {
                s
            },
        }
    }
}

/// Applies one lifecycle event.  `Gone` is terminal, and a failed link can
/// only be drained to `Gone`, never revived.
pub fn link_step(s: LinkState, ev: LinkEvent) -> (r: LinkState)
    ensures
        r == spec_link_step(s, ev),
        s == LinkState::Gone ==> r == LinkState::Gone,
        s == LinkState::Failed ==> (r == LinkState::Failed || r == LinkState::Gone),
{
    if s == LinkState::Gone {
        return LinkState::Gone;
    }
    match ev {
        LinkEvent::IoError => LinkState::Failed,
        LinkEvent::ProtocolError => LinkState::Failed,
        LinkEvent::Drained => if s == LinkState::Failed {
            LinkState::Gone
        } else {
            s
        },
        LinkEvent::TransportUp => if s == LinkState::Connecting {
            LinkState::Authenticating
        } else {
            s
        },
        LinkEvent::HelloExchanged => if s == LinkState::Authenticating {
            LinkState::Active
        } else {
            s
        },
        LinkEvent::CreditExhausted => if s == LinkState::Active {
            LinkState::Blocked
        } else {
            s
        },
        LinkEvent::CreditRestored => if s == LinkState::Blocked {
            LinkState::Active
        } else {
            s
        },
    }
}

/// What the liveness monitor asks of a link at one instant.
#[derive(Clone, Copy, Debug, PartialEq, Eq, Structural)]
pub enum LivenessAction {
    /// Traffic is recent enough; nothing to do.
    AllQuiet,
    /// Nothing was sent for a heartbeat interval; emit a heartbeat.
    SendHeartbeat,
    /// Nothing arrived for three heartbeat intervals; fail the link.
    FailLink,
}

/// Largest accepted heartbeat interval, milliseconds.
pub const MAX_HEARTBEAT_MS: u64 = 0x1000_0000_0000_0000;

/// Decides liveness for one link: fail after three silent heartbeat
/// intervals on the inbound side, heartbeat after one idle interval on the
/// outbound side, otherwise leave the link alone.
pub fn liveness_action(now_ms: u64, last_recv_ms: u64, last_send_ms: u64, h_ms: u64) -> (r:
    LivenessAction)
    requires
        last_recv_ms <= now_ms,
        last_send_ms <= now_ms,
        1 <= h_ms <= MAX_HEARTBEAT_MS,
    ensures
        (r == LivenessAction::FailLink) <==> (now_ms - last_recv_ms >= 3 * h_ms),
        (r == LivenessAction::SendHeartbeat) <==> (now_ms - last_recv_ms < 3 * h_ms && now_ms
            - last_send_ms >= h_ms),
        (r == LivenessAction::AllQuiet) <==> (now_ms - last_recv_ms < 3 * h_ms && now_ms
            - last_send_ms < h_ms),
{
    if now_ms - last_recv_ms >= 3 * h_ms {
        LivenessAction::FailLink
    } else if now_ms - last_send_ms >= h_ms {
        LivenessAction::SendHeartbeat
    } else {
        LivenessAction::AllQuiet
    }
}

/// Largest round-trip sample the estimator takes, microseconds.
pub const MAX_RTT_US: u64 = 0x1000_0000_0000_0000;

/// Smooths a round-trip sample into the running estimate with weight 7/8 on
/// the old value.
pub fn smooth_rtt(srtt_us: u64, sample_us: u64) -> (r: u64)
    requires
        srtt_us <= MAX_RTT_US,
        sample_us <= MAX_RTT_US,
    ensures
        r == (7 * srtt_us + sample_us) / 8,
        r <= MAX_RTT_US,
{
    (7 * srtt_us + sample_us) / 8
}

/// Extends or resets the streak of consecutive slow round-trip samples: a
/// sample above ten times the connection median is slow.  At `DEMOTE_AFTER`
/// consecutive slow samples the link is demoted in scheduling weight.
pub fn update_slow_streak(streak: u32, rtt_us: u64, median_us: u64) -> (r: u32)
    requires
        median_us <= MAX_RTT_US,
    ensures
        rtt_us > 10 * median_us ==> r == (if streak == u32::MAX {
            streak as int
        } else {
            streak + 1
        }),
        rtt_us <= 10 * median_us ==> r == 0,
{
    if rtt_us > 10 * median_us {
        if streak == u32::MAX {
            streak
        } else {
            streak + 1
        }
    } else {
        0
    }
}

/// Consecutive slow samples after which a link is demoted in scheduling.
pub const DEMOTE_AFTER: u32 = 8;

/// What the receive pump does with one decoded inbound packet on a link
/// that finished its greeting exchange.
#[derive(Clone, Copy, Debug, PartialEq, Eq, Structural)]
pub enum PumpAction {
    /// Hand the payload at its sequence position to the reassembler.
    DeliverData,
    /// Hand the cumulative ack, and any selective ranges, to the send buffer.
    ApplyAck,
    /// Record the ranges as retransmit-preference hints.
    ApplyNack,
    /// Refresh the link's liveness clock; nothing else.
    RefreshLiveness,
    /// The peer retires this one link.
    RetireLink,
    /// The peer closes the whole connection after the announced sequence.
    PeerClosing,
    /// Hand the body to the application's control stream.
    UserControl,
    /// The packet may not appear after the greeting: fail the link.
    Reject(ErrorKind),
}

/// Where the receive pump routes each packet kind once the link is bound:
/// payload to the reassembler, acks to the send buffer, heartbeats to the
/// liveness monitor; a stray greeting is a protocol violation.
pub open spec fn spec_classify_inbound(kind: PacketKind) -> PumpAction {
    match kind {
        PacketKind::Hello => PumpAction::Reject(ErrorKind::ProtocolViolation),
        PacketKind::HelloAck => PumpAction::Reject(ErrorKind::ProtocolViolation),
        PacketKind::Data => PumpAction::DeliverData,
        PacketKind::Ack => PumpAction::ApplyAck,
        PacketKind::Nack => PumpAction::ApplyNack,
        PacketKind::Heartbeat => PumpAction::RefreshLiveness,
        PacketKind::LinkGoodbye => PumpAction::RetireLink,
        PacketKind::Goodbye => PumpAction::PeerClosing,
        PacketKind::UserData => PumpAction::UserControl,
    }
}

/// Routes one decoded inbound packet.
pub fn classify_inbound(kind: PacketKind) -> (r: PumpAction)
    ensures
        r == spec_classify_inbound(kind),
{
    match kind {
        PacketKind::Hello => PumpAction::Reject(ErrorKind::ProtocolViolation),
        PacketKind::HelloAck => PumpAction::Reject(ErrorKind::ProtocolViolation),
        PacketKind::Data => PumpAction::DeliverData,
        PacketKind::Ack => PumpAction::ApplyAck,
        PacketKind::Nack => PumpAction::ApplyNack,
        PacketKind::Heartbeat => PumpAction::RefreshLiveness,
        PacketKind::LinkGoodbye => PumpAction::RetireLink,
        PacketKind::Goodbye => PumpAction::PeerClosing,
        PacketKind::UserData => PumpAction::UserControl,
    }
}

} // verus!
