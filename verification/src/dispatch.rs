//! Dispatcher: picks the member link that carries each outbound segment.
//!
//! Only `Active` links with positive effective capacity are considered; of
//! those, the one with the least estimated completion time wins, ties broken
//! by the lower link tag.  While any active link has capacity, some link is
//! always picked: no segment is starved.  A retransmit prefers a link other
//! than the one the segment rode most recently.

use vstd::prelude::*;
use crate::link::LinkState;
use crate::tag::LinkTag;
use crate::tag::TagOrder;
use crate::tag::lemma_tag_cmp_flip;
use crate::tag::lemma_tag_le_refl;
use crate::tag::lemma_tag_le_trans;
use crate::tag::tag_eq;
use crate::tag::tag_le;

verus! {

/// Largest segment the dispatcher schedules.
pub const MAX_SEGMENT: u64 = 0x1_0000;

/// Bound on per-link counters (credit, congestion window, bytes in flight,
/// round-trip time): keeps cost arithmetic inside a machine word.
pub const MAX_TRACKED: u64 = 0x1_0000_0000;

/// A consistent snapshot of one link's scheduling inputs.
pub struct LinkSnapshot {
    /// The link's identity, used for deterministic tie-breaking.
    pub tag: LinkTag,
    /// The link's lifecycle state; only `Active` links carry payload.
    pub state: LinkState,
    /// Bytes the peer is still willing to receive on this link.
    pub peer_credit: u64,
    /// Congestion window: bytes this endpoint lets itself keep in flight.
    pub cwnd: u64,
    /// Bytes currently in flight on this link.
    pub in_flight: u64,
    /// Smoothed round-trip time, microseconds.
    pub rtt_us: u64,
    /// Estimated bandwidth, bytes per second; at least one.
    pub bw_est: u64,
}

/// The snapshot's counters are inside the tracked bounds.
pub open spec fn snap_wf(l: LinkSnapshot) -> bool {
    &&& 1 <= l.bw_est
    &&& l.peer_credit <= MAX_TRACKED
    &&& l.cwnd <= MAX_TRACKED
    &&& l.in_flight <= MAX_TRACKED
    &&& l.rtt_us <= MAX_TRACKED
}

/// Effective capacity: what the peer's credit and the congestion window
/// jointly still allow on this link; zero off the `Active` state.
pub open spec fn spec_eff_cap(l: LinkSnapshot) -> int {
    if l.state == LinkState::Active && l.in_flight < l.cwnd {
        if l.peer_credit <= l.cwnd - l.in_flight {
            l.peer_credit as int
        } else {
            l.cwnd - l.in_flight
        }
    } else {
        0
    }
}

/// A link the dispatcher may give a segment to.
pub open spec fn eligible(l: LinkSnapshot) -> bool {
    spec_eff_cap(l) > 0
}

/// Estimated completion time of a segment on this link, microseconds:
/// queueing plus transmission, plus half a round trip.
pub open spec fn spec_cost(l: LinkSnapshot, seg_len: u64) -> int {
    (l.in_flight + seg_len) * 1000000 / (l.bw_est as int) + (l.rtt_us as int) / 2
}

impl LinkSnapshot {
    /// Effective capacity of this link.
    pub fn effective_capacity(&self) -> (r: u64)
        requires
            snap_wf(*self),
        ensures
            r as int == spec_eff_cap(*self),
    {
        if self.state == LinkState::Active && self.in_flight < self.cwnd {
            let room: u64 = self.cwnd - self.in_flight;
            if self.peer_credit <= room {
                self.peer_credit
            } else {
                room
            }
        } else {
            0
        }
    }

    /// Estimated completion time of a segment on this link.
    pub fn cost(&self, seg_len: u64) -> (r: u64)
        requires
            snap_wf(*self),
            seg_len <= MAX_SEGMENT,
        ensures
            r as int == spec_cost(*self, seg_len),
    {
        (self.in_flight + seg_len) * 1000000 / self.bw_est + self.rtt_us / 2
    }
}

/// Picks the link to carry the next segment: the eligible link of least
/// estimated completion time, ties broken by the lower tag.  While any link
/// is eligible, one is picked: no segment waits on an idle capable link.
pub fn pick_link(links: &Vec<LinkSnapshot>, seg_len: u64) -> (r: Option<usize>)
    requires
        forall|i: int| 0 <= i < links@.len() ==> snap_wf(links@[i]),
        seg_len <= MAX_SEGMENT,
    ensures
        r is None ==> forall|i: int| 0 <= i < links@.len() ==> !eligible(links@[i]),
        (exists|i: int| 0 <= i < links@.len() && eligible(links@[i])) ==> r is Some,
        r matches Some(i) ==> 0 <= i < links@.len() && eligible(links@[i as int]) && forall|
            j: int,
        |
            0 <= j < links@.len() && eligible(links@[j]) ==> (spec_cost(links@[i as int], seg_len)
                < spec_cost(links@[j], seg_len) || (spec_cost(links@[i as int], seg_len)
                == spec_cost(links@[j], seg_len) && tag_le(links@[i as int].tag, links@[j].tag))),
{
    let mut best: Option<usize> = None;
    let mut best_cost: u64 = 0;
    let mut idx: usize = 0;
    while idx < links.len()
        invariant
            idx <= links@.len(),
            forall|i: int| 0 <= i < links@.len() ==> snap_wf(links@[i]),
            seg_len <= MAX_SEGMENT,
            best is None ==> forall|j: int| 0 <= j < idx ==> !eligible(links@[j]),
            best matches Some(b) ==> 0 <= b < idx && eligible(links@[b as int]) && best_cost as int
                == spec_cost(links@[b as int], seg_len) && forall|j: int|
                0 <= j < idx && eligible(links@[j]) ==> (spec_cost(links@[b as int], seg_len)
                    < spec_cost(links@[j], seg_len) || (spec_cost(links@[b as int], seg_len)
                    == spec_cost(links@[j], seg_len) && tag_le(links@[b as int].tag, links@[
                    j].tag))),
        decreases links@.len() - idx,
    {
        let cap: u64 = links[idx].effective_capacity();
        if cap > 0 {
            let c: u64 = links[idx].cost(seg_len);
            match best {
                None => {
                    proof {
                        lemma_tag_le_refl(links@[idx as int].tag);
                    }
                    best = Some(idx);
                    best_cost = c;
                },
                Some(b) => {
                    let better: bool = if c < best_cost {
                        true
                    } else if c == best_cost {
                        match links[idx].tag.cmp_tag(&links[b].tag) {
                            TagOrder::Less => true,
                            _ => false,
                        }
                    } else {
                        false
                    };
                    if better {
                        proof {
                            lemma_tag_le_refl(links@[idx as int].tag);
                            assert forall|j: int|
                                0 <= j < idx && eligible(links@[j]) implies (spec_cost(
                                links@[idx as int],
                                seg_len,
                            ) < spec_cost(links@[j], seg_len) || (spec_cost(
                                links@[idx as int],
                                seg_len,
                            ) == spec_cost(links@[j], seg_len) && tag_le(
                                links@[idx as int].tag,
                                links@[j].tag,
                            ))) by {
                                if spec_cost(links@[idx as int], seg_len) == spec_cost(
                                    links@[j],
                                    seg_len,
                                ) {
                                    lemma_tag_le_trans(
                                        links@[idx as int].tag,
                                        links@[b as int].tag,
                                        links@[j].tag,
                                    );
                                }
                            }
                        }
                        best = Some(idx);
                        best_cost = c;
                    } else {
                        proof {
                            lemma_tag_cmp_flip(links@[idx as int].tag, links@[b as int].tag);
                        }
                    }
                },
            }
        }
        idx = idx + 1;
    }
    best
}

/// Picks the link for a retransmit: among the eligible links, prefer one
/// whose tag differs from the link the segment rode most recently; only
/// when no other link has capacity does the same link carry it again.
pub fn pick_retransmit(links: &Vec<LinkSnapshot>, seg_len: u64, last: &LinkTag) -> (r: Option<
    usize,
>)
    requires
        forall|i: int| 0 <= i < links@.len() ==> snap_wf(links@[i]),
        seg_len <= MAX_SEGMENT,
    ensures
        r is None ==> forall|i: int| 0 <= i < links@.len() ==> !eligible(links@[i]),
        (exists|i: int| 0 <= i < links@.len() && eligible(links@[i])) ==> r is Some,
        r matches Some(i) ==> 0 <= i < links@.len() && eligible(links@[i as int]),
        (exists|j: int|
            0 <= j < links@.len() && eligible(links@[j]) && !tag_eq(links@[j].tag, *last))
            ==> (r matches Some(i) && !tag_eq(links@[i as int].tag, *last)),
{
    let mut other: Option<usize> = None;
    let mut fallback: Option<usize> = None;
    let mut idx: usize = 0;
    while idx < links.len()
        invariant
            idx <= links@.len(),
            forall|i: int| 0 <= i < links@.len() ==> snap_wf(links@[i]),
            other is None ==> forall|j: int|
                0 <= j < idx ==> !(eligible(links@[j]) && !tag_eq(links@[j].tag, *last)),
            other matches Some(o) ==> 0 <= o < idx && eligible(links@[o as int]) && !tag_eq(
                links@[o as int].tag,
                *last,
            ),
            fallback is None ==> forall|j: int| 0 <= j < idx ==> !eligible(links@[j]),
            fallback matches Some(f) ==> 0 <= f < idx && eligible(links@[f as int]),
        decreases links@.len() - idx,
    {
        let cap: u64 = links[idx].effective_capacity();
        if cap > 0 {
            if fallback.is_none() {
                fallback = Some(idx);
            }
            if other.is_none() && !links[idx].tag.eq_tag(last) {
                other = Some(idx);
            }
        }
        idx = idx + 1;
    }
    match other {
        Some(o) => Some(o),
        None => fallback,
    }
}

/// Whether to speculatively re-send the oldest unacked segment on an idle
/// link: only when the unacked window has been in flight for more than one
/// and a half times the connection's median round trip.  The reassembler's
/// sequence-keyed deduplication keeps the duplicate harmless.
pub fn should_speculate(link_idle: bool, unacked_age_us: u64, median_rtt_us: u64) -> (r: bool)
    requires
        unacked_age_us <= MAX_TRACKED,
        median_rtt_us <= MAX_TRACKED,
    ensures
        r == (link_idle && 2 * unacked_age_us > 3 * median_rtt_us),
{
    link_idle && 2 * unacked_age_us > 3 * median_rtt_us
}

/// Additive increase on acknowledgement: the congestion window grows by one
/// segment, never past the connection window.
pub fn cwnd_on_ack(cwnd: u64, mss: u64, window: u64) -> (r: u64)
    requires
        cwnd <= MAX_TRACKED,
        mss <= MAX_SEGMENT,
        window <= MAX_TRACKED,
    ensures
        r == (if cwnd + mss <= window {
            cwnd + mss
        } else {
            window as int
        }),
{
    if cwnd + mss <= window {
        cwnd + mss
    } else {
        window
    }
}

/// Multiplicative decrease on timeout: the congestion window halves, never
/// below one segment.
pub fn cwnd_on_timeout(cwnd: u64, mss: u64) -> (r: u64)
    requires
        1 <= mss <= MAX_SEGMENT,
    ensures
        r == (if cwnd / 2 >= mss {
            (cwnd / 2) as int
        } else {
            mss as int
        }),
{
    if cwnd / 2 >= mss {
        cwnd / 2
    } else {
        mss
    }
}

} // verus!
