//! Receive reassembler: sequence-indexed reorder buffer delivering a
//! strictly in-order byte stream.
//!
//! The reassembler accepts `(seq, payload)` segments in any order, possibly
//! duplicated or overlapping, within a window above `delivered_upto`.  It
//! never delivers a byte out of order and never delivers a position twice:
//! duplicates are dropped, overlaps must agree byte for byte, and anything
//! outside the window is a protocol violation.

use vstd::prelude::*;
use crate::error::ErrorKind;

verus! {

/// Largest receive window the reassembler accepts.
pub const MAX_WINDOW: u64 = 0x4000_0000;

/// The receiver half of the channel's byte stream.
pub struct Reassembler {
    delivered_upto: u64,
    window: u64,
    pending: Vec<Option<u8>>,
    queue: Vec<u8>,
    hist: Ghost<Seq<u8>>,
}

impl Reassembler {
    /// How many bytes of the stream have been delivered in order.
    pub closed spec fn delivered(self) -> u64 {
        self.delivered_upto
    }

    /// The configured receive window.
    pub closed spec fn win(self) -> u64 {
        self.window
    }

    /// Every byte delivered so far, in stream order.
    pub closed spec fn history(self) -> Seq<u8> {
        self.hist@
    }

    /// Delivered bytes the application has not read yet.
    pub closed spec fn queued(self) -> Seq<u8> {
        self.queue@
    }

    /// The reassembler knows the byte at stream position `p`: either it was
    /// delivered already, or it sits in the out-of-order window.
    pub closed spec fn holds(self, p: int) -> bool {
        (0 <= p < self.delivered_upto as int) || (self.delivered_upto as int <= p
            < self.delivered_upto as int + self.pending@.len() && self.pending@[p
            - self.delivered_upto as int] is Some)
    }

    /// The byte the reassembler knows at position `p`.
    pub closed spec fn byte_at(self, p: int) -> u8
        recommends
            self.holds(p),
    {
        if p < self.delivered_upto as int {
            self.hist@[p]
        } else {
            self.pending@[p - self.delivered_upto as int].unwrap()
        }
    }

    /// Everything the reassembler knows agrees with the stream `s`: the
    /// anchor of deduplication — however often and over whichever links a
    /// position arrives, only `s`'s byte for it is ever stored or delivered.
    pub open spec fn consistent_with(self, s: Seq<u8>) -> bool {
        forall|p: int| self.holds(p) ==> p < s.len() && self.byte_at(p) == s[p]
    }

    /// Internal consistency: the queue is the undelivered suffix of the
    /// history, the window bounds the reorder buffer, and the frontier is
    /// tight (the byte at `delivered_upto` is not yet known).
    pub closed spec fn wf(self) -> bool {
        &&& self.hist@.len() == self.delivered_upto
        &&& self.pending@.len() <= self.window
        &&& self.delivered_upto + self.pending@.len() <= u64::MAX
        &&& 1 <= self.window <= MAX_WINDOW
        &&& self.queue@.len() <= self.hist@.len()
        &&& self.queue@ == self.hist@.skip(self.hist@.len() - self.queue@.len())
        &&& (self.pending@.len() > 0 ==> self.pending@[0] is None)
    }

    /// Two reassemblers that cannot be told apart: same frontier, same
    /// history and queue, same known positions and bytes.
    pub open spec fn obs_eq(self, other: Reassembler) -> bool {
        &&& self.delivered() == other.delivered()
        &&& self.win() == other.win()
        &&& self.history() == other.history()
        &&& self.queued() == other.queued()
        &&& (forall|p: int| self.holds(p) <==> other.holds(p))
        &&& (forall|p: int| self.holds(p) ==> self.byte_at(p) == other.byte_at(p))
    }

    /// How many bytes of the stream have been delivered in order.
    pub fn delivered_upto(&self) -> (r: u64)
        ensures
            r == self.delivered(),
    {
        self.delivered_upto
    }

    /// How many delivered bytes wait unread.
    pub fn queued_len(&self) -> (r: usize)
        ensures
            r == self.queued().len(),
    {
        self.queue.len()
    }

    /// An empty reassembler with the given receive window.
    pub fn new(window: u64) -> (r: Reassembler)
        requires
            1 <= window <= MAX_WINDOW,
        ensures
            r.wf(),
            r.delivered() == 0,
            r.win() == window,
            r.history() == Seq::<u8>::empty(),
            r.queued() == Seq::<u8>::empty(),
            forall|p: int| !r.holds(p),
            forall|s: Seq<u8>| r.consistent_with(s),
    {
        let r = Reassembler {
            delivered_upto: 0,
            window,
            pending: Vec::new(),
            queue: Vec::new(),
            hist: Ghost(Seq::empty()),
        };
        proof {
            assert(r.queue@ =~= r.hist@.skip(0));
        }
        r
    }

    /// Hands the deliverable bytes to the application, in order, each
    /// exactly once.
    pub fn take(&mut self) -> (r: Vec<u8>)
        requires
            old(self).wf(),
        ensures
            final(self).wf(),
            r@ == old(self).queued(),
            final(self).queued().len() == 0,
            final(self).delivered() == old(self).delivered(),
            final(self).win() == old(self).win(),
            final(self).history() == old(self).history(),
            forall|p: int| final(self).holds(p) <==> old(self).holds(p),
            forall|p: int|
                final(self).holds(p) ==> final(self).byte_at(p) == old(self).byte_at(p),
    {
        let mut out: Vec<u8> = Vec::new();
        let mut i: usize = 0;
        while i < self.queue.len()
            invariant
                i <= self.queue.len(),
                out@ == self.queue@.take(i as int),
                self == old(self),
            decreases self.queue.len() - i,
        {
            out.push(self.queue[i]);
            proof {
                assert(out@ =~= self.queue@.take(i as int + 1));
            }
            i = i + 1;
        }
        self.queue = Vec::new();
        proof {
            assert(out@ =~= old(self).queue@);
            assert(self.queue@ =~= self.hist@.skip(self.hist@.len() - 0));
        }
        out
    }

    /// Accepts one segment.  Already-delivered bytes are dropped, bytes
    /// beyond the window are a protocol violation, overlaps must match what
    /// is already held, and once the byte at the frontier is known the
    /// frontier advances and the bytes become deliverable.  `delivered`
    /// never moves backward and no position is ever delivered twice.
    pub fn accept(&mut self, seq: u64, payload: &Vec<u8>) -> (r: Result<(), ErrorKind>)
        requires
            old(self).wf(),
            seq + payload@.len() <= u64::MAX,
        ensures
            final(self).wf(),
            final(self).win() == old(self).win(),
            final(self).delivered() >= old(self).delivered(),
            final(self).history().take(old(self).delivered() as int) == old(self).history(),
            final(self).queued() == old(self).queued() + final(self).history().skip(
                old(self).delivered() as int,
            ),
            !final(self).holds(final(self).delivered() as int),
            ({
                let d0 = old(self).delivered() as int;
                let w = old(self).win() as int;
                let n = payload@.len() as int;
                let end = seq + n;
                if n == 0 || end <= d0 {
                    r == Ok::<(), ErrorKind>(()) && final(self).obs_eq(*old(self))
                } else if seq > d0 + w || end > d0 + w {
                    r == Err::<(), ErrorKind>(ErrorKind::ProtocolViolation)
                        && final(self).obs_eq(*old(self))
                } else if exists|i: int|
                    0 <= i < n && seq + i >= d0 && old(self).holds(seq + i) && old(self).byte_at(
                        seq + i,
                    ) != payload@[i] {
                    r == Err::<(), ErrorKind>(ErrorKind::ProtocolViolation)
                        && final(self).obs_eq(*old(self))
                } else {
                    r == Ok::<(), ErrorKind>(()) && (forall|p: int|
                        final(self).holds(p) <==> (old(self).holds(p) || seq <= p < end)) && (
                    forall|p: int|
                        old(self).holds(p) ==> final(self).byte_at(p) == old(self).byte_at(p))
                        && (forall|i: int|
                        0 <= i < n && seq + i >= d0 ==> final(self).byte_at(seq + i)
                            == payload@[i])
                }
            }),
            forall|s: Seq<u8>|
                (old(self).consistent_with(s) && seq + payload@.len() <= s.len() && payload@
                    == s.subrange(seq as int, seq + payload@.len()))
                    ==> final(self).consistent_with(s),
    {
        let ghost pre = *old(self);
        if payload.len() == 0 {
            proof {
                lemma_frontier_facts(*self);
            }
            return Ok(());
        }
        let len_u: usize = payload.len();
        let end: u64 = seq + len_u as u64;
        let d0: u64 = self.delivered_upto;
        if end <= d0 {
            proof {
                lemma_frontier_facts(*self);
            }
            return Ok(());
        }
        if seq > d0 && seq - d0 > self.window {
            proof {
                lemma_frontier_facts(*self);
            }
            return Err(ErrorKind::ProtocolViolation);
        }
        if end - d0 > self.window {
            proof {
                lemma_frontier_facts(*self);
            }
            return Err(ErrorKind::ProtocolViolation);
        }
        // Overlap check: every byte already held in the reorder window must
        // agree with the arriving copy.
        let mut i: usize = 0;
        while i < len_u
            invariant
                pre.wf(),
                i <= len_u,
                0 < len_u == payload@.len(),
                seq + len_u <= u64::MAX,
                d0 == pre.delivered_upto,
                end == seq + len_u,
                end > d0,
                seq <= d0 + pre.window,
                end <= d0 + pre.window,
                *self == pre,
                forall|j: int|
                    0 <= j < i ==> !(seq + j >= d0 && pre.holds(seq + j) && pre.byte_at(seq + j)
                        != payload@[j]),
            decreases len_u - i,
        {
            let pos: u64 = seq + i as u64;
            if pos >= d0 {
                let idx_u: u64 = pos - d0;
                if idx_u < self.pending.len() as u64 {
                    let idx: usize = idx_u as usize;
                    match self.pending[idx] {
                        Some(b) => {
                            if b != payload[i] {
                                proof {
                                    assert(pre.holds(seq + i) && pre.byte_at(seq + i)
                                        != payload@[i as int]);
                                    lemma_frontier_facts(*self);
                                }
                                return Err(ErrorKind::ProtocolViolation);
                            }
                        },
                        None => {},
                    }
                }
            }
            i = i + 1;
        }
        // Grow the reorder window up to the segment's end.
        let need: usize = (end - d0) as usize;
        while self.pending.len() < need
            invariant
                need <= pre.window,
                self.pending@.len() >= pre.pending@.len(),
                self.pending@.len() <= need || self.pending@.len() == pre.pending@.len(),
                forall|m: int| 0 <= m < pre.pending@.len() ==> self.pending@[m] == pre.pending@[m],
                forall|m: int|
                    pre.pending@.len() <= m < self.pending@.len() ==> self.pending@[m] is None,
                self.delivered_upto == pre.delivered_upto,
                self.window == pre.window,
                self.queue == pre.queue,
                self.hist == pre.hist,
            decreases need - self.pending@.len(),
        {
            self.pending.push(None);
        }
        // Store the segment's bytes at their positions.
        let ghost grown = self.pending@;
        i = 0;
        while i < len_u
            invariant
                pre.wf(),
                i <= len_u,
                len_u == payload@.len(),
                seq + len_u <= u64::MAX,
                d0 == pre.delivered_upto,
                end == seq + len_u,
                end <= d0 + pre.window,
                seq + len_u - d0 <= self.pending@.len(),
                self.pending@.len() == grown.len(),
                forall|m: int|
                    0 <= m < self.pending@.len() && !(seq <= d0 + m < seq + i) ==> self.pending@[m]
                        == grown[m],
                forall|j: int|
                    0 <= j < i && seq + j >= d0 ==> self.pending@[seq + j - d0] == Some(
                        payload@[j],
                    ),
                self.delivered_upto == pre.delivered_upto,
                self.window == pre.window,
                self.queue == pre.queue,
                self.hist == pre.hist,
            decreases len_u - i,
        {
            let pos: u64 = seq + i as u64;
            let ghost before = self.pending@;
            if pos >= d0 {
                let idx: usize = (pos - d0) as usize;
                proof {
                    assert(pos - d0 < end - d0 <= MAX_WINDOW);
                    assert(pos - d0 < self.pending@.len());
                    assert(idx as int == pos as int - d0 as int);
                }
                self.pending.set(idx, Some(payload[i]));
                proof {
                    assert forall|m: int|
                        0 <= m < self.pending@.len() && !(seq <= d0 + m < seq + i + 1) implies
                        self.pending@[m] == grown[m] by {
                        assert(m != pos - d0);
                        assert(self.pending@[m] == before[m]);
                        assert(before[m] == grown[m]);
                    }
                    assert forall|j: int|
                        0 <= j < i + 1 && seq + j >= d0 implies self.pending@[seq + j - d0]
                            == Some(payload@[j]) by {
                        if j < i {
                            assert(before[seq + j - d0] == Some(payload@[j]));
                            assert(seq + j - d0 != pos - d0);
                        }
                    }
                }
            }
            i = i + 1;
        }
        proof {
            assert forall|m: int|
                0 <= m < self.pending@.len() && !(seq <= d0 + m < seq + len_u) implies
                self.pending@[m] == (if m < pre.pending@.len() {
                    pre.pending@[m]
                } else {
                    None
                }) by {
                assert(self.pending@[m] == grown[m]);
                if m < pre.pending@.len() {
                    assert(grown[m] == pre.pending@[m]);
                } else {
                    assert(grown[m] is None);
                }
            }
        }
        let ghost mid = *self;
        // Deliver the contiguous run now known at the frontier.
        let mut k: usize = 0;
        while k < self.pending.len() && self.pending[k].is_some()
            invariant
                k <= self.pending@.len(),
                *self == mid,
                forall|m: int| 0 <= m < k ==> self.pending@[m] is Some,
            decreases self.pending@.len() - k,
        {
            k = k + 1;
        }
        let mut j: usize = 0;
        while j < k
            invariant
                j <= k,
                k <= self.pending@.len(),
                forall|m: int| 0 <= m < k ==> self.pending@[m] is Some,
                self.pending == mid.pending,
                self.delivered_upto == mid.delivered_upto,
                self.window == mid.window,
                self.hist == mid.hist,
                self.queue@ == mid.queue@ + self.pending@.take(j as int).map_values(
                    |o: Option<u8>| o.unwrap(),
                ),
            decreases k - j,
        {
            let b: u8 = self.pending[j].unwrap();
            self.queue.push(b);
            proof {
                assert(self.queue@ =~= mid.queue@ + self.pending@.take(j as int + 1).map_values(
                    |o: Option<u8>| o.unwrap(),
                ));
            }
            j = j + 1;
        }
        let mut rest: Vec<Option<u8>> = Vec::new();
        let mut m: usize = k;
        while m < self.pending.len()
            invariant
                k <= m <= self.pending@.len(),
                rest@ == self.pending@.subrange(k as int, m as int),
                self.pending == mid.pending,
                self.delivered_upto == mid.delivered_upto,
                self.window == mid.window,
                self.hist == mid.hist,
            decreases self.pending@.len() - m,
        {
            let x: Option<u8> = self.pending[m];
            rest.push(x);
            proof {
                assert(rest@ =~= self.pending@.subrange(k as int, m as int + 1));
            }
            m = m + 1;
        }
        let ghost drained = mid.pending@.take(k as int).map_values(|o: Option<u8>| o.unwrap());
        self.pending = rest;
        self.delivered_upto = d0 + k as u64;
        proof {
            self.hist@ = self.hist@ + drained;
        }
        proof {
            lemma_accept_final(pre, mid, *self, seq, payload@, k as int);
            let d0i = pre.delivered() as int;
            let n = payload@.len() as int;
            let end_i = seq + n;
            assert forall|s2: Seq<u8>|
                (pre.consistent_with(s2) && seq + n <= s2.len() && payload@ == s2.subrange(
                    seq as int,
                    seq + n,
                )) implies self.consistent_with(s2) by {
                assert forall|p: int| self.holds(p) implies p < s2.len() && self.byte_at(p)
                    == s2[p] by {
                    if pre.holds(p) {
                        assert(self.byte_at(p) == pre.byte_at(p));
                    } else {
                        assert(seq <= p < end_i);
                        assert(p >= d0i);
                        let j = p - seq;
                        assert(self.byte_at(p) == payload@[j]);
                        assert(payload@[j] == s2[p]);
                    }
                }
            }
        }
        Ok(())
    }
}

/// Internal glue: a well-formed reassembler left unchanged meets accept's
/// frame clauses.
proof fn lemma_frontier_facts(a: Reassembler)
    requires
        a.wf(),
    ensures
        a.history().take(a.delivered() as int) == a.history(),
        a.queued() == a.queued() + a.history().skip(a.delivered() as int),
        !a.holds(a.delivered() as int),
{
    assert(a.history().take(a.delivered() as int) =~= a.history());
    assert(a.history().skip(a.delivered() as int) =~= Seq::<u8>::empty());
    assert(a.queued() =~= a.queued() + a.history().skip(a.delivered() as int));
}

/// Internal glue: relates the state after the insert phase (`mid`) and the
/// final state after delivery to the starting state, establishing accept's
/// contract for the successful-insert path.
proof fn lemma_accept_final(
    pre: Reassembler,
    mid: Reassembler,
    post: Reassembler,
    seq: u64,
    payload: Seq<u8>,
    k: int,
)
    requires
        pre.wf(),
        payload.len() > 0,
        seq + payload.len() <= u64::MAX,
        seq + payload.len() > pre.delivered() as int,
        seq <= pre.delivered() + pre.win(),
        seq + payload.len() <= pre.delivered() + pre.win(),
        // no mismatch
        forall|j: int|
            0 <= j < payload.len() ==> !(seq + j >= pre.delivered() && pre.holds(seq + j)
                && pre.byte_at(seq + j) != payload[j]),
        // mid extends pre's pending with the payload written in
        mid.delivered() == pre.delivered(),
        mid.win() == pre.win(),
        mid.history() == pre.history(),
        mid.queued() == pre.queued(),
        mid.pending_len() >= pre.pending_len(),
        mid.pending_len() == (if seq + payload.len() - pre.delivered() >= pre.pending_len() {
            seq + payload.len() - pre.delivered()
        } else {
            pre.pending_len()
        }),
        forall|m: int|
            0 <= m < mid.pending_len() && !(seq <= pre.delivered() + m < seq + payload.len())
                ==> mid.pending_at(m) == (if m < pre.pending_len() {
                pre.pending_at(m)
            } else {
                None
            }),
        forall|j: int|
            0 <= j < payload.len() && seq + j >= pre.delivered() ==> mid.pending_at(
                seq + j - pre.delivered(),
            ) == Some(payload[j]),
        // k is the maximal contiguous run at the frontier
        0 <= k <= mid.pending_len(),
        forall|m: int| 0 <= m < k ==> mid.pending_at(m) is Some,
        k == mid.pending_len() || mid.pending_at(k) is None,
        // post delivers that run
        post.delivered() == pre.delivered() + k,
        post.win() == pre.win(),
        post.pending_len() == mid.pending_len() - k,
        forall|m: int| 0 <= m < post.pending_len() ==> post.pending_at(m) == mid.pending_at(m + k),
        post.history() == pre.history() + mid.pending_view().take(k).map_values(
            |o: Option<u8>| o.unwrap(),
        ),
        post.queued() == pre.queued() + mid.pending_view().take(k).map_values(
            |o: Option<u8>| o.unwrap(),
        ),
        pre.queued().len() <= pre.history().len(),
        pre.queued() == pre.history().skip(pre.history().len() - pre.queued().len()),
    ensures
        post.wf(),
        post.delivered() >= pre.delivered(),
        post.history().take(pre.delivered() as int) == pre.history(),
        post.queued() == pre.queued() + post.history().skip(pre.delivered() as int),
        !post.holds(post.delivered() as int),
        forall|p: int| post.holds(p) <==> (pre.holds(p) || seq <= p < seq + payload.len()),
        forall|p: int| pre.holds(p) ==> post.byte_at(p) == pre.byte_at(p),
        forall|j: int|
            0 <= j < payload.len() && seq + j >= pre.delivered() ==> post.byte_at(seq + j)
                == payload[j],
{
    let d0 = pre.delivered() as int;
    let dn = post.delivered() as int;
    let n = payload.len() as int;
    let drained = mid.pending_view().take(k).map_values(|o: Option<u8>| o.unwrap());
    assert(drained.len() == k);
    assert(post.history().len() == dn);
    assert(post.history().take(d0) =~= pre.history());
    assert(post.history().skip(d0) =~= drained);
    assert(d0 + mid.pending_len() >= seq + n);
    // Pointwise description of mid's reorder buffer.
    assert forall|m: int| 0 <= m < mid.pending_len() implies (mid.pending_at(m) is Some <==> (
    pre.holds(d0 + m) || seq <= d0 + m < seq + n)) by {
        if seq <= d0 + m < seq + n {
            let j = d0 + m - seq;
            assert(payload[j] == payload[j]);
            assert(mid.pending_at(seq + j - pre.delivered()) == Some(payload[j]));
        } else {
            assert(mid.pending_at(m) == (if m < pre.pending_len() {
                pre.pending_at(m)
            } else {
                None
            }));
        }
    }
    assert forall|m: int| 0 <= m < mid.pending_len() && pre.holds(d0 + m) implies
        mid.pending_at(m) == pre.pending_at(m) by {
        if seq <= d0 + m < seq + n {
            let j = d0 + m - seq;
            assert(payload[j] == payload[j]);
            assert(mid.pending_at(seq + j - pre.delivered()) == Some(payload[j]));
            assert(!(seq + j >= pre.delivered() && pre.holds(seq + j) && pre.byte_at(seq + j)
                != payload[j]));
            assert(pre.byte_at(d0 + m) == payload[j]);
            assert(pre.pending_at(m) == Some(payload[j]));
        } else {
            assert(mid.pending_at(m) == (if m < pre.pending_len() {
                pre.pending_at(m)
            } else {
                None
            }));
        }
    }
    // Which positions post holds.
    assert forall|p: int| post.holds(p) <==> (pre.holds(p) || seq <= p < seq + n) by {
        if 0 <= p < d0 {
        } else if d0 <= p < dn {
            assert(post.holds(p));
            assert(mid.pending_at(p - d0) is Some);
        } else if dn <= p < d0 + mid.pending_len() {
            assert(post.pending_at(p - dn) == mid.pending_at(p - dn + k));
            assert(p - dn + k == p - d0);
            assert(post.holds(p) <==> mid.pending_at(p - d0) is Some);
        } else {
            assert(!post.holds(p));
            assert(!pre.holds(p));
            assert(!(seq <= p < seq + n));
        }
    }
    // Bytes post knows at positions pre held.
    assert forall|p: int| pre.holds(p) implies post.byte_at(p) == pre.byte_at(p) by {
        if 0 <= p < d0 {
            assert(post.byte_at(p) == post.history()[p]);
            assert(post.history()[p] == pre.history()[p]);
        } else {
            let m = p - d0;
            assert(mid.pending_at(m) == pre.pending_at(m));
            if p < dn {
                assert(post.byte_at(p) == post.history()[p]);
                assert(post.history()[p] == drained[m]);
                assert(drained[m] == mid.pending_view().take(k)[m].unwrap());
            } else {
                assert(post.pending_at(p - dn) == mid.pending_at(p - dn + k));
                assert(p - dn + k == p - d0);
            }
        }
    }
    // Bytes post knows at the segment's positions.
    assert forall|j: int| 0 <= j < n && seq + j >= d0 implies post.byte_at(seq + j)
        == payload[j] by {
        let p = seq + j;
        let m = p - d0;
        assert(payload[j] == payload[j]);
        assert(mid.pending_at(seq + j - pre.delivered()) == Some(payload[j]));
        if p < dn {
            assert(post.byte_at(p) == post.history()[p]);
            assert(post.history()[p] == drained[m]);
            assert(drained[m] == mid.pending_view().take(k)[m].unwrap());
        } else {
            assert(post.pending_at(p - dn) == mid.pending_at(p - dn + k));
            assert(p - dn + k == m);
            assert(post.byte_at(p) == post.pending_at(p - dn).unwrap());
        }
    }
    // The queue is the undelivered suffix of the history.
    let offq = pre.history().len() - pre.queued().len();
    assert(post.queued().len() == pre.queued().len() + k);
    assert(offq == post.history().len() - post.queued().len());
    assert forall|x: int| 0 <= x < post.queued().len() implies post.queued()[x]
        == post.history()[offq + x] by {
        if x < pre.queued().len() {
            assert(pre.queued()[x] == pre.history().skip(offq)[x]);
            assert(post.queued()[x] == pre.queued()[x]);
            assert(post.history()[offq + x] == pre.history()[offq + x]);
        } else {
            assert(post.queued()[x] == drained[x - pre.queued().len()]);
            assert(post.history()[offq + x] == drained[offq + x - d0]);
        }
    }
    assert(post.queued() =~= post.history().skip(post.history().len() - post.queued().len()));
    // The frontier stays tight.
    if post.pending_len() > 0 {
        assert(post.pending_at(0) == mid.pending_at(0 + k));
        assert(mid.pending_at(k) is None);
        assert(!post.holds(dn));
    }
}


impl Reassembler {
    /// Length of the reorder buffer, for internal reasoning.
    pub closed spec fn pending_len(self) -> int {
        self.pending@.len() as int
    }

    /// One slot of the reorder buffer, for internal reasoning.
    pub closed spec fn pending_at(self, m: int) -> Option<u8> {
        self.pending@[m]
    }

    /// The reorder buffer itself, for internal reasoning.
    pub closed spec fn pending_view(self) -> Seq<Option<u8>> {
        self.pending@
    }
}

/// What the reassembler has delivered is always a prefix of any stream it is
/// consistent with: the receiver emits exactly the sender's bytes, in order.
pub proof fn lemma_delivered_is_prefix(r: Reassembler, s: Seq<u8>)
    requires
        r.wf(),
        r.consistent_with(s),
    ensures
        r.delivered() <= s.len(),
        r.history() == s.take(r.delivered() as int),
{
    assert forall|p: int| 0 <= p < r.delivered() implies r.holds(p) && r.byte_at(p)
        == r.history()[p] by {}
    if r.delivered() > s.len() {
        assert(r.holds(s.len() as int));
    }
    assert(r.history() =~= s.take(r.delivered() as int));
}

/// The aggregated channel delivers exactly the sender's byte stream: when
/// everything the reassembler knows agrees with the send buffer's stream —
/// as accept's contract maintains whenever each arriving segment was leased
/// from that buffer, over whichever links and however often it rode — then
/// what has been delivered is precisely the stream's first `delivered`
/// bytes: prefix-equal at any moment, equal once everything is delivered.
pub proof fn lemma_channel_prefix(sb: crate::buffer::SendBuffer, ra: Reassembler)
    requires
        sb.wf(),
        ra.wf(),
        ra.consistent_with(sb.stream()),
    ensures
        ra.delivered() <= sb.next(),
        ra.history() == sb.stream().take(ra.delivered() as int),
{
    crate::buffer::lemma_stream_len(sb);
    lemma_delivered_is_prefix(ra, sb.stream());
}

} // verus!
