//! Sequenced send buffer: an ordered window of outbound payload bytes.
//!
//! The buffer owns the contiguous range `[acked_upto, next_seq)` of the
//! application's byte stream.  Bytes stay until the peer's cumulative ack
//! passes them, so any unacked byte can be leased again for retransmission
//! on any link.  Enqueue applies backpressure: it accepts nothing while free
//! space is below the minimum segment size, and never lets the window exceed
//! the configured capacity.

use vstd::prelude::*;
use crate::error::ErrorKind;

verus! {

/// Backpressure floor: enqueue accepts no bytes while free space is smaller.
pub const MIN_SEGMENT: u64 = 1024;

/// The sender half of the channel's byte stream.
pub struct SendBuffer {
    acked_upto: u64,
    next_seq: u64,
    capacity: u64,
    data: Vec<u8>,
    hist: Ghost<Seq<u8>>,
    nacks: Vec<(u64, u64)>,
}

impl SendBuffer {
    /// Cumulative sequence the peer has acknowledged; bytes below are released.
    pub closed spec fn acked(self) -> u64 {
        self.acked_upto
    }

    /// Sequence the next enqueued byte will get.
    pub closed spec fn next(self) -> u64 {
        self.next_seq
    }

    /// Configured window capacity.
    pub closed spec fn cap(self) -> u64 {
        self.capacity
    }

    /// Every byte the application has ever enqueued, in order.
    pub closed spec fn stream(self) -> Seq<u8> {
        self.hist@
    }

    /// The pending retransmit-preference hints, oldest first.
    pub closed spec fn hints(self) -> Seq<(u64, u64)> {
        self.nacks@
    }

    /// Internal consistency: the window is within capacity and the held
    /// bytes are exactly the unacked suffix of the stream.
    pub closed spec fn wf(self) -> bool {
        &&& self.acked_upto <= self.next_seq
        &&& self.next_seq - self.acked_upto <= self.capacity
        &&& self.capacity >= MIN_SEGMENT
        &&& self.hist@.len() == self.next_seq
        &&& self.data@ == self.hist@.subrange(self.acked_upto as int, self.next_seq as int)
    }

    /// Cumulative sequence acknowledged by the peer.
    pub fn acked_upto(&self) -> (r: u64)
        ensures
            r == self.acked(),
    {
        self.acked_upto
    }

    /// Sequence the next enqueued byte will get.
    pub fn next_seq(&self) -> (r: u64)
        ensures
            r == self.next(),
    {
        self.next_seq
    }

    /// The configured window capacity.
    pub fn capacity(&self) -> (r: u64)
        ensures
            r == self.cap(),
    {
        self.capacity
    }

    /// An empty buffer with the given window capacity.
    pub fn new(capacity: u64) -> (r: SendBuffer)
        requires
            capacity >= MIN_SEGMENT,
        ensures
            r.wf(),
            r.acked() == 0,
            r.next() == 0,
            r.cap() == capacity,
            r.stream() == Seq::<u8>::empty(),
            r.hints() == Seq::<(u64, u64)>::empty(),
    {
        let r = SendBuffer {
            acked_upto: 0,
            next_seq: 0,
            capacity,
            data: Vec::new(),
            hist: Ghost(Seq::empty()),
            nacks: Vec::new(),
        };
        proof {
            assert(r.data@ =~= r.hist@.subrange(0, 0));
        }
        r
    }

    /// How many of `len` offered bytes enqueue will accept.
    pub open spec fn spec_accepts(self, len: nat) -> nat
        recommends
            self.wf(),
    {
        let free = (self.cap() - (self.next() - self.acked())) as nat;
        if free < MIN_SEGMENT {
            0
        } else if len <= free {
            len
        } else {
            free
        }
    }

    /// Appends bytes to the stream.  Accepts at most the free window space,
    /// and nothing while free space is under the backpressure floor; the
    /// caller waits for acks and offers the remainder again.
    pub fn enqueue(&mut self, bytes: &Vec<u8>) -> (accepted: usize)
        requires
            old(self).wf(),
            old(self).next() + bytes@.len() <= u64::MAX,
        ensures
            final(self).wf(),
            accepted == old(self).spec_accepts(bytes@.len()),
            final(self).stream() == old(self).stream() + bytes@.take(accepted as int),
            final(self).next() == old(self).next() + accepted,
            final(self).acked() == old(self).acked(),
            final(self).cap() == old(self).cap(),
            final(self).hints() == old(self).hints(),
    {
        let free: u64 = self.capacity - (self.next_seq - self.acked_upto);
        if free < MIN_SEGMENT {
            proof {
                assert(self.stream() =~= self.stream() + bytes@.take(0));
            }
            return 0;
        }
        let take: usize = if (bytes.len() as u64) <= free {
            bytes.len()
        } else {
            free as usize
        };
        let mut i: usize = 0;
        while i < take
            invariant
                i <= take,
                take <= bytes.len(),
                self.data@ == old(self).data@ + bytes@.take(i as int),
                self.acked_upto == old(self).acked_upto,
                self.next_seq == old(self).next_seq,
                self.capacity == old(self).capacity,
                self.hist == old(self).hist,
                self.nacks == old(self).nacks,
            decreases take - i,
        {
            self.data.push(bytes[i]);
            proof {
                assert(self.data@ =~= old(self).data@ + bytes@.take(i as int + 1));
            }
            i = i + 1;
        }
        self.next_seq = self.next_seq + take as u64;
        proof {
            self.hist@ = self.hist@ + bytes@.take(take as int);
            assert(self.data@ =~= self.hist@.subrange(
                self.acked_upto as int,
                self.next_seq as int,
            ));
        }
        take
    }

    /// Borrows up to `max_len` contiguous unacked bytes starting at `seq`
    /// for transmission, without removing them: a segment may ride several
    /// links at once.  Answers nothing when `seq` lies outside the unacked
    /// window or `max_len` is zero.
    pub fn lease(&self, seq: u64, max_len: usize) -> (r: Option<Vec<u8>>)
        requires
            self.wf(),
        ensures
            r is Some <==> (self.acked() <= seq < self.next() && max_len > 0),
            r is Some ==> {
                let take = if seq + max_len <= self.next() {
                    max_len as int
                } else {
                    self.next() - seq
                };
                r.unwrap()@ == self.stream().subrange(seq as int, seq + take)
            },
    {
        if max_len == 0 || seq < self.acked_upto || seq >= self.next_seq {
            return None;
        }
        let avail: u64 = self.next_seq - seq;
        let take: usize = if (max_len as u64) <= avail {
            max_len
        } else {
            avail as usize
        };
        let base: usize = (seq - self.acked_upto) as usize;
        let mut out: Vec<u8> = Vec::new();
        let mut i: usize = 0;
        while i < take
            invariant
                i <= take,
                base + take <= self.data.len(),
                out@ == self.data@.subrange(base as int, base as int + i as int),
            decreases take - i,
        {
            out.push(self.data[base + i]);
            proof {
                assert(out@ =~= self.data@.subrange(base as int, base as int + i as int + 1));
            }
            i = i + 1;
        }
        proof {
            assert(out@ =~= self.stream().subrange(seq as int, seq as int + take as int));
        }
        Some(out)
    }

    /// Advances the cumulative ack and releases the bytes below it.  An ack
    /// beyond `next_seq` acknowledges bytes never sent: a protocol violation,
    /// and the buffer is left unchanged.  The ack point never moves backward.
    pub fn ack(&mut self, upto: u64) -> (r: Result<(), ErrorKind>)
        requires
            old(self).wf(),
        ensures
            final(self).wf(),
            final(self).acked() >= old(self).acked(),
            final(self).stream() == old(self).stream(),
            final(self).next() == old(self).next(),
            final(self).cap() == old(self).cap(),
            final(self).hints() == old(self).hints(),
            upto > old(self).next() ==> r == Err::<(), ErrorKind>(ErrorKind::ProtocolViolation)
                && final(self).acked() == old(self).acked(),
            upto <= old(self).next() ==> r == Ok::<(), ErrorKind>(()) && final(self).acked() == (
            if upto >= old(self).acked() {
                upto
            } else {
                old(self).acked()
            }),
    {
        if upto > self.next_seq {
            return Err(ErrorKind::ProtocolViolation);
        }
        if upto <= self.acked_upto {
            return Ok(());
        }
        let drop: usize = (upto - self.acked_upto) as usize;
        let mut kept: Vec<u8> = Vec::new();
        let mut i: usize = drop;
        while i < self.data.len()
            invariant
                drop <= i <= self.data.len(),
                kept@ == self.data@.subrange(drop as int, i as int),
                self == old(self),
            decreases self.data.len() - i,
        {
            kept.push(self.data[i]);
            proof {
                assert(kept@ =~= self.data@.subrange(drop as int, i as int + 1));
            }
            i = i + 1;
        }
        self.data = kept;
        self.acked_upto = upto;
        proof {
            assert(self.data@ =~= self.hist@.subrange(
                self.acked_upto as int,
                self.next_seq as int,
            ));
        }
        Ok(())
    }

    /// Records a retransmit-preference hint for the part of `[from, to)`
    /// still unacked.  A hint guides the dispatcher; it changes no ownership.
    pub fn nack(&mut self, from: u64, to: u64)
        requires
            old(self).wf(),
        ensures
            final(self).wf(),
            final(self).acked() == old(self).acked(),
            final(self).next() == old(self).next(),
            final(self).cap() == old(self).cap(),
            final(self).stream() == old(self).stream(),
            ({
                let lo = if from >= old(self).acked() {
                    from
                } else {
                    old(self).acked()
                };
                let hi = if to <= old(self).next() {
                    to
                } else {
                    old(self).next()
                };
                if lo < hi {
                    final(self).hints() == old(self).hints() + seq![(lo, hi)]
                } else {
                    final(self).hints() == old(self).hints()
                }
            }),
    {
        let lo: u64 = if from >= self.acked_upto {
            from
        } else {
            self.acked_upto
        };
        let hi: u64 = if to <= self.next_seq {
            to
        } else {
            self.next_seq
        };
        if lo < hi {
            self.nacks.push((lo, hi));
            proof {
                assert(self.nacks@ =~= old(self).nacks@ + seq![(lo, hi)]);
            }
        }
    }

    /// Takes the oldest retransmit hint, clipped to the bytes still unacked;
    /// answers nothing when no hint is pending or the hinted range has been
    /// acknowledged meanwhile.
    pub fn take_hint(&mut self) -> (r: Option<(u64, u64)>)
        requires
            old(self).wf(),
        ensures
            final(self).wf(),
            final(self).acked() == old(self).acked(),
            final(self).next() == old(self).next(),
            final(self).cap() == old(self).cap(),
            final(self).stream() == old(self).stream(),
            old(self).hints().len() == 0 ==> r is None && final(self).hints() == old(
                self,
            ).hints(),
            old(self).hints().len() > 0 ==> final(self).hints() == old(self).hints().skip(1) && {
                let h = old(self).hints()[0];
                let lo = if h.0 >= old(self).acked() {
                    h.0
                } else {
                    old(self).acked()
                };
                if lo < h.1 {
                    r == Some((lo, h.1))
                } else {
                    r is None
                }
            },
    {
        if self.nacks.len() == 0 {
            return None;
        }
        let h = self.nacks.remove(0);
        proof {
            assert(self.nacks@ =~= old(self).nacks@.skip(1));
        }
        let lo: u64 = if h.0 >= self.acked_upto {
            h.0
        } else {
            self.acked_upto
        };
        if lo < h.1 {
            Some((lo, h.1))
        } else {
            None
        }
    }
}

/// The stream the buffer accounts for is exactly `next` bytes long: every
/// sequence number below `next` names one byte of it.
pub proof fn lemma_stream_len(sb: SendBuffer)
    requires
        sb.wf(),
    ensures
        sb.stream().len() == sb.next(),
{
}

} // verus!
