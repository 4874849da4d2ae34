//! Wire packet codec: length-prefixed packets on a per-link byte stream.
//!
//! Layout, network byte order:
//! a 16-bit body length, one kind byte, one flags byte, a 64-bit sequence
//! field, a 64-bit cumulative-ack field, then the kind-specific body.

use vstd::prelude::*;

verus! {

/// Bytes of the fixed packet header.
pub const HEADER_LEN: usize = 20;

/// The kinds of packet the protocol exchanges.
#[derive(Clone, Copy, Debug, PartialEq, Eq, Structural)]
pub enum PacketKind {
    /// Opens a link: carries connection id, version, parameters, user bytes.
    Hello,
    /// Accepts a link.
    HelloAck,
    /// Carries application payload at a sequence position.
    Data,
    /// Cumulative acknowledgement, optional selective ranges in the body.
    Ack,
    /// Retransmit request for a range.
    Nack,
    /// Keeps an idle link alive.
    Heartbeat,
    /// Retires one link.
    LinkGoodbye,
    /// Ends the whole connection after the announced sequence.
    Goodbye,
    /// Application-defined control bytes outside the payload stream.
    UserData,
}

/// The wire byte of each packet kind.
pub open spec fn spec_kind_byte(k: PacketKind) -> u8 {
    match k {
        PacketKind::Hello => 0,
        PacketKind::HelloAck => 1,
        PacketKind::Data => 2,
        PacketKind::Ack => 3,
        PacketKind::Nack => 4,
        PacketKind::Heartbeat => 5,
        PacketKind::LinkGoodbye => 6,
        PacketKind::Goodbye => 7,
        PacketKind::UserData => 8,
    }
}

/// The packet kind a wire byte names, if any.
pub open spec fn spec_kind_of_byte(b: u8) -> Option<PacketKind> {
    if b == 0 {
        Some(PacketKind::Hello)
    } else if b == 1 {
        Some(PacketKind::HelloAck)
    } else if b == 2 {
        Some(PacketKind::Data)
    } else if b == 3 {
        Some(PacketKind::Ack)
    } else if b == 4 {
        Some(PacketKind::Nack)
    } else if b == 5 {
        Some(PacketKind::Heartbeat)
    } else if b == 6 {
        Some(PacketKind::LinkGoodbye)
    } else if b == 7 {
        Some(PacketKind::Goodbye)
    } else if b == 8 {
        Some(PacketKind::UserData)
    } else {
        None
    }
}

/// Encodes a packet kind as its wire byte.
pub fn kind_byte(k: PacketKind) -> (r: u8)
    ensures
        r == spec_kind_byte(k),
{
    match k {
        PacketKind::Hello => 0,
        PacketKind::HelloAck => 1,
        PacketKind::Data => 2,
        PacketKind::Ack => 3,
        PacketKind::Nack => 4,
        PacketKind::Heartbeat => 5,
        PacketKind::LinkGoodbye => 6,
        PacketKind::Goodbye => 7,
        PacketKind::UserData => 8,
    }
}

/// Decodes a wire byte into a packet kind.
pub fn kind_of_byte(b: u8) -> (r: Option<PacketKind>)
    ensures
        r == spec_kind_of_byte(b),
{
    if b == 0 {
        Some(PacketKind::Hello)
    } else if b == 1 {
        Some(PacketKind::HelloAck)
    } else if b == 2 {
        Some(PacketKind::Data)
    } else if b == 3 {
        Some(PacketKind::Ack)
    } else if b == 4 {
        Some(PacketKind::Nack)
    } else if b == 5 {
        Some(PacketKind::Heartbeat)
    } else if b == 6 {
        Some(PacketKind::LinkGoodbye)
    } else if b == 7 {
        Some(PacketKind::Goodbye)
    } else if b == 8 {
        Some(PacketKind::UserData)
    } else {
        None
    }
}

/// A wire packet as a value.
#[derive(Clone, Debug)]
pub struct Packet {
    /// What the packet is.
    pub kind: PacketKind,
    /// Flag bits; reserved, echoed verbatim.
    pub flags: u8,
    /// Sequence field; its meaning depends on the kind.
    pub seq: u64,
    /// The sender's cumulative ack of the peer's stream.
    pub ack: u64,
    /// Kind-specific body bytes.
    pub body: Vec<u8>,
}

/// Mathematical model of a packet.
pub ghost struct PacketModel {
    /// What the packet is.
    pub kind: PacketKind,
    /// Flag bits.
    pub flags: u8,
    /// Sequence field.
    pub seq: u64,
    /// Cumulative ack field.
    pub ack: u64,
    /// Body bytes.
    pub body: Seq<u8>,
}

impl View for Packet {
    type V = PacketModel;

    open spec fn view(&self) -> PacketModel {
        PacketModel {
            kind: self.kind,
            flags: self.flags,
            seq: self.seq,
            ack: self.ack,
            body: self.body@,
        }
    }
}

/// Big-endian bytes of a 16-bit value.
pub open spec fn be2(x: u16) -> Seq<u8> {
    seq![((x >> 8) & 0xff) as u8, (x & 0xff) as u8]
}

/// Big-endian bytes of a 64-bit value.
pub open spec fn be8(x: u64) -> Seq<u8> {
    seq![
        ((x >> 56) & 0xff) as u8,
        ((x >> 48) & 0xff) as u8,
        ((x >> 40) & 0xff) as u8,
        ((x >> 32) & 0xff) as u8,
        ((x >> 24) & 0xff) as u8,
        ((x >> 16) & 0xff) as u8,
        ((x >> 8) & 0xff) as u8,
        (x & 0xff) as u8,
    ]
}

/// The 64-bit value eight big-endian bytes carry.
pub open spec fn be8_val(s: Seq<u8>) -> u64 {
    ((s[0] as u64) << 56) | ((s[1] as u64) << 48) | ((s[2] as u64) << 40) | ((s[3] as u64) << 32)
        | ((s[4] as u64) << 24) | ((s[5] as u64) << 16) | ((s[6] as u64) << 8) | (s[7] as u64)
}

/// Reading back the big-endian bytes of a 64-bit value yields it again.
pub proof fn lemma_be8_round_trip(x: u64)
    ensures
        be8_val(be8(x)) == x,
{
    let s = be8(x);
    assert(((((((x >> 56) & 0xff) as u8) as u64) << 56) | (((((x >> 48) & 0xff) as u8) as u64)
        << 48) | (((((x >> 40) & 0xff) as u8) as u64) << 40) | (((((x >> 32) & 0xff) as u8)
        as u64) << 32) | (((((x >> 24) & 0xff) as u8) as u64) << 24) | (((((x >> 16) & 0xff)
        as u8) as u64) << 16) | (((((x >> 8) & 0xff) as u8) as u64) << 8) | (((x & 0xff) as u8)
        as u64)) == x) by (bit_vector);
}

/// The bytes a packet stands for on the wire.
pub open spec fn spec_encode(m: PacketModel) -> Seq<u8> {
    be2(m.body.len() as u16) + seq![spec_kind_byte(m.kind), m.flags] + be8(m.seq) + be8(m.ack)
        + m.body
}

/// Outcome of decoding the front of a link's byte stream.
pub ghost enum SpecDecoded {
    /// The stream does not yet hold a whole packet.
    NeedMore,
    /// The announced body length exceeds the per-link cap.
    TooLong,
    /// The kind byte names no packet kind.
    BadKind,
    /// A whole packet, and how many bytes it occupied.
    Done(PacketModel, int),
}

/// Decodes the front of a byte stream: the specification `decode` meets.
pub open spec fn spec_decode(s: Seq<u8>, cap: u16) -> SpecDecoded {
    if s.len() < HEADER_LEN {
        SpecDecoded::NeedMore
    } else {
        let n = s[0] as int * 256 + s[1] as int;
        if n > cap as int {
            SpecDecoded::TooLong
        } else if spec_kind_of_byte(s[2]) is None {
            SpecDecoded::BadKind
        } else if s.len() < HEADER_LEN + n {
            SpecDecoded::NeedMore
        } else {
            SpecDecoded::Done(
                PacketModel {
                    kind: spec_kind_of_byte(s[2]).unwrap(),
                    flags: s[3],
                    seq: be8_val(s.subrange(4, 12)),
                    ack: be8_val(s.subrange(12, 20)),
                    body: s.subrange(20, 20 + n),
                },
                HEADER_LEN + n,
            )
        }
    }
}

pub(crate) fn push_be8(out: &mut Vec<u8>, x: u64)
    ensures
        final(out)@ == old(out)@ + be8(x),
{
    proof {
        assert((x >> 56) & 0xff < 256 && (x >> 48) & 0xff < 256 && (x >> 40) & 0xff < 256 && (x
            >> 32) & 0xff < 256 && (x >> 24) & 0xff < 256 && (x >> 16) & 0xff < 256 && (x >> 8)
            & 0xff < 256 && x & 0xff < 256) by (bit_vector);
    }
    out.push(((x >> 56) & 0xff) as u8);
    out.push(((x >> 48) & 0xff) as u8);
    out.push(((x >> 40) & 0xff) as u8);
    out.push(((x >> 32) & 0xff) as u8);
    out.push(((x >> 24) & 0xff) as u8);
    out.push(((x >> 16) & 0xff) as u8);
    out.push(((x >> 8) & 0xff) as u8);
    out.push((x & 0xff) as u8);
    proof {
        assert(out@ =~= old(out)@ + be8(x));
    }
}

pub(crate) fn read_be8(buf: &Vec<u8>, at: usize) -> (r: u64)
    requires
        at + 8 <= buf.len(),
    ensures
        r == be8_val(buf@.subrange(at as int, at as int + 8)),
{
    let r = ((buf[at] as u64) << 56) | ((buf[at + 1] as u64) << 48) | ((buf[at + 2] as u64) << 40)
        | ((buf[at + 3] as u64) << 32) | ((buf[at + 4] as u64) << 24) | ((buf[at + 5] as u64)
        << 16) | ((buf[at + 6] as u64) << 8) | (buf[at + 7] as u64);
    proof {
        let s = buf@.subrange(at as int, at as int + 8);
        assert(s[0] == buf@[at as int] && s[1] == buf@[at as int + 1] && s[2] == buf@[at as int
            + 2] && s[3] == buf@[at as int + 3] && s[4] == buf@[at as int + 4] && s[5] == buf@[
            at as int + 5] && s[6] == buf@[at as int + 6] && s[7] == buf@[at as int + 7]);
    }
    r
}

/// Frames a packet for the wire.
pub fn encode(p: &Packet) -> (r: Vec<u8>)
    requires
        p.body.len() <= u16::MAX,
    ensures
        r@ == spec_encode(p@),
        r@.len() == HEADER_LEN + p.body@.len(),
{
    let n: u16 = p.body.len() as u16;
    let mut out: Vec<u8> = Vec::new();
    proof {
        assert((n >> 8) & 0xff < 256 && n & 0xff < 256) by (bit_vector);
    }
    out.push(((n >> 8) & 0xff) as u8);
    out.push((n & 0xff) as u8);
    out.push(kind_byte(p.kind));
    out.push(p.flags);
    push_be8(&mut out, p.seq);
    push_be8(&mut out, p.ack);
    let mut i: usize = 0;
    while i < p.body.len()
        invariant
            i <= p.body.len(),
            out@ == be2(n) + seq![spec_kind_byte(p.kind), p.flags] + be8(p.seq) + be8(p.ack)
                + p.body@.take(i as int),
        decreases p.body.len() - i,
    {
        out.push(p.body[i]);
        proof {
            assert(p.body@.take(i as int) + seq![p.body@[i as int]] =~= p.body@.take(
                i as int + 1));
            assert(out@ =~= be2(n) + seq![spec_kind_byte(p.kind), p.flags] + be8(p.seq) + be8(
                p.ack) + p.body@.take(i as int + 1));
        }
        i = i + 1;
    }
    proof {
        assert(p.body@.take(p.body@.len() as int) =~= p.body@);
        assert(out@ =~= spec_encode(p@));
    }
    out
}

/// Outcome of decoding the front of a link's byte stream.
pub enum DecodeResult {
    /// The stream does not yet hold a whole packet; read more first.
    NeedMore,
    /// The announced body length exceeds the per-link cap; fail the link.
    TooLong,
    /// The kind byte names no packet kind; fail the link.
    BadKind,
    /// A whole packet, and how many bytes of the stream it occupied.
    Done(Packet, usize),
}

impl View for DecodeResult {
    type V = SpecDecoded;

    open spec fn view(&self) -> SpecDecoded {
        match self {
            DecodeResult::NeedMore => SpecDecoded::NeedMore,
            DecodeResult::TooLong => SpecDecoded::TooLong,
            DecodeResult::BadKind => SpecDecoded::BadKind,
            DecodeResult::Done(p, used) => SpecDecoded::Done(p@, *used as int),
        }
    }
}

/// Reads one packet from the front of `buf` at `start`.  `cap` is the
/// per-link body length cap.  A partial packet answers `NeedMore`, never a
/// truncated packet; an oversize length or an unknown kind byte is an error
/// the link must treat as fatal.
pub fn decode(buf: &Vec<u8>, start: usize, cap: u16) -> (r: DecodeResult)
    requires
        start <= buf.len(),
    ensures
        r@ == spec_decode(buf@.skip(start as int), cap),
{
    let ghost s = buf@.skip(start as int);
    if buf.len() - start < HEADER_LEN {
        return DecodeResult::NeedMore;
    }
    proof {
        assert(s[0] == buf@[start as int] && s[1] == buf@[start as int + 1] && s[2] == buf@[
            start as int + 2] && s[3] == buf@[start as int + 3]);
    }
    let n: usize = (buf[start] as usize) * 256 + (buf[start + 1] as usize);
    if n > cap as usize {
        return DecodeResult::TooLong;
    }
    let kind = match kind_of_byte(buf[start + 2]) {
        Some(k) => k,
        None => {
            return DecodeResult::BadKind;
        },
    };
    if buf.len() - start < HEADER_LEN + n {
        return DecodeResult::NeedMore;
    }
    proof {
        assert(s.subrange(4, 12) =~= buf@.subrange(start as int + 4, start as int + 12));
        assert(s.subrange(12, 20) =~= buf@.subrange(start as int + 12, start as int + 20));
    }
    let seq = read_be8(buf, start + 4);
    let ack = read_be8(buf, start + 12);
    let mut body: Vec<u8> = Vec::new();
    let mut i: usize = 0;
    while i < n
        invariant
            i <= n,
            start + HEADER_LEN + n <= buf.len(),
            body@ == buf@.subrange(start as int + 20, start as int + 20 + i as int),
        decreases n - i,
    {
        body.push(buf[start + HEADER_LEN + i]);
        proof {
            assert(body@ =~= buf@.subrange(start as int + 20, start as int + 20 + i as int + 1));
        }
        i = i + 1;
    }
    proof {
        assert(body@ =~= s.subrange(20, 20 + n as int));
    }
    DecodeResult::Done(Packet { kind, flags: buf[start + 3], seq, ack, body }, HEADER_LEN + n)
}

/// Round trip: decoding an encoded packet, with anything after it on the
/// stream, yields the same packet and consumes exactly its bytes.
pub proof fn lemma_codec_round_trip(m: PacketModel, rest: Seq<u8>, cap: u16)
    requires
        m.body.len() <= cap,
    ensures
        spec_decode(spec_encode(m) + rest, cap) == SpecDecoded::Done(
            m,
            HEADER_LEN + m.body.len(),
        ),
{
    let s = spec_encode(m) + rest;
    let n16 = m.body.len() as u16;
    assert(((n16 >> 8) & 0xff) as u8 as int * 256 + (n16 & 0xff) as u8 as int == n16 as int)
        by (bit_vector);
    assert(s[0] as int * 256 + s[1] as int == m.body.len());
    assert(spec_kind_of_byte(spec_kind_byte(m.kind)) == Some(m.kind));
    lemma_be8_round_trip(m.seq);
    lemma_be8_round_trip(m.ack);
    assert(s.subrange(4, 12) =~= be8(m.seq));
    assert(s.subrange(12, 20) =~= be8(m.ack));
    assert(s.subrange(20, 20 + m.body.len() as int) =~= m.body);
}


/// Bytes of one selective range in an Ack or Nack body.
pub const RANGE_LEN: usize = 16;

/// The selective ranges a well-formed Ack or Nack body carries: pairs of
/// 64-bit bounds, lower bound first.
pub open spec fn spec_ranges_of(s: Seq<u8>) -> Seq<(u64, u64)>
    recommends
        s.len() % (RANGE_LEN as nat) == 0,
    decreases s.len(),
{
    if s.len() < RANGE_LEN {
        Seq::empty()
    } else {
        seq![(be8_val(s.subrange(0, 8)), be8_val(s.subrange(8, 16)))] + spec_ranges_of(
            s.skip(RANGE_LEN as int),
        )
    }
}

/// The body bytes a list of selective ranges stands for.
pub open spec fn spec_encode_ranges(rs: Seq<(u64, u64)>) -> Seq<u8>
    decreases rs.len(),
{
    if rs.len() == 0 {
        Seq::empty()
    } else {
        be8(rs[0].0) + be8(rs[0].1) + spec_encode_ranges(rs.skip(1))
    }
}

/// Writes selective ranges as an Ack or Nack body.
pub fn encode_ranges(rs: &Vec<(u64, u64)>) -> (r: Vec<u8>)
    ensures
        r@ == spec_encode_ranges(rs@),
        r@.len() == RANGE_LEN * rs@.len(),
{
    let mut out: Vec<u8> = Vec::new();
    let mut i: usize = 0;
    proof {
        assert(rs@.take(0) =~= Seq::<(u64, u64)>::empty());
    }
    while i < rs.len()
        invariant
            i <= rs@.len(),
            out@ == spec_encode_ranges(rs@.take(i as int)),
            out@.len() == RANGE_LEN * i,
        decreases rs@.len() - i,
    {
        push_be8(&mut out, rs[i].0);
        push_be8(&mut out, rs[i].1);
        proof {
            lemma_encode_ranges_snoc(rs@.take(i as int), rs@[i as int]);
            assert(rs@.take(i as int) + seq![rs@[i as int]] =~= rs@.take(i as int + 1));
        }
        i = i + 1;
    }
    proof {
        assert(rs@.take(rs@.len() as int) =~= rs@);
    }
    out
}

/// Appending one range to a list appends its bytes to the encoding.
proof fn lemma_encode_ranges_snoc(rs: Seq<(u64, u64)>, x: (u64, u64))
    ensures
        spec_encode_ranges(rs + seq![x]) == spec_encode_ranges(rs) + be8(x.0) + be8(x.1),
    decreases rs.len(),
{
    if rs.len() == 0 {
        assert((rs + seq![x])[0] == x);
        assert((rs + seq![x]).skip(1) =~= Seq::<(u64, u64)>::empty());
        assert(spec_encode_ranges((rs + seq![x]).skip(1)) == Seq::<u8>::empty());
        assert(spec_encode_ranges(rs + seq![x]) == be8(x.0) + be8(x.1) + spec_encode_ranges(
            (rs + seq![x]).skip(1),
        ));
        assert(spec_encode_ranges(rs) == Seq::<u8>::empty());
        assert(spec_encode_ranges(rs + seq![x]) =~= spec_encode_ranges(rs) + be8(x.0) + be8(x.1));
    } else {
        assert((rs + seq![x])[0] == rs[0]);
        assert((rs + seq![x]).skip(1) =~= rs.skip(1) + seq![x]);
        lemma_encode_ranges_snoc(rs.skip(1), x);
        assert(spec_encode_ranges(rs + seq![x]) == be8(rs[0].0) + be8(rs[0].1)
            + spec_encode_ranges(rs.skip(1) + seq![x]));
        assert(spec_encode_ranges(rs + seq![x]) =~= spec_encode_ranges(rs) + be8(x.0) + be8(x.1));
    }
}

/// Reads selective ranges out of an Ack or Nack body.  A body that is not
/// a whole number of ranges is a protocol violation.
pub fn decode_ranges(body: &Vec<u8>) -> (r: Result<Vec<(u64, u64)>, crate::error::ErrorKind>)
    ensures
        body@.len() % (RANGE_LEN as nat) != 0 ==> r == Err::<
            Vec<(u64, u64)>,
            crate::error::ErrorKind,
        >(crate::error::ErrorKind::ProtocolViolation),
        body@.len() % (RANGE_LEN as nat) == 0 ==> (r matches Ok(v) && v@ == spec_ranges_of(
            body@,
        )),
{
    if body.len() % RANGE_LEN != 0 {
        return Err(crate::error::ErrorKind::ProtocolViolation);
    }
    let mut out: Vec<(u64, u64)> = Vec::new();
    let mut at: usize = 0;
    proof {
        assert(body@.skip(0) =~= body@);
        assert(out@ + spec_ranges_of(body@) =~= spec_ranges_of(body@));
    }
    while at < body.len()
        invariant
            at <= body@.len(),
            at % RANGE_LEN == 0,
            body@.len() % (RANGE_LEN as nat) == 0,
            spec_ranges_of(body@) == out@ + spec_ranges_of(body@.skip(at as int)),
        decreases body@.len() - at,
    {
        let ghost rest = body@.skip(at as int);
        let lo = read_be8(body, at);
        let hi = read_be8(body, at + 8);
        proof {
            assert(rest.len() >= RANGE_LEN);
            assert(rest.subrange(0, 8) =~= body@.subrange(at as int, at as int + 8));
            assert(rest.subrange(8, 16) =~= body@.subrange(at as int + 8, at as int + 16));
            assert(rest.skip(RANGE_LEN as int) =~= body@.skip(at as int + RANGE_LEN));
            assert(out@ + spec_ranges_of(rest) =~= out@ + seq![(lo, hi)] + spec_ranges_of(
                body@.skip(at as int + RANGE_LEN)));
        }
        out.push((lo, hi));
        at = at + RANGE_LEN;
    }
    proof {
        assert(spec_ranges_of(body@.skip(body@.len() as int)) =~= Seq::<(u64, u64)>::empty());
        assert(spec_ranges_of(body@) =~= out@);
    }
    Ok(out)
}

/// Round trip: ranges read back from their own body are themselves.
pub proof fn lemma_ranges_round_trip(rs: Seq<(u64, u64)>)
    ensures
        spec_ranges_of(spec_encode_ranges(rs)) == rs,
    decreases rs.len(),
{
    if rs.len() == 0 {
        assert(spec_ranges_of(spec_encode_ranges(rs)) =~= rs);
    } else {
        let s = spec_encode_ranges(rs);
        lemma_be8_round_trip(rs[0].0);
        lemma_be8_round_trip(rs[0].1);
        assert(s.subrange(0, 8) =~= be8(rs[0].0));
        assert(s.subrange(8, 16) =~= be8(rs[0].1));
        assert(s.skip(RANGE_LEN as int) =~= spec_encode_ranges(rs.skip(1)));
        lemma_ranges_round_trip(rs.skip(1));
        assert(spec_ranges_of(s) =~= rs);
    }
}

} // verus!
