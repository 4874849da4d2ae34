//! The greeting a link opens with: connection identifier, protocol
//! version, negotiated parameters, and user bytes supplied by the link
//! tag, forwarded verbatim for the acceptor to inspect.

use vstd::prelude::*;
use crate::codec::be2;
use crate::codec::be8;
use crate::codec::be8_val;
use crate::codec::lemma_be8_round_trip;
use crate::codec::push_be8;
use crate::codec::read_be8;
use crate::conn::Params;
use crate::error::ErrorKind;
use crate::id::ConnId;

verus! {

/// Bytes of the fixed greeting header, before the user bytes.
pub const HELLO_FIXED_LEN: usize = 35;

/// A link's opening greeting as a value.
pub struct Hello {
    /// The connection this link wants to join or create.
    pub id: ConnId,
    /// Protocol version and proposed parameters.
    pub params: Params,
    /// User bytes from the link tag, inspected by the acceptor.
    pub user_data: Vec<u8>,
}

/// Mathematical model of a greeting.
pub ghost struct HelloModel {
    /// The connection identifier.
    pub id: ConnId,
    /// Version and parameters.
    pub params: Params,
    /// User bytes.
    pub user_data: Seq<u8>,
}

impl View for Hello {
    type V = HelloModel;

    open spec fn view(&self) -> HelloModel {
        HelloModel { id: self.id, params: self.params, user_data: self.user_data@ }
    }
}

/// The bytes a greeting stands for in a packet body.
pub open spec fn spec_encode_hello(h: HelloModel) -> Seq<u8> {
    be8(h.id.hi) + be8(h.id.lo) + seq![h.params.version] + be2(h.params.max_seg) + be8(
        h.params.window,
    ) + be8(h.params.heartbeat_ms) + h.user_data
}

/// The greeting a long-enough body carries.
pub open spec fn spec_hello_of(s: Seq<u8>) -> HelloModel
    recommends
        s.len() >= HELLO_FIXED_LEN,
{
    HelloModel {
        id: ConnId { hi: be8_val(s.subrange(0, 8)), lo: be8_val(s.subrange(8, 16)) },
        params: Params {
            version: s[16],
            max_seg: (s[17] as u16 * 256 + s[18] as u16) as u16,
            window: be8_val(s.subrange(19, 27)),
            heartbeat_ms: be8_val(s.subrange(27, 35)),
        },
        user_data: s.skip(HELLO_FIXED_LEN as int),
    }
}

/// Writes a greeting as a packet body.
pub fn encode_hello(h: &Hello) -> (r: Vec<u8>)
    ensures
        r@ == spec_encode_hello(h@),
        r@.len() == HELLO_FIXED_LEN + h.user_data@.len(),
{
    let mut out: Vec<u8> = Vec::new();
    push_be8(&mut out, h.id.hi);
    push_be8(&mut out, h.id.lo);
    out.push(h.params.version);
    let ms: u16 = h.params.max_seg;
    proof {
        assert((ms >> 8) & 0xff < 256 && ms & 0xff < 256) by (bit_vector);
    }
    out.push(((ms >> 8) & 0xff) as u8);
    out.push((ms & 0xff) as u8);
    push_be8(&mut out, h.params.window);
    push_be8(&mut out, h.params.heartbeat_ms);
    let mut i: usize = 0;
    let ghost head = out@;
    while i < h.user_data.len()
        invariant
            i <= h.user_data.len(),
            out@ == head + h.user_data@.take(i as int),
        decreases h.user_data.len() - i,
    {
        out.push(h.user_data[i]);
        proof {
            assert(out@ =~= head + h.user_data@.take(i as int + 1));
        }
        i = i + 1;
    }
    proof {
        assert(out@ =~= spec_encode_hello(h@));
    }
    out
}

/// Reads a greeting out of a packet body.  A body too short for the fixed
/// part is a protocol violation; the remainder is the user bytes.
pub fn decode_hello(buf: &Vec<u8>) -> (r: Result<Hello, ErrorKind>)
    ensures
        buf@.len() < HELLO_FIXED_LEN ==> r == Err::<Hello, ErrorKind>(
            ErrorKind::ProtocolViolation,
        ),
        buf@.len() >= HELLO_FIXED_LEN ==> (r matches Ok(h) && h@ == spec_hello_of(buf@)),
{
    if buf.len() < HELLO_FIXED_LEN {
        return Err(ErrorKind::ProtocolViolation);
    }
    let hi = read_be8(buf, 0);
    let lo = read_be8(buf, 8);
    let version = buf[16];
    let max_seg: u16 = (buf[17] as u16) * 256 + (buf[18] as u16);
    let window = read_be8(buf, 19);
    let heartbeat_ms = read_be8(buf, 27);
    let mut user_data: Vec<u8> = Vec::new();
    let mut i: usize = HELLO_FIXED_LEN;
    while i < buf.len()
        invariant
            HELLO_FIXED_LEN <= i <= buf@.len(),
            user_data@ == buf@.subrange(HELLO_FIXED_LEN as int, i as int),
        decreases buf@.len() - i,
    {
        user_data.push(buf[i]);
        proof {
            assert(user_data@ =~= buf@.subrange(HELLO_FIXED_LEN as int, i as int + 1));
        }
        i = i + 1;
    }
    proof {
        assert(user_data@ =~= buf@.skip(HELLO_FIXED_LEN as int));
    }
    Ok(
        Hello {
            id: ConnId::new(hi, lo),
            params: Params { version, max_seg, window, heartbeat_ms },
            user_data,
        },
    )
}

/// Round trip: a greeting read back from its own bytes is itself.
pub proof fn lemma_hello_round_trip(m: HelloModel)
    ensures
        spec_hello_of(spec_encode_hello(m)) == m,
{
    let s = spec_encode_hello(m);
    lemma_be8_round_trip(m.id.hi);
    lemma_be8_round_trip(m.id.lo);
    lemma_be8_round_trip(m.params.window);
    lemma_be8_round_trip(m.params.heartbeat_ms);
    let ms = m.params.max_seg;
    assert(((ms >> 8) & 0xff) as u8 as u16 * 256 + (ms & 0xff) as u8 as u16 == ms)
        by (bit_vector);
    assert(s.subrange(0, 8) =~= be8(m.id.hi));
    assert(s.subrange(8, 16) =~= be8(m.id.lo));
    assert(s.subrange(19, 27) =~= be8(m.params.window));
    assert(s.subrange(27, 35) =~= be8(m.params.heartbeat_ms));
    assert(s.skip(HELLO_FIXED_LEN as int) =~= m.user_data);
}

} // verus!
