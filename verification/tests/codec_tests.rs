use linkbond::codec::DecodeResult;
use linkbond::codec::decode_ranges;
use linkbond::codec::encode_ranges;
use linkbond::codec::HEADER_LEN;
use linkbond::codec::Packet;
use linkbond::codec::PacketKind;
use linkbond::codec::decode;
use linkbond::codec::encode;
use linkbond::hello::HELLO_FIXED_LEN;
use linkbond::hello::Hello;
use linkbond::hello::decode_hello;
use linkbond::hello::encode_hello;
use linkbond::conn::Params;
use linkbond::error::ErrorKind;
use linkbond::id::ConnId;

fn round_trip(kind: PacketKind, flags: u8, seq: u64, ack: u64, body: Vec<u8>) {
    let p = Packet { kind, flags, seq, ack, body: body.clone() };
    let wire = encode(&p);
    assert_eq!(wire.len(), HEADER_LEN + body.len());
    match decode(&wire, 0, u16::MAX) {
        DecodeResult::Done(q, used) => {
            assert_eq!(used, wire.len());
            assert_eq!(q.kind, kind);
            assert_eq!(q.flags, flags);
            assert_eq!(q.seq, seq);
            assert_eq!(q.ack, ack);
            assert_eq!(q.body, body);
        }
        _ => panic!("expected a whole packet"),
    }
}

#[test]
fn packet_round_trip_every_kind() {
    let kinds = [
        PacketKind::Hello,
        PacketKind::HelloAck,
        PacketKind::Data,
        PacketKind::Ack,
        PacketKind::Nack,
        PacketKind::Heartbeat,
        PacketKind::LinkGoodbye,
        PacketKind::Goodbye,
        PacketKind::UserData,
    ];
    let mut n: u64 = 1;
    for k in kinds {
        round_trip(k, (n % 256) as u8, n * 0x0123_4567_89ab, n, vec![7u8; n as usize]);
        n += 1;
    }
    round_trip(PacketKind::Data, 0xff, u64::MAX, u64::MAX - 1, Vec::new());
    round_trip(PacketKind::Data, 0, 0, 0, (0u32..65535).map(|x| (x % 251) as u8).collect());
}

#[test]
fn partial_packet_needs_more_not_truncation() {
    let p = Packet { kind: PacketKind::Data, flags: 0, seq: 42, ack: 7, body: vec![1, 2, 3, 4] };
    let wire = encode(&p);
    for cut in 0..wire.len() {
        let part = wire[..cut].to_vec();
        match decode(&part, 0, u16::MAX) {
            DecodeResult::NeedMore => {}
            _ => panic!("a partial packet must never decode"),
        }
    }
}

#[test]
fn oversize_length_fails_the_link() {
    let p = Packet { kind: PacketKind::Data, flags: 0, seq: 0, ack: 0, body: vec![0u8; 100] };
    let wire = encode(&p);
    match decode(&wire, 0, 99) {
        DecodeResult::TooLong => {}
        _ => panic!("length above the cap must be refused"),
    }
}

#[test]
fn unknown_kind_byte_is_refused() {
    let mut wire = vec![0u8, 0, 9, 0];
    wire.extend_from_slice(&[0u8; 16]);
    match decode(&wire, 0, u16::MAX) {
        DecodeResult::BadKind => {}
        _ => panic!("kind byte 9 names no packet kind"),
    }
}

#[test]
fn decode_walks_a_stream_of_packets() {
    let a = Packet { kind: PacketKind::Data, flags: 1, seq: 5, ack: 2, body: vec![10, 11] };
    let b = Packet { kind: PacketKind::Ack, flags: 0, seq: 0, ack: 7, body: Vec::new() };
    let mut wire = encode(&a);
    wire.extend_from_slice(&encode(&b));
    let used_a = match decode(&wire, 0, u16::MAX) {
        DecodeResult::Done(q, used) => {
            assert_eq!(q.seq, 5);
            used
        }
        _ => panic!("first packet"),
    };
    match decode(&wire, used_a, u16::MAX) {
        DecodeResult::Done(q, used) => {
            assert_eq!(q.kind, PacketKind::Ack);
            assert_eq!(q.ack, 7);
            assert_eq!(used_a + used, wire.len());
        }
        _ => panic!("second packet"),
    }
}

#[test]
fn hello_round_trip() {
    let h = Hello {
        id: ConnId::new(0x0123_4567_89ab_cdef, 0xfedc_ba98_7654_3210),
        params: Params { version: 1, max_seg: 16384, window: 8 << 20, heartbeat_ms: 2000 },
        user_data: vec![9, 8, 7],
    };
    let body = encode_hello(&h);
    assert_eq!(body.len(), HELLO_FIXED_LEN + 3);
    let g = decode_hello(&body).unwrap();
    assert_eq!(g.id, h.id);
    assert_eq!(g.params, h.params);
    assert_eq!(g.user_data, h.user_data);
}

#[test]
fn hello_too_short_is_a_violation() {
    let short = vec![0u8; HELLO_FIXED_LEN - 1];
    match decode_hello(&short) {
        Err(ErrorKind::ProtocolViolation) => {}
        _ => panic!("a truncated greeting must be refused"),
    }
}

#[test]
fn selective_ranges_round_trip() {
    let rs: Vec<(u64, u64)> = vec![(0, 100), (5000, 5100), (u64::MAX - 5, u64::MAX)];
    let body = encode_ranges(&rs);
    assert_eq!(body.len(), 48);
    assert_eq!(decode_ranges(&body).unwrap(), rs);
    let none: Vec<(u64, u64)> = Vec::new();
    assert_eq!(encode_ranges(&none).len(), 0);
    assert_eq!(decode_ranges(&Vec::new()).unwrap(), none);
}

#[test]
fn ragged_range_body_is_a_violation() {
    let body = vec![0u8; 17];
    assert_eq!(decode_ranges(&body), Err(ErrorKind::ProtocolViolation));
}
