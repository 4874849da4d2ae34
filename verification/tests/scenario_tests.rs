use linkbond::buffer::SendBuffer;
use linkbond::codec::DecodeResult;
use linkbond::codec::Packet;
use linkbond::codec::PacketKind;
use linkbond::codec::decode;
use linkbond::codec::encode;
use linkbond::conn::ConnState;
use linkbond::conn::Connection;
use linkbond::conn::Params;
use linkbond::conn::RouteDecision;
use linkbond::conn::route_hello;
use linkbond::dispatch::LinkSnapshot;
use linkbond::dispatch::pick_link;
use linkbond::error::ErrorKind;
use linkbond::hello::Hello;
use linkbond::hello::decode_hello;
use linkbond::hello::encode_hello;
use linkbond::id::ConnId;
use linkbond::link::LinkState;
use linkbond::reassembler::Reassembler;
use linkbond::tag::Direction;
use linkbond::tag::LinkTag;

fn pattern_bytes(n: usize, seed: u64) -> Vec<u8> {
    let mut out = Vec::with_capacity(n);
    let mut x = seed;
    for _ in 0..n {
        x = x.wrapping_mul(6364136223846793005).wrapping_add(1442695040888963407);
        out.push((x >> 33) as u8);
    }
    out
}

/// Carries one Data segment across a framed byte stream into the reassembler.
fn ship(ra: &mut Reassembler, seq: u64, body: Vec<u8>) {
    let p = Packet { kind: PacketKind::Data, flags: 0, seq, ack: 0, body };
    let wire = encode(&p);
    match decode(&wire, 0, u16::MAX) {
        DecodeResult::Done(q, used) => {
            assert_eq!(used, wire.len());
            ra.accept(q.seq, &q.body).unwrap();
        }
        _ => panic!("framing failed"),
    }
}

#[test]
fn single_link_ten_mib() {
    const TOTAL: usize = 10 * 1024 * 1024;
    const SEG: usize = 32768;
    let data = pattern_bytes(TOTAL, 7);
    let mut sb = SendBuffer::new(8 * 1024 * 1024);
    let mut ra = Reassembler::new(1 << 24);
    let mut written: usize = 0;
    let mut sent: u64 = 0;
    let mut received: Vec<u8> = Vec::new();
    while received.len() < TOTAL {
        if written < TOTAL {
            let end = (written + 4 * SEG).min(TOTAL);
            let accepted = sb.enqueue(&data[written..end].to_vec());
            written += accepted;
        }
        if sent < sb.next_seq() {
            let seg = sb.lease(sent, SEG).unwrap();
            let n = seg.len() as u64;
            ship(&mut ra, sent, seg);
            sent += n;
        }
        let out = ra.take();
        received.extend_from_slice(&out);
        sb.ack(ra.delivered_upto()).unwrap();
    }
    assert_eq!(received.len(), TOTAL);
    assert_eq!(received, data);
    assert_eq!(sb.acked_upto(), 10 * 1024 * 1024);
}

#[test]
fn two_links_kill_one_mid_transfer() {
    const TOTAL: usize = 10 * 1024 * 1024;
    const SEG: usize = 32768;
    let data = pattern_bytes(TOTAL, 11);
    let mut sb = SendBuffer::new(8 * 1024 * 1024);
    let mut ra = Reassembler::new(1 << 24);
    let tag_a = LinkTag::new(b"tcp".to_vec(), 1, vec![1]);
    let tag_b = LinkTag::new(b"tcp".to_vec(), 1, vec![2]);
    let mut state_a = LinkState::Active;
    // packets in flight, per link
    let mut flight_a: Vec<(u64, Vec<u8>)> = Vec::new();
    let mut flight_b: Vec<(u64, Vec<u8>)> = Vec::new();
    let mut written: usize = 0;
    let mut sent: u64 = 0;
    let mut received: Vec<u8> = Vec::new();
    let mut killed = false;
    while received.len() < TOTAL {
        if written < TOTAL {
            let end = (written + 4 * SEG).min(TOTAL);
            written += sb.enqueue(&data[written..end].to_vec());
        }
        if sent < sb.acked_upto() {
            // deliveries from the surviving link overtook the retransmit point
            sent = sb.acked_upto();
        }
        if sent < sb.next_seq() {
            let links = vec![
                LinkSnapshot {
                    tag: tag_a.dup(),
                    state: state_a,
                    peer_credit: 1 << 20,
                    cwnd: 1 << 20,
                    in_flight: (flight_a.len() * SEG) as u64,
                    rtt_us: 1000,
                    bw_est: 100_000_000,
                },
                LinkSnapshot {
                    tag: tag_b.dup(),
                    state: LinkState::Active,
                    peer_credit: 1 << 20,
                    cwnd: 1 << 20,
                    in_flight: (flight_b.len() * SEG) as u64,
                    rtt_us: 1000,
                    bw_est: 100_000_000,
                },
            ];
            let choice = pick_link(&links, SEG as u64).expect("link b always has capacity");
            let seg = sb.lease(sent, SEG).unwrap();
            let n = seg.len() as u64;
            if choice == 0 {
                flight_a.push((sent, seg));
            } else {
                flight_b.push((sent, seg));
            }
            sent += n;
        }
        // deliver one packet from each surviving link
        if state_a == LinkState::Active && !flight_a.is_empty() {
            let (seq, body) = flight_a.remove(0);
            ship(&mut ra, seq, body);
        }
        if !flight_b.is_empty() {
            let (seq, body) = flight_b.remove(0);
            ship(&mut ra, seq, body);
        }
        let out = ra.take();
        received.extend_from_slice(&out);
        sb.ack(ra.delivered_upto()).unwrap();
        if !killed && received.len() >= 1024 * 1024 {
            // drop link A: its packets in flight are lost; everything
            // unacknowledged is re-dispatched on the surviving link
            killed = true;
            state_a = LinkState::Failed;
            flight_a.clear();
            sent = sb.acked_upto();
        }
    }
    assert!(killed);
    assert_eq!(received.len(), TOTAL);
    assert_eq!(received, data);
    assert_eq!(sb.acked_upto(), 10 * 1024 * 1024);
}

#[test]
fn thirty_percent_reordering_still_delivers_in_order() {
    const TOTAL: usize = 256 * 1024;
    const SEG: usize = 4096;
    let data = pattern_bytes(TOTAL, 13);
    let mut packets: Vec<(u64, Vec<u8>)> = Vec::new();
    let mut at: usize = 0;
    while at < TOTAL {
        let end = (at + SEG).min(TOTAL);
        packets.push((at as u64, data[at..end].to_vec()));
        at = end;
    }
    // displace roughly 30% of the packets, deterministically
    let mut x: u64 = 99;
    let mut moved = 0usize;
    for i in 0..packets.len() {
        x = x.wrapping_mul(6364136223846793005).wrapping_add(1442695040888963407);
        if x % 10 < 3 {
            let j = (x >> 13) as usize % packets.len();
            packets.swap(i, j);
            moved += 1;
        }
    }
    assert!(moved > 0);
    let mut ra = Reassembler::new(1 << 20);
    let mut received: Vec<u8> = Vec::new();
    let mut floor: u64 = 0;
    for (i, (seq, body)) in packets.iter().enumerate() {
        ship(&mut ra, *seq, body.clone());
        // a re-sent duplicate now and then, tolerated by the reassembler
        if i % 3 == 0 {
            ship(&mut ra, *seq, body.clone());
        }
        assert!(ra.delivered_upto() >= floor);
        floor = ra.delivered_upto();
        let out = ra.take();
        received.extend_from_slice(&out);
    }
    assert_eq!(received.len(), TOTAL);
    assert_eq!(received, data);
}

#[test]
fn backpressure_keeps_writer_within_window() {
    const TOTAL: usize = 1024 * 1024;
    const W: u64 = 64 * 1024;
    const READ_PER_TICK: usize = 10 * 1024;
    let data = pattern_bytes(TOTAL, 17);
    let mut sb = SendBuffer::new(W);
    let mut ra = Reassembler::new(1 << 20);
    let mut written: usize = 0;
    let mut sent: u64 = 0;
    let mut staged: Vec<u8> = Vec::new();
    let mut read: usize = 0;
    while read < TOTAL {
        // writer pushes as hard as the window lets it
        if written < TOTAL {
            let end = (written + 32 * 1024).min(TOTAL);
            written += sb.enqueue(&data[written..end].to_vec());
        }
        // the writer is never more than one window ahead of the reader
        assert!(sb.next_seq() <= read as u64 + W);
        while sent < sb.next_seq() {
            let seg = sb.lease(sent, 16 * 1024).unwrap();
            let n = seg.len() as u64;
            ship(&mut ra, sent, seg);
            sent += n;
        }
        staged.extend_from_slice(&ra.take());
        // the reader drains slowly; only what it consumed is acknowledged
        let toread = READ_PER_TICK.min(staged.len());
        let chunk: Vec<u8> = staged.drain(..toread).collect();
        assert_eq!(chunk, data[read..read + toread].to_vec());
        read += toread;
        sb.ack(read as u64).unwrap();
    }
    assert_eq!(read, TOTAL);
    assert_eq!(sb.acked_upto(), TOTAL as u64);
}

#[test]
fn handshake_version_mismatch_refuses_the_link() {
    // initiator speaks version 1
    let hello = Hello {
        id: ConnId::new(0xaaaa, 0xbbbb),
        params: Params { version: 1, max_seg: 16384, window: 8 << 20, heartbeat_ms: 2000 },
        user_data: vec![1, 2, 3],
    };
    let packet = Packet {
        kind: PacketKind::Hello,
        flags: 0,
        seq: 0,
        ack: 0,
        body: encode_hello(&hello),
    };
    let wire = encode(&packet);
    // acceptor speaks version 2
    let known: Vec<ConnId> = Vec::new();
    match decode(&wire, 0, u16::MAX) {
        DecodeResult::Done(p, _) => {
            assert_eq!(p.kind, PacketKind::Hello);
            let g = decode_hello(&p.body).unwrap();
            let decision = route_hello(&known, g.id, 2, g.params.version);
            assert_eq!(decision, RouteDecision::Refuse(ErrorKind::VersionMismatch));
        }
        _ => panic!("greeting did not arrive whole"),
    }
    // no connection was created
    assert!(known.is_empty());
}

#[test]
fn graceful_close_after_four_kib() {
    const TOTAL: usize = 4096;
    let data = pattern_bytes(TOTAL, 23);
    let id = ConnId::new(0x1111, 0x2222);
    let params = Params { version: 1, max_seg: 16384, window: 64 * 1024, heartbeat_ms: 2000 };
    let tag = LinkTag::new(b"tcp".to_vec(), 1, vec![1]);

    let mut writer_conn = Connection::new(id, params);
    writer_conn.add_link(id, 1, tag.dup(), Direction::Outgoing).unwrap();
    writer_conn.establish();
    let mut reader_conn = Connection::new(id, params);
    reader_conn.add_link(id, 1, tag.dup(), Direction::Incoming).unwrap();
    reader_conn.establish();

    let mut sb = SendBuffer::new(64 * 1024);
    let mut ra = Reassembler::new(64 * 1024);
    assert_eq!(sb.enqueue(&data), TOTAL);
    let seg = sb.lease(0, TOTAL).unwrap();
    ship(&mut ra, 0, seg);
    let received = ra.take();
    assert_eq!(received, data);
    sb.ack(ra.delivered_upto()).unwrap();
    assert_eq!(sb.acked_upto(), sb.next_seq());

    // writer requests graceful close and parts with a Goodbye at seq 4096
    writer_conn.close(true);
    assert_eq!(writer_conn.current_state(), ConnState::Draining);
    let goodbye = Packet {
        kind: PacketKind::Goodbye,
        flags: 0,
        seq: sb.next_seq(),
        ack: ra.delivered_upto(),
        body: Vec::new(),
    };
    let wire = encode(&goodbye);
    let peer_end = match decode(&wire, 0, u16::MAX) {
        DecodeResult::Done(p, _) => {
            assert_eq!(p.kind, PacketKind::Goodbye);
            p.seq
        }
        _ => panic!("goodbye did not arrive whole"),
    };
    // the peer reader saw exactly the announced bytes, then the end
    assert_eq!(peer_end, TOTAL as u64);
    assert_eq!(ra.delivered_upto(), peer_end);
    assert_eq!(ra.queued_len(), 0);
    reader_conn.close(true);
    assert!(reader_conn.poll_close(true, true));
    assert!(writer_conn.poll_close(sb.acked_upto() == sb.next_seq(), true));
    assert_eq!(writer_conn.current_state(), ConnState::Closed);
    assert_eq!(reader_conn.current_state(), ConnState::Closed);
    assert_eq!(writer_conn.member_state(0), LinkState::Gone);
    assert_eq!(reader_conn.member_state(0), LinkState::Gone);
    // no outstanding segments on either side
    assert_eq!(sb.acked_upto(), sb.next_seq());
}
