use linkbond::dispatch::LinkSnapshot;
use linkbond::dispatch::cwnd_on_ack;
use linkbond::dispatch::cwnd_on_timeout;
use linkbond::dispatch::pick_link;
use linkbond::dispatch::pick_retransmit;
use linkbond::dispatch::should_speculate;
use linkbond::link::LinkState;
use linkbond::tag::LinkTag;

fn snap(name: &str, key: u8, state: LinkState, credit: u64, cwnd: u64, in_flight: u64, rtt_us: u64, bw_est: u64) -> LinkSnapshot {
    LinkSnapshot {
        tag: LinkTag::new(name.as_bytes().to_vec(), 1, vec![key]),
        state,
        peer_credit: credit,
        cwnd,
        in_flight,
        rtt_us,
        bw_est,
    }
}

#[test]
fn fastest_link_wins() {
    let links = vec![
        snap("tcp", 1, LinkState::Active, 100000, 100000, 0, 200_000, 1_000_000),
        snap("tcp", 2, LinkState::Active, 100000, 100000, 0, 1_000, 1_000_000),
    ];
    assert_eq!(pick_link(&links, 1000), Some(1));
}

#[test]
fn queueing_counts_against_a_link() {
    // same round trip, but the first link has a long queue in flight
    let links = vec![
        snap("tcp", 1, LinkState::Active, 1 << 20, 1 << 20, 900_000, 1000, 1_000_000),
        snap("tcp", 2, LinkState::Active, 1 << 20, 1 << 20, 0, 1000, 1_000_000),
    ];
    assert_eq!(pick_link(&links, 1000), Some(1));
}

#[test]
fn ties_break_on_the_lower_tag() {
    let links = vec![
        snap("tcp", 9, LinkState::Active, 1000, 2000, 0, 1000, 1_000_000),
        snap("tcp", 3, LinkState::Active, 1000, 2000, 0, 1000, 1_000_000),
    ];
    assert_eq!(pick_link(&links, 1000), Some(1));
}

#[test]
fn only_active_links_with_capacity_are_considered() {
    let links = vec![
        snap("tcp", 1, LinkState::Blocked, 1000, 2000, 0, 10, 1_000_000),
        snap("tcp", 2, LinkState::Failed, 1000, 2000, 0, 10, 1_000_000),
        // active but the congestion window is exhausted
        snap("tcp", 3, LinkState::Active, 1000, 2000, 2000, 10, 1_000_000),
        // active but the peer advertised no credit
        snap("tcp", 4, LinkState::Active, 0, 2000, 0, 10, 1_000_000),
        snap("tcp", 5, LinkState::Active, 1, 2000, 0, 900_000, 1_000_000),
    ];
    // while any active link has credit, something is picked: the slow one
    assert_eq!(pick_link(&links, 1000), Some(4));
    let dead = vec![
        snap("tcp", 1, LinkState::Blocked, 1000, 2000, 0, 10, 1_000_000),
        snap("tcp", 3, LinkState::Active, 1000, 2000, 2000, 10, 1_000_000),
    ];
    assert_eq!(pick_link(&dead, 1000), None);
}

#[test]
fn retransmit_prefers_another_link() {
    let a = snap("tcp", 1, LinkState::Active, 1000, 2000, 0, 10, 1_000_000);
    let b = snap("tcp", 2, LinkState::Active, 1000, 2000, 0, 900_000, 1_000_000);
    let last = a.tag.dup();
    let links = vec![a, b];
    // the slower link carries the retransmit because it is not the last used
    assert_eq!(pick_retransmit(&links, 1000, &last), Some(1));
    // with no other capacity the same link may carry it again
    let only = vec![snap("tcp", 1, LinkState::Active, 1000, 2000, 0, 10, 1_000_000)];
    assert_eq!(pick_retransmit(&only, 1000, &last), Some(0));
    let none: Vec<LinkSnapshot> = Vec::new();
    assert_eq!(pick_retransmit(&none, 1000, &last), None);
}

#[test]
fn congestion_window_growth_and_decay() {
    assert_eq!(cwnd_on_ack(10000, 1460, 1 << 23), 11460);
    assert_eq!(cwnd_on_ack((1 << 23) - 100, 1460, 1 << 23), 1 << 23);
    assert_eq!(cwnd_on_timeout(10000, 1460), 5000);
    assert_eq!(cwnd_on_timeout(2000, 1460), 1460);
}

#[test]
fn speculative_retransmit_threshold() {
    // more than one and a half median round trips in flight, and a link idle
    assert!(should_speculate(true, 1501, 1000));
    assert!(!should_speculate(true, 1500, 1000));
    assert!(!should_speculate(false, 5000, 1000));
}
