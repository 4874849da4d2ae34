use linkbond::codec::PacketKind;
use linkbond::error::ErrorKind;
use linkbond::link::LinkEvent;
use linkbond::link::PumpAction;
use linkbond::link::classify_inbound;
use linkbond::link::LinkState;
use linkbond::link::LivenessAction;
use linkbond::link::link_step;
use linkbond::link::liveness_action;
use linkbond::link::smooth_rtt;
use linkbond::link::update_slow_streak;

#[test]
fn lifecycle_walks_forward() {
    let mut s = LinkState::Connecting;
    s = link_step(s, LinkEvent::TransportUp);
    assert_eq!(s, LinkState::Authenticating);
    s = link_step(s, LinkEvent::HelloExchanged);
    assert_eq!(s, LinkState::Active);
    s = link_step(s, LinkEvent::CreditExhausted);
    assert_eq!(s, LinkState::Blocked);
    s = link_step(s, LinkEvent::CreditRestored);
    assert_eq!(s, LinkState::Active);
    s = link_step(s, LinkEvent::IoError);
    assert_eq!(s, LinkState::Failed);
    s = link_step(s, LinkEvent::Drained);
    assert_eq!(s, LinkState::Gone);
}

#[test]
fn gone_is_terminal_and_failed_never_revives() {
    for ev in [
        LinkEvent::TransportUp,
        LinkEvent::HelloExchanged,
        LinkEvent::CreditExhausted,
        LinkEvent::CreditRestored,
        LinkEvent::IoError,
        LinkEvent::ProtocolError,
        LinkEvent::Drained,
    ] {
        assert_eq!(link_step(LinkState::Gone, ev), LinkState::Gone);
        let after = link_step(LinkState::Failed, ev);
        assert!(after == LinkState::Failed || after == LinkState::Gone);
    }
    assert_eq!(link_step(LinkState::Active, LinkEvent::ProtocolError), LinkState::Failed);
}

#[test]
fn liveness_thresholds() {
    // three silent intervals on the inbound side fail the link
    assert_eq!(liveness_action(6000, 0, 6000, 2000), LivenessAction::FailLink);
    // one idle interval on the outbound side asks for a heartbeat
    assert_eq!(liveness_action(5999, 1, 3999, 2000), LivenessAction::SendHeartbeat);
    assert_eq!(liveness_action(5999, 1, 4001, 2000), LivenessAction::AllQuiet);
    assert_eq!(liveness_action(100, 100, 100, 2000), LivenessAction::AllQuiet);
}

#[test]
fn rtt_smoothing_weights_seven_eighths() {
    assert_eq!(smooth_rtt(800, 1600), 900);
    assert_eq!(smooth_rtt(0, 8000), 1000);
    assert_eq!(smooth_rtt(1000, 1000), 1000);
}

#[test]
fn slow_streak_counts_and_resets() {
    let mut streak = 0u32;
    for _ in 0..5 {
        streak = update_slow_streak(streak, 10001, 1000);
    }
    assert_eq!(streak, 5);
    streak = update_slow_streak(streak, 10000, 1000);
    assert_eq!(streak, 0);
}

#[test]
fn receive_pump_routing() {
    assert_eq!(classify_inbound(PacketKind::Data), PumpAction::DeliverData);
    assert_eq!(classify_inbound(PacketKind::Ack), PumpAction::ApplyAck);
    assert_eq!(classify_inbound(PacketKind::Nack), PumpAction::ApplyNack);
    assert_eq!(classify_inbound(PacketKind::Heartbeat), PumpAction::RefreshLiveness);
    assert_eq!(classify_inbound(PacketKind::LinkGoodbye), PumpAction::RetireLink);
    assert_eq!(classify_inbound(PacketKind::Goodbye), PumpAction::PeerClosing);
    assert_eq!(classify_inbound(PacketKind::UserData), PumpAction::UserControl);
    assert_eq!(
        classify_inbound(PacketKind::Hello),
        PumpAction::Reject(ErrorKind::ProtocolViolation)
    );
    assert_eq!(
        classify_inbound(PacketKind::HelloAck),
        PumpAction::Reject(ErrorKind::ProtocolViolation)
    );
}
