use sip_stack::transport::{initial_state, matches_transport_param, stream_step, StreamAction, StreamEvent, StreamState};

#[test]
fn idle_reaper_spares_used_transport() {
    let (s, a) = stream_step(StreamState::InUse, StreamEvent::IdleTimeout);
    assert_eq!((s, a), (StreamState::InUse, StreamAction::Nothing));
}

#[test]
fn unused_transport_is_reaped() {
    let s = initial_state(true);
    assert_eq!(s, StreamState::Unused);
    assert_eq!(stream_step(s, StreamEvent::IdleTimeout), (StreamState::Unused, StreamAction::Destroy));
}

#[test]
fn use_and_release() {
    let s = initial_state(false);
    assert_eq!(s, StreamState::InUse);
    let (s, a) = stream_step(s, StreamEvent::AllUsagesDropped);
    assert_eq!((s, a), (StreamState::Unused, StreamAction::StartIdleTimer));
    let (s, a) = stream_step(s, StreamEvent::Claimed);
    assert_eq!((s, a), (StreamState::InUse, StreamAction::Nothing));
    assert_eq!(stream_step(s, StreamEvent::PeerClosed).1, StreamAction::Destroy);
}

#[test]
fn keep_alive_ping_and_pong() {
    for s in [StreamState::InUse, StreamState::Unused] {
        assert_eq!(stream_step(s, StreamEvent::KeepAliveTick), (s, StreamAction::SendPing));
    }
    let s = StreamState::InUse;
    assert_eq!(stream_step(s, StreamEvent::KeepAliveRequest), (s, StreamAction::SendPong));
    assert_eq!(stream_step(s, StreamEvent::KeepAliveResponse), (s, StreamAction::Nothing));
    assert_eq!(stream_step(s, StreamEvent::Message), (s, StreamAction::Deliver));
}

#[test]
fn traffic_keeps_unused_transport_alive() {
    let s = StreamState::Unused;
    assert_eq!(stream_step(s, StreamEvent::KeepAliveRequest), (s, StreamAction::SendPongAndRestartIdle));
    assert_eq!(stream_step(s, StreamEvent::KeepAliveResponse), (s, StreamAction::Nothing));
    assert_eq!(stream_step(s, StreamEvent::Message), (s, StreamAction::DeliverAndRestartIdle));
}

#[test]
fn transport_param_ignores_case() {
    assert!(matches_transport_param("tcp", "TCP"));
    assert!(matches_transport_param("Tls", "TLS"));
    assert!(!matches_transport_param("udp", "TCP"));
    assert!(!matches_transport_param("tcpx", "TCP"));
}
