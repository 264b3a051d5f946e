use sip_stack::session::{
    accepts_requests, handle_session_timer, handle_usage_event, session_step, AckAction, AckCache,
    EventDecision, Refresher, Role, SessionEvent, SessionState, SessionTimer, TimerDecision,
    UsageEvent,
};

#[test]
fn refresher_refreshes_at_half_interval() {
    let t = SessionTimer { interval_secs: 90, refresher: Refresher::Uac };
    assert_eq!(t.wait_secs(Role::Uac), 45);
    assert_eq!(handle_session_timer(Role::Uac, Refresher::Uac), TimerDecision::RefreshNeeded);
}

#[test]
fn missed_refresh_terminates() {
    let t = SessionTimer { interval_secs: 90, refresher: Refresher::Uas };
    assert_eq!(t.wait_secs(Role::Uac), 90);
    assert_eq!(handle_session_timer(Role::Uac, Refresher::Uas), TimerDecision::Terminate);
    assert_eq!(handle_session_timer(Role::Uas, Refresher::Uac), TimerDecision::Terminate);
    assert_eq!(handle_session_timer(Role::Uas, Refresher::Uas), TimerDecision::RefreshNeeded);
}

#[test]
fn usage_events() {
    assert!(matches!(handle_usage_event::<u8>(None), EventDecision::Terminated));
    assert!(matches!(handle_usage_event(Some(UsageEvent::ReInvite(7u8))), EventDecision::ReInviteReceived(7)));
    assert!(matches!(handle_usage_event(Some(UsageEvent::Bye(8u8))), EventDecision::Bye(8)));
}

#[test]
fn one_ack_per_retransmitted_success() {
    let mut c = AckCache::new();
    assert_eq!(c.on_response(100, 5), AckAction::Ignore);
    assert_eq!(c.on_response(180, 5), AckAction::Ignore);
    assert_eq!(c.on_response(200, 5), AckAction::SendNew(5));
    assert_eq!(c.on_response(200, 5), AckAction::Resend(5));
    assert_eq!(c.on_response(200, 5), AckAction::Resend(5));
    assert_eq!(c.on_response(200, 5), AckAction::Resend(5));
    assert_eq!(c.on_response(200, 6), AckAction::SendNew(6));
    assert_eq!(c.on_response(486, 6), AckAction::Ignore);
}

#[test]
fn session_life_cycle() {
    let s = SessionState::Confirmed;
    assert!(accepts_requests(s));
    let s = session_step(s, SessionEvent::Bye);
    assert_eq!(s, SessionState::Terminating);
    assert!(!accepts_requests(s));
    let s = session_step(s, SessionEvent::ByeResponse);
    assert_eq!(s, SessionState::Terminated);
    assert_eq!(session_step(s, SessionEvent::Bye), SessionState::Terminated);
    assert_eq!(session_step(SessionState::Confirmed, SessionEvent::Dropped), SessionState::Terminated);
}
