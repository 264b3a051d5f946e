use sip_stack::tsx::{retransmit_interval, ServerInvState, ServerInvTsx, TsxAction, T1_MS, T2_MS};

fn sent(a: TsxAction) -> Vec<u8> {
    match a {
        TsxAction::Send(b) => b,
        _ => panic!("expected a send"),
    }
}

#[test]
fn completed_retransmits_identical_bytes() {
    let mut t = ServerInvTsx::new(false);
    let _ = sent(t.respond_provisional(b"SIP/2.0 180 Ringing\r\n\r\n".to_vec()));
    let first = b"SIP/2.0 486 Busy Here\r\nContent-Length: 0\r\n\r\n".to_vec();
    assert_eq!(sent(t.respond_failure(first.clone())), first);
    assert_eq!(t.state_of(), ServerInvState::Completed);
    for _ in 0..3 {
        assert_eq!(sent(t.on_timer_g()), first);
        assert_eq!(sent(t.on_invite_retransmission()), first);
    }
    assert!(matches!(t.on_ack(), TsxAction::Nothing));
    assert_eq!(t.state_of(), ServerInvState::Confirmed);
    assert!(matches!(t.on_timer_g(), TsxAction::Nothing));
    assert!(matches!(t.on_final_timer(), TsxAction::Terminate));
    assert_eq!(t.state_of(), ServerInvState::Terminated);
}

#[test]
fn reliable_transport_has_no_timer_g() {
    let mut t = ServerInvTsx::new(true);
    let _ = t.respond_failure(b"SIP/2.0 603 Decline\r\n\r\n".to_vec());
    assert!(matches!(t.on_timer_g(), TsxAction::Nothing));
}

#[test]
fn accepted_waits_for_timer_l() {
    let mut t = ServerInvTsx::new(false);
    let _ = sent(t.respond_success(b"SIP/2.0 200 OK\r\n\r\n".to_vec()));
    assert_eq!(t.state_of(), ServerInvState::Accepted);
    assert!(matches!(t.on_invite_retransmission(), TsxAction::Nothing));
    assert!(matches!(t.on_final_timer(), TsxAction::Terminate));
}

#[test]
fn retransmit_schedule() {
    let got: Vec<u64> = (0..6).map(|n| retransmit_interval(T1_MS, T2_MS, n)).collect();
    assert_eq!(got, vec![500, 1000, 2000, 4000, 4000, 4000]);
    assert_eq!(retransmit_interval(T1_MS, T2_MS, 40), 4000);
    assert_eq!(retransmit_interval(u64::MAX / 2 + 1, u64::MAX, 1), u64::MAX);
}

#[test]
fn timer_g_interval_grows() {
    let mut t = ServerInvTsx::new(false);
    let _ = t.respond_failure(b"SIP/2.0 500 Oops\r\n\r\n".to_vec());
    assert_eq!(t.timer_g_interval(T1_MS, T2_MS), 500);
    let _ = t.on_timer_g();
    assert_eq!(t.timer_g_interval(T1_MS, T2_MS), 1000);
    let _ = t.on_timer_g();
    let _ = t.on_timer_g();
    let _ = t.on_timer_g();
    assert_eq!(t.timer_g_interval(T1_MS, T2_MS), 4000);
}

#[test]
fn trying_sent_only_when_nothing_was() {
    let trying = b"SIP/2.0 100 Trying\r\n\r\n".to_vec();
    let mut t = ServerInvTsx::new(false);
    assert_eq!(sent(t.on_trying_timer(trying.clone())), trying);
    assert_eq!(sent(t.on_invite_retransmission()), trying);
    let mut u = ServerInvTsx::new(false);
    let _ = u.respond_provisional(b"SIP/2.0 180 Ringing\r\n\r\n".to_vec());
    assert!(matches!(u.on_trying_timer(trying), TsxAction::Nothing));
}
