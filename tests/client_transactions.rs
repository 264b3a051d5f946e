use sip_stack::tsx::{
    class_of, client_inv_step, client_step, timer_ms, ClientAction, ClientEvent, ClientInvState,
    ClientState, ResponseClass, ServerState, ServerTsx, Timer, TsxAction, T1_MS, T4_MS,
};

#[test]
fn response_classes() {
    assert_eq!(class_of(100), ResponseClass::Provisional);
    assert_eq!(class_of(180), ResponseClass::Provisional);
    assert_eq!(class_of(200), ResponseClass::Success);
    assert_eq!(class_of(299), ResponseClass::Success);
    assert_eq!(class_of(300), ResponseClass::Failure);
    assert_eq!(class_of(603), ResponseClass::Failure);
}

#[test]
fn invite_client_success_path() {
    let s = ClientInvState::Calling;
    assert_eq!(client_inv_step(s, ClientEvent::RetransmitTimer, false), (s, ClientAction::Retransmit));
    assert_eq!(client_inv_step(s, ClientEvent::RetransmitTimer, true), (s, ClientAction::Nothing));
    let (s, a) = client_inv_step(s, ClientEvent::Response(ResponseClass::Provisional), false);
    assert_eq!((s, a), (ClientInvState::Proceeding, ClientAction::PassUp));
    let (s, a) = client_inv_step(s, ClientEvent::Response(ResponseClass::Success), false);
    assert_eq!((s, a), (ClientInvState::Accepted, ClientAction::PassUp));
    let (s, a) = client_inv_step(s, ClientEvent::Response(ResponseClass::Success), false);
    assert_eq!((s, a), (ClientInvState::Accepted, ClientAction::PassUp));
    let (s, a) = client_inv_step(s, ClientEvent::LingerTimer, false);
    assert_eq!((s, a), (ClientInvState::Terminated, ClientAction::Terminate));
}

#[test]
fn invite_client_failure_path() {
    let (s, a) = client_inv_step(ClientInvState::Calling, ClientEvent::Response(ResponseClass::Failure), false);
    assert_eq!((s, a), (ClientInvState::Completed, ClientAction::PassUpAndAck));
    let (s, a) = client_inv_step(s, ClientEvent::Response(ResponseClass::Failure), false);
    assert_eq!((s, a), (ClientInvState::Completed, ClientAction::ResendAck));
    let (s, _) = client_inv_step(s, ClientEvent::LingerTimer, false);
    assert_eq!(s, ClientInvState::Terminated);
    assert_eq!(client_inv_step(ClientInvState::Calling, ClientEvent::TimeoutTimer, false), (ClientInvState::Terminated, ClientAction::Timeout));
    assert_eq!(client_inv_step(ClientInvState::Proceeding, ClientEvent::TransportError, true), (ClientInvState::Terminated, ClientAction::Failed));
}

#[test]
fn non_invite_client() {
    let s = ClientState::Trying;
    assert_eq!(client_step(s, ClientEvent::RetransmitTimer, false), (s, ClientAction::Retransmit));
    let (s, a) = client_step(s, ClientEvent::Response(ResponseClass::Provisional), false);
    assert_eq!((s, a), (ClientState::Proceeding, ClientAction::PassUp));
    assert_eq!(client_step(s, ClientEvent::RetransmitTimer, false), (s, ClientAction::Retransmit));
    let (s, a) = client_step(s, ClientEvent::Response(ResponseClass::Success), false);
    assert_eq!((s, a), (ClientState::Completed, ClientAction::PassUp));
    assert_eq!(client_step(s, ClientEvent::Response(ResponseClass::Success), false), (s, ClientAction::Nothing));
    assert_eq!(client_step(s, ClientEvent::LingerTimer, false), (ClientState::Terminated, ClientAction::Terminate));
    assert_eq!(client_step(ClientState::Trying, ClientEvent::TimeoutTimer, false), (ClientState::Terminated, ClientAction::Timeout));
}

#[test]
fn timer_durations() {
    assert_eq!(timer_ms(Timer::B, T1_MS, T4_MS, false), 32_000);
    assert_eq!(timer_ms(Timer::F, T1_MS, T4_MS, true), 32_000);
    assert_eq!(timer_ms(Timer::D, T1_MS, T4_MS, false), 32_000);
    assert_eq!(timer_ms(Timer::D, 1_000, T4_MS, false), 64_000);
    assert_eq!(timer_ms(Timer::D, T1_MS, T4_MS, true), 0);
    assert_eq!(timer_ms(Timer::K, T1_MS, T4_MS, false), 5_000);
    assert_eq!(timer_ms(Timer::K, T1_MS, T4_MS, true), 0);
    assert_eq!(timer_ms(Timer::J, T1_MS, T4_MS, false), 32_000);
    assert_eq!(timer_ms(Timer::I, T1_MS, T4_MS, false), 5_000);
    assert_eq!(timer_ms(Timer::M, T1_MS, T4_MS, false), 32_000);
    assert_eq!(timer_ms(Timer::L, T1_MS, T4_MS, true), 32_000);
}

#[test]
fn server_non_invite() {
    let mut t = ServerTsx::new();
    assert!(matches!(t.on_request_retransmission(), TsxAction::Nothing));
    let _ = t.respond(b"SIP/2.0 100 Trying\r\n\r\n".to_vec(), ResponseClass::Provisional);
    assert_eq!(t.state_of(), ServerState::Proceeding);
    match t.on_request_retransmission() {
        TsxAction::Send(b) => assert_eq!(b, b"SIP/2.0 100 Trying\r\n\r\n".to_vec()),
        _ => panic!("expected resend"),
    }
    let _ = t.respond(b"SIP/2.0 200 OK\r\n\r\n".to_vec(), ResponseClass::Success);
    assert_eq!(t.state_of(), ServerState::Completed);
    match t.on_request_retransmission() {
        TsxAction::Send(b) => assert_eq!(b, b"SIP/2.0 200 OK\r\n\r\n".to_vec()),
        _ => panic!("expected resend"),
    }
    assert!(matches!(t.on_timer_j(), TsxAction::Terminate));
    assert_eq!(t.state_of(), ServerState::Terminated);
}
