use sip_stack::endpoint::{default_response, has_branch_cookie, MessageKey, TsxKey};
use sip_stack::header::Method;
use sip_stack::session::{invite_usage_receive, SessionState, UsageReceive};

fn key(branch: &str, method: Method, sent_by: &str) -> TsxKey {
    TsxKey { branch: branch.as_bytes().to_vec(), method, sent_by: sent_by.as_bytes().to_vec() }
}

fn msg(branch: &str, method: Method, sent_by: &str) -> MessageKey {
    MessageKey { branch: branch.as_bytes().to_vec(), method, sent_by: sent_by.as_bytes().to_vec() }
}

#[test]
fn server_transaction_matching() {
    let k = key("z9hG4bK776", Method::Invite, "pc33.example.com:5060");
    assert!(k.matches_request(&msg("z9hG4bK776", Method::Invite, "pc33.example.com:5060")));
    assert!(k.matches_request(&msg("z9hG4bK776", Method::Ack, "pc33.example.com:5060")));
    assert!(!k.matches_request(&msg("z9hG4bK776", Method::Bye, "pc33.example.com:5060")));
    assert!(!k.matches_request(&msg("z9hG4bK777", Method::Invite, "pc33.example.com:5060")));
    assert!(!k.matches_request(&msg("z9hG4bK776", Method::Invite, "pc34.example.com:5060")));
}

#[test]
fn client_transaction_matching() {
    let k = key("z9hG4bK1", Method::Invite, "a:5060");
    assert!(k.matches_response(&msg("z9hG4bK1", Method::Invite, "a:5060")));
    assert!(!k.matches_response(&msg("z9hG4bK1", Method::Ack, "a:5060")));
    assert!(!k.matches_response(&msg("z9hG4bK2", Method::Invite, "a:5060")));
}

#[test]
fn branch_cookie() {
    assert!(has_branch_cookie(&b"z9hG4bKabc".to_vec()));
    assert!(has_branch_cookie(&b"z9hG4bK".to_vec()));
    assert!(!has_branch_cookie(&b"z9hG4b".to_vec()));
    assert!(!has_branch_cookie(&b"Z9hG4bKabc".to_vec()));
}

#[test]
fn default_responses() {
    assert_eq!(default_response(Some(Method::Options)), Some(405));
    assert_eq!(default_response(None), Some(501));
    assert_eq!(default_response(Some(Method::Ack)), None);
}

#[test]
fn invite_usage_takes_awaited_ack() {
    let mut awaited = Some(7u32);
    assert_eq!(invite_usage_receive(SessionState::Confirmed, &mut awaited, Method::Ack, 6), UsageReceive::NotTaken);
    assert_eq!(awaited, Some(7));
    assert_eq!(invite_usage_receive(SessionState::Confirmed, &mut awaited, Method::Ack, 7), UsageReceive::AwaitedAck);
    assert_eq!(awaited, None);
    assert_eq!(invite_usage_receive(SessionState::Confirmed, &mut awaited, Method::Invite, 8), UsageReceive::ReInvite);
    assert_eq!(invite_usage_receive(SessionState::Confirmed, &mut awaited, Method::Bye, 9), UsageReceive::Bye);
    assert_eq!(invite_usage_receive(SessionState::Terminating, &mut awaited, Method::Invite, 10), UsageReceive::NotTaken);
    assert_eq!(invite_usage_receive(SessionState::Confirmed, &mut awaited, Method::Info, 11), UsageReceive::NotTaken);
}
