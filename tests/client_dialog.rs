use sip_stack::client_builder::{key_from_incoming, ClientDialogBuilder, Dialog, DialogResponse, HeaderError};
use sip_stack::header::{Contact, FromTo, Method, NameAddr, SipUri};

fn uri(s: &str, sips: bool) -> SipUri {
    SipUri { sips, rest: s.to_string() }
}

fn builder() -> ClientDialogBuilder {
    ClientDialogBuilder::new(
        NameAddr { display: Some("Alice".to_string()), uri: uri("alice@a.example", false) },
        Contact { addr: NameAddr::uri(uri("alice@10.0.0.1", false)) },
        uri("bob@b.example", true),
        1,
        "tag-a".to_string(),
        "call-1".to_string(),
    )
}

#[test]
fn new_builder() {
    let b = builder();
    assert_eq!(b.local_cseq, 1);
    assert!(b.secure);
    assert_eq!(b.local_fromto.tag.as_deref(), Some("tag-a"));
    assert_eq!(b.peer_fromto.tag, None);
    assert_eq!(b.peer_fromto.addr.uri.rest, "bob@b.example");
    assert_eq!(b.call_id, "call-1");
}

#[test]
fn initial_request() {
    let mut b = builder();
    let r = b.create_request(Method::Invite);
    assert_eq!(r.method, Method::Invite);
    assert_eq!(r.uri.rest, "bob@b.example");
    assert_eq!(r.max_forwards, 70);
    assert_eq!(r.cseq, 1);
    assert_eq!(r.call_id, "call-1");
    assert_eq!(r.from.tag.as_deref(), Some("tag-a"));
    assert!(r.body.is_empty());
}

#[test]
fn dialog_from_response() {
    let mut b = builder();
    let resp = DialogResponse {
        to: FromTo::new(NameAddr::uri(uri("bob@b.example", true)), Some("tag-b".to_string())),
        contact: Some(Contact { addr: NameAddr::uri(uri("bob@10.0.0.2", true)) }),
        record_route: vec![NameAddr::uri(uri("proxy.example;lr", true))],
    };
    let (d, e) = b.create_dialog_from_response::<u8, ()>(&resp).ok().unwrap();
    assert_eq!(d.peer_fromto.tag.as_deref(), Some("tag-b"));
    assert_eq!(d.peer_contact.addr.uri.rest, "bob@10.0.0.2");
    assert_eq!(d.route_set.len(), 1);
    assert_eq!(d.local_cseq, 1);
    assert_eq!(e.next_peer_cseq(), None);
    let k = d.key();
    assert_eq!(k.call_id, "call-1");
    assert_eq!(k.local_tag.as_deref(), Some("tag-a"));
    assert_eq!(k.peer_tag.as_deref(), Some("tag-b"));
}

#[test]
fn dialog_needs_contact() {
    let mut b = builder();
    let resp = DialogResponse {
        to: FromTo::new(NameAddr::uri(uri("bob@b.example", true)), Some("tag-b".to_string())),
        contact: None,
        record_route: vec![],
    };
    assert_eq!(b.create_dialog_from_response::<u8, ()>(&resp).err(), Some(HeaderError::MissingContact));
}

fn established() -> Dialog {
    let mut b = builder();
    let resp = DialogResponse {
        to: FromTo::new(NameAddr::uri(uri("bob@b.example", true)), Some("tag-b".to_string())),
        contact: Some(Contact { addr: NameAddr::uri(uri("bob@10.0.0.2", true)) }),
        record_route: vec![],
    };
    b.create_dialog_from_response::<u8, ()>(&resp).ok().unwrap().0
}

#[test]
fn bye_takes_next_cseq() {
    let mut d = established();
    let bye = d.create_request(Method::Bye);
    assert_eq!(bye.cseq, 2);
    assert_eq!(d.local_cseq, 2);
    assert_eq!(bye.method, Method::Bye);
    assert_eq!(bye.uri.rest, "bob@10.0.0.2");
    assert_eq!(bye.to.tag.as_deref(), Some("tag-b"));
}

#[test]
fn ack_keeps_invite_cseq() {
    let mut d = established();
    let invite = d.create_request(Method::Invite);
    let ack = d.create_ack(invite.cseq);
    assert_eq!(ack.cseq, invite.cseq);
    assert_eq!(ack.method, Method::Ack);
    assert_eq!(d.local_cseq, invite.cseq);
}

#[test]
fn incoming_key() {
    let call_id = "c".to_string();
    assert!(key_from_incoming(&call_id, &Some("f".to_string()), &None).is_none());
    let k = key_from_incoming(&call_id, &Some("f".to_string()), &Some("t".to_string())).unwrap();
    assert_eq!(k.local_tag.as_deref(), Some("t"));
    assert_eq!(k.peer_tag.as_deref(), Some("f"));
    assert_eq!(k.call_id, "c");
}
