use sip_stack::dialog::{handle_unwanted_request, DialogEntry, Received, UnwantedReply, MAX_CSEQ};
use sip_stack::header::Method;

fn delivered(r: Received<&'static str>) -> Vec<(u32, &'static str)> {
    match r {
        Received::Deliver(v) => v,
        _ => panic!("expected delivery"),
    }
}

#[test]
fn out_of_order_requests_are_reordered() {
    let mut e: DialogEntry<&str, ()> = DialogEntry::new(Some(5));
    assert_eq!(e.next_peer_cseq(), Some(6));
    assert!(matches!(e.receive(7, "seven"), Received::Buffered));
    assert_eq!(e.backlog_len(), 1);
    let v = delivered(e.receive(6, "six"));
    assert_eq!(v, vec![(6, "six"), (7, "seven")]);
    assert_eq!(e.next_peer_cseq(), Some(8));
    assert_eq!(e.backlog_len(), 0);
}

#[test]
fn first_request_sets_expected_cseq() {
    let mut e: DialogEntry<&str, ()> = DialogEntry::new(None);
    assert_eq!(e.next_peer_cseq(), None);
    let v = delivered(e.receive(100, "a"));
    assert_eq!(v, vec![(100, "a")]);
    assert_eq!(e.next_peer_cseq(), Some(101));
}

#[test]
fn lower_cseq_is_delivered_at_once() {
    let mut e: DialogEntry<&str, ()> = DialogEntry::new(Some(9));
    let v = delivered(e.receive(3, "ack"));
    assert_eq!(v, vec![(3, "ack")]);
    assert_eq!(e.next_peer_cseq(), Some(10));
}

#[test]
fn backlog_drains_only_contiguous_run() {
    let mut e: DialogEntry<&str, ()> = DialogEntry::new(Some(0));
    assert!(matches!(e.receive(3, "c"), Received::Buffered));
    assert!(matches!(e.receive(2, "b"), Received::Buffered));
    assert!(matches!(e.receive(5, "e"), Received::Buffered));
    let v = delivered(e.receive(1, "a"));
    assert_eq!(v, vec![(1, "a"), (2, "b"), (3, "c")]);
    assert_eq!(e.next_peer_cseq(), Some(4));
    assert_eq!(e.backlog_len(), 1);
    let v = delivered(e.receive(4, "d"));
    assert_eq!(v, vec![(4, "d"), (5, "e")]);
    assert_eq!(e.next_peer_cseq(), Some(6));
}

#[test]
fn largest_cseq_is_rejected() {
    let mut e: DialogEntry<&str, ()> = DialogEntry::new(Some(10));
    match e.receive(MAX_CSEQ, "x") {
        Received::Rejected(q) => assert_eq!(q, "x"),
        _ => panic!("expected rejection"),
    }
    assert_eq!(e.next_peer_cseq(), Some(11));
    assert_eq!(e.backlog_len(), 0);
    let mut fresh: DialogEntry<&str, ()> = DialogEntry::new(None);
    assert!(matches!(fresh.receive(u32::MAX, "y"), Received::Rejected(_)));
    assert_eq!(fresh.next_peer_cseq(), None);
}

#[test]
fn cseq_just_below_largest_is_accepted() {
    let mut e: DialogEntry<&str, ()> = DialogEntry::new(None);
    let v = delivered(e.receive(u32::MAX - 1, "z"));
    assert_eq!(v, vec![(u32::MAX - 1, "z")]);
    assert_eq!(e.next_peer_cseq(), Some(u32::MAX));
}

#[test]
fn unwanted_requests() {
    assert_eq!(handle_unwanted_request(Method::Ack), UnwantedReply::Drop);
    assert_eq!(handle_unwanted_request(Method::Invite), UnwantedReply::NotFoundInvite);
    assert_eq!(handle_unwanted_request(Method::Bye), UnwantedReply::NotFound);
}

#[test]
fn usages_register_and_remove() {
    let mut e: DialogEntry<u32, &str> = DialogEntry::new(None);
    let a = e.register_usage("invite").unwrap();
    let b = e.register_usage("subscription").unwrap();
    assert_ne!(a, b);
    assert_eq!(e.remove_usage(a), Some("invite"));
    assert_eq!(e.remove_usage(a), None);
    let c = e.register_usage("refer").unwrap();
    assert!(c != a && c != b);
    assert_eq!(e.remove_usage(b), Some("subscription"));
    assert_eq!(e.remove_usage(c), Some("refer"));
}
