use sip_stack::client_builder::DialogKey;
use sip_stack::dialog::{DialogEntry, DialogTable, Received};

fn key(call: &str, local: &str, peer: &str) -> DialogKey {
    DialogKey { call_id: call.to_string(), local_tag: Some(local.to_string()), peer_tag: Some(peer.to_string()) }
}

#[test]
fn table_routes_by_key() {
    let mut t: DialogTable<&str, &str> = DialogTable::new();
    t.insert(key("c1", "a", "b"), DialogEntry::new(Some(4)));
    t.insert(key("c2", "a", "b"), DialogEntry::new(None));
    match t.receive(&key("c1", "a", "b"), 5, "five") {
        Ok(Received::Deliver(v)) => assert_eq!(v, vec![(5, "five")]),
        _ => panic!("expected delivery"),
    }
    assert!(matches!(t.receive(&key("c1", "a", "b"), 7, "seven"), Ok(Received::Buffered)));
    match t.receive(&key("c1", "a", "x"), 1, "stray") {
        Err(q) => assert_eq!(q, "stray"),
        _ => panic!("expected no dialog"),
    }
    let h = t.register_usage(&key("c2", "a", "b"), "invite");
    assert!(h.is_some());
    assert!(t.register_usage(&key("c3", "a", "b"), "invite").is_none());
    let e = t.remove(&key("c1", "a", "b")).unwrap();
    assert_eq!(e.next_peer_cseq(), Some(6));
    assert_eq!(e.backlog_len(), 1);
    assert!(t.remove(&key("c1", "a", "b")).is_none());
    assert!(t.receive(&key("c1", "a", "b"), 6, "six").is_err());
}

#[test]
fn insert_replaces_entry() {
    let mut t: DialogTable<u8, ()> = DialogTable::new();
    t.insert(key("c", "a", "b"), DialogEntry::new(Some(1)));
    t.insert(key("c", "a", "b"), DialogEntry::new(Some(10)));
    let e = t.remove(&key("c", "a", "b")).unwrap();
    assert_eq!(e.next_peer_cseq(), Some(11));
}
