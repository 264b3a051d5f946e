use sip_stack::ice::{AttrError, IceControlled, IceControlling, Priority, UseCandidate};

#[test]
fn priority_round_trip() {
    let p = Priority(0x6E00_1EFF);
    let mut buf = Vec::new();
    p.encode(&mut buf);
    assert_eq!(buf, vec![0x6E, 0x00, 0x1E, 0xFF]);
    assert_eq!(p.encode_len(), Ok(buf.len() as u16));
    assert_eq!(Priority::decode(&buf), Ok(p));
}

#[test]
fn priority_wrong_length() {
    assert_eq!(Priority::decode(&[1, 2, 3]), Err(AttrError::InvalidData));
    assert_eq!(Priority::decode(&[1, 2, 3, 4, 5]), Err(AttrError::InvalidData));
}

#[test]
fn ice_controlled_round_trip() {
    let a = IceControlled(0x0102_0304_0506_0708);
    let mut buf = vec![0xAA];
    a.encode(&mut buf);
    assert_eq!(buf, vec![0xAA, 1, 2, 3, 4, 5, 6, 7, 8]);
    assert_eq!(IceControlled::decode(&buf[1..]), Ok(a));
    assert_eq!(a.encode_len(), Ok(8));
}

#[test]
fn ice_controlling_round_trip() {
    let a = IceControlling(u64::MAX - 1);
    let mut buf = Vec::new();
    a.encode(&mut buf);
    assert_eq!(buf.len(), 8);
    assert_eq!(IceControlling::decode(&buf), Ok(a));
    assert_eq!(IceControlling::decode(&buf[..7]), Err(AttrError::InvalidData));
}

#[test]
fn use_candidate_is_empty() {
    let mut buf = vec![9u8];
    UseCandidate.encode(&mut buf);
    assert_eq!(buf, vec![9u8]);
    assert_eq!(UseCandidate.encode_len(), Ok(0));
    assert_eq!(UseCandidate::decode(&[]), Ok(UseCandidate));
}

#[test]
fn attribute_types() {
    assert_eq!(Priority::TYPE, 0x0024);
    assert_eq!(UseCandidate::TYPE, 0x0025);
    assert_eq!(IceControlled::TYPE, 0x8029);
    assert_eq!(IceControlling::TYPE, 0x802A);
}
