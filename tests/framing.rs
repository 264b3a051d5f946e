use bytes::Bytes;
use sip_stack::framer::{Header, SipMessage};
use sip_stack::serializer::serialize;
use sip_stack::framer::{decode_stream, is_stun_message, parse_complete, CompleteItem, Decoded, ParseError, StunCheck};

fn sip(item: Result<CompleteItem, ParseError>) -> SipMessage {
    match item {
        Ok(CompleteItem::Sip(m)) => m,
        _ => panic!("not a SIP message"),
    }
}

const INVITE_HEAD: &str = "INVITE sip:bob@example.com SIP/2.0\r\nVia: SIP/2.0/UDP host;branch=z9hG4bK1\r\nCSeq: 1 INVITE\r\n";

#[test]
fn zero_content_length_gives_empty_body() {
    let msg = format!("{}Content-Length: 0\r\n\r\nignored", INVITE_HEAD);
    let m = sip(parse_complete(msg.as_bytes()));
    assert!(m.body.is_empty());
    assert_eq!(m.headers.len(), 3);
    assert_eq!(m.line, b"INVITE sip:bob@example.com SIP/2.0".to_vec());
}

#[test]
fn datagram_without_content_length_takes_tail() {
    let msg = format!("{}\r\nv=0\r\no=- 1 1 IN IP4 x\r\n", INVITE_HEAD);
    let m = sip(parse_complete(msg.as_bytes()));
    assert_eq!(m.body, b"v=0\r\no=- 1 1 IN IP4 x\r\n".to_vec());
    assert_eq!(m.buffer, msg.as_bytes().to_vec());
}

#[test]
fn datagram_content_length_bounds_body() {
    let msg = format!("{}l: 3\r\n\r\nabcdef", INVITE_HEAD);
    let m = sip(parse_complete(msg.as_bytes()));
    assert_eq!(m.body, b"abc".to_vec());
    let short = format!("{}Content-Length: 10\r\n\r\nabc", INVITE_HEAD);
    assert_eq!(parse_complete(short.as_bytes()).err(), Some(ParseError::FailedToParse));
}

#[test]
fn header_fields_are_split() {
    let msg = format!("{}X-Thing :   some value\r\n\r\n", INVITE_HEAD);
    let m = sip(parse_complete(msg.as_bytes()));
    let h = &m.headers[2];
    assert_eq!(h.name, b"X-Thing".to_vec());
    assert_eq!(h.value, b"some value".to_vec());
    assert_eq!(m.headers[1].name, b"CSeq".to_vec());
    assert_eq!(m.headers[1].value, b"1 INVITE".to_vec());
}

#[test]
fn malformed_header_is_error() {
    let msg = format!("{}NoColonHere\r\n\r\n", INVITE_HEAD);
    assert!(parse_complete(msg.as_bytes()).is_err());
    let no_head_end = "INVITE sip:a SIP/2.0\r\nCSeq: 1 INVITE\r\n";
    assert!(parse_complete(no_head_end.as_bytes()).is_err());
}

#[test]
fn keep_alive_datagrams() {
    assert!(matches!(parse_complete(b"\r\n\r\n"), Ok(CompleteItem::KeepAliveRequest)));
    assert!(matches!(parse_complete(b"\r\n"), Ok(CompleteItem::KeepAliveResponse)));
}

fn stun_binding(attr_len: u8) -> Vec<u8> {
    let mut v = vec![0x00, 0x01, 0x00, attr_len, 0x21, 0x12, 0xA4, 0x42];
    v.extend_from_slice(&[7u8; 12]);
    v.extend(std::iter::repeat(0u8).take(attr_len as usize));
    v
}

#[test]
fn stun_is_recognised() {
    let v = stun_binding(8);
    assert_eq!(is_stun_message(&v), StunCheck::Complete(28));
    assert_eq!(is_stun_message(&v[..25]), StunCheck::Incomplete);
    assert_eq!(is_stun_message(&v[..10]), StunCheck::TooShort);
    match parse_complete(&v) {
        Ok(CompleteItem::Stun(b)) => assert_eq!(b, v),
        _ => panic!("expected STUN"),
    }
    assert!(parse_complete(&v[..25]).is_err());
    let mut not_stun = v.clone();
    not_stun[4] = 0;
    assert_eq!(is_stun_message(&not_stun), StunCheck::NotStun);
}

#[test]
fn stream_without_content_length_is_error() {
    let msg = format!("{}\r\nbody", INVITE_HEAD);
    assert_eq!(decode_stream(msg.as_bytes()).err(), Some(ParseError::FailedToParse));
}

#[test]
fn stream_frames_by_content_length() {
    let msg = format!("{}Content-Length: 4\r\n\r\nbodyNEXT", INVITE_HEAD);
    let total = msg.len() - 4;
    match decode_stream(msg.as_bytes()) {
        Ok(Decoded::Item(CompleteItem::Sip(m), n)) => {
            assert_eq!(m.body, b"body".to_vec());
            assert_eq!(n, total);
        }
        _ => panic!("expected a framed message"),
    }
    assert!(matches!(decode_stream(&msg.as_bytes()[..total - 1]), Ok(Decoded::Incomplete)));
    assert!(matches!(decode_stream(&msg.as_bytes()[..20]), Ok(Decoded::Incomplete)));
}

#[test]
fn stream_keep_alives() {
    assert!(matches!(decode_stream(b"\r\n\r\nINVITE"), Ok(Decoded::Item(CompleteItem::KeepAliveRequest, 4))));
    assert!(matches!(decode_stream(b"\r\nINVITE"), Ok(Decoded::Item(CompleteItem::KeepAliveResponse, 2))));
    assert!(matches!(decode_stream(b""), Ok(Decoded::Incomplete)));
}

#[test]
fn stream_stun() {
    let mut v = stun_binding(4);
    v.extend_from_slice(b"\r\n");
    match decode_stream(&v) {
        Ok(Decoded::Item(CompleteItem::Stun(b), 24)) => assert_eq!(b.len(), 24),
        _ => panic!("expected STUN"),
    }
}

#[test]
fn serialized_message_frames_back() {
    let m = SipMessage {
        line: b"SIP/2.0 200 OK".to_vec(),
        headers: vec![
            Header { name: b"CSeq".to_vec(), value: b"2 INVITE".to_vec() },
            Header { name: b"Content-Length".to_vec(), value: b"5".to_vec() },
        ],
        body: Bytes::from_static(b"hello"),
        buffer: Bytes::new(),
    };
    let bytes = serialize(&m);
    assert_eq!(bytes, b"SIP/2.0 200 OK\r\nCSeq: 2 INVITE\r\nContent-Length: 5\r\n\r\nhello".to_vec());
    let back = sip(parse_complete(&bytes));
    assert_eq!(back.line, m.line);
    assert_eq!(back.body, m.body);
    assert_eq!(back.headers.len(), 2);
    assert_eq!(back.headers[0].value, b"2 INVITE".to_vec());
    match decode_stream(&bytes) {
        Ok(Decoded::Item(CompleteItem::Sip(s), n)) => {
            assert_eq!(n, bytes.len());
            assert_eq!(s.body, m.body);
        }
        _ => panic!("expected a framed message"),
    }
}

#[test]
fn start_line_must_be_request_or_status() {
    assert!(parse_complete(b"A B\r\n\r\n").is_err());
    assert!(parse_complete(b"INVITE sip:bob@example.com HTTP/1.1\r\n\r\n").is_err());
    assert!(parse_complete(b"INVITE sip:a b SIP/2.0\r\nCSeq: 1 INVITE\r\n\r\n").is_err());
    assert!(parse_complete(b"INV(TE sip:bob@example.com SIP/2.0\r\n\r\n").is_err());
    assert!(parse_complete(b"SIP/2.0 2x0 OK\r\nCSeq: 1 INVITE\r\n\r\n").is_err());
    let m = sip(parse_complete(b"SIP/2.0 180 Ringing\r\nCSeq: 1 INVITE\r\n\r\n"));
    assert_eq!(m.line, b"SIP/2.0 180 Ringing".to_vec());
    let m = sip(parse_complete(b"OPTIONS sip:carol@chicago.com SIP/2.0\r\n\r\n"));
    assert!(m.headers.is_empty());
}

#[test]
fn header_names_must_be_tokens() {
    let msg = format!("{}Bad Name: x\r\n\r\n", INVITE_HEAD);
    assert!(parse_complete(msg.as_bytes()).is_err());
    let msg = format!("{}: x\r\n\r\n", INVITE_HEAD);
    assert!(parse_complete(msg.as_bytes()).is_err());
}

#[test]
fn folded_header_is_joined() {
    let msg = format!("{}Subject: I know you're there,\r\n    pick up the phone\r\n\r\n", INVITE_HEAD);
    let m = sip(parse_complete(msg.as_bytes()));
    assert_eq!(m.headers.len(), 3);
    assert_eq!(m.headers[2].name, b"Subject".to_vec());
    assert_eq!(m.headers[2].value, b"I know you're there, pick up the phone".to_vec());
    let orphan = "INVITE sip:a SIP/2.0\r\n continued\r\n\r\n";
    assert!(parse_complete(orphan.as_bytes()).is_err());
}

#[test]
fn short_stream_head_without_content_length_fails() {
    let head = b"A a SIP/2.0\r\n\r\n";
    assert!(head.len() < 20);
    assert_eq!(decode_stream(head).err(), Some(ParseError::FailedToParse));
    assert_eq!(is_stun_message(b"A a"), StunCheck::NotStun);
    assert_eq!(is_stun_message(&[0u8, 1, 0]), StunCheck::TooShort);
    let m = sip(parse_complete(head));
    assert!(m.body.is_empty());
}

#[test]
fn head_must_be_utf8() {
    let mut msg = INVITE_HEAD.as_bytes().to_vec();
    msg.extend_from_slice(b"Subject: caf\xFF\r\n\r\n");
    assert!(parse_complete(&msg).is_err());
    let ok = format!("{}Subject: caf\u{e9}\r\n\r\n", INVITE_HEAD);
    let m = sip(parse_complete(ok.as_bytes()));
    assert_eq!(m.headers[2].value, "caf\u{e9}".as_bytes().to_vec());
}
