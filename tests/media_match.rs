use sip_stack::media::{Connectivity, Media, MediaDescription, MediaId, MediaType};

fn media(mid: Option<&str>) -> Media {
    Media { id: MediaId(0), media_type: MediaType::Audio, mid: mid.map(|s| s.to_string()), codec_pt: 96, dtmf_pt: Some(101) }
}

fn desc(mid: Option<&str>, port: u16, ice: bool) -> MediaDescription {
    MediaDescription { media_type: MediaType::Audio, port, mid: mid.map(|s| s.to_string()), ice_ufrag: ice }
}

#[test]
fn media_id_increment() {
    let mut id = MediaId(4);
    assert_eq!(id.increment(), MediaId(4));
    assert_eq!(id, MediaId(5));
}

#[test]
fn payload_types() {
    let m = media(None);
    assert!(m.accepts_pt(96));
    assert!(m.accepts_pt(101));
    assert!(!m.accepts_pt(0));
}

#[test]
fn matching_by_mid_and_transport() {
    assert!(media(Some("0")).matches(None, false, &desc(Some("0"), 1, false)));
    assert!(!media(Some("0")).matches(None, false, &desc(Some("1"), 1, false)));
    let m = media(None);
    assert!(m.matches(Some(Connectivity::Static { remote_rtp_port: 4000 }), false, &desc(None, 4000, false)));
    assert!(!m.matches(Some(Connectivity::Static { remote_rtp_port: 4000 }), false, &desc(None, 4002, false)));
    assert!(m.matches(Some(Connectivity::Ice), true, &desc(None, 9, false)));
    assert!(!m.matches(Some(Connectivity::Ice), false, &desc(None, 9, false)));
    assert!(!m.matches(None, true, &desc(None, 9, true)));
    let mut video = desc(None, 4000, false);
    video.media_type = MediaType::Video;
    assert!(!m.matches(Some(Connectivity::Static { remote_rtp_port: 4000 }), false, &video));
}
