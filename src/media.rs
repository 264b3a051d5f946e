//! Identity of media streams and the matching of a negotiated media against
//! a media section of a session description.
use vstd::prelude::*;

verus! {

/// Identifies a single media stream.
#[derive(Debug, Clone, Copy, PartialEq, Eq, Structural)]
pub struct MediaId(pub u32);

impl MediaId {
    /// Returns the current id and moves on to the next.
    pub fn increment(&mut self) -> (r: MediaId)
        requires
            old(self).0 < u32::MAX,
        ensures
            r == *old(self),
            final(self).0 == old(self).0 + 1,
    {
        let id = *self;
        self.0 = self.0 + 1;
        id
    }
}

/// Kinds of media.
#[derive(Debug, Clone, Copy, PartialEq, Eq, Structural)]
pub enum MediaType {
    Audio,
    Video,
    Text,
    Application,
    Message,
}

/// How a transport reaches the peer.
#[derive(Debug, Clone, Copy, PartialEq, Eq, Structural)]
pub enum Connectivity {
    /// Fixed addresses: the port of the peer's RTP address.
    Static { remote_rtp_port: u16 },
    /// Addresses found by ICE.
    Ice,
}

/// What a media section of a session description says, as far as matching goes.
pub struct MediaDescription {
    pub media_type: MediaType,
    pub port: u16,
    pub mid: Option<String>,
    pub ice_ufrag: bool,
}

/// A negotiated media.
pub struct Media {
    pub id: MediaId,
    pub media_type: MediaType,
    /// The media id attribute, set only where the peer supports it.
    pub mid: Option<String>,
    /// Negotiated payload type.
    pub codec_pt: u8,
    /// Negotiated telephone-event payload type.
    pub dtmf_pt: Option<u8>,
}

pub open spec fn opt_str_view(o: Option<String>) -> Option<Seq<char>> {
    match o {
        Some(s) => Some(s@),
        None => None,
    }
}

impl Media {
    /// Whether this media is the one that a media section describes: the
    /// kinds agree, and then the mid agrees where we have one; else the
    /// media's transport decides: a static one by the RTP port, an ICE one
    /// where the session or the section carries an ICE ufrag. `transport` is
    /// the media's transport, `None` where it is gone.
    pub fn matches(
        &self,
        transport: Option<Connectivity>,
        session_ice_ufrag: bool,
        desc: &MediaDescription,
    ) -> (r: bool)
        ensures
            r == (self.media_type == desc.media_type && if self.mid is Some {
                opt_str_view(self.mid) == opt_str_view(desc.mid)
            } else {
                match transport {
                    Some(Connectivity::Static { remote_rtp_port }) => remote_rtp_port == desc.port,
                    Some(Connectivity::Ice) => session_ice_ufrag || desc.ice_ufrag,
                    None => false,
                }
            }),
    {
        if self.media_type != desc.media_type {
            return false;
        }
        match &self.mid {
            Some(m) => {
                return match &desc.mid {
                    Some(d) => m.eq(d),
                    None => false,
                };
            },
            None => {},
        }
        match transport {
            Some(Connectivity::Static { remote_rtp_port }) => remote_rtp_port == desc.port,
            Some(Connectivity::Ice) => session_ice_ufrag || desc.ice_ufrag,
            None => false,
        }
    }

    /// Whether RTP packets with payload type `pt` belong to this media.
    pub fn accepts_pt(&self, pt: u8) -> (r: bool)
        ensures
            r == (self.codec_pt == pt || self.dtmf_pt == Some(pt)),
    {
        self.codec_pt == pt || match self.dtmf_pt {
            Some(d) => d == pt,
            None => false,
        }
    }
}

} // verus!
