//! Settings of an H.264 encoder derived from negotiated format parameters.
//!
//! The encoder itself is openh264's; these are the values handed to its
//! configuration, as plain data.
use vstd::prelude::*;

verus! {

/// H.264 profiles that format parameters can name.
#[derive(Debug, Clone, Copy, PartialEq, Eq, Structural)]
pub enum Profile {
    ConstrainedBaseline,
    Baseline,
    Main,
    Extended,
    High,
    High10,
    High10Intra,
    High422,
    High422Intra,
    High444Predictive,
    High444Intra,
    CAVLC444Intra,
}

/// H.264 levels that format parameters can name.
#[allow(non_camel_case_types)]
#[derive(Debug, Clone, Copy, PartialEq, Eq, Structural)]
pub enum Level {
    Level_1_0,
    Level_1_B,
    Level_1_1,
    Level_1_2,
    Level_1_3,
    Level_2_0,
    Level_2_1,
    Level_2_2,
    Level_3_0,
    Level_3_1,
    Level_3_2,
    Level_4_0,
    Level_4_1,
    Level_4_2,
    Level_5_0,
    Level_5_1,
    Level_5_2,
    Level_6_0,
    Level_6_1,
    Level_6_2,
}

/// The profiles that the encoder implements.
#[derive(Debug, Clone, Copy, PartialEq, Eq, Structural)]
pub enum EncoderProfile {
    Baseline,
    Main,
    Extended,
    High,
    High10,
    High422,
    High444,
    CAVLC444,
}

/// The levels that the encoder implements: up to 5.2.
#[allow(non_camel_case_types)]
#[derive(Debug, Clone, Copy, PartialEq, Eq, Structural)]
pub enum EncoderLevel {
    Level_1_0,
    Level_1_B,
    Level_1_1,
    Level_1_2,
    Level_1_3,
    Level_2_0,
    Level_2_1,
    Level_2_2,
    Level_3_0,
    Level_3_1,
    Level_3_2,
    Level_4_0,
    Level_4_1,
    Level_4_2,
    Level_5_0,
    Level_5_1,
    Level_5_2,
}

pub open spec fn profile_spec(p: Profile) -> EncoderProfile {
    match p {
        Profile::ConstrainedBaseline => EncoderProfile::Baseline,
        Profile::Baseline => EncoderProfile::Baseline,
        Profile::Main => EncoderProfile::Main,
        Profile::Extended => EncoderProfile::Extended,
        Profile::High => EncoderProfile::High,
        Profile::High10 => EncoderProfile::High10,
        Profile::High10Intra => EncoderProfile::High10,
        Profile::High422 => EncoderProfile::High422,
        Profile::High422Intra => EncoderProfile::High422,
        Profile::High444Predictive => EncoderProfile::High444,
        Profile::High444Intra => EncoderProfile::High444,
        Profile::CAVLC444Intra => EncoderProfile::CAVLC444,
    }
}

/// Each profile maps to the encoder profile of its family; the intra-only
/// and constrained variants go to their base profile.
pub fn map_profile(p: Profile) -> (r: EncoderProfile)
    ensures
        r == profile_spec(p),
{
    match p {
        Profile::ConstrainedBaseline => EncoderProfile::Baseline,
        Profile::Baseline => EncoderProfile::Baseline,
        Profile::Main => EncoderProfile::Main,
        Profile::Extended => EncoderProfile::Extended,
        Profile::High => EncoderProfile::High,
        Profile::High10 => EncoderProfile::High10,
        Profile::High10Intra => EncoderProfile::High10,
        Profile::High422 => EncoderProfile::High422,
        Profile::High422Intra => EncoderProfile::High422,
        Profile::High444Predictive => EncoderProfile::High444,
        Profile::High444Intra => EncoderProfile::High444,
        Profile::CAVLC444Intra => EncoderProfile::CAVLC444,
    }
}

pub open spec fn level_spec(l: Level) -> EncoderLevel {
    match l {
        Level::Level_1_0 => EncoderLevel::Level_1_0,
        Level::Level_1_B => EncoderLevel::Level_1_B,
        Level::Level_1_1 => EncoderLevel::Level_1_1,
        Level::Level_1_2 => EncoderLevel::Level_1_2,
        Level::Level_1_3 => EncoderLevel::Level_1_3,
        Level::Level_2_0 => EncoderLevel::Level_2_0,
        Level::Level_2_1 => EncoderLevel::Level_2_1,
        Level::Level_2_2 => EncoderLevel::Level_2_2,
        Level::Level_3_0 => EncoderLevel::Level_3_0,
        Level::Level_3_1 => EncoderLevel::Level_3_1,
        Level::Level_3_2 => EncoderLevel::Level_3_2,
        Level::Level_4_0 => EncoderLevel::Level_4_0,
        Level::Level_4_1 => EncoderLevel::Level_4_1,
        Level::Level_4_2 => EncoderLevel::Level_4_2,
        Level::Level_5_0 => EncoderLevel::Level_5_0,
        Level::Level_5_1 => EncoderLevel::Level_5_1,
        Level::Level_5_2 => EncoderLevel::Level_5_2,
        Level::Level_6_0 => EncoderLevel::Level_5_2,
        Level::Level_6_1 => EncoderLevel::Level_5_2,
        Level::Level_6_2 => EncoderLevel::Level_5_2,
    }
}

/// Each level maps to itself; levels 6 and above, which the encoder lacks,
/// map to 5.2.
pub fn map_level(l: Level) -> (r: EncoderLevel)
    ensures
        r == level_spec(l),
{
    match l {
        Level::Level_1_0 => EncoderLevel::Level_1_0,
        Level::Level_1_B => EncoderLevel::Level_1_B,
        Level::Level_1_1 => EncoderLevel::Level_1_1,
        Level::Level_1_2 => EncoderLevel::Level_1_2,
        Level::Level_1_3 => EncoderLevel::Level_1_3,
        Level::Level_2_0 => EncoderLevel::Level_2_0,
        Level::Level_2_1 => EncoderLevel::Level_2_1,
        Level::Level_2_2 => EncoderLevel::Level_2_2,
        Level::Level_3_0 => EncoderLevel::Level_3_0,
        Level::Level_3_1 => EncoderLevel::Level_3_1,
        Level::Level_3_2 => EncoderLevel::Level_3_2,
        Level::Level_4_0 => EncoderLevel::Level_4_0,
        Level::Level_4_1 => EncoderLevel::Level_4_1,
        Level::Level_4_2 => EncoderLevel::Level_4_2,
        Level::Level_5_0 => EncoderLevel::Level_5_0,
        Level::Level_5_1 => EncoderLevel::Level_5_1,
        Level::Level_5_2 => EncoderLevel::Level_5_2,
        Level::Level_6_0 => EncoderLevel::Level_5_2,
        Level::Level_6_1 => EncoderLevel::Level_5_2,
        Level::Level_6_2 => EncoderLevel::Level_5_2,
    }
}

/// Encoder parameters that format negotiation settles.
#[derive(Debug, Clone, Copy)]
pub struct H264EncoderConfig {
    pub profile: Profile,
    pub level: Level,
    /// Quantizer range, smallest and largest.
    pub qp: Option<(u32, u32)>,
    /// Frames between two I-frames.
    pub gop: Option<u32>,
    /// Target bitrate in bits per second.
    pub bitrate: Option<u32>,
    /// Largest slice, in bytes.
    pub max_slice_len: Option<u32>,
}

/// What the encoder configuration is set to; `None` leaves the encoder's default.
#[derive(Debug, Clone, Copy)]
pub struct EncoderSettings {
    pub profile: EncoderProfile,
    pub level: EncoderLevel,
    pub qp: Option<(u8, u8)>,
    pub intra_frame_period: Option<u32>,
    pub bitrate_bps: Option<u32>,
    pub max_slice_len: Option<u32>,
}

/// The encoder takes quantizers from 0 to 51, the smallest first.
pub open spec fn qp_valid(c: H264EncoderConfig) -> bool {
    c.qp matches Some((lo, hi)) ==> lo <= hi <= 51
}

/// The encoder settings for negotiated parameters.
pub fn openh264_encoder_config(c: H264EncoderConfig) -> (r: EncoderSettings)
    requires
        qp_valid(c),
    ensures
        r.profile == profile_spec(c.profile),
        r.level == level_spec(c.level),
        match c.qp {
            Some((lo, hi)) => r.qp == Some((lo as u8, hi as u8)),
            None => r.qp is None,
        },
        r.intra_frame_period == c.gop,
        r.bitrate_bps == c.bitrate,
        r.max_slice_len == c.max_slice_len,
{
    let qp = match c.qp {
        Some((lo, hi)) => Some((lo as u8, hi as u8)),
        None => None,
    };
    EncoderSettings {
        profile: map_profile(c.profile),
        level: map_level(c.level),
        qp,
        intra_frame_period: c.gop,
        bitrate_bps: c.bitrate,
        max_slice_len: c.max_slice_len,
    }
}

} // verus!
