use sip_stack::h264::{map_level, map_profile, openh264_encoder_config, EncoderLevel, EncoderProfile, H264EncoderConfig, Level, Profile};

#[test]
fn levels_above_five_two_clamp() {
    assert_eq!(map_level(Level::Level_6_0), EncoderLevel::Level_5_2);
    assert_eq!(map_level(Level::Level_6_2), EncoderLevel::Level_5_2);
    assert_eq!(map_level(Level::Level_3_1), EncoderLevel::Level_3_1);
    assert_eq!(map_level(Level::Level_1_B), EncoderLevel::Level_1_B);
}

#[test]
fn profiles_map_to_family() {
    assert_eq!(map_profile(Profile::ConstrainedBaseline), EncoderProfile::Baseline);
    assert_eq!(map_profile(Profile::High10Intra), EncoderProfile::High10);
    assert_eq!(map_profile(Profile::High444Predictive), EncoderProfile::High444);
    assert_eq!(map_profile(Profile::CAVLC444Intra), EncoderProfile::CAVLC444);
}

#[test]
fn encoder_config() {
    let c = H264EncoderConfig {
        profile: Profile::Main,
        level: Level::Level_6_1,
        qp: Some((10, 40)),
        gop: Some(60),
        bitrate: Some(1_000_000),
        max_slice_len: None,
    };
    let s = openh264_encoder_config(c);
    assert_eq!(s.profile, EncoderProfile::Main);
    assert_eq!(s.level, EncoderLevel::Level_5_2);
    assert_eq!(s.qp, Some((10u8, 40u8)));
    assert_eq!(s.intra_frame_period, Some(60));
    assert_eq!(s.bitrate_bps, Some(1_000_000));
    assert_eq!(s.max_slice_len, None);
}
