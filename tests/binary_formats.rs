use obot_converter::formats::url::UrlReplayType;
use obot_converter::replay::{Click, ClickType, GameVersion, Replay, ReplayError, Settings};

fn fps(v: f32) -> u32 {
    v.to_bits()
}

fn replay_with(clicks: Vec<Click>) -> Replay {
    let mut r = Replay::new(fps(60.0), GameVersion::Any, Settings::default());
    r.clicks = clicks;
    r
}

fn two_player_replay() -> Replay {
    replay_with(vec![
        Click::from_hold(10, true, false),
        Click::from_hold(12, false, false),
        Click { frame: 20, p1: ClickType::Click, p2: ClickType::Release },
        Click::from_hold(30, true, true),
    ])
}

fn expected_events() -> Vec<Click> {
    vec![
        Click::from_hold(10, true, false),
        Click::from_hold(12, false, false),
        Click::from_hold(20, true, false),
        Click::from_hold(20, false, true),
        Click::from_hold(30, true, true),
    ]
}

#[test]
fn kdbot_scenario_bytes_and_round_trip() {
    let r = replay_with(vec![Click::from_hold(10, true, false), Click::from_hold(12, false, false)]);
    let bytes = r.write_kdbot();
    assert_eq!(
        bytes,
        vec![
            0x00, 0x00, 0x70, 0x42, 0x0A, 0x00, 0x00, 0x00, 0x01, 0x00, 0x0C, 0x00, 0x00, 0x00, 0x00,
            0x00
        ]
    );
    let mut back = Replay::default();
    back.clear();
    assert_eq!(back.parse_kdbot(&bytes), Ok(()));
    assert_eq!(f32::from_bits(back.fps), 60.0);
    assert_eq!(back.clicks, r.clicks);
    assert_eq!(back.game_version, GameVersion::Version2113);
}

#[test]
fn kdbot_splits_two_player_click() {
    let bytes = two_player_replay().write_kdbot();
    assert_eq!(bytes.len(), 4 + 6 * 5);
    let mut back = Replay::default();
    back.clear();
    back.parse_kdbot(&bytes).unwrap();
    assert_eq!(back.clicks, expected_events());
}

#[test]
fn kdbot_truncated_record() {
    let mut bytes = two_player_replay().write_kdbot();
    bytes.truncate(bytes.len() - 3);
    let mut r = two_player_replay();
    assert_eq!(r.parse_kdbot(&bytes), Err(ReplayError::Truncated));
    assert_eq!(r.clicks, two_player_replay().clicks);
    assert_eq!(Replay::default().parse_kdbot(&[0, 0]), Err(ReplayError::Truncated));
}

#[test]
fn fembot_round_trip_and_layout() {
    let bytes = two_player_replay().write_fembot();
    assert_eq!(&bytes[0..4], &[0x46, 0x42, 0x52, 0x50]);
    assert_eq!(bytes.len(), 8 + 65 * 5);
    // third record: player 1 press at frame 20, state bit 0 set
    assert_eq!(bytes[8 + 65 * 2], 1);
    // fourth record: player 2 release at frame 20, state bit 1 set
    assert_eq!(bytes[8 + 65 * 3], 2);
    assert!(bytes[8 + 5..8 + 65].iter().all(|b| *b == 0));
    let mut back = Replay::default();
    back.clear();
    back.parse_fembot(&bytes).unwrap();
    assert_eq!(back.clicks, expected_events());
    assert_eq!(back.fps, fps(60.0));
}

#[test]
fn fembot_bad_magic_rejected() {
    let mut bytes = two_player_replay().write_fembot();
    bytes[0] = 0;
    let mut r = two_player_replay();
    assert_eq!(r.parse_fembot(&bytes), Err(ReplayError::MalformedHeader));
    assert_eq!(r.clicks, two_player_replay().clicks);
    assert_eq!(Replay::default().parse_fembot(&[]), Err(ReplayError::MalformedHeader));
}

#[test]
fn fembot_truncated_record() {
    let mut bytes = two_player_replay().write_fembot();
    bytes.truncate(bytes.len() - 1);
    assert_eq!(Replay::default().parse_fembot(&bytes), Err(ReplayError::Truncated));
}

#[test]
fn replaybot_round_trip_and_errors() {
    let bytes = two_player_replay().write_replaybot();
    assert_eq!(&bytes[0..6], &[0x52, 0x50, 0x4C, 0x59, 2, 1]);
    let mut back = Replay::default();
    back.clear();
    back.parse_replaybot(&bytes).unwrap();
    assert_eq!(back.clicks, expected_events());

    let mut wrong_version = bytes.clone();
    wrong_version[4] = 3;
    assert_eq!(Replay::default().parse_replaybot(&wrong_version), Err(ReplayError::MalformedHeader));
    let mut xpos = bytes.clone();
    xpos[5] = 0;
    assert_eq!(Replay::default().parse_replaybot(&xpos), Err(ReplayError::UnsupportedVariant));
    let mut cut = bytes.clone();
    cut.pop();
    assert_eq!(Replay::default().parse_replaybot(&cut), Err(ReplayError::Truncated));
}

#[test]
fn url_round_trip_and_variants() {
    let bytes = two_player_replay().write_url();
    assert_eq!(bytes[4], 1);
    // player 2 release at frame 20: state 2, frame 20
    assert_eq!(&bytes[5 + 15..5 + 20], &[2, 20, 0, 0, 0]);
    let mut back = Replay::default();
    back.clear();
    back.parse_url(&bytes).unwrap();
    assert_eq!(back.clicks, expected_events());

    let both = vec![0, 0, 0x70, 0x42, 2, 3, 9, 9, 9, 9, 7, 0, 0, 0];
    let mut r = Replay::default();
    r.clear();
    r.parse_url(&both).unwrap();
    assert_eq!(r.clicks, vec![Click::from_hold(7, true, true)]);

    assert_eq!(Replay::default().parse_url(&[0, 0, 0x70, 0x42, 0]), Err(ReplayError::UnsupportedVariant));
    assert_eq!(Replay::default().parse_url(&[0, 0, 0x70, 0x42, 5]), Err(ReplayError::MalformedHeader));
    assert_eq!(Replay::default().parse_url(&[0, 0, 0x70, 0x42, 1, 1]), Err(ReplayError::Truncated));
    assert_eq!(UrlReplayType::from_byte(2), Some(UrlReplayType::Both));
    assert_eq!(UrlReplayType::Frames.to_byte(), 1);
}

#[test]
fn ybot1_round_trip_and_count() {
    let bytes = two_player_replay().write_ybot1().unwrap();
    assert_eq!(&bytes[0..4], b"ybot");
    assert_eq!(&bytes[8..12], &[5, 0, 0, 0]);
    // first record: frame 10, state 2 (hold)
    assert_eq!(&bytes[12..20], &[10, 0, 0, 0, 2, 0, 0, 0]);
    let mut back = Replay::default();
    back.clear();
    back.parse_ybot1(&bytes).unwrap();
    assert_eq!(back.clicks, expected_events());

    let mut short = bytes.clone();
    short.truncate(20);
    assert_eq!(Replay::default().parse_ybot1(&short), Err(ReplayError::Truncated));
    assert_eq!(Replay::default().parse_ybot1(b"ybo"), Err(ReplayError::MalformedHeader));
}

#[test]
fn echo_bin_round_trip_and_full_records() {
    let bytes = two_player_replay().write_echo_bin();
    assert_eq!(bytes.len(), 48 + 6 * 5);
    assert_eq!(&bytes[24..28], &[0, 0, 0x70, 0x42]);
    let mut back = Replay::default();
    back.clear();
    back.parse_echo_bin(&bytes).unwrap();
    assert_eq!(back.clicks, expected_events());

    let mut full = vec![0u8; 48 + 34];
    full[0..4].copy_from_slice(b"META");
    full[4..8].copy_from_slice(&[0x44, 0x42, 0x47, 0x00]);
    full[48] = 5;
    full[52] = 1;
    let mut r = Replay::default();
    r.clear();
    r.parse_echo_bin(&full).unwrap();
    assert_eq!(r.clicks, vec![Click::from_hold(5, true, false)]);
    assert_eq!(Replay::default().parse_echo_bin(b"ATEM"), Err(ReplayError::MalformedHeader));
}

#[test]
fn rush_round_trip_with_integer_rate() {
    let r = two_player_replay();
    let bytes = r.write_rush();
    assert_eq!(&bytes[0..2], &[60, 0]);
    let mut back = Replay::default();
    back.clear();
    back.parse_rush(&bytes).unwrap();
    assert_eq!(back.clicks, expected_events());
    assert_eq!(back.fps, fps(60.0));
    assert_eq!(Replay::default().parse_rush(&bytes[..bytes.len() - 2]), Err(ReplayError::Truncated));
}

#[test]
fn mhr_binary_round_trip_and_layout() {
    let r = two_player_replay();
    let bytes = r.write_mhr_binary().unwrap();
    assert_eq!(&bytes[0..8], &[0x48, 0x41, 0x43, 0x4B, 0x50, 0x52, 0x4F, 0x07]);
    assert_eq!(&bytes[28..32], &[5, 0, 0, 0]);
    assert_eq!(bytes.len(), 32 + 32 * 5 + 16);
    assert_eq!(&bytes[bytes.len() - 16..bytes.len() - 12], &[0xFA, 0x67, 0x55, 0x5A]);
    assert_eq!(&bytes[12..16], &[60, 0, 0, 0]);
    let mut back = Replay::default();
    back.clear();
    back.parse_mhr_binary(&bytes).unwrap();
    assert_eq!(back.clicks, expected_events());
    assert_eq!(back.fps, fps(60.0));

    let mut bad = bytes.clone();
    bad[7] = 0;
    assert_eq!(Replay::default().parse_mhr_binary(&bad), Err(ReplayError::MalformedHeader));
    assert_eq!(Replay::default().parse_mhr_binary(&bytes[..100]), Err(ReplayError::Truncated));
}

#[test]
fn zbot_round_trip_and_flags() {
    let r = two_player_replay();
    let bytes = r.write_zbot((1.0f32 / 60.0).to_bits());
    assert_eq!(&bytes[4..8], &1.0f32.to_le_bytes());
    // player 2 release at frame 20
    assert_eq!(&bytes[8 + 18..8 + 24], &[20, 0, 0, 0, 0x30, 0x31]);
    assert_eq!(
        obot_converter::formats::zbot::zbot_header(&bytes),
        Some(((1.0f32 / 60.0).to_bits(), 1.0f32.to_bits()))
    );
    let mut back = Replay::default();
    back.clear();
    back.parse_zbot(&bytes, fps(60.0)).unwrap();
    assert_eq!(back.clicks, expected_events());
}

#[test]
fn silicate_round_trip_and_skipped_states() {
    let r = two_player_replay();
    let bytes = r.write_silicate(60.0f64.to_bits()).unwrap();
    assert_eq!(&bytes[8..12], &[5, 0, 0, 0]);
    // frame 10, player 1, jump, press: 10 << 4 | 0b0011
    assert_eq!(&bytes[12..16], &(10u32 << 4 | 3).to_le_bytes());
    assert_eq!(obot_converter::formats::silicate::silicate_fps_field(&bytes), Some(60.0f64.to_bits()));
    let mut back = Replay::default();
    back.clear();
    back.parse_silicate(&bytes, fps(60.0)).unwrap();
    assert_eq!(back.clicks, expected_events());

    let mut other = 60.0f64.to_le_bytes().to_vec();
    other.extend_from_slice(&2u32.to_le_bytes());
    other.extend_from_slice(&(4u32 << 4 | 0b0100).to_le_bytes());
    other.extend_from_slice(&(6u32 << 4 | 0b1011).to_le_bytes());
    let mut s = Replay::default();
    s.clear();
    s.parse_silicate(&other, fps(60.0)).unwrap();
    assert_eq!(s.clicks, vec![Click::from_hold(6, true, true)]);

    let far = replay_with(vec![Click::from_hold(0x1000_0000, true, false)]);
    assert_eq!(far.write_silicate(0), Err(ReplayError::WriteError));
    assert_eq!(Replay::default().parse_silicate(&bytes[..20], 0), Err(ReplayError::Truncated));
}
