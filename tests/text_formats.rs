use obot_converter::formats::plain_text::first_line;
use obot_converter::formats::xbot::xbot_fps_field;
use obot_converter::replay::{Click, ClickType, GameVersion, Replay, ReplayError, Settings};
use obot_converter::text::{parse_u32, push_decimal, split_fields, split_lines, split_tokens};

fn text_replay(clicks: Vec<Click>) -> Replay {
    let mut r = Replay::new(60.0f32.to_bits(), GameVersion::Any, Settings::default());
    r.clicks = clicks;
    r
}

#[test]
fn plain_text_scenario() {
    let r = text_replay(vec![Click::from_hold(5, true, true)]);
    let out = r.write_plain_text(b"60");
    assert_eq!(out, b"60\n5 1 1\n".to_vec());
    assert_eq!(first_line(&out), Some(b"60".to_vec()));
    let mut back = Replay::default();
    back.clear();
    assert_eq!(back.parse_plain_text(&out, 60.0f32.to_bits()), Ok(()));
    assert_eq!(back.clicks, vec![Click { frame: 5, p1: ClickType::Skip, p2: ClickType::Click }]);
    assert_eq!(back.game_version, GameVersion::Any);
}

#[test]
fn plain_text_two_player_click_and_errors() {
    let r = text_replay(vec![Click { frame: 3, p1: ClickType::Release, p2: ClickType::Click }]);
    let out = r.write_plain_text(b"240");
    assert_eq!(out, b"240\n3 0 0\n3 1 1\n".to_vec());

    let mut bad = Replay::default();
    assert_eq!(bad.parse_plain_text(b"60\n5 1\n", 0), Err(ReplayError::MalformedField));
    assert_eq!(bad.parse_plain_text(b"60\nx 1 1\n", 0), Err(ReplayError::MalformedField));
    assert_eq!(bad.parse_plain_text(b"", 0), Err(ReplayError::MalformedField));
    assert_eq!(bad.clicks.len(), 0);

    let mut crlf = Replay::default();
    crlf.clear();
    crlf.parse_plain_text(b"60\r\n7 1 0\r\n8 0 0", 0).unwrap();
    assert_eq!(crlf.clicks, vec![Click::from_hold(7, true, false), Click::from_hold(8, false, false)]);
}

#[test]
fn xbot_round_trip() {
    let r = text_replay(vec![
        Click::from_hold(10, true, false),
        Click { frame: 20, p1: ClickType::Release, p2: ClickType::Click },
    ]);
    let out = r.write_xbot(b"60");
    assert_eq!(out, b"fps: 60\nframes\n1 10\n0 20\n3 20\n".to_vec());
    assert_eq!(xbot_fps_field(&out), Some(b"60".to_vec()));
    let mut back = Replay::default();
    back.clear();
    back.parse_xbot(&out, 60.0f32.to_bits()).unwrap();
    assert_eq!(
        back.clicks,
        vec![
            Click::from_hold(10, true, false),
            Click::from_hold(20, false, false),
            Click::from_hold(20, true, true)
        ]
    );
    assert_eq!(back.game_version, GameVersion::Version2113);
    assert_eq!(Replay::default().parse_xbot(b"fps: 60\nframes\n1\n", 0), Err(ReplayError::MalformedField));
}

#[test]
fn xdbot_round_trip_and_skipped_buttons() {
    let r = text_replay(vec![Click::from_hold(4, true, false), Click::from_hold(9, false, true)]);
    let out = r.write_xdbot(b"240");
    assert_eq!(out, b"240\n4|1|1|1\n9|0|1|0\n".to_vec());
    let mut back = Replay::default();
    back.clear();
    back.parse_xdbot(&out, 240.0f32.to_bits()).unwrap();
    assert_eq!(back.clicks, r.clicks);
    assert_eq!(back.game_version, GameVersion::Version2206);

    let mut skip = Replay::default();
    skip.clear();
    skip.parse_xdbot(b"60\n4|1|2\n5|1|1|1\n", 0).unwrap();
    assert_eq!(skip.clicks, vec![Click::from_hold(5, true, false)]);
    assert_eq!(Replay::default().parse_xdbot(b"60\n4|1|1\n", 0), Err(ReplayError::MalformedField));
}

#[test]
fn decimal_and_token_helpers() {
    assert_eq!(parse_u32(b"4294967295"), Some(u32::MAX));
    assert_eq!(parse_u32(b"4294967296"), None);
    assert_eq!(parse_u32(b"+12"), Some(12));
    assert_eq!(parse_u32(b"-1"), None);
    assert_eq!(parse_u32(b""), None);
    assert_eq!(parse_u32(b"007"), Some(7));
    let mut out = Vec::new();
    push_decimal(&mut out, 1203);
    assert_eq!(out, b"1203".to_vec());
    assert_eq!(split_lines(b"a\r\nb\n\nc"), vec![b"a".to_vec(), b"b".to_vec(), vec![], b"c".to_vec()]);
    assert_eq!(split_tokens(b"  5\t1  1 "), vec![b"5".to_vec(), b"1".to_vec(), b"1".to_vec()]);
    assert_eq!(split_fields(b"1||2", b'|'), vec![b"1".to_vec(), vec![], b"2".to_vec()]);
}
