use obot_converter::formats::echo::{EchoNewClick, EchoNewReplay, EchoOldClick, EchoOldReplay};
use obot_converter::formats::gdr::GdrInput;
use obot_converter::formats::mhr::{MhrClick, MhrReplay};
use obot_converter::formats::omegabot::{
    OmegaBot2Click, OmegaBot2ClickType, OmegaBot2Location, OmegaBot2Replay, OmegaBot2ReplayType,
    OmegabotClick, OmegabotClickType, OmegabotReplay,
};
use obot_converter::formats::slc2::{Slc2Input, Slc2Player};
use obot_converter::formats::tasbot::{TasbotAction, TasbotClick, TasbotReplay};
use obot_converter::formats::ybot2::{YBot2Action, YBot2ActionKind};
use obot_converter::replay::{Click, ClickType, GameVersion, Replay, ReplayError, Settings};

fn doc_replay(clicks: Vec<Click>) -> Replay {
    let mut r = Replay::new(60.0f32.to_bits(), GameVersion::Any, Settings::default());
    r.clicks = clicks;
    r
}

fn fresh() -> Replay {
    let mut r = Replay::default();
    r.clear();
    r
}

#[test]
fn hold_constructor_sets_one_player() {
    let c = Click::from_hold(7, true, false);
    assert_eq!(c, Click { frame: 7, p1: ClickType::Click, p2: ClickType::Skip });
    let d = Click::from_hold(7, false, true);
    assert_eq!(d, Click { frame: 7, p1: ClickType::Skip, p2: ClickType::Release });
    assert_eq!(ClickType::from(true), ClickType::Click);
    assert_eq!(ClickType::Click.toggle(), ClickType::Release);
    assert_eq!(ClickType::Release.toggle(), ClickType::Skip);
    assert_eq!(ClickType::Skip.toggle(), ClickType::Click);
    assert!(ClickType::Skip.is_skip() && ClickType::Click.is_click() && ClickType::Release.is_release());
    assert_eq!(c.apply_hold().len(), 1);
    assert_eq!(Click { frame: 1, p1: ClickType::Skip, p2: ClickType::Skip }.apply_hold().len(), 0);
}

#[test]
fn tasbot_keeps_skip_through_round_trip() {
    let mut r = doc_replay(vec![
        Click::from_hold(0, true, false),
        Click { frame: 4, p1: ClickType::Release, p2: ClickType::Click },
    ]);
    r.settings.auto_offset = true;
    let doc = r.write_tasbot().unwrap();
    assert_eq!(doc.clicks[0], TasbotClick {
        frame: 1,
        player_1: TasbotAction { click: 1 },
        player_2: TasbotAction { click: 0 },
    });
    let mut back = fresh();
    back.parse_tasbot(&doc).unwrap();
    assert_eq!(back.clicks, r.clicks);
    assert_eq!(back.clicks[0].p2, ClickType::Skip);

    let bad = TasbotReplay {
        fps: 0,
        clicks: vec![TasbotClick { frame: 0, player_1: TasbotAction { click: 1 }, player_2: TasbotAction { click: 0 } }],
    };
    assert_eq!(fresh().parse_tasbot(&bad), Err(ReplayError::MalformedField));
    let far = doc_replay(vec![Click::from_hold(u32::MAX, true, false)]);
    assert!(far.write_tasbot().is_err());
}

#[test]
fn omegabot2_frame_one_is_frame_zero() {
    let r = doc_replay(vec![Click::from_hold(0, true, false), Click::from_hold(5, false, true)]);
    let doc = r.write_obot2().unwrap();
    assert_eq!(doc.clicks[0].location, OmegaBot2Location::Frame(1));
    assert_eq!(doc.clicks[1].click_type, OmegaBot2ClickType::Player2Up);
    assert_eq!(doc.replay_type, OmegaBot2ReplayType::Frame);
    let mut back = fresh();
    back.parse_obot2(&doc).unwrap();
    assert_eq!(back.clicks, r.clicks);

    let zero = OmegaBot2Replay {
        initial_fps: 0,
        current_fps: 0,
        replay_type: OmegaBot2ReplayType::Frame,
        current_click: 0,
        clicks: vec![OmegaBot2Click { location: OmegaBot2Location::Frame(0), click_type: OmegaBot2ClickType::Player1Down }],
    };
    assert_eq!(fresh().parse_obot2(&zero), Err(ReplayError::MalformedField));
    let xpos = OmegaBot2Replay {
        clicks: vec![OmegaBot2Click { location: OmegaBot2Location::XPos(3), click_type: OmegaBot2ClickType::Player1Down }],
        ..zero
    };
    assert_eq!(fresh().parse_obot2(&xpos), Err(ReplayError::UnsupportedVariant));
    assert!(doc_replay(vec![Click::from_hold(u32::MAX, true, false)]).write_obot2().is_err());
    assert!(OmegaBot2ClickType::Player2Down.is_down() && OmegaBot2ClickType::Player2Down.is_player_2());
}

#[test]
fn omegabot3_tags() {
    let r = doc_replay(vec![Click { frame: 2, p1: ClickType::Click, p2: ClickType::Release }]);
    let doc = r.write_obot3();
    assert_eq!(doc.clicks, vec![
        OmegabotClick { frame: 2, click_type: OmegabotClickType::Player1Down },
        OmegabotClick { frame: 2, click_type: OmegabotClickType::Player2Up },
    ]);
    let mut back = fresh();
    back.parse_obot3(&doc).unwrap();
    assert_eq!(back.clicks, vec![Click::from_hold(2, true, false), Click::from_hold(2, false, true)]);

    let with_none = OmegabotReplay {
        initial_fps: 0,
        current_fps: 0,
        clicks: vec![
            OmegabotClick { frame: 1, click_type: OmegabotClickType::NoInput },
            OmegabotClick { frame: 3, click_type: OmegabotClickType::Player1Up },
        ],
        current: 0,
    };
    let mut dropped = fresh();
    dropped.parse_obot3(&with_none).unwrap();
    assert_eq!(dropped.clicks, vec![Click::from_hold(3, false, false)]);
    let fps_change = OmegabotReplay {
        clicks: vec![OmegabotClick { frame: 1, click_type: OmegabotClickType::FpsChange(0) }],
        ..with_none
    };
    assert_eq!(fresh().parse_obot3(&fps_change), Err(ReplayError::UnsupportedVariant));
    assert!(OmegabotClickType::Player1Up.is_player1() && !OmegabotClickType::Player1Up.is_player2());
}

#[test]
fn echo_json_documents() {
    let r = doc_replay(vec![Click::from_hold(3, true, true), Click::from_hold(4, false, false)]);
    let old = r.write_echo_old();
    assert_eq!(old.start_frame, 0);
    let mut back = fresh();
    back.parse_echo_old(&old).unwrap();
    assert_eq!(back.clicks, r.clicks);

    let shifted = EchoOldReplay { fps: 0, start_frame: 100, clicks: vec![EchoOldClick { hold: true, p2: false, frame: 5 }] };
    let mut s = fresh();
    s.parse_echo_old(&shifted).unwrap();
    assert_eq!(s.clicks, vec![Click::from_hold(105, true, false)]);
    let overflow = EchoOldReplay { fps: 0, start_frame: 2, clicks: vec![EchoOldClick { hold: true, p2: false, frame: u32::MAX }] };
    assert_eq!(fresh().parse_echo_old(&overflow), Err(ReplayError::MalformedField));

    let new = r.write_echo_new();
    assert_eq!(new.inputs[0].p2, Some(true));
    assert_eq!(new.inputs[1].p2, None);
    let mut back_new = fresh();
    back_new.parse_echo_new(&new).unwrap();
    assert_eq!(back_new.clicks, r.clicks);
    let doc = EchoNewReplay { fps: 0, inputs: vec![EchoNewClick { hold: false, p2: Some(false), frame: 8 }] };
    let mut n = fresh();
    n.parse_echo_new(&doc).unwrap();
    assert_eq!(n.clicks, vec![Click::from_hold(8, false, false)]);
}

#[test]
fn mhr_and_gdr_documents() {
    let r = doc_replay(vec![Click::from_hold(3, true, true), Click::from_hold(9, false, false)]);
    let m = r.write_mhr_json();
    assert_eq!(m.events[1], MhrClick { frame: 9, down: Some(false), p2: None });
    let mut back = fresh();
    back.parse_mhr_json(&m).unwrap();
    assert_eq!(back.clicks, r.clicks);
    assert_eq!(m.tag, "converter by nat :3");
    let sparse = MhrReplay { fps: 0, events: vec![MhrClick { frame: 1, down: None, p2: None }], tag: String::new() };
    let mut s = fresh();
    s.parse_mhr_json(&sparse).unwrap();
    assert_eq!(s.clicks, vec![Click::from_hold(1, false, false)]);

    let g = r.write_gdr();
    assert_eq!(g.inputs[0], GdrInput { frame: 3, button: 1, p2: true, down: true });
    assert_eq!(g.last_frame, 9);
    let mut gb = fresh();
    gb.parse_gdr(&g).unwrap();
    assert_eq!(gb.clicks, r.clicks);
    assert_eq!(gb.game_version, GameVersion::Version2206);
    assert_eq!(g.bot_name, "NATTIE_CONVERTER");
    assert_eq!(g.bot_version, "1.0.0");
    assert_eq!(g.level_id, 12345678);
    assert_eq!(g.level_name, "LEVEL NAME");
    assert_eq!(g.author, "CONVERTED MACRO");
    assert_eq!(f32::from_bits(g.game_version), 2.204);
    assert_eq!(f32::from_bits(g.version), 1.0);
    assert_eq!(doc_replay(vec![]).write_gdr().last_frame, 0);
}

#[test]
fn slc2_and_ybot2_streams() {
    let r = doc_replay(vec![Click::from_hold(3, true, false), Click::from_hold(8, false, true)]);
    let inputs = r.write_slc2().unwrap();
    assert_eq!(inputs[1], Slc2Input { frame: 8, player: Some(Slc2Player { hold: false, player_2: true, button: 1 }) });
    let mut back = fresh();
    back.parse_slc2(&inputs, 0).unwrap();
    assert_eq!(back.clicks, r.clicks);
    let unsorted = doc_replay(vec![Click::from_hold(8, true, false), Click::from_hold(3, false, false)]);
    assert_eq!(unsorted.write_slc2(), Err(ReplayError::WriteError));
    let far = vec![Slc2Input { frame: 1 << 40, player: Some(Slc2Player { hold: true, player_2: false, button: 1 }) }];
    assert_eq!(fresh().parse_slc2(&far, 0), Err(ReplayError::MalformedField));

    let acts = r.write_ybot2().unwrap();
    assert_eq!(acts, vec![
        YBot2Action { delta: 3, kind: YBot2ActionKind::Button { player_1: true, hold: true, jump: true } },
        YBot2Action { delta: 5, kind: YBot2ActionKind::Button { player_1: false, hold: false, jump: true } },
    ]);
    let mut yb = fresh();
    yb.parse_ybot2(&acts, 0).unwrap();
    assert_eq!(yb.clicks, r.clicks);
    assert_eq!(unsorted.write_ybot2(), Err(ReplayError::WriteError));
    let fps_change = vec![YBot2Action { delta: 1, kind: YBot2ActionKind::Fps(0) }];
    assert_eq!(fresh().parse_ybot2(&fps_change, 0), Err(ReplayError::UnsupportedVariant));
    let other_button = vec![
        YBot2Action { delta: 2, kind: YBot2ActionKind::Button { player_1: true, hold: true, jump: false } },
        YBot2Action { delta: 2, kind: YBot2ActionKind::Button { player_1: true, hold: true, jump: true } },
    ];
    let mut ob = fresh();
    ob.parse_ybot2(&other_button, 0).unwrap();
    assert_eq!(ob.clicks, vec![Click::from_hold(4, true, false)]);
}

#[test]
fn kdbot_to_omegabot2_and_back_is_identity() {
    let r = doc_replay(vec![Click::from_hold(0, true, false), Click::from_hold(6, false, true)]);
    let mut via = fresh();
    via.parse_kdbot(&r.write_kdbot()).unwrap();
    let doc = via.write_obot2().unwrap();
    let mut canon = fresh();
    canon.parse_obot2(&doc).unwrap();
    let bytes = canon.write_kdbot();
    assert_eq!(bytes, r.write_kdbot());
}

#[test]
fn rush_loses_fractional_frame_rate() {
    // Rush stores the frame rate as an integer: a fractional rate does not come back.
    let mut r = doc_replay(vec![Click::from_hold(1, true, false)]);
    r.fps = 59.94f32.to_bits();
    let bytes = r.write_rush();
    let mut back = fresh();
    back.parse_rush(&bytes).unwrap();
    assert_eq!(f32::from_bits(back.fps), 59.0);
    assert_eq!(back.clicks, r.clicks);
}

#[test]
fn clear_then_parse_matches_fresh_parse() {
    let data = doc_replay(vec![Click::from_hold(2, true, false)]).write_kdbot();
    let mut loaded = doc_replay(vec![Click::from_hold(99, true, true)]);
    loaded.fps = 144.0f32.to_bits();
    loaded.clear();
    assert_eq!(f32::from_bits(loaded.fps), 60.0);
    assert!(loaded.clicks.is_empty());
    loaded.parse_kdbot(&data).unwrap();
    let mut new = Replay::default();
    new.parse_kdbot(&data).unwrap();
    assert_eq!(loaded.clicks, new.clicks);
    assert_eq!(loaded.fps, new.fps);
    assert_eq!(loaded.game_version, new.game_version);
}

#[test]
fn game_version_text() {
    assert_eq!(GameVersion::Any.to_text(), "Any");
    assert_eq!(GameVersion::Version2113.to_text(), "2.113");
    assert_eq!(GameVersion::Version2206.to_text(), "2.206");
}

#[test]
fn document_parsers_replace_earlier_clicks() {
    let written = doc_replay(vec![Click::from_hold(3, true, false), Click::from_hold(7, false, true)]);
    let earlier = || doc_replay(vec![Click::from_hold(100, true, true)]);

    let mut a = earlier();
    a.parse_tasbot(&written.write_tasbot().unwrap()).unwrap();
    assert_eq!(a.clicks, written.clicks);
    let mut b = earlier();
    b.parse_obot3(&written.write_obot3()).unwrap();
    assert_eq!(b.clicks, written.clicks);
    let mut c = earlier();
    c.parse_gdr(&written.write_gdr()).unwrap();
    assert_eq!(c.clicks, written.clicks);
    let mut d = earlier();
    d.parse_mhr_json(&written.write_mhr_json()).unwrap();
    assert_eq!(d.clicks, written.clicks);
    let mut e = earlier();
    e.parse_echo_old(&written.write_echo_old()).unwrap();
    assert_eq!(e.clicks, written.clicks);
    let mut f = earlier();
    f.parse_echo_new(&written.write_echo_new()).unwrap();
    assert_eq!(f.clicks, written.clicks);

    // byte formats that append keep what was there
    let mut k = earlier();
    k.parse_kdbot(&written.write_kdbot()).unwrap();
    assert_eq!(k.clicks.len(), 3);
}

#[test]
fn zbot_clears_before_reading() {
    let written = doc_replay(vec![Click::from_hold(3, true, false)]);
    let bytes = written.write_zbot((1.0f32 / 60.0).to_bits());
    let mut r = doc_replay(vec![Click::from_hold(100, true, true)]);
    r.fps = 30.0f32.to_bits();
    r.parse_zbot(&bytes, 60.0f32.to_bits()).unwrap();
    assert_eq!(r.clicks, written.clicks);

    let mut failed = doc_replay(vec![Click::from_hold(100, true, true)]);
    failed.fps = 30.0f32.to_bits();
    assert_eq!(failed.parse_zbot(&bytes[..9], 0), Err(ReplayError::Truncated));
    assert!(failed.clicks.is_empty());
    assert_eq!(f32::from_bits(failed.fps), 60.0);
}
