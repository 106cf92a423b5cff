use obot_converter::converter::Converter;
use obot_converter::replay::{Click, ClickType, GameVersion};

fn conv(clicks: Vec<Click>) -> Converter {
    let mut c = Converter::new();
    c.loaded_replay.clicks = clicks;
    c
}

#[test]
fn new_converter_defaults() {
    let c = Converter::new();
    assert_eq!(f32::from_bits(c.get_fps()), 60.0);
    assert_eq!(c.length(), 0);
    assert_eq!(c.game_version(), GameVersion::Version2113);
    assert!(c.loaded_replay.settings.auto_offset && c.loaded_replay.settings.beautified_json);
}

#[test]
fn offset_holds_at_zero() {
    let mut c = conv(vec![Click::from_hold(5, true, false), Click::from_hold(20, false, false)]);
    c.offset_all_by(-10);
    assert_eq!(c.clicks(), vec![Click::from_hold(0, true, false), Click::from_hold(10, false, false)]);
    c.offset_all_by(3);
    assert_eq!(c.click_at(1).frame, 13);
}

#[test]
fn clean_turns_redundant_actions_into_skips() {
    let mut c = conv(vec![
        Click::from_hold(1, true, false),
        Click::from_hold(2, true, false),
        Click::from_hold(3, false, false),
        Click::from_hold(4, false, false),
        Click { frame: 5, p1: ClickType::Click, p2: ClickType::Release },
    ]);
    c.clean();
    assert_eq!(c.clicks(), vec![
        Click::from_hold(1, true, false),
        Click::from_hold(3, false, false),
        Click { frame: 5, p1: ClickType::Click, p2: ClickType::Skip },
    ]);
}

#[test]
fn sort_is_stable_by_frame() {
    let mut c = conv(vec![
        Click::from_hold(9, true, false),
        Click::from_hold(3, true, true),
        Click::from_hold(9, false, true),
        Click::from_hold(1, false, false),
    ]);
    c.sort();
    assert_eq!(c.clicks(), vec![
        Click::from_hold(1, false, false),
        Click::from_hold(3, true, true),
        Click::from_hold(9, true, false),
        Click::from_hold(9, false, true),
    ]);
}

#[test]
fn flips_and_player_removal() {
    let mut c = conv(vec![Click { frame: 1, p1: ClickType::Click, p2: ClickType::Skip }, Click::from_hold(2, false, true)]);
    c.flip_p1_p2();
    assert_eq!(c.click_at(0), Click { frame: 1, p1: ClickType::Skip, p2: ClickType::Click });
    c.flip_up_down();
    assert_eq!(c.click_at(0), Click { frame: 1, p1: ClickType::Skip, p2: ClickType::Release });
    assert_eq!(c.click_at(1), Click { frame: 2, p1: ClickType::Click, p2: ClickType::Skip });
    c.remove_all_player_inputs(true);
    assert_eq!(c.clicks(), vec![Click { frame: 2, p1: ClickType::Click, p2: ClickType::Skip }]);
}

#[test]
fn single_click_edits() {
    let mut c = conv(vec![Click::from_hold(1, true, false), Click::from_hold(2, false, false)]);
    c.insert_empty_at(1, 7);
    assert_eq!(c.click_at(1), Click { frame: 7, p1: ClickType::Skip, p2: ClickType::Skip });
    c.toggle_click_at(1, true);
    assert_eq!(c.click_at(1).p2, ClickType::Click);
    c.replace_frame_at(1, 8);
    assert_eq!(c.click_at(1).frame, 8);
    c.remove_at(0);
    assert_eq!(c.length(), 2);
    assert_eq!(c.clicks_at_batch(0, 2), c.clicks());
    assert!(conv(vec![]).clicks_at_batch(3, 4).is_empty());
    c.set_fps(30.0f32.to_bits());
    assert_eq!(f32::from_bits(c.get_fps()), 30.0);
    c.set_setting_beautify_json(false);
    c.set_setting_auto_offset(false);
    assert!(!c.loaded_replay.settings.beautified_json && !c.loaded_replay.settings.auto_offset);
}
