use obot_converter::converter::Converter;
use obot_converter::cps::{check_cps_for_player, CPSRule, CPSViolation};
use obot_converter::replay::Click;

fn presses(frames: &[u32], player_2: bool) -> Vec<Click> {
    frames.iter().map(|f| Click::from_hold(*f, true, player_2)).collect()
}

#[test]
fn burst_of_six_close_presses() {
    let clicks = presses(&[1, 2, 3, 4, 5, 6], false);
    assert_eq!(
        check_cps_for_player(&clicks, false, 60, 2),
        vec![CPSViolation { rule: CPSRule::Rule45CP5C, frame: 6, cps: 6 }]
    );
    assert!(check_cps_for_player(&clicks, false, 60, 1).is_empty());
    assert!(check_cps_for_player(&clicks, true, 60, 2).is_empty());
}

#[test]
fn four_presses_on_one_frame() {
    let clicks = presses(&[10, 10, 10, 10], true);
    assert_eq!(
        check_cps_for_player(&clicks, true, 60, 2),
        vec![CPSViolation { rule: CPSRule::Rule3CPF, frame: 10, cps: 4 }]
    );
}

#[test]
fn sixteen_presses_in_a_second() {
    let frames: Vec<u32> = (0..16).map(|k| 3 * k).collect();
    let clicks = presses(&frames, false);
    assert_eq!(
        check_cps_for_player(&clicks, false, 60, 2),
        vec![
            CPSViolation { rule: CPSRule::Rule45CP5C, frame: 15, cps: 6 },
            CPSViolation { rule: CPSRule::Rule15CPS, frame: 45, cps: 16 },
        ]
    );
    // Presses a second apart leave the window.
    let spread: Vec<u32> = (0..16).map(|k| 60 * k).collect();
    assert!(check_cps_for_player(&presses(&spread, false), false, 60, 2).is_empty());
}

#[test]
fn converter_checks_both_players() {
    let mut c = Converter::new();
    let mut clicks = presses(&[10, 10, 10, 10], true);
    clicks.extend(presses(&[1, 2, 3, 4, 5, 6], false));
    c.loaded_replay.clicks = clicks;
    assert_eq!(
        c.check_cps(60, 2),
        vec![
            CPSViolation { rule: CPSRule::Rule45CP5C, frame: 6, cps: 6 },
            CPSViolation { rule: CPSRule::Rule3CPF, frame: 10, cps: 4 },
        ]
    );
}
