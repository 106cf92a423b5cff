use obot_converter::binary32::{f32_from_int, f32_round_bits, f32_to_int_sat};
use obot_converter::formats::echo::EchoNewReplay;
use obot_converter::replay::Replay;

const SAMPLE_INTS: [i32; 22] = [
    0, 1, -1, 2, 3, 59, 60, 240, -240, 1000, 16_777_215, 16_777_216, 16_777_217, 16_777_218,
    16_777_219, 33_554_435, -33_554_435, 123_456_789, 2_147_483_520, 2_147_483_584, i32::MAX,
    i32::MIN,
];

#[test]
fn int_to_binary32_matches_cast() {
    for v in SAMPLE_INTS {
        assert_eq!(f32_from_int(v), (v as f32).to_bits(), "value {v}");
    }
    for k in 0..40_000 {
        let v = k * 53_687 - 1_073_741_824;
        assert_eq!(f32_from_int(v), (v as f32).to_bits(), "value {v}");
    }
}

#[test]
fn binary32_to_int_matches_cast() {
    let samples = [
        0.0f32, -0.0, 0.5, -0.5, 0.999, 1.0, 1.5, -1.5, 59.94, 60.0, 239.99, 32767.9, 32768.0,
        -32768.9, -40000.0, 1e10, -1e10, 2_147_483_520.0, 2_147_483_648.0, -2_147_483_648.0,
        f32::MAX, f32::MIN, f32::INFINITY, f32::NEG_INFINITY, f32::NAN, f32::MIN_POSITIVE, 1e-40,
    ];
    for f in samples {
        let b = f.to_bits();
        assert_eq!(f32_to_int_sat(b, i32::MIN as i64, i32::MAX as i64), f as i32 as i64, "value {f}");
        assert_eq!(f32_to_int_sat(b, i16::MIN as i64, i16::MAX as i64), f as i16 as i64, "value {f}");
    }
    for k in 0..40_000u32 {
        let b = k.wrapping_mul(107_377);
        let f = f32::from_bits(b);
        assert_eq!(f32_to_int_sat(b, i32::MIN as i64, i32::MAX as i64), f as i32 as i64, "bits {b:#x}");
    }
}

#[test]
fn rounding_matches_std() {
    let samples = [
        0.0f32, -0.0, 0.49999997, 0.5, -0.5, 1.5, 2.5, -2.5, 59.94, 59.5, 143.999, 8_388_607.5,
        8_388_608.0, 16_777_215.0, 1e20, -1e-20, f32::INFINITY, f32::NEG_INFINITY, f32::MIN_POSITIVE,
    ];
    for f in samples {
        assert_eq!(f32_round_bits(f.to_bits()), f.round().to_bits(), "value {f}");
    }
    for k in 0..40_000u32 {
        let b = k.wrapping_mul(107_377);
        let f = f32::from_bits(b);
        if !f.is_nan() {
            assert_eq!(f32_round_bits(b), f.round().to_bits(), "bits {b:#x}");
        }
    }
}

#[test]
fn echo_and_gdr_round_the_frame_rate() {
    let mut r = Replay::default();
    r.parse_echo_new(&EchoNewReplay { fps: 59.94f32.to_bits(), inputs: vec![] }).unwrap();
    assert_eq!(f32::from_bits(r.fps), 60.0);
    let mut g = Replay::default();
    let mut doc = Replay::default().write_gdr();
    doc.fps = 239.5f32.to_bits();
    g.parse_gdr(&doc).unwrap();
    assert_eq!(f32::from_bits(g.fps), 240.0);
}
