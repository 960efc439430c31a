use rgblitz::score::{bits_ge, bits_to_u8, WINNING_SCORE_BITS, ZERO_SCORE_BITS};

fn samples() -> Vec<f32> {
    vec![
        0.0,
        -0.0,
        1.0,
        -1.0,
        0.5,
        0.999_999_9,
        1.000_000_1,
        49.999,
        50.0,
        50.5,
        75.0,
        84.999_99,
        85.0,
        85.000_01,
        99.9,
        100.0,
        127.9,
        128.0,
        254.9,
        255.0,
        255.5,
        256.0,
        1.0e9,
        -1.0e9,
        -0.2,
        -300.0,
        f32::MIN_POSITIVE,
        f32::from_bits(1),
        f32::from_bits(0x007f_ffff),
        -f32::from_bits(1),
        f32::MAX,
        f32::MIN,
        f32::INFINITY,
        f32::NEG_INFINITY,
        f32::NAN,
        -f32::NAN,
        f32::from_bits(0x7f80_0001),
    ]
}

#[test]
fn comparison_agrees_with_f32() {
    for &a in &samples() {
        for &b in &samples() {
            assert_eq!(bits_ge(a.to_bits(), b.to_bits()), a >= b, "{a} >= {b}");
        }
    }
}

#[test]
fn truncation_agrees_with_f32() {
    for &a in &samples() {
        assert_eq!(bits_to_u8(a.to_bits()), a as u8, "{a} as u8");
    }
}

#[test]
fn named_scores() {
    assert_eq!(WINNING_SCORE_BITS, 85.0f32.to_bits());
    assert_eq!(ZERO_SCORE_BITS, 0.0f32.to_bits());
    assert_eq!(bits_to_u8(WINNING_SCORE_BITS), 85);
    assert!(bits_ge(WINNING_SCORE_BITS, WINNING_SCORE_BITS));
    assert!(!bits_ge(84.9f32.to_bits(), WINNING_SCORE_BITS));
}

#[test]
fn zeros_are_equal() {
    assert!(bits_ge(0.0f32.to_bits(), (-0.0f32).to_bits()));
    assert!(bits_ge((-0.0f32).to_bits(), 0.0f32.to_bits()));
}

#[test]
fn nan_is_never_ge() {
    let nan = f32::NAN.to_bits();
    assert!(!bits_ge(nan, nan));
    assert!(!bits_ge(nan, 0));
    assert!(!bits_ge(0, nan));
    assert_eq!(bits_to_u8(nan), 0);
}

#[test]
fn test_closeness_near() {}
