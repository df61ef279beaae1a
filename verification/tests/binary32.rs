use synth::binary32::Binary32;

fn of(x: f32) -> Binary32 {
    Binary32::from_bits(x.to_bits())
}

fn expected(x: f32, k: u16, bound: u16) -> Option<i32> {
    let floor = (k as f64 * x as f64).floor();
    if -(bound as f64) <= floor && floor <= bound as f64 {
        Some(floor as i32)
    } else {
        None
    }
}

#[test]
fn from_bits_keeps_the_pattern() {
    assert_eq!(Binary32::from_bits(0x3f80_0000).bits, 0x3f80_0000);
    assert_eq!(of(1.0).bits, 0x3f80_0000);
}

#[test]
fn is_nan_tells_nan_from_infinity() {
    assert!(of(f32::NAN).is_nan());
    assert!(Binary32::from_bits(0x7f80_0001).is_nan());
    assert!(Binary32::from_bits(0xffff_ffff).is_nan());
    assert!(!of(f32::INFINITY).is_nan());
    assert!(!of(f32::NEG_INFINITY).is_nan());
    assert!(!of(0.0).is_nan());
    assert!(!of(f32::MAX).is_nan());
}

#[test]
fn is_finite_refuses_infinities_and_nan() {
    assert!(of(0.0).is_finite());
    assert!(of(-0.0).is_finite());
    assert!(of(f32::MAX).is_finite());
    assert!(of(f32::MIN_POSITIVE / 2.0).is_finite());
    assert!(!of(f32::INFINITY).is_finite());
    assert!(!of(f32::NEG_INFINITY).is_finite());
    assert!(!of(f32::NAN).is_finite());
}

#[test]
fn is_positive_agrees_with_the_comparison() {
    let values = [
        0.0f32,
        -0.0,
        1.0,
        -1.0,
        1e-45,
        -1e-45,
        f32::MAX,
        f32::MIN,
        f32::INFINITY,
        f32::NEG_INFINITY,
        f32::NAN,
        -8.742278e-8,
    ];
    for x in values {
        assert_eq!(of(x).is_positive(), x > 0.0, "{}", x);
    }
}

#[test]
fn floor_times_within_agrees_with_wide_arithmetic() {
    let values = [
        0.0f32,
        -0.0,
        0.5,
        -0.5,
        1.0,
        -1.0,
        0.999,
        -0.999,
        0.004,
        -0.004,
        1e-30,
        -1e-30,
        1e-45,
        -1e-45,
        2.4,
        -2.4,
        3.7,
        123.456,
        -123.456,
        1e9,
        -1e9,
        f32::MAX,
        f32::MIN,
        f32::MIN_POSITIVE,
        -f32::MIN_POSITIVE,
        0.1,
        -0.1,
        1.0 / 3.0,
        -1.0 / 3.0,
    ];
    for x in values {
        for k in [0u16, 1, 2, 250, 500, 65535] {
            for bound in [0u16, 1, 600, 65535] {
                assert_eq!(
                    of(x).floor_times_within(k, bound),
                    expected(x, k, bound),
                    "{} * {} within {}",
                    k,
                    x,
                    bound
                );
            }
        }
    }
}

#[test]
fn floor_times_within_rounds_a_tiny_negative_down() {
    assert_eq!(of(-1e-30).floor_times_within(250, 600), Some(-1));
    assert_eq!(of(1e-30).floor_times_within(250, 600), Some(0));
    assert_eq!(of(-0.0).floor_times_within(250, 600), Some(0));
}

#[test]
fn floor_times_within_gives_nothing_outside_the_bound() {
    assert_eq!(of(2.5).floor_times_within(250, 600), None);
    assert_eq!(of(-2.5).floor_times_within(250, 600), None);
    assert_eq!(of(2.4).floor_times_within(250, 600), Some(600));
    assert_eq!(of(-2.4).floor_times_within(250, 600), None);
    assert_eq!(of(2.375).floor_times_within(250, 600), Some(593));
    assert_eq!(of(-2.375).floor_times_within(250, 600), Some(-594));
}
