use synth::exact::Level;
use synth::exact::Ratio;
use synth::instrument::envelope::Envelope;

fn ms(n: u32) -> Ratio {
    Ratio { num: n, den: 1000 }
}

fn is(level: &Level, num: i128, den: i128) -> bool {
    let n = level.volume.num as i128 * level.gain.num;
    let d = level.volume.den as i128 * level.gain.den;
    d > 0 && n * den == num * d
}

#[test]
fn envelope_without_stages_is_the_identity() {
    let envelope = Envelope::new(None, None, None);
    let volume = Ratio { num: 3, den: 7 };
    for point in [ms(0), ms(1), ms(50), ms(100), ms(5000)] {
        for duration in [ms(0), ms(100), ms(2000)] {
            let level = envelope.amplitude_at(point, volume, duration);
            assert!(is(&level, 3, 7));
            assert_eq!(level.volume, volume);
        }
    }
}

#[test]
fn default_envelope_is_the_identity() {
    let envelope = Envelope::default();
    let level = envelope.amplitude_at(ms(10), Ratio { num: 1, den: 2 }, ms(100));
    assert!(is(&level, 1, 2));
}

#[test]
fn attack_starts_from_silence() {
    let envelope = Envelope::new(Some(ms(20)), None, None);
    let level = envelope.amplitude_at(ms(0), Ratio { num: 1, den: 2 }, ms(100));
    assert!(is(&level, 0, 1));
}

#[test]
fn attack_is_at_half_volume_half_way() {
    let envelope = Envelope::new(Some(ms(20)), None, None);
    let level = envelope.amplitude_at(ms(10), Ratio { num: 1, den: 2 }, ms(100));
    assert!(is(&level, 1, 4));
}

#[test]
fn attack_ends_at_full_volume() {
    let envelope = Envelope::new(Some(ms(20)), None, None);
    let level = envelope.amplitude_at(ms(20), Ratio { num: 1, den: 2 }, ms(100));
    assert!(is(&level, 1, 2));
}

#[test]
fn attack_is_a_straight_line() {
    let envelope = Envelope::new(Some(ms(20)), None, Some(ms(50)));
    for t in 0..20u32 {
        let level = envelope.amplitude_at(ms(t), Ratio::whole(1), ms(100));
        assert!(is(&level, t as i128, 20));
    }
}

#[test]
fn release_falls_to_silence_at_the_end() {
    let envelope = Envelope::new(Some(ms(20)), None, Some(ms(50)));
    let full = Ratio::whole(1);
    assert!(is(&envelope.amplitude_at(ms(50), full, ms(100)), 1, 1));
    assert!(is(&envelope.amplitude_at(ms(51), full, ms(100)), 49, 50));
    assert!(is(&envelope.amplitude_at(ms(75), full, ms(100)), 1, 2));
    assert!(is(&envelope.amplitude_at(ms(99), full, ms(100)), 1, 50));
    assert!(is(&envelope.amplitude_at(ms(100), full, ms(100)), 0, 1));
}

#[test]
fn release_goes_below_zero_after_the_end() {
    let envelope = Envelope::new(None, None, Some(ms(50)));
    let level = envelope.amplitude_at(ms(125), Ratio { num: 1, den: 2 }, ms(100));
    assert!(is(&level, -1, 4));
}

#[test]
fn sustain_holds_the_release_off() {
    let envelope = Envelope::new(None, Some(ms(10)), Some(ms(50)));
    let full = Ratio::whole(1);
    assert!(is(&envelope.amplitude_at(ms(75), full, ms(100)), 1, 1));
    assert!(is(&envelope.amplitude_at(ms(89), full, ms(100)), 1, 1));
    assert!(is(&envelope.amplitude_at(ms(90), full, ms(100)), 1, 5));
    assert!(is(&envelope.amplitude_at(ms(95), full, ms(100)), 1, 10));
}

#[test]
fn attack_comes_before_release_where_they_overlap() {
    let envelope = Envelope::new(Some(ms(80)), None, Some(ms(80)));
    let full = Ratio::whole(1);
    assert!(is(&envelope.amplitude_at(ms(40), full, ms(100)), 1, 2));
    assert!(is(&envelope.amplitude_at(ms(79), full, ms(100)), 79, 80));
    assert!(is(&envelope.amplitude_at(ms(80), full, ms(100)), 1, 4));
}

#[test]
fn attack_boundary_can_fall_into_the_release() {
    let envelope = Envelope::new(Some(ms(500)), None, Some(ms(1000)));
    let level = envelope.amplitude_at(ms(500), Ratio::whole(1), ms(1000));
    assert!(is(&level, 1, 2));
}

#[test]
fn attack_of_zero_never_applies() {
    let envelope = Envelope::new(Some(ms(0)), None, None);
    let level = envelope.amplitude_at(ms(0), Ratio { num: 1, den: 2 }, ms(100));
    assert!(is(&level, 1, 2));
}

#[test]
fn release_of_zero_never_applies_inside_the_note() {
    let envelope = Envelope::new(None, None, Some(ms(0)));
    let full = Ratio::whole(1);
    assert!(is(&envelope.amplitude_at(ms(99), full, ms(100)), 1, 1));
    assert!(is(&envelope.amplitude_at(ms(100), full, ms(100)), 1, 1));
}

#[test]
fn envelope_keeps_the_volume_apart_from_the_gain() {
    let envelope = Envelope::new(Some(ms(20)), None, None);
    let volume = Ratio { num: 1, den: 2 };
    let level = envelope.amplitude_at(ms(5), volume, ms(100));
    assert_eq!(level.volume, volume);
    assert_eq!(level.gain.num * 4, level.gain.den);
}
