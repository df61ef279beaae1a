//! The waveforms, as far as they are rational numbers.
//!
//! A generator gives the amplitude of a periodic wave at a point in time,
//! for a frequency and a volume. The sine and the triangle need the sine
//! function itself, and stay with the caller. What is here is exact: the
//! sawtooth, the choice that the square makes from a sine sample, and the
//! two voices that the doubled generator mixes.
use crate::binary32::Binary32;
use crate::exact::lemma_product_bound;
use crate::exact::lemma_ratio_add;
use crate::exact::lemma_ratio_div;
use crate::exact::lemma_ratio_floor;
use crate::exact::lemma_ratio_lt;
use crate::exact::lemma_ratio_mul;
use crate::exact::lemma_ratio_whole;
use crate::exact::ratio;
use crate::exact::Ratio;
use crate::exact::Rational;
use vstd::prelude::*;

verus! {

/// The sine wave, for whatever function stands for the sine and whatever
/// number for the circle constant: the volume times the sine of the turns
/// that have passed.
pub open spec fn sine_formula(
    sin: spec_fn(real) -> real,
    pi: real,
    point: real,
    freq: real,
    volume: real,
) -> real {
    volume * sin(freq * point * 2real * pi)
}

/// The square wave, chosen by a sine sample at volume one: the volume where
/// the sample is above zero, the volume below zero where it is not.
pub open spec fn square_formula(sine: real, volume: real) -> real {
    if sine > 0real {
        volume
    } else {
        volume * (-1real)
    }
}

/// The triangle wave, for whatever functions stand for the sine and its
/// inverse: the inverse sine of the sine, scaled to the volume.
pub open spec fn triangle_formula(
    sin: spec_fn(real) -> real,
    asin: spec_fn(real) -> real,
    pi: real,
    point: real,
    freq: real,
    volume: real,
) -> real {
    (2real * volume / pi) * asin(sin(freq * point * 2real * pi))
}

/// The doubled generator over two generators: the first at three quarters of
/// the volume, the second at one quarter of it and at the frequency divided
/// by the detune ratio.
pub open spec fn double_formula(
    one: spec_fn(real, real, real) -> real,
    two: spec_fn(real, real, real) -> real,
    detune: real,
    point: real,
    freq: real,
    volume: real,
) -> real {
    one(point, freq, volume * (3real / 4real)) + two(point, freq / detune, volume * (1real / 4real))
}

/// What is left of `x` after the largest whole multiple of `modulus` not above it.
pub open spec fn remainder(x: real, modulus: real) -> real {
    x - modulus * ((x / modulus).floor() as real)
}

/// The sawtooth as it is written down with the circle constant: the
/// remainder of the point by the period climbs from `-volume` to `volume`.
pub open spec fn saw_formula(point: real, freq: real, volume: real, pi: real) -> real {
    volume * (2real / pi) * (freq * pi * remainder(point, 1real / freq) - pi / 2real)
}

/// The sawtooth at volume one: twice the part of a turn that has passed, less one.
pub open spec fn unit_saw(point: real, freq: real) -> real {
    2real * (freq * point - ((freq * point).floor() as real)) - 1real
}

/// The circle constant cancels out of the sawtooth: whatever number other
/// than zero stands for it, the sawtooth is the volume times [`unit_saw`].
pub proof fn lemma_saw_is_rational(point: real, freq: real, volume: real, pi: real)
    requires
        freq > 0real,
        pi != 0real,
    ensures
        saw_formula(point, freq, volume, pi) == volume * unit_saw(point, freq),
{
    let period = 1real / freq;
    let turns = freq * point;
    assert(point / period == turns) by (nonlinear_arith)
        requires
            period == 1real / freq,
            turns == freq * point,
            freq > 0real,
    ;
    let whole = turns.floor() as real;
    assert(remainder(point, period) == point - period * whole);
    assert(freq * pi * (point - period * whole) - pi / 2real == (pi / 2real) * (2real * (turns
        - whole) - 1real)) by (nonlinear_arith)
        requires
            period == 1real / freq,
            turns == freq * point,
            freq > 0real,
    ;
    assert(volume * (2real / pi) * ((pi / 2real) * (2real * (turns - whole) - 1real)) == volume * (
    2real * (turns - whole) - 1real)) by (nonlinear_arith)
        requires
            pi != 0real,
    ;
}

/// At volume zero every generator is silent: the sine, the square, the
/// triangle and the sawtooth at every point and frequency, and the doubled
/// generator over two generators that are silent at volume zero. This holds
/// whatever functions stand for the sine and its inverse, and whatever
/// number other than zero for the circle constant.
pub proof fn lemma_no_volume_is_silence(
    sin: spec_fn(real) -> real,
    asin: spec_fn(real) -> real,
    pi: real,
    one: spec_fn(real, real, real) -> real,
    two: spec_fn(real, real, real) -> real,
    detune: real,
    point: real,
    freq: real,
)
    requires
        pi != 0real,
        forall|p: real, f: real| #[trigger] one(p, f, 0real) == 0real,
        forall|p: real, f: real| #[trigger] two(p, f, 0real) == 0real,
    ensures
        sine_formula(sin, pi, point, freq, 0real) == 0real,
        square_formula(sin(freq * point * 2real * pi), 0real) == 0real,
        triangle_formula(sin, asin, pi, point, freq, 0real) == 0real,
        saw_formula(point, freq, 0real, pi) == 0real,
        double_formula(one, two, detune, point, freq, 0real) == 0real,
{
    let angle = freq * point * 2real * pi;
    assert(0real * sin(angle) == 0real);
    assert(2real * 0real / pi == 0real) by (nonlinear_arith)
        requires
            pi != 0real,
    ;
    assert(0real * asin(sin(angle)) == 0real);
    let ramp = freq * pi * remainder(point, 1real / freq) - pi / 2real;
    assert(0real * (2real / pi) * ramp == 0real) by (nonlinear_arith);
    assert(0real * (3real / 4real) == 0real);
    assert(0real * (1real / 4real) == 0real);
    assert(one(point, freq, 0real) == 0real);
    assert(two(point, freq / detune, 0real) == 0real);
}

/// The sawtooth at volume one, `point` seconds after the start of the note,
/// at a frequency above zero. The sawtooth at any volume is that volume
/// times it.
pub fn saw(point: Ratio, freq: Ratio) -> (wave: Rational)
    requires
        point.wf(),
        freq.wf(),
        freq.num > 0,
    ensures
        wave.wf(),
        wave@ == unit_saw(point@, freq@),
        -1real <= wave@ < 1real,
        forall|volume: real, pi: real|
            pi != 0real ==> #[trigger] saw_formula(point@, freq@, volume, pi) == volume * wave@,
{
    proof {
        lemma_product_bound(freq.num as int, point.num as int, u32::MAX as int, u32::MAX as int);
        lemma_product_bound(freq.den as int, point.den as int, u32::MAX as int, u32::MAX as int);
        assert(freq.den * point.den > 0) by (nonlinear_arith)
            requires
                freq.den > 0,
                point.den > 0,
        ;
    }
    // the turns that have passed are `turns / whole`
    let turns: u64 = (freq.num as u64) * (point.num as u64);
    let whole: u64 = (freq.den as u64) * (point.den as u64);
    let passed: u64 = turns % whole;
    proof {
        let n = turns as int;
        let d = whole as int;
        // freq * point == n / d, and its floor is the quotient
        lemma_ratio_mul(freq.num as int, freq.den as int, point.num as int, point.den as int);
        lemma_ratio_floor(n, d);
        // n / d less its floor is (n % d) / d
        lemma_ratio_whole(n / d);
        lemma_ratio_add(n, d, n / d, 1);
        assert(n * 1 - (n / d) * d == n % d) by (nonlinear_arith)
            requires
                d > 0,
        ;
        assert(d * 1 == d);
        // twice that, less one, is (2 * (n % d) - d) / d
        lemma_ratio_whole(2);
        lemma_ratio_mul(2, 1, n % d, d);
        lemma_ratio_whole(1);
        lemma_ratio_add(2 * (n % d), d, 1, 1);
        assert((2 * (n % d)) * 1 - 1 * d == 2 * (n % d) - d);
        // which lies from -1 up to but not including 1
        lemma_ratio_whole(-1);
        lemma_ratio_lt(2 * (n % d) - d, d, 1, 1);
        lemma_ratio_lt(-1, 1, 2 * (n % d) - d, d);
        // and the circle constant cancels out of the formula
        lemma_ratio_whole(0);
        lemma_ratio_lt(0, 1, freq.num as int, freq.den as int);
        assert forall|volume: real, pi: real| pi != 0real implies #[trigger] saw_formula(
            point@,
            freq@,
            volume,
            pi,
        ) == volume * unit_saw(point@, freq@) by {
            lemma_saw_is_rational(point@, freq@, volume, pi);
        }
    }
    Rational { num: 2 * (passed as i128) - (whole as i128), den: whole as i128 }
}

/// The square at volume one, chosen by a sine sample at volume one: one
/// where the sample is above zero, minus one where it is not.
pub fn square(sine: Binary32) -> (wave: Rational)
    ensures
        wave.wf(),
        sine.exceeds_zero() ==> wave@ == 1real,
        !sine.exceeds_zero() ==> wave@ == -1real,
        sine.finite() ==> wave@ == square_formula(sine@, 1real),
{
    proof {
        lemma_ratio_whole(1);
        lemma_ratio_whole(-1);
    }
    if sine.is_positive() {
        Rational { num: 1, den: 1 }
    } else {
        Rational { num: -1, den: 1 }
    }
}

/// The numerator of the ratio by which the second voice of the doubled
/// generator is detuned, 1.033.
pub const DETUNE_NUM: u32 = 1033;

/// The denominator of that ratio.
pub const DETUNE_DEN: u32 = 1000;

/// One voice of a mixed generator: the frequency at which it sounds, in
/// hertz, and its share of the volume.
#[derive(Clone, Copy, Debug, PartialEq, Eq, Structural)]
pub struct Voice {
    pub freq: Rational,
    pub share: Ratio,
}

/// The two voices of the doubled generator for a frequency: three quarters
/// of the volume at the frequency itself, one quarter at the frequency
/// divided by the detune ratio. Its amplitude is the sum of theirs.
pub fn double(freq: Ratio) -> (voices: (Voice, Voice))
    requires
        freq.wf(),
    ensures
        voices.0.freq.wf(),
        voices.0.freq@ == freq@,
        voices.0.share == (Ratio { num: 3, den: 4 }),
        voices.1.freq.wf(),
        voices.1.freq@ == freq@ / ratio(DETUNE_NUM as int, DETUNE_DEN as int),
        voices.1.share == (Ratio { num: 1, den: 4 }),
{
    proof {
        lemma_ratio_div(
            freq.num as int,
            freq.den as int,
            DETUNE_NUM as int,
            DETUNE_DEN as int,
        );
    }
    let tuned: Voice = Voice {
        freq: Rational { num: freq.num as i128, den: freq.den as i128 },
        share: Ratio { num: 3, den: 4 },
    };
    let detuned: Voice = Voice {
        freq: Rational {
            num: (freq.num as i128) * (DETUNE_DEN as i128),
            den: (freq.den as i128) * (DETUNE_NUM as i128),
        },
        share: Ratio { num: 1, den: 4 },
    };
    (tuned, detuned)
}

} // verus!
