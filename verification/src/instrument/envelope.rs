//! The amplitude envelope of a note: attack, sustain and release.
use crate::exact::lemma_ratio_lt;
use crate::exact::lemma_ratio_whole;
use crate::exact::Rational;
use crate::exact::Level;
use crate::exact::Ratio;
use vstd::prelude::*;

verus! {

/// The three breakpoints of an envelope, in seconds. Each may be absent.
pub struct Stages {
    /// The time over which the volume rises from zero.
    pub attack: Option<real>,
    /// How long before the end of the note the full volume stops being held.
    pub sustain: Option<real>,
    /// The time over which the volume falls to zero at the end of the note.
    pub release: Option<real>,
}

impl Stages {
    /// The volume of a note `point` seconds after its start, where the note
    /// lasts `duration` seconds and is played at `volume`.
    ///
    /// The first stage that applies decides, in the order attack, sustain,
    /// release: before the attack time the volume rises in a straight line
    /// from zero; earlier than the sustain offset before the end it is the
    /// full volume; later than the release time before the end it falls in a
    /// straight line, reaching zero at the end. Where no stage applies it is
    /// the full volume.
    pub open spec fn amplitude_at(self, point: real, volume: real, duration: real) -> real {
        if self.attack is Some && point < self.attack->0 {
            volume * (point / self.attack->0)
        } else if self.sustain is Some && point < duration - self.sustain->0 {
            volume
        } else if self.release is Some && point > duration - self.release->0 {
            volume * ((duration - point) / self.release->0)
        } else {
            volume
        }
    }
}

/// An amplitude envelope: up to three breakpoints, held exactly.
#[derive(Clone, Copy, Debug)]
pub struct Envelope {
    attack: Option<Ratio>,
    sustain: Option<Ratio>,
    release: Option<Ratio>,
}

/// The value of a breakpoint, where there is one.
pub open spec fn seconds(breakpoint: Option<Ratio>) -> Option<real> {
    match breakpoint {
        Some(time) => Some(time@),
        None => None,
    }
}

/// A breakpoint, where there is one, is a well-formed fraction.
pub open spec fn breakpoint_wf(breakpoint: Option<Ratio>) -> bool {
    breakpoint matches Some(time) ==> time.wf()
}

impl View for Envelope {
    type V = Stages;

    closed spec fn view(&self) -> Stages {
        Stages {
            attack: seconds(self.attack),
            sustain: seconds(self.sustain),
            release: seconds(self.release),
        }
    }
}

impl Envelope {
    /// Every breakpoint is a well-formed fraction.
    pub closed spec fn wf(self) -> bool {
        &&& breakpoint_wf(self.attack)
        &&& breakpoint_wf(self.sustain)
        &&& breakpoint_wf(self.release)
    }

    /// An envelope with the given breakpoints, in seconds.
    pub fn new(attack: Option<Ratio>, sustain: Option<Ratio>, release: Option<Ratio>) -> (envelope:
        Envelope)
        requires
            breakpoint_wf(attack),
            breakpoint_wf(sustain),
            breakpoint_wf(release),
        ensures
            envelope.wf(),
            envelope@ == (Stages {
                attack: seconds(attack),
                sustain: seconds(sustain),
                release: seconds(release),
            }),
    {
        Envelope { attack, sustain, release }
    }

    /// The volume of a note `point` seconds after its start: see
    /// [`Stages::amplitude_at`]. It is handed back as the note's volume with
    /// the gain that shapes it.
    ///
    /// A release time of zero divides by zero after the end of the note, so
    /// with such an envelope `point` may not exceed `duration`.
    pub fn amplitude_at(&self, point: Ratio, volume: Ratio, duration: Ratio) -> (level: Level)
        requires
            self.wf(),
            point.wf(),
            volume.wf(),
            duration.wf(),
            self@.release == Some(0real) ==> point@ <= duration@,
        ensures
            level.wf(),
            level.volume == volume,
            level@ == self@.amplitude_at(point@, volume@, duration@),
    {
        if let Some(attack) = self.attack {
            if point.lt(&attack) {
                proof {
                    lemma_ratio_lt(0, 1, attack.num as int, attack.den as int);
                    lemma_ratio_lt(0, 1, point.num as int, point.den as int);
                    lemma_ratio_whole(0);
                }
                return Level { volume, gain: point.quotient(&attack) };
            }
        }
        if let Some(sustain) = self.sustain {
            if point.sum_lt(&sustain, &duration) {
                return Level { volume, gain: Rational::one() };
            }
        }
        if let Some(release) = self.release {
            if point.sum_gt(&release, &duration) {
                proof {
                    lemma_ratio_lt(0, 1, release.num as int, release.den as int);
                    lemma_ratio_whole(0);
                }
                return Level { volume, gain: duration.remainder_over(&point, &release) };
            }
        }
        Level { volume, gain: Rational::one() }
    }
}

impl Default for Envelope {
    /// The envelope without any stage.
    fn default() -> (envelope: Envelope)
        ensures
            envelope.wf(),
            envelope@ == (Stages { attack: None, sustain: None, release: None }),
    {
        Envelope { attack: None, sustain: None, release: None }
    }
}

/// An envelope without any stage leaves every volume as it is, whatever the
/// point and the duration.
pub proof fn lemma_no_stage_is_identity(point: real, volume: real, duration: real)
    ensures
        (Stages { attack: None, sustain: None, release: None }).amplitude_at(
            point,
            volume,
            duration,
        ) == volume,
{
}

/// With an attack time above zero, a note starts from silence and is at half
/// its volume after half the attack time, whatever its other stages.
pub proof fn lemma_attack_ramp(stages: Stages, volume: real, duration: real)
    requires
        stages.attack is Some,
        stages.attack->0 > 0real,
    ensures
        stages.amplitude_at(0real, volume, duration) == 0real,
        stages.amplitude_at(stages.attack->0 / 2real, volume, duration) == volume / 2real,
{
    let attack = stages.attack->0;
    assert(volume * (0real / attack) == 0real) by (nonlinear_arith)
        requires
            attack > 0real,
    ;
    assert(attack / 2real < attack);
    assert(volume * ((attack / 2real) / attack) == volume / 2real) by (nonlinear_arith)
        requires
            attack > 0real,
    ;
}

/// When the attack time has passed, the note is at its full volume, unless
/// the release has begun by then without the sustain stage holding it off.
pub proof fn lemma_attack_ends_at_full_volume(stages: Stages, volume: real, duration: real)
    requires
        stages.attack is Some,
        (stages.sustain is Some && stages.attack->0 < duration - stages.sustain->0) || !(
        stages.release is Some && stages.attack->0 > duration - stages.release->0),
    ensures
        stages.amplitude_at(stages.attack->0, volume, duration) == volume,
{
}

/// Inside the note the shaped volume lies between silence and the full
/// volume: it can fall below zero only after the end of the note.
pub proof fn lemma_amplitude_stays_in_range(
    stages: Stages,
    point: real,
    volume: real,
    duration: real,
)
    requires
        0real <= point <= duration,
        0real <= volume,
        stages.release is Some ==> stages.release->0 > 0real,
    ensures
        0real <= stages.amplitude_at(point, volume, duration) <= volume,
{
    if stages.attack is Some && point < stages.attack->0 {
        let attack = stages.attack->0;
        assert(0real <= volume * (point / attack) <= volume) by (nonlinear_arith)
            requires
                0real <= point < attack,
                0real <= volume,
        ;
    } else if stages.sustain is Some && point < duration - stages.sustain->0 {
    } else if stages.release is Some && point > duration - stages.release->0 {
        let release = stages.release->0;
        let left = duration - point;
        assert(0real <= volume * (left / release) <= volume) by (nonlinear_arith)
            requires
                0real <= left < release,
                0real <= volume,
        ;
    }
}

} // verus!
