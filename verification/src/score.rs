//! The score: notes with their rhythmic values, and the frames that a
//! sequence of them turns into at a tempo.
use crate::exact::lemma_ratio_lt;
use crate::exact::lemma_ratio_whole;
use crate::exact::ratio;
use crate::exact::Level;
use crate::exact::Ratio;
use crate::instrument::envelope::Envelope;
use crate::instrument::envelope::Stages;
use vstd::prelude::*;

verus! {

/// The number of samples in one second of sound.
pub const SAMPLE_RATE: u32 = 44100;

/// A tempo, in beats per minute.
pub type Bpm = i32;

/// A volume, from 0 to 1.
pub type Volume = Ratio;

/// A rhythmic value.
#[derive(Clone, Copy, Debug, PartialEq, Eq, Structural)]
pub enum Duration {
    Thirtytwo,
    Twentyfour,
    Sixteenth,
    Eighth,
    Quarter,
    Half,
    Whole,
}

impl Duration {
    /// The length in beats; a quarter is one beat.
    pub open spec fn beats(self) -> real {
        match self {
            Duration::Thirtytwo => 1real / 8real,
            Duration::Twentyfour => 1real / 6real,
            Duration::Sixteenth => 1real / 4real,
            Duration::Eighth => 1real / 2real,
            Duration::Quarter => 1real,
            Duration::Half => 2real,
            Duration::Whole => 4real,
        }
    }

    /// The length in seconds at a tempo: a beat lasts sixty seconds over the tempo.
    pub open spec fn seconds(self, bpm: int) -> real {
        60real / (bpm as real) * self.beats()
    }

    /// The length in seconds at a tempo above zero.
    pub fn length(&self, bpm: Bpm) -> (length: Ratio)
        requires
            bpm > 0,
        ensures
            length.wf(),
            length@ == self.seconds(bpm as int),
            length@ <= 240real,
    {
        let tempo: u32 = bpm as u32;
        let length: Ratio = match self {
            Duration::Thirtytwo => Ratio { num: 15, den: 2 * tempo },
            Duration::Twentyfour => Ratio { num: 10, den: tempo },
            Duration::Sixteenth => Ratio { num: 15, den: tempo },
            Duration::Eighth => Ratio { num: 30, den: tempo },
            Duration::Quarter => Ratio { num: 60, den: tempo },
            Duration::Half => Ratio { num: 120, den: tempo },
            Duration::Whole => Ratio { num: 240, den: tempo },
        };
        proof {
            let b = bpm as real;
            assert(b >= 1real);
            assert(ratio(15, 2 * bpm) == 60real / b * (1real / 8real)) by (nonlinear_arith)
                requires
                    b == bpm as real,
                    bpm >= 1,
            ;
            assert(ratio(10, bpm as int) == 60real / b * (1real / 6real)) by (nonlinear_arith)
                requires
                    b == bpm as real,
                    bpm >= 1,
            ;
            assert(ratio(15, bpm as int) == 60real / b * (1real / 4real)) by (nonlinear_arith)
                requires
                    b == bpm as real,
                    bpm >= 1,
            ;
            assert(ratio(30, bpm as int) == 60real / b * (1real / 2real)) by (nonlinear_arith)
                requires
                    b == bpm as real,
                    bpm >= 1,
            ;
            assert(ratio(60, bpm as int) == 60real / b * 1real) by (nonlinear_arith)
                requires
                    b == bpm as real,
                    bpm >= 1,
            ;
            assert(ratio(120, bpm as int) == 60real / b * 2real) by (nonlinear_arith)
                requires
                    b == bpm as real,
                    bpm >= 1,
            ;
            assert(ratio(240, bpm as int) == 60real / b * 4real) by (nonlinear_arith)
                requires
                    b == bpm as real,
                    bpm >= 1,
            ;
            lemma_ratio_whole(240);
            lemma_ratio_lt(length.num as int, length.den as int, 240, 1);
            assert(length.num * 1 <= 240 * length.den) by (nonlinear_arith)
                requires
                    length.num <= 240,
                    length.den >= 1,
            ;
        }
        length
    }
}

/// Twice the tempo, half the length: for every rhythmic value and every
/// tempo above zero.
pub proof fn lemma_length_halves_as_tempo_doubles(duration: Duration, bpm: int)
    requires
        bpm > 0,
    ensures
        duration.seconds(2 * bpm) == duration.seconds(bpm) / 2real,
{
    let b = bpm as real;
    let beats = duration.beats();
    assert((2 * bpm) as real == 2real * b);
    assert(60real / (2real * b) * beats == (60real / b * beats) / 2real) by (nonlinear_arith)
        requires
            b >= 1real,
    ;
}

/// A note: one of the twelve pitch classes with its rhythmic value and its
/// volume, or a pause with its rhythmic value.
#[derive(Clone, Copy, Debug, PartialEq, Eq, Structural)]
pub enum Note {
    C(Duration, Volume),
    Cis(Duration, Volume),
    D(Duration, Volume),
    Dis(Duration, Volume),
    E(Duration, Volume),
    F(Duration, Volume),
    Fis(Duration, Volume),
    G(Duration, Volume),
    Gis(Duration, Volume),
    A(Duration, Volume),
    B(Duration, Volume),
    H(Duration, Volume),
    Pause(Duration),
}

impl Note {
    /// The rhythmic value.
    pub open spec fn duration(self) -> Duration {
        match self {
            Note::C(d, _) => d,
            Note::Cis(d, _) => d,
            Note::D(d, _) => d,
            Note::Dis(d, _) => d,
            Note::E(d, _) => d,
            Note::F(d, _) => d,
            Note::Fis(d, _) => d,
            Note::G(d, _) => d,
            Note::Gis(d, _) => d,
            Note::A(d, _) => d,
            Note::B(d, _) => d,
            Note::H(d, _) => d,
            Note::Pause(d) => d,
        }
    }

    /// The volume; that of a pause is zero.
    pub open spec fn volume(self) -> Volume {
        match self {
            Note::C(_, v) => v,
            Note::Cis(_, v) => v,
            Note::D(_, v) => v,
            Note::Dis(_, v) => v,
            Note::E(_, v) => v,
            Note::F(_, v) => v,
            Note::Fis(_, v) => v,
            Note::G(_, v) => v,
            Note::Gis(_, v) => v,
            Note::A(_, v) => v,
            Note::B(_, v) => v,
            Note::H(_, v) => v,
            Note::Pause(_) => Ratio { num: 0, den: 1 },
        }
    }

    /// The frequency in hundredths of a hertz; that of a pause is zero.
    pub open spec fn centihertz(self) -> u32 {
        match self {
            Note::C(_, _) => 26163,
            Note::Cis(_, _) => 27718,
            Note::D(_, _) => 29366,
            Note::Dis(_, _) => 31113,
            Note::E(_, _) => 32963,
            Note::F(_, _) => 34923,
            Note::Fis(_, _) => 36999,
            Note::G(_, _) => 39200,
            Note::Gis(_, _) => 41530,
            Note::A(_, _) => 44000,
            Note::B(_, _) => 46616,
            Note::H(_, _) => 49388,
            Note::Pause(_) => 0,
        }
    }

    /// The frequency in hertz: the hundredths over a hundred.
    pub open spec fn frequency(self) -> Ratio {
        Ratio { num: self.centihertz(), den: 100 }
    }

    /// The length in seconds at a tempo.
    pub open spec fn seconds(self, bpm: int) -> real {
        self.duration().seconds(bpm)
    }

    /// The volume is a well-formed fraction.
    pub open spec fn wf(self) -> bool {
        self.volume().wf()
    }

    /// What is to be heard of the note at a tempo above zero: how long, at
    /// which frequency and how loud.
    pub fn signal(&self, bpm: Bpm) -> (signal: Signal)
        requires
            bpm > 0,
            self.wf(),
        ensures
            signal.wf(),
            signal.duration@ == self.seconds(bpm as int),
            signal.duration@ <= 240real,
            signal.freq == self.frequency(),
            signal.volume == self.volume(),
    {
        let (duration, volume, centihertz): (Duration, Volume, u32) = match self {
            Note::C(d, v) => (*d, *v, 26163),
            Note::Cis(d, v) => (*d, *v, 27718),
            Note::D(d, v) => (*d, *v, 29366),
            Note::Dis(d, v) => (*d, *v, 31113),
            Note::E(d, v) => (*d, *v, 32963),
            Note::F(d, v) => (*d, *v, 34923),
            Note::Fis(d, v) => (*d, *v, 36999),
            Note::G(d, v) => (*d, *v, 39200),
            Note::Gis(d, v) => (*d, *v, 41530),
            Note::A(d, v) => (*d, *v, 44000),
            Note::B(d, v) => (*d, *v, 46616),
            Note::H(d, v) => (*d, *v, 49388),
            Note::Pause(d) => (*d, Ratio { num: 0, den: 1 }, 0),
        };
        Signal { duration: duration.length(bpm), volume, freq: Ratio { num: centihertz, den: 100 } }
    }
}

/// One sample before its generator is evaluated: see [`Frame::sample`].
#[derive(Clone, Copy, Debug, PartialEq, Eq, Structural)]
pub enum Frame {
    /// The sample is zero, whatever the generator.
    Silence,
    /// The sample is the amplitude of the generator `point` seconds after
    /// the start of the note, at the frequency `freq` in hertz and at `volume`.
    Tone { point: Ratio, freq: Ratio, volume: Level },
}

impl Frame {
    /// The sample that the frame stands for under a generator, which gives
    /// an amplitude for a point in seconds, a frequency in hertz and a volume:
    /// zero for silence, else the amplitude at what the frame holds.
    pub open spec fn sample(self, generator: spec_fn(real, real, real) -> real) -> real {
        match self {
            Frame::Silence => 0real,
            Frame::Tone { point, freq, volume } => generator(point@, freq@, volume@),
        }
    }
}

/// The number of samples in a sound of the given length in seconds; a
/// started sample that the sound does not fill is left out.
pub open spec fn frame_count(duration: real) -> int {
    (SAMPLE_RATE as real * duration).floor()
}

/// The time of sample `i`, in seconds after the start of its note.
pub open spec fn instant(i: int) -> real {
    i as real / SAMPLE_RATE as real
}

/// Whether `frame` is sample `i` of a note of the given length, frequency and
/// volume under an envelope.
///
/// At frequency zero the frame is silence. Otherwise it is a tone at the time
/// of the sample and at the note's frequency, whose volume is the note's
/// volume shaped by the envelope at that time.
pub open spec fn is_frame(
    stages: Stages,
    duration: real,
    freq: Ratio,
    volume: Volume,
    i: int,
    frame: Frame,
) -> bool {
    if freq@ == 0real {
        frame is Silence
    } else {
        &&& frame is Tone
        &&& frame->point == (Ratio { num: i as u32, den: SAMPLE_RATE })
        &&& frame->freq == freq
        &&& frame->volume.wf()
        &&& frame->volume.volume == volume
        &&& frame->volume@ == stages.amplitude_at(instant(i), volume@, duration)
    }
}

/// What is to be heard of one note: its length in seconds, its frequency in
/// hertz and its volume.
#[derive(Clone, Copy, Debug, PartialEq, Eq, Structural)]
pub struct Signal {
    pub duration: Ratio,
    pub freq: Ratio,
    pub volume: Volume,
}

impl Signal {
    /// Each part is a well-formed fraction.
    pub open spec fn wf(self) -> bool {
        self.duration.wf() && self.freq.wf() && self.volume.wf()
    }

    /// The number of samples of the signal.
    pub fn sample_count(&self) -> (count: u64)
        requires
            self.wf(),
        ensures
            count == frame_count(self.duration@),
    {
        self.duration.floor_times(SAMPLE_RATE)
    }

    /// The frames of the signal under an envelope, one for each sample, in order.
    ///
    /// The number of a sample has to fit in 32 bits.
    pub fn play(&self, envelope: &Envelope) -> (frames: Vec<Frame>)
        requires
            self.wf(),
            envelope.wf(),
            frame_count(self.duration@) <= u32::MAX,
        ensures
            frames@.len() == frame_count(self.duration@),
            forall|i: int|
                0 <= i < frames@.len() ==> is_frame(
                    envelope@,
                    self.duration@,
                    self.freq,
                    self.volume,
                    i,
                    #[trigger] frames@[i],
                ),
    {
        let mut samples: Vec<Frame> = Vec::new();
        let count: u64 = self.sample_count();
        let mut i: u32 = 0;
        while (i as u64) < count
            invariant
                self.wf(),
                envelope.wf(),
                count == frame_count(self.duration@),
                count <= u32::MAX,
                i <= count,
                samples@.len() == i,
                forall|j: int|
                    0 <= j < i ==> is_frame(
                        envelope@,
                        self.duration@,
                        self.freq,
                        self.volume,
                        j,
                        #[trigger] samples@[j],
                    ),
            decreases count - i,
        {
            let frame: Frame = if self.freq.is_zero() {
                Frame::Silence
            } else {
                let t: Ratio = Ratio { num: i, den: SAMPLE_RATE };
                proof {
                    assert(t@ == instant(i as int));
                    lemma_sample_lies_within(i as int, self.duration@);
                }
                let volume: Level = envelope.amplitude_at(t, self.volume, self.duration);
                Frame::Tone { point: t, freq: self.freq, volume }
            };
            samples.push(frame);
            i += 1;
        }
        samples
    }
}

/// A tempo that is not above zero.
#[derive(Clone, Copy, Debug, PartialEq, Eq, Structural)]
pub struct InvalidTempo(pub Bpm);

/// A list of notes at one tempo.
#[derive(Debug)]
pub struct Sequence {
    tempo: Bpm,
    sequence: Vec<Note>,
}

/// What a [`Sequence`] holds: the tempo and the notes.
pub struct Score {
    pub tempo: int,
    pub notes: Seq<Note>,
}

impl Score {
    /// The tempo is above zero and every note is well formed.
    pub open spec fn wf(self) -> bool {
        &&& 0 < self.tempo <= i32::MAX
        &&& forall|k: int| 0 <= k < self.notes.len() ==> (#[trigger] self.notes[k]).wf()
    }

    /// The number of frames of note `k`.
    pub open spec fn length_of(self, k: int) -> int {
        frame_count(self.notes[k].seconds(self.tempo))
    }

    /// The number of frames of the notes before note `k`: the sum of their
    /// numbers of frames.
    pub open spec fn offset(self, k: int) -> int
        decreases k,
    {
        if k <= 0 {
            0
        } else {
            self.offset(k - 1) + self.length_of(k - 1)
        }
    }

    /// The number of frames of all the notes.
    pub open spec fn total(self) -> int {
        self.offset(self.notes.len() as int)
    }

    /// Frame `i` of note `k` in `frames`: the frames of a note follow those
    /// of the notes before it.
    pub open spec fn frame_of(self, frames: Seq<Frame>, k: int, i: int) -> Frame {
        frames[self.offset(k) + i]
    }

    /// Whether `frames` holds the frames of every note under an envelope, one
    /// note after the other in the order of the list, and nothing else.
    pub open spec fn is_rendering(self, stages: Stages, frames: Seq<Frame>) -> bool {
        &&& frames.len() == self.total()
        &&& forall|k: int, i: int|
            0 <= k < self.notes.len() && 0 <= i < self.length_of(k) ==> is_frame(
                stages,
                self.notes[k].seconds(self.tempo),
                self.notes[k].frequency(),
                self.notes[k].volume(),
                i,
                #[trigger] self.frame_of(frames, k, i),
            )
    }
}

impl View for Sequence {
    type V = Score;

    closed spec fn view(&self) -> Score {
        Score { tempo: self.tempo as int, notes: self.sequence@ }
    }
}

impl Sequence {
    /// The notes at a tempo. A tempo that is not above zero is refused.
    pub fn new(tempo: Bpm, sequence: Vec<Note>) -> (made: Result<Sequence, InvalidTempo>)
        requires
            forall|k: int| 0 <= k < sequence@.len() ==> (#[trigger] sequence@[k]).wf(),
        ensures
            tempo > 0 ==> made is Ok && made->Ok_0@ == (Score {
                tempo: tempo as int,
                notes: sequence@,
            }) && made->Ok_0@.wf(),
            tempo <= 0 ==> made == Err::<Sequence, InvalidTempo>(InvalidTempo(tempo)),
    {
        if tempo > 0 {
            Ok(Sequence { tempo, sequence })
        } else {
            Err(InvalidTempo(tempo))
        }
    }

    /// The frames of the notes under an envelope, one note after the other.
    pub fn play(&self, envelope: &Envelope) -> (frames: Vec<Frame>)
        requires
            self@.wf(),
            envelope.wf(),
        ensures
            self@.is_rendering(envelope@, frames@),
    {
        let mut score: Vec<Frame> = Vec::new();
        let mut k: usize = 0;
        while k < self.sequence.len()
            invariant
                self@.wf(),
                envelope.wf(),
                k <= self.sequence.len(),
                score@.len() == self@.offset(k as int),
                forall|n: int, i: int|
                    0 <= n < k && 0 <= i < self@.length_of(n) ==> is_frame(
                        envelope@,
                        self@.notes[n].seconds(self@.tempo),
                        self@.notes[n].frequency(),
                        self@.notes[n].volume(),
                        i,
                        #[trigger] self@.frame_of(score@, n, i),
                    ),
            decreases self.sequence.len() - k,
        {
            assert(self@.notes[k as int].wf());
            let signal: Signal = self.sequence[k].signal(self.tempo);
            proof {
                lemma_frame_count_grows(signal.duration@, 240real);
                assert(frame_count(240real) == 10_584_000);
            }
            let mut sound: Vec<Frame> = signal.play(envelope);
            let ghost before = score@;
            let ghost added = sound@;
            score.append(&mut sound);
            proof {
                assert forall|n: int, i: int|
                    0 <= n < k + 1 && 0 <= i < self@.length_of(n) implies is_frame(
                    envelope@,
                    self@.notes[n].seconds(self@.tempo),
                    self@.notes[n].frequency(),
                    self@.notes[n].volume(),
                    i,
                    #[trigger] self@.frame_of(score@, n, i),
                ) by {
                    lemma_offset_grows(self@, 0, n);
                    if n < k {
                        lemma_offset_grows(self@, n + 1, k as int);
                        assert(self@.frame_of(score@, n, i) == self@.frame_of(before, n, i));
                    } else {
                        assert(self@.frame_of(score@, n, i) == added[i]);
                    }
                }
            }
            k += 1;
        }
        score
    }
}

/// A longer sound has no fewer samples.
pub proof fn lemma_frame_count_grows(shorter: real, longer: real)
    requires
        shorter <= longer,
    ensures
        frame_count(shorter) <= frame_count(longer),
{
    assert(SAMPLE_RATE as real * shorter <= SAMPLE_RATE as real * longer) by (nonlinear_arith)
        requires
            shorter <= longer,
            SAMPLE_RATE as real >= 0real,
    ;
}

/// Every sample that is counted starts before its sound ends.
pub proof fn lemma_sample_lies_within(i: int, duration: real)
    requires
        0 <= i < frame_count(duration),
    ensures
        instant(i) < duration,
{
    let rate = SAMPLE_RATE as real;
    let scaled = rate * duration;
    assert(scaled.floor() as real <= scaled);
    assert((i + 1) as real <= scaled);
    assert(i as real / rate < duration) by (nonlinear_arith)
        requires
            (i + 1) as real <= rate * duration,
            rate > 0real,
    ;
}

/// The frames of a note do not start before those of an earlier note.
pub proof fn lemma_offset_grows(score: Score, earlier: int, later: int)
    requires
        score.tempo > 0,
        0 <= earlier <= later,
    ensures
        score.offset(earlier) <= score.offset(later),
    decreases later - earlier,
{
    if earlier < later {
        lemma_offset_grows(score, earlier, later - 1);
        lemma_length_is_not_negative(score, later - 1);
    }
}

/// No note has a negative number of frames.
pub proof fn lemma_length_is_not_negative(score: Score, k: int)
    requires
        score.tempo > 0,
    ensures
        score.length_of(k) >= 0,
{
    let bpm = score.tempo as real;
    let beats = score.notes[k].duration().beats();
    assert(beats > 0real);
    assert(60real / bpm * beats >= 0real) by (nonlinear_arith)
        requires
            bpm >= 1real,
            beats > 0real,
    ;
    lemma_frame_count_grows(0real, score.notes[k].seconds(score.tempo));
}

/// A pause turns into silence only: there are as many frames of it as its
/// length at the tempo holds samples, and each of them is zero under every
/// generator and every envelope.
pub proof fn lemma_pause_is_silence(
    score: Score,
    stages: Stages,
    frames: Seq<Frame>,
    generator: spec_fn(real, real, real) -> real,
    k: int,
    i: int,
)
    requires
        score.is_rendering(stages, frames),
        0 <= k < score.notes.len(),
        score.notes[k] is Pause,
        0 <= i < frame_count(score.notes[k].seconds(score.tempo)),
    ensures
        score.length_of(k) == frame_count(score.notes[k].seconds(score.tempo)),
        score.frame_of(frames, k, i) is Silence,
        score.frame_of(frames, k, i).sample(generator) == 0real,
{
    lemma_ratio_whole(0);
    lemma_ratio_lt(0, 100, 0, 1);
}

/// The frames of a sequence are as many as the frames of its notes taken
/// together: each note adds the number of samples that its own length holds.
pub proof fn lemma_length_is_sum(score: Score, stages: Stages, frames: Seq<Frame>, k: int)
    requires
        score.is_rendering(stages, frames),
        0 <= k < score.notes.len(),
    ensures
        frames.len() == score.offset(score.notes.len() as int),
        score.offset(0) == 0,
        score.offset(k + 1) == score.offset(k) + frame_count(score.notes[k].seconds(score.tempo)),
{
}

} // verus!
