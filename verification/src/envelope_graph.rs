//! The picture of an envelope: its gain over the length of a note.
use crate::exact::Rational;
use crate::exact::Level;
use crate::exact::Ratio;
use crate::instrument::envelope::Envelope;
use crate::instrument::envelope::Stages;
use crate::output::ppm::clip;
use crate::output::ppm::picture;
use crate::output::ppm::row_of;
use crate::output::ppm::rows_of;
use crate::output::ppm::Align;
use crate::output::ppm::Graph;
use crate::output::ppm::GraphView;
use crate::output::ppm::Sample;
use crate::output::ppm::Snap;
use crate::output::ppm::MAX_HEIGHT;
use crate::output::ppm::MIN_WIDTH;
use vstd::prelude::*;

verus! {

/// The number of samples of the picture of an envelope over a note of the
/// given length in seconds: one for each whole millisecond after the start
/// of the note and before the last that the note reaches.
pub open spec fn envelope_sample_count(over: real) -> int {
    let reached = (1000real * over).floor();
    if reached >= 1 {
        reached - 1
    } else {
        0
    }
}

/// Sample `j` of the picture of an envelope: the envelope at full volume,
/// `j + 1` milliseconds after the start of the note, below zero.
pub open spec fn envelope_sample(stages: Stages, over: real, j: int) -> real {
    -stages.amplitude_at((j + 1) as real / 1000real, 1real, over)
}

/// The rows on which the samples of the picture of an envelope are drawn:
/// silence on the lowest row, full volume on the highest.
pub open spec fn envelope_rows(stages: Stages, over: real) -> Seq<Option<int>> {
    Seq::new(
        envelope_sample_count(over) as nat,
        |j: int| clip(row_of(envelope_sample(stages, over, j), Align::Bottom)),
    )
}

/// Whether `samples` are the samples of the picture of an envelope, each
/// held exactly.
pub open spec fn is_envelope_samples(stages: Stages, over: real, samples: Seq<Sample>) -> bool {
    &&& samples.len() == envelope_sample_count(over)
    &&& forall|j: int|
        0 <= j < samples.len() ==> {
            &&& (#[trigger] samples[j]) is Exact
            &&& samples[j].wf()
            &&& samples[j]@ == envelope_sample(stages, over, j)
        }
}

/// The rows of the samples of the picture of an envelope are those of
/// [`envelope_rows`], however the samples are held.
pub proof fn lemma_envelope_rows(stages: Stages, over: real, samples: Seq<Sample>)
    requires
        is_envelope_samples(stages, over, samples),
    ensures
        rows_of(samples, Align::Bottom) == envelope_rows(stages, over),
{
    assert(rows_of(samples, Align::Bottom) =~= envelope_rows(stages, over));
}

/// Every millisecond that is counted lies before the end of the note.
pub proof fn lemma_millisecond_lies_within(x: int, over: real)
    requires
        0 <= x < (1000real * over).floor(),
    ensures
        x as real / 1000real < over,
{
    let scaled = 1000real * over;
    assert(scaled.floor() as real <= scaled);
}

/// The picture of an envelope.
#[derive(Debug)]
pub struct EnvelopeGraph {
    graph: Graph,
}

impl View for EnvelopeGraph {
    type V = GraphView;

    closed spec fn view(&self) -> GraphView {
        self.graph@
    }
}

impl EnvelopeGraph {
    /// The picture is [`MIN_WIDTH`] wide, and what holds of every graph holds of it.
    pub open spec fn wf(self) -> bool {
        self@.wf() && self@.width == MIN_WIDTH
    }

    /// The picture of an envelope over a note of `over` seconds, aligned to
    /// the bottom and [`MIN_WIDTH`] wide.
    ///
    /// The number of a millisecond has to fit in 32 bits.
    pub fn new(envelope: &Envelope, over: Ratio) -> (picture: EnvelopeGraph)
        requires
            envelope.wf(),
            over.wf(),
            (1000real * over@).floor() <= u32::MAX,
        ensures
            picture.wf(),
            is_envelope_samples(envelope@, over@, picture@.samples),
            picture@.width == MIN_WIDTH,
            picture@.height == MAX_HEIGHT,
            picture@.align == Align::Bottom,
            picture@.snap == Snap::Width,
    {
        let samples: Vec<Sample> = EnvelopeGraph::extract_samples(envelope, over);
        let mut graph: Graph = Graph::new(samples.as_slice());
        graph.align(Align::Bottom).snap(Snap::Width);
        EnvelopeGraph { graph }
    }

    /// The bytes of the picture as a PPM image.
    pub fn save(&self) -> (bytes: Vec<u8>)
        requires
            self.wf(),
        ensures
            bytes@ == self@.image(),
    {
        self.graph.save()
    }

    /// The samples of the picture of an envelope over a note of `duration` seconds.
    ///
    /// The number of a millisecond has to fit in 32 bits.
    pub fn extract_samples(envelope: &Envelope, duration: Ratio) -> (samples: Vec<Sample>)
        requires
            envelope.wf(),
            duration.wf(),
            (1000real * duration@).floor() <= u32::MAX,
        ensures
            is_envelope_samples(envelope@, duration@, samples@),
    {
        let mut samples: Vec<Sample> = Vec::new();
        let all: u64 = duration.floor_times(1000);
        let full: Ratio = Ratio::whole(1);
        let mut x: u32 = 1;
        while (x as u64) < all
            invariant
                envelope.wf(),
                duration.wf(),
                full.wf(),
                full@ == 1real,
                all == (1000real * duration@).floor(),
                all <= u32::MAX,
                1 <= x,
                x <= all || x == 1,
                samples@.len() == x - 1,
                forall|j: int|
                    0 <= j < samples@.len() ==> {
                        &&& (#[trigger] samples@[j]) is Exact
                        &&& samples@[j].wf()
                        &&& samples@[j]@ == envelope_sample(envelope@, duration@, j)
                    },
            decreases all - x,
        {
            let point: Ratio = Ratio { num: x, den: 1000 };
            proof {
                lemma_millisecond_lies_within(x as int, duration@);
            }
            let level: Level = envelope.amplitude_at(point, full, duration);
            let gain: Rational = level.gain.negated();
            proof {
                assert(level@ == 1real * level.gain@);
            }
            samples.push(Sample::Exact(gain));
            x += 1;
        }
        samples
    }
}

/// The picture of the sample envelope: a note of a tenth of a second with an
/// attack of twenty milliseconds and a release of fifty.
pub fn draw_sample_envelope() -> (bytes: Vec<u8>)
    ensures
        bytes@ == picture(
            envelope_rows(
                Stages {
                    attack: Some(20real / 1000real),
                    sustain: None,
                    release: Some(50real / 1000real),
                },
                100real / 1000real,
            ),
            MIN_WIDTH as int,
            MAX_HEIGHT as int,
        ),
{
    let duration: Ratio = Ratio { num: 100, den: 1000 };
    let envelope: Envelope = Envelope::new(
        Some(Ratio { num: 20, den: 1000 }),
        None,
        Some(Ratio { num: 50, den: 1000 }),
    );
    let graph: EnvelopeGraph = EnvelopeGraph::new(&envelope, duration);
    proof {
        lemma_envelope_rows(envelope@, duration@, graph@.samples);
    }
    graph.save()
}

} // verus!
