//! A PPM image of a sample buffer: one lit pixel for each sample.
use crate::binary32::Binary32;
use crate::exact::lemma_product_bound;
use crate::exact::Rational;
use vstd::arithmetic::div_mod::lemma_multiply_divide_lt;
use vstd::prelude::*;

verus! {

/// The width of an image that is not snapped to its samples, and the least
/// width of one that is.
pub const MIN_WIDTH: usize = 800;

/// The height of every image.
pub const MAX_HEIGHT: usize = 600;

/// The rows left free above and below the amplitudes from -1 to 1.
pub const VERTICAL_PADDING: usize = 50;

/// Where the amplitude -1 is drawn.
#[derive(Clone, Copy, Debug, PartialEq, Eq, Structural)]
pub enum Align {
    /// The amplitudes from -1 to 1 fill the rows between the paddings.
    Center,
    /// The amplitudes from -1 to 0 fill the rows between the paddings.
    Bottom,
}

/// How the width of the image is chosen.
#[derive(Clone, Copy, Debug, PartialEq, Eq, Structural)]
pub enum Snap {
    /// By the number of samples: see [`spec_sequence_width`].
    Height,
    /// Always [`MIN_WIDTH`].
    Width,
}

/// One amplitude of a sample buffer.
#[derive(Clone, Copy, Debug, PartialEq, Eq, Structural)]
pub enum Sample {
    /// An amplitude known exactly.
    Exact(Rational),
    /// A binary32 amplitude.
    Binary32(Binary32),
}

impl View for Sample {
    type V = real;

    /// The amplitude. For an infinity or a NaN it has no meaning.
    open spec fn view(&self) -> real {
        match *self {
            Sample::Exact(value) => value@,
            Sample::Binary32(number) => number@,
        }
    }
}

impl Sample {
    /// An exact amplitude is a well-formed fraction.
    pub open spec fn wf(self) -> bool {
        match self {
            Sample::Exact(value) => value.wf(),
            Sample::Binary32(_) => true,
        }
    }

    /// The amplitude is a number: not an infinity, not a NaN.
    pub open spec fn finite(self) -> bool {
        match self {
            Sample::Exact(_) => true,
            Sample::Binary32(number) => number.finite(),
        }
    }

    /// The amplitude is a NaN.
    pub open spec fn nan(self) -> bool {
        match self {
            Sample::Exact(_) => false,
            Sample::Binary32(number) => number.nan(),
        }
    }
}

/// The row of an amplitude, counted from the top of the image; it may lie
/// outside the image.
///
/// Centered, the amplitudes from -1 to 1 are spread over the rows between
/// the paddings. Aligned to the bottom, the amplitudes from -1 to 0 are.
pub open spec fn row_of(amplitude: real, align: Align) -> int {
    let span = (MAX_HEIGHT - 2 * VERTICAL_PADDING) as real;
    match align {
        Align::Center => ((amplitude + 1real) * span / 2real).floor() + VERTICAL_PADDING,
        Align::Bottom => ((amplitude + 1real) * span).floor() + VERTICAL_PADDING,
    }
}

/// The row, where it lies inside the image.
pub open spec fn clip(row: int) -> Option<int> {
    if 0 <= row < MAX_HEIGHT {
        Some(row)
    } else {
        None
    }
}

/// The row on which a sample is drawn, if it is drawn at all.
///
/// A finite sample is drawn where its row lies inside the image. An infinity
/// is not drawn. A NaN is drawn on the first row below the top padding.
pub open spec fn drawn_row(sample: Sample, align: Align) -> Option<int> {
    if sample.nan() {
        Some(VERTICAL_PADDING as int)
    } else if !sample.finite() {
        None
    } else {
        clip(row_of(sample@, align))
    }
}

/// The rows on which the samples of a buffer are drawn.
pub open spec fn rows_of(samples: Seq<Sample>, align: Align) -> Seq<Option<int>> {
    Seq::new(samples.len(), |i: int| drawn_row(samples[i], align))
}

/// The column of sample `i` out of `count`, in an image of the given width.
pub open spec fn column_of(i: int, width: int, count: int) -> int {
    (i * width) / count
}

/// The width of an image snapped to `count` samples: [`MIN_WIDTH`] where
/// `count` exceeds a multiple of it by less than ten, else a tenth of `count`.
pub open spec fn spec_sequence_width(count: int) -> int {
    if count % (MIN_WIDTH as int) < 10 {
        MIN_WIDTH as int
    } else {
        count / 10
    }
}

/// The width of an image snapped to the samples.
pub fn sequence_width(sequence: &[Sample]) -> (width: usize)
    ensures
        width == spec_sequence_width(sequence@.len() as int),
        width >= 1,
{
    if sequence.len() % MIN_WIDTH < 10 {
        MIN_WIDTH
    } else {
        sequence.len() / 10
    }
}

/// The decimal digits of `n` in ASCII, without leading zeros.
pub open spec fn decimal(n: nat) -> Seq<u8>
    decreases n,
{
    if n < 10 {
        seq![(0x30 + n) as u8]
    } else {
        decimal(n / 10).push((0x30 + n % 10) as u8)
    }
}

/// The header of a binary PPM image with 255 as its largest colour value:
/// `P6`, the width, the height and `255`, with single spaces between them
/// and a line feed at the end.
pub open spec fn header(width: nat, height: nat) -> Seq<u8> {
    seq![0x50u8, 0x36u8, 0x20u8] + decimal(width) + seq![0x20u8] + decimal(height) + seq![
        0x20u8,
        0x32u8,
        0x35u8,
        0x35u8,
        0x0au8,
    ]
}

/// Appends the decimal digits of `n`.
fn push_decimal(out: &mut Vec<u8>, n: usize)
    ensures
        final(out)@ == old(out)@ + decimal(n as nat),
    decreases n,
{
    if n < 10 {
        out.push((0x30 + n) as u8);
        assert(out@ =~= old(out)@ + decimal(n as nat));
    } else {
        push_decimal(out, n / 10);
        out.push((0x30 + n % 10) as u8);
        assert(out@ =~= old(out)@ + decimal(n as nat));
    }
}

/// The header of an image of the given size.
fn header_bytes(width: usize, height: usize) -> (out: Vec<u8>)
    ensures
        out@ == header(width as nat, height as nat),
{
    let mut out: Vec<u8> = Vec::new();
    out.push(0x50);
    out.push(0x36);
    out.push(0x20);
    push_decimal(&mut out, width);
    out.push(0x20);
    push_decimal(&mut out, height);
    out.push(0x20);
    out.push(0x32);
    out.push(0x35);
    out.push(0x35);
    out.push(0x0a);
    assert(out@ =~= header(width as nat, height as nat));
    out
}

/// The pixel on which sample `i` is drawn, if it is drawn: pixels are counted
/// row by row from the top left. `rows` holds the row of each sample.
pub open spec fn pixel_of(rows: Seq<Option<int>>, width: int, i: int) -> Option<int> {
    match rows[i] {
        Some(row) => Some(row * width + column_of(i, width, rows.len() as int)),
        None => None,
    }
}

/// One of the first `upto` samples is drawn on the pixel.
pub open spec fn lit(rows: Seq<Option<int>>, width: int, upto: int, pixel: int) -> bool {
    exists|i: int| 0 <= i < upto && #[trigger] pixel_of(rows, width, i) == Some(pixel)
}

/// The pixels of an image on which the first `upto` samples are drawn: three
/// bytes for each pixel, full yellow where a sample is drawn and black elsewhere.
pub open spec fn raster_upto(rows: Seq<Option<int>>, width: int, height: int, upto: int) -> Seq<
    u8,
> {
    Seq::new(
        (3 * width * height) as nat,
        |j: int|
            if lit(rows, width, upto, j / 3) && j % 3 < 2 {
                255u8
            } else {
                0u8
            },
    )
}

/// The bytes of the image with one sample drawn on each of the rows given:
/// the header, then the pixels.
pub open spec fn picture(rows: Seq<Option<int>>, width: int, height: int) -> Seq<u8> {
    header(width as nat, height as nat) + raster_upto(rows, width, height, rows.len() as int)
}

/// The bytes of the image of a sample buffer.
pub open spec fn image(samples: Seq<Sample>, align: Align, width: int, height: int) -> Seq<u8> {
    picture(rows_of(samples, align), width, height)
}

/// A sample that is not drawn leaves the pixels as they are.
proof fn lemma_raster_skips(rows: Seq<Option<int>>, width: int, height: int, i: int)
    requires
        0 <= i,
        pixel_of(rows, width, i) is None,
    ensures
        raster_upto(rows, width, height, i + 1) == raster_upto(rows, width, height, i),
{
    let before = raster_upto(rows, width, height, i);
    let after = raster_upto(rows, width, height, i + 1);
    assert forall|j: int| 0 <= j < before.len() implies before[j] == after[j] by {
        assert(lit(rows, width, i + 1, j / 3) == lit(rows, width, i, j / 3));
    }
    assert(before =~= after);
}

/// A sample that is drawn turns the three bytes of its pixel to full yellow
/// and leaves the others as they are.
proof fn lemma_raster_draws(rows: Seq<Option<int>>, width: int, height: int, i: int, pixel: int)
    requires
        0 <= i,
        pixel_of(rows, width, i) == Some(pixel),
        0 <= pixel,
        3 * pixel + 2 < 3 * width * height,
    ensures
        raster_upto(rows, width, height, i + 1) == raster_upto(rows, width, height, i).update(
            3 * pixel,
            255u8,
        ).update(3 * pixel + 1, 255u8).update(3 * pixel + 2, 0u8),
{
    let before = raster_upto(rows, width, height, i);
    let after = raster_upto(rows, width, height, i + 1);
    let drawn = before.update(3 * pixel, 255u8).update(3 * pixel + 1, 255u8).update(
        3 * pixel + 2,
        0u8,
    );
    assert forall|j: int| 0 <= j < after.len() implies after[j] == drawn[j] by {
        if j / 3 == pixel {
            assert(lit(rows, width, i + 1, pixel));
        } else {
            assert(lit(rows, width, i + 1, j / 3) == lit(rows, width, i, j / 3));
        }
    }
    assert(after =~= drawn);
}

/// The row of an amplitude from the floor of a whole multiple of it.
proof fn lemma_row_of(amplitude: real, align: Align)
    ensures
        row_of(amplitude, Align::Center) == (250real * amplitude).floor() + 250 + VERTICAL_PADDING,
        row_of(amplitude, Align::Bottom) == (500real * amplitude).floor() + 500 + VERTICAL_PADDING,
{
    assert((amplitude + 1real) * 500real / 2real == 250real * amplitude + 250real);
    assert((amplitude + 1real) * 500real == 500real * amplitude + 500real);
}

/// A sample buffer with the settings of its image.
#[derive(Debug)]
pub struct Graph {
    sequence: Vec<Sample>,
    width: usize,
    height: usize,
    align: Align,
    snap: Snap,
}

/// What a [`Graph`] holds.
pub struct GraphView {
    pub samples: Seq<Sample>,
    pub width: int,
    pub height: int,
    pub align: Align,
    pub snap: Snap,
}

impl GraphView {
    /// No sample is malformed, the width is positive and the height is [`MAX_HEIGHT`].
    pub open spec fn wf(self) -> bool {
        &&& forall|i: int| 0 <= i < self.samples.len() ==> (#[trigger] self.samples[i]).wf()
        &&& self.width >= 1
        &&& self.height == MAX_HEIGHT
    }

    /// The bytes of the image.
    pub open spec fn image(self) -> Seq<u8> {
        image(self.samples, self.align, self.width, self.height)
    }
}

impl View for Graph {
    type V = GraphView;

    closed spec fn view(&self) -> GraphView {
        GraphView {
            samples: self.sequence@,
            width: self.width as int,
            height: self.height as int,
            align: self.align,
            snap: self.snap,
        }
    }
}

impl Graph {
    /// What the graph holds is well formed.
    pub open spec fn wf(self) -> bool {
        self@.wf()
    }

    /// A graph of the samples, [`MIN_WIDTH`] wide, centered and snapped by height.
    pub fn new(sequence: &[Sample]) -> (graph: Graph)
        requires
            forall|i: int| 0 <= i < sequence@.len() ==> (#[trigger] sequence@[i]).wf(),
        ensures
            graph.wf(),
            graph@ == (GraphView {
                samples: sequence@,
                width: MIN_WIDTH as int,
                height: MAX_HEIGHT as int,
                align: Align::Center,
                snap: Snap::Height,
            }),
    {
        Graph {
            sequence: vstd::slice::slice_to_vec(sequence),
            width: MIN_WIDTH,
            height: MAX_HEIGHT,
            align: Align::Center,
            snap: Snap::Height,
        }
    }

    /// Sets where the amplitude -1 is drawn.
    pub fn align(&mut self, x: Align) -> (graph: &mut Graph)
        requires
            old(self).wf(),
        ensures
            graph.wf(),
            graph@ == (GraphView { align: x, ..old(self)@ }),
            *final(self) == *final(graph),
    {
        self.align = x;
        self
    }

    /// Sets how the width is chosen, and chooses it: by [`spec_sequence_width`]
    /// for [`Snap::Height`], [`MIN_WIDTH`] for [`Snap::Width`].
    pub fn snap(&mut self, x: Snap) -> (graph: &mut Graph)
        requires
            old(self).wf(),
        ensures
            *final(self) == *final(graph),
            graph.wf(),
            graph@ == (GraphView {
                snap: x,
                width: match x {
                    Snap::Height => spec_sequence_width(old(self)@.samples.len() as int),
                    Snap::Width => MIN_WIDTH as int,
                },
                height: MAX_HEIGHT as int,
                ..old(self)@
            }),
    {
        let ppm_width: usize = match x {
            Snap::Height => sequence_width(self.sequence.as_slice()),
            Snap::Width => MIN_WIDTH,
        };
        self.snap = x;
        self.height = MAX_HEIGHT;
        self.width = ppm_width;
        self
    }

    /// The row on which a sample is drawn, if it is drawn at all.
    pub fn sample_y_at(&self, sample: &Sample) -> (row: Option<usize>)
        requires
            sample.wf(),
        ensures
            drawn_row(*sample, self@.align) matches Some(y) ==> row == Some(y as usize),
            drawn_row(*sample, self@.align) is None ==> row is None,
    {
        let k: u16 = match self.align {
            Align::Center => 250,
            Align::Bottom => 500,
        };
        proof {
            lemma_row_of(sample@, self.align);
        }
        // the row is the floor of `k` times the amplitude, moved down by `k`
        // rows and by the padding
        match sample {
            Sample::Exact(value) => {
                let floor: i128 = value.floor_times(k);
                if -(k as i128) - 50 <= floor && floor < 550 - (k as i128) {
                    Some((floor + (k as i128) + 50) as usize)
                } else {
                    None
                }
            },
            Sample::Binary32(number) => {
                if number.is_nan() {
                    Some(VERTICAL_PADDING)
                } else if !number.is_finite() {
                    None
                } else {
                    match number.floor_times_within(k, 600) {
                        Some(floor) => {
                            if -(k as i32) - 50 <= floor && floor < 550 - (k as i32) {
                                Some((floor + (k as i32) + 50) as usize)
                            } else {
                                None
                            }
                        },
                        None => None,
                    }
                }
            },
        }
    }

    /// The column of sample `i`.
    pub fn sample_x_at(&self, i: usize) -> (column: usize)
        requires
            self.wf(),
            i < self@.samples.len(),
        ensures
            column == column_of(i as int, self@.width, self@.samples.len() as int),
            column < self@.width,
    {
        let count: usize = self.sequence.len();
        proof {
            lemma_product_bound(i as int, self.width as int, usize::MAX as int, usize::MAX as int);
            assert(usize::MAX * usize::MAX <= u128::MAX) by (nonlinear_arith)
                requires
                    usize::MAX <= u64::MAX,
            ;
            assert(i * self.width < count * self.width) by (nonlinear_arith)
                requires
                    0 <= i < count,
                    self.width >= 1,
            ;
            lemma_multiply_divide_lt(i * self.width, count as int, self.width as int);
        }
        let product: u128 = (i as u128) * (self.width as u128);
        (product / (count as u128)) as usize
    }

    /// The bytes of the image: see [`image`].
    pub fn save(&self) -> (bytes: Vec<u8>)
        requires
            self.wf(),
            3 * self@.width * self@.height <= usize::MAX,
        ensures
            bytes@ == self@.image(),
    {
        let width: usize = self.width;
        let height: usize = self.height;
        let count: usize = self.sequence.len();
        proof {
            assert(3 * width <= 3 * width * height) by (nonlinear_arith)
                requires
                    height >= 1,
                    width >= 0,
            ;
        }
        let max_size: usize = 3 * width * height;
        let mut buffer: Vec<u8> = vec![0u8; max_size];
        let ghost samples = self.sequence@;
        let ghost rows = rows_of(self.sequence@, self.align);
        assert(buffer@ =~= raster_upto(rows, width as int, height as int, 0));
        let mut i: usize = 0;
        while i < count
            invariant
                self.wf(),
                samples == self.sequence@,
                rows == rows_of(samples, self.align),
                width == self.width,
                height == self.height,
                count == samples.len(),
                max_size == 3 * width * height,
                i <= count,
                max_size <= usize::MAX,
                buffer@.len() == max_size,
                buffer@ == raster_upto(rows, width as int, height as int, i as int),
            decreases count - i,
        {
            assert(self@.samples[i as int].wf());
            match self.sample_y_at(&self.sequence[i]) {
                Some(y) => {
                    let x: usize = self.sample_x_at(i);
                    proof {
                        assert(0 <= y * width && y * width + x < width * height)
                            by (nonlinear_arith)
                            requires
                                0 <= y < height,
                                0 <= x < width,
                        ;
                        assert(3 * (width * height) == 3 * width * height) by (nonlinear_arith);
                        lemma_raster_draws(
                            rows,
                            width as int,
                            height as int,
                            i as int,
                            y * width + x,
                        );
                    }
                    let offset: usize = (y * width + x) * 3;
                    buffer.set(offset, 255);
                    buffer.set(offset + 1, 255);
                    buffer.set(offset + 2, 0);
                },
                None => {
                    proof {
                        lemma_raster_skips(rows, width as int, height as int, i as int);
                    }
                },
            }
            i += 1;
        }
        let mut bytes: Vec<u8> = header_bytes(width, height);
        bytes.append(&mut buffer);
        bytes
    }
}

/// The bytes of the image of a sample buffer, centered and snapped by height.
pub fn save(sequence: &[Sample]) -> (bytes: Vec<u8>)
    requires
        forall|i: int| 0 <= i < sequence@.len() ==> (#[trigger] sequence@[i]).wf(),
        3 * spec_sequence_width(sequence@.len() as int) * MAX_HEIGHT <= usize::MAX,
    ensures
        bytes@ == image(
            sequence@,
            Align::Center,
            spec_sequence_width(sequence@.len() as int),
            MAX_HEIGHT as int,
        ),
{
    let mut graph: Graph = Graph::new(sequence);
    graph.align(Align::Center).snap(Snap::Height);
    graph.save()
}

} // verus!
