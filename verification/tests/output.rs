use synth::binary32::Binary32;
use synth::exact::Rational;
use synth::output::pcm;
use synth::output::ppm;
use synth::output::ppm::Align;
use synth::output::ppm::Graph;
use synth::output::ppm::Sample;
use synth::output::ppm::Snap;

const HEADER_800: &[u8] = b"P6 800 600 255\n";

fn float(x: f32) -> Sample {
    Sample::Binary32(Binary32::from_bits(x.to_bits()))
}

fn exact(num: i128, den: i128) -> Sample {
    Sample::Exact(Rational { num, den })
}

fn silence(count: usize) -> Vec<Sample> {
    vec![float(0.0); count]
}

fn lit(image: &[u8], header: usize, width: usize, row: usize, column: usize) -> bool {
    let at = header + 3 * (row * width + column);
    image[at] == 255 && image[at + 1] == 255 && image[at + 2] == 0
}

fn count_lit(image: &[u8], header: usize) -> usize {
    image[header..].chunks(3).filter(|pixel| pixel[0] != 0 || pixel[1] != 0 || pixel[2] != 0).count()
}

#[test]
fn pcm_of_nothing_is_empty() {
    assert_eq!(pcm::save(&[]), Vec::<u8>::new());
}

#[test]
fn pcm_is_four_little_endian_bytes_for_each_sample() {
    let samples = [1.0f32, -1.0, 0.5, 0.0, -0.0, 0.1, f32::MAX, f32::MIN_POSITIVE, 3.1415927];
    let patterns: Vec<Binary32> = samples.iter().map(|x| Binary32::from_bits(x.to_bits())).collect();
    let mut expected: Vec<u8> = Vec::new();
    for x in samples {
        expected.extend_from_slice(&x.to_le_bytes());
    }
    assert_eq!(pcm::save(&patterns), expected);
}

#[test]
fn pcm_puts_the_least_significant_byte_first() {
    let bytes = pcm::save(&[Binary32::from_bits(0x1234_5678), Binary32::from_bits(0xfedc_ba98)]);
    assert_eq!(bytes, vec![0x78, 0x56, 0x34, 0x12, 0x98, 0xba, 0xdc, 0xfe]);
}

#[test]
fn width_is_the_least_for_a_multiple_of_it() {
    assert_eq!(ppm::sequence_width(&silence(8000)), 800);
}

#[test]
fn width_is_the_least_just_above_a_multiple_of_it() {
    assert_eq!(ppm::sequence_width(&silence(8005)), 800);
    assert_eq!(ppm::sequence_width(&silence(8009)), 800);
}

#[test]
fn width_is_a_tenth_of_the_samples_elsewhere() {
    assert_eq!(ppm::sequence_width(&silence(8500)), 850);
    assert_eq!(ppm::sequence_width(&silence(8010)), 801);
    assert_eq!(ppm::sequence_width(&silence(799)), 79);
}

#[test]
fn width_of_few_samples_is_the_least() {
    assert_eq!(ppm::sequence_width(&silence(0)), 800);
    assert_eq!(ppm::sequence_width(&silence(9)), 800);
    assert_eq!(ppm::sequence_width(&silence(10)), 1);
}

#[test]
fn image_of_nothing_is_black() {
    let image = ppm::save(&[]);
    assert_eq!(&image[..15], HEADER_800);
    assert_eq!(image.len(), 15 + 3 * 800 * 600);
    assert!(image[15..].iter().all(|byte| *byte == 0));
}

#[test]
fn image_has_one_yellow_pixel_for_each_sample() {
    let samples = [float(0.0), float(1.0), float(-1.0), float(0.5)];
    let image = ppm::save(&samples);
    assert_eq!(&image[..15], HEADER_800);
    assert_eq!(image.len(), 15 + 3 * 800 * 600);
    assert!(lit(&image, 15, 800, 300, 0));
    assert!(lit(&image, 15, 800, 550, 200));
    assert!(lit(&image, 15, 800, 50, 400));
    assert!(lit(&image, 15, 800, 425, 600));
    assert_eq!(count_lit(&image, 15), 4);
}

#[test]
fn image_is_snapped_to_its_samples() {
    let mut samples = silence(8500);
    samples[8499] = float(-1.0);
    let image = ppm::save(&samples);
    let header = b"P6 850 600 255\n";
    assert_eq!(&image[..15], header);
    assert_eq!(image.len(), 15 + 3 * 850 * 600);
    // ten samples share a column
    assert_eq!(count_lit(&image, 15), 850 + 1);
    assert!(lit(&image, 15, 850, 300, 0));
    assert!(lit(&image, 15, 850, 300, 849));
    assert!(lit(&image, 15, 850, 50, 849));
}

#[test]
fn centered_rows_round_down() {
    let graph = Graph::new(&[]);
    assert_eq!(graph.sample_y_at(&float(0.0)), Some(300));
    assert_eq!(graph.sample_y_at(&float(-0.0)), Some(300));
    assert_eq!(graph.sample_y_at(&float(0.001)), Some(300));
    assert_eq!(graph.sample_y_at(&float(-0.001)), Some(299));
    assert_eq!(graph.sample_y_at(&float(-1e-30)), Some(299));
    assert_eq!(graph.sample_y_at(&float(1.0)), Some(550));
    assert_eq!(graph.sample_y_at(&float(-1.0)), Some(50));
    assert_eq!(graph.sample_y_at(&exact(1, 3)), Some(383));
    assert_eq!(graph.sample_y_at(&exact(-1, 3)), Some(216));
}

#[test]
fn rows_outside_the_image_are_not_drawn() {
    let graph = Graph::new(&[]);
    assert_eq!(graph.sample_y_at(&float(1.198)), Some(599));
    assert_eq!(graph.sample_y_at(&float(1.2)), None);
    assert_eq!(graph.sample_y_at(&float(-1.199)), Some(0));
    assert_eq!(graph.sample_y_at(&float(-1.2001)), None);
    assert_eq!(graph.sample_y_at(&float(1e30)), None);
    assert_eq!(graph.sample_y_at(&float(-1e30)), None);
    assert_eq!(graph.sample_y_at(&float(f32::INFINITY)), None);
    assert_eq!(graph.sample_y_at(&float(f32::NEG_INFINITY)), None);
    assert_eq!(graph.sample_y_at(&exact(6, 5)), None);
    assert_eq!(graph.sample_y_at(&exact(-6, 5)), Some(0));
    assert_eq!(graph.sample_y_at(&exact(-601, 500)), None);
}

#[test]
fn nan_is_drawn_below_the_top_padding() {
    let mut graph = Graph::new(&[]);
    assert_eq!(graph.sample_y_at(&float(f32::NAN)), Some(50));
    graph.align(Align::Bottom);
    assert_eq!(graph.sample_y_at(&float(f32::NAN)), Some(50));
}

#[test]
fn bottom_rows_are_twice_as_far_apart() {
    let mut graph = Graph::new(&[]);
    graph.align(Align::Bottom);
    assert_eq!(graph.sample_y_at(&float(-1.0)), Some(50));
    assert_eq!(graph.sample_y_at(&float(-0.5)), Some(300));
    assert_eq!(graph.sample_y_at(&float(0.0)), Some(550));
    assert_eq!(graph.sample_y_at(&float(0.099)), Some(599));
    assert_eq!(graph.sample_y_at(&float(0.1)), None);
    assert_eq!(graph.sample_y_at(&float(0.5)), None);
    assert_eq!(graph.sample_y_at(&float(1.0)), None);
    assert_eq!(graph.sample_y_at(&exact(-1, 20)), Some(525));
}

#[test]
fn columns_spread_the_samples_over_the_width() {
    let graph = Graph::new(&silence(3));
    assert_eq!(graph.sample_x_at(0), 0);
    assert_eq!(graph.sample_x_at(1), 266);
    assert_eq!(graph.sample_x_at(2), 533);
    let graph = Graph::new(&silence(1600));
    assert_eq!(graph.sample_x_at(0), 0);
    assert_eq!(graph.sample_x_at(1), 0);
    assert_eq!(graph.sample_x_at(2), 1);
    assert_eq!(graph.sample_x_at(1599), 799);
}

#[test]
fn graph_is_800_wide_until_it_is_snapped() {
    let samples = silence(8500);
    let graph = Graph::new(&samples);
    let image = graph.save();
    assert_eq!(&image[..15], HEADER_800);
    assert_eq!(image.len(), 15 + 3 * 800 * 600);
    assert_eq!(count_lit(&image, 15), 800);
}

#[test]
fn snap_by_height_takes_the_width_from_the_samples() {
    let samples = silence(8500);
    let mut graph = Graph::new(&samples);
    graph.snap(Snap::Height);
    let image = graph.save();
    assert_eq!(&image[..15], b"P6 850 600 255\n");
    assert_eq!(image.len(), 15 + 3 * 850 * 600);
}

#[test]
fn snap_by_width_takes_the_least_width() {
    let samples = silence(8500);
    let mut graph = Graph::new(&samples);
    graph.snap(Snap::Height).snap(Snap::Width);
    let image = graph.save();
    assert_eq!(&image[..15], HEADER_800);
    assert_eq!(image.len(), 15 + 3 * 800 * 600);
}

#[test]
fn align_and_snap_can_be_chained() {
    let samples = [float(-1.0), float(-0.5), float(0.0), float(0.5)];
    let mut graph = Graph::new(&samples);
    graph.align(Align::Bottom).snap(Snap::Width);
    let image = graph.save();
    assert!(lit(&image, 15, 800, 50, 0));
    assert!(lit(&image, 15, 800, 300, 200));
    assert!(lit(&image, 15, 800, 550, 400));
    // the last sample falls below the image and is left out
    assert_eq!(count_lit(&image, 15), 3);
}

#[test]
fn a_sample_left_out_does_not_shift_the_others() {
    let samples = [float(0.0), float(9.0), float(0.0), float(0.0)];
    let image = ppm::save(&samples);
    assert!(lit(&image, 15, 800, 300, 0));
    assert!(lit(&image, 15, 800, 300, 400));
    assert!(lit(&image, 15, 800, 300, 600));
    assert_eq!(count_lit(&image, 15), 3);
}

#[test]
fn exact_and_binary32_samples_share_an_image() {
    let samples = [exact(1, 2), float(0.5), exact(-1, 4), float(-0.25)];
    let image = ppm::save(&samples);
    assert!(lit(&image, 15, 800, 425, 0));
    assert!(lit(&image, 15, 800, 425, 200));
    assert!(lit(&image, 15, 800, 237, 400));
    assert!(lit(&image, 15, 800, 237, 600));
    assert_eq!(count_lit(&image, 15), 4);
}

#[test]
fn header_holds_the_decimal_width() {
    let image = ppm::save(&silence(123450));
    assert_eq!(&image[..17], b"P6 12345 600 255\n");
    assert_eq!(image.len(), 17 + 3 * 12345 * 600);
}
