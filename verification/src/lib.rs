//! An exact-arithmetic core for a small tone synthesizer.
//!
//! A score (notes, rhythmic values and a tempo) is turned into a stream of
//! frames, one for each sample at a fixed sample rate. Every time, frequency
//! and volume in a frame is an exact rational number, and the amplitude
//! envelope is applied exactly. What is left to the caller is the one step
//! that needs the sine function: evaluating a generator on a frame to get
//! the sample as a binary32 number.
//!
//! On the way out, a buffer of binary32 samples is laid out as raw PCM bytes,
//! and a buffer of samples is drawn as a PPM image. Both come back as bytes:
//! nothing here touches a file.
//!
//! - [`exact`]: fractions in fixed-width integers, valued as real numbers
//! - [`binary32`]: binary32 numbers by their bit patterns, valued as real numbers
//! - [`instrument`]: the envelope, and the parts of the generators that are rational
//! - [`score`]: notes, signals, sequences and their frames
//! - [`output`]: the PCM and PPM sinks
//! - [`envelope_graph`]: the picture of an envelope
pub mod binary32;
pub mod envelope_graph;
pub mod exact;
pub mod instrument;
pub mod output;
pub mod score;
