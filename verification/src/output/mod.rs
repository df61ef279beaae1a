//! The two sinks of a sample buffer: raw PCM bytes and a PPM image.
pub mod pcm;
pub mod ppm;
