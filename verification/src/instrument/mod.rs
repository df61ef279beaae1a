//! What shapes a note: its amplitude envelope and its waveform.
pub mod envelope;
pub mod generator;
