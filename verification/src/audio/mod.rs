//! Formats and settings of the audio output.

pub mod encoder;
pub mod streaming;
