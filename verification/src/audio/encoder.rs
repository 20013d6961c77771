//! Output formats of encoded audio.

use vstd::prelude::*;

verus! {

/// Supported audio output formats.
#[derive(Debug, Clone, Copy, PartialEq, Eq, Structural)]
pub enum AudioFormat {
    /// WAV container with 16-bit samples.
    Wav,
    /// Raw samples of 32 bits each.
    RawF32,
    /// Raw samples of 16 bits each.
    RawI16,
}

/// The media type under which a format is served.
pub open spec fn media_type(format: AudioFormat) -> Seq<char> {
    match format {
        AudioFormat::Wav => "audio/wav"@,
        AudioFormat::RawF32 => "application/octet-stream"@,
        AudioFormat::RawI16 => "application/octet-stream"@,
    }
}

/// Number of bytes that one sample takes in a format.
pub open spec fn sample_bytes(format: AudioFormat) -> nat {
    match format {
        AudioFormat::Wav => 2,
        AudioFormat::RawF32 => 4,
        AudioFormat::RawI16 => 2,
    }
}

/// Settings of an encoder of audio samples.
pub struct AudioEncoder {
    sample_rate: u32,
    channels: u16,
}

impl AudioEncoder {
    pub closed spec fn spec_sample_rate(&self) -> u32 {
        self.sample_rate
    }

    pub closed spec fn spec_channels(&self) -> u16 {
        self.channels
    }

    /// Creates an encoder.
    pub fn new(sample_rate: u32, channels: u16) -> (encoder: Self)
        ensures
            encoder.spec_sample_rate() == sample_rate,
            encoder.spec_channels() == channels,
    {
        AudioEncoder { sample_rate, channels }
    }

    /// Samples per second and channel.
    pub fn sample_rate(&self) -> (rate: u32)
        ensures
            rate == self.spec_sample_rate(),
    {
        self.sample_rate
    }

    /// Number of channels.
    pub fn channels(&self) -> (channels: u16)
        ensures
            channels == self.spec_channels(),
    {
        self.channels
    }

    /// The media type under which a format is served.
    pub fn content_type(format: AudioFormat) -> (media: &'static str)
        ensures
            media@ == media_type(format),
    {
        match format {
            AudioFormat::Wav => "audio/wav",
            AudioFormat::RawF32 => "application/octet-stream",
            AudioFormat::RawI16 => "application/octet-stream",
        }
    }

    /// Number of bytes that `sample_count` raw samples take in a format,
    /// without the header of a container; `None` where that is no machine
    /// number.
    pub fn payload_bytes(format: AudioFormat, sample_count: usize) -> (bytes: Option<usize>)
        ensures
            bytes is Some <==> sample_count * sample_bytes(format) <= usize::MAX,
            bytes is Some ==> bytes->0 == sample_count * sample_bytes(format),
    {
        let width: usize = match format {
            AudioFormat::Wav => 2,
            AudioFormat::RawF32 => 4,
            AudioFormat::RawI16 => 2,
        };
        sample_count.checked_mul(width)
    }
}

} // verus!
