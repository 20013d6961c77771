//! Settings of streamed audio generation.

use vstd::prelude::*;

verus! {

/// Configuration for streaming audio generation.
#[derive(Debug, Clone, Copy)]
pub struct StreamingConfig {
    /// Minimum tokens before starting to stream.
    pub min_tokens_before_stream: usize,
    /// Maximum buffer size in tokens.
    pub max_buffer_tokens: usize,
    /// Target chunk duration in milliseconds.
    pub chunk_duration_ms: u32,
    /// Enable crossfade between chunks.
    pub crossfade_enabled: bool,
    /// Crossfade duration in samples.
    pub crossfade_samples: usize,
}

impl Default for StreamingConfig {
    fn default() -> (config: Self)
        ensures
            config == (StreamingConfig {
                min_tokens_before_stream: 4,
                max_buffer_tokens: 256,
                chunk_duration_ms: 100,
                crossfade_enabled: true,
                crossfade_samples: 256,
            }),
    {
        StreamingConfig {
            min_tokens_before_stream: 4,
            max_buffer_tokens: 256,
            chunk_duration_ms: 100,
            crossfade_enabled: true,
            crossfade_samples: 256,
        }
    }
}

impl StreamingConfig {
    /// Number of samples of one chunk at `sample_rate` samples per second:
    /// the whole samples within the chunk duration.
    pub open spec fn spec_chunk_samples(&self, sample_rate: u32) -> int {
        (sample_rate as int * self.chunk_duration_ms as int) / 1000
    }

    /// Number of samples of one chunk at `sample_rate` samples per second.
    pub fn chunk_samples(&self, sample_rate: u32) -> (samples: u64)
        ensures
            samples == self.spec_chunk_samples(sample_rate),
    {
        assert(sample_rate as int * self.chunk_duration_ms as int <= 0xffff_ffff * 0xffff_ffff)
            by (nonlinear_arith)
            requires
                sample_rate <= 0xffff_ffff,
                self.chunk_duration_ms <= 0xffff_ffff,
        ;
        let product: u64 = (sample_rate as u64) * (self.chunk_duration_ms as u64);
        product / 1000
    }

    /// Whether `tokens_buffered` token frames suffice to start streaming.
    pub fn ready_to_stream(&self, tokens_buffered: usize) -> (ready: bool)
        ensures
            ready == (tokens_buffered >= self.min_tokens_before_stream),
    {
        tokens_buffered >= self.min_tokens_before_stream
    }
}

} // verus!
