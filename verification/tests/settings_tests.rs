use izwi_core::audio::encoder::{AudioEncoder, AudioFormat};
use izwi_core::audio::streaming::StreamingConfig;
use izwi_core::config::{
    default_chunk_size, default_cors_enabled, default_host, default_kv_cache_dtype,
    default_max_batch_size, default_max_sequence_length, default_num_threads, default_port,
    EngineConfig, ServerConfig,
};
use izwi_core::inference::kv_cache::{KVCacheConfig, KVCacheDtype};
use izwi_core::model::weights::{TensorData, TensorDtype};
use izwi_core::tokenizer::SpecialTokens;

#[test]
fn content_types_of_formats() {
    assert_eq!(AudioEncoder::content_type(AudioFormat::Wav), "audio/wav");
    assert_eq!(AudioEncoder::content_type(AudioFormat::RawF32), "application/octet-stream");
    assert_eq!(AudioEncoder::content_type(AudioFormat::RawI16), "application/octet-stream");
}

#[test]
fn encoder_keeps_its_settings() {
    let encoder = AudioEncoder::new(24000, 1);
    assert_eq!(encoder.sample_rate(), 24000);
    assert_eq!(encoder.channels(), 1);
    assert_eq!(AudioEncoder::payload_bytes(AudioFormat::Wav, 10), Some(20));
    assert_eq!(AudioEncoder::payload_bytes(AudioFormat::RawF32, 10), Some(40));
    assert_eq!(AudioEncoder::payload_bytes(AudioFormat::RawI16, 0), Some(0));
    assert_eq!(AudioEncoder::payload_bytes(AudioFormat::RawF32, usize::MAX), None);
}

#[test]
fn streaming_defaults_and_chunks() {
    let config = StreamingConfig::default();
    assert_eq!(config.min_tokens_before_stream, 4);
    assert_eq!(config.max_buffer_tokens, 256);
    assert_eq!(config.chunk_duration_ms, 100);
    assert!(config.crossfade_enabled);
    assert_eq!(config.crossfade_samples, 256);
    assert_eq!(config.chunk_samples(24000), 2400);
    assert_eq!(config.chunk_samples(44100), 4410);
    assert_eq!(config.chunk_samples(u32::MAX), 429_496_729);
    assert!(config.ready_to_stream(4));
    assert!(!config.ready_to_stream(3));
}

#[test]
fn number_formats_have_their_sizes() {
    assert_eq!(KVCacheDtype::Float32.size_bytes(), 4);
    assert_eq!(KVCacheDtype::Float16.size_bytes(), 2);
    assert_eq!(KVCacheDtype::BFloat16.size_bytes(), 2);
    assert_eq!(TensorDtype::Float32.size_bytes(), 4);
    assert_eq!(TensorDtype::Int32.size_bytes(), 4);
    assert_eq!(TensorDtype::Float16.size_bytes(), 2);
    assert_eq!(TensorDtype::BFloat16.size_bytes(), 2);
    assert_eq!(TensorDtype::Int64.size_bytes(), 8);
    assert_eq!(TensorDtype::Uint8.size_bytes(), 1);
}

#[test]
fn growing_cache_defaults_and_block_bytes() {
    let config = KVCacheConfig::default();
    assert_eq!(config.num_layers, 28);
    assert_eq!(config.num_heads, 12);
    assert_eq!(config.head_dim, 128);
    assert_eq!(config.block_size, 16);
    assert_eq!(config.max_seq_len, 4096);
    assert_eq!(config.dtype, KVCacheDtype::Float16);
    assert_eq!(config.block_bytes(), Some(28 * 12 * 16 * 128 * 2 * 2));
    let huge = KVCacheConfig {
        num_layers: usize::MAX,
        ..config
    };
    assert_eq!(huge.block_bytes(), None);
}

#[test]
fn tensor_data_reports_its_bytes() {
    let tensor = TensorData {
        name: "w".to_string(),
        shape: vec![2, 3],
        dtype: TensorDtype::Float16,
        data: vec![0u8; 12],
    };
    assert_eq!(tensor.memory_bytes(), 12);
}

#[test]
fn special_tokens_default_to_none() {
    let tokens = SpecialTokens::default();
    assert_eq!(tokens.bos_id, None);
    assert_eq!(tokens.eos_id, None);
    assert_eq!(tokens.pad_id, None);
    assert_eq!(tokens.audio_start_id, None);
    assert_eq!(tokens.audio_end_id, None);
    assert!(!tokens.is_end(0));
    let set = SpecialTokens {
        eos_id: Some(2),
        audio_end_id: Some(9),
        ..tokens
    };
    assert!(set.is_end(2));
    assert!(set.is_end(9));
    assert!(!set.is_end(3));
}

#[test]
fn server_and_engine_defaults() {
    assert_eq!(default_max_batch_size(), 8);
    assert_eq!(default_max_sequence_length(), 4096);
    assert_eq!(default_chunk_size(), 128);
    assert_eq!(default_port(), 8080);
    assert!(default_cors_enabled());
    assert_eq!(default_host(), "0.0.0.0");
    assert_eq!(default_kv_cache_dtype(), "float16");
    assert_eq!(default_num_threads(4), 4);
    assert_eq!(default_num_threads(8), 8);
    assert_eq!(default_num_threads(64), 8);
    let server = ServerConfig::default();
    assert_eq!(server.host, "0.0.0.0");
    assert_eq!(server.port, 8080);
    assert!(server.cors_enabled);
    assert_eq!(server.cors_origins, vec!["*".to_string()]);
    let engine = EngineConfig::with_defaults("models".to_string(), false, 16);
    assert_eq!(engine.models_dir, "models");
    assert_eq!(engine.max_batch_size, 8);
    assert_eq!(engine.max_sequence_length, 4096);
    assert_eq!(engine.chunk_size, 128);
    assert_eq!(engine.kv_cache_dtype, "float16");
    assert!(!engine.use_metal);
    assert_eq!(engine.num_threads, 8);
}
