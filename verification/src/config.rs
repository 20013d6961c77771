//! Settings of the server in front of the engine.

use vstd::prelude::*;

verus! {

/// Largest batch of the single-request back end.
pub fn default_max_batch_size() -> (n: usize)
    ensures
        n == 8,
{
    8
}

/// Largest sequence length in tokens.
pub fn default_max_sequence_length() -> (n: usize)
    ensures
        n == 4096,
{
    4096
}

/// Chunk size for streaming, in audio tokens.
pub fn default_chunk_size() -> (n: usize)
    ensures
        n == 128,
{
    128
}

/// Port the server listens on.
pub fn default_port() -> (port: u16)
    ensures
        port == 8080,
{
    8080
}

/// Whether requests from other origins are accepted.
pub fn default_cors_enabled() -> (enabled: bool)
    ensures
        enabled,
{
    true
}

/// Address the server binds to.
pub fn default_host() -> (host: String)
    ensures
        host@ == "0.0.0.0"@,
{
    "0.0.0.0".to_string()
}

/// Number format of the cache.
pub fn default_kv_cache_dtype() -> (dtype: String)
    ensures
        dtype@ == "float16"@,
{
    "float16".to_string()
}

/// The threads for CPU work on a machine with `available` processors: all
/// of them, up to eight.
pub fn default_num_threads(available: usize) -> (threads: usize)
    ensures
        threads == if available <= 8 { available } else { 8 },
{
    if available <= 8 {
        available
    } else {
        8
    }
}

/// Server configuration.
#[derive(Debug, Clone)]
pub struct ServerConfig {
    pub host: String,
    pub port: u16,
    pub cors_enabled: bool,
    pub cors_origins: Vec<String>,
}

impl Default for ServerConfig {
    fn default() -> (config: Self)
        ensures
            config.host@ == "0.0.0.0"@,
            config.port == 8080,
            config.cors_enabled,
            config.cors_origins@.len() == 1,
            config.cors_origins@[0]@ == "*"@,
    {
        let mut cors_origins: Vec<String> = Vec::new();
        cors_origins.push("*".to_string());
        ServerConfig {
            host: default_host(),
            port: default_port(),
            cors_enabled: default_cors_enabled(),
            cors_origins,
        }
    }
}

/// Configuration of the single-request back end.
#[derive(Debug, Clone)]
pub struct EngineConfig {
    /// Directory of the downloaded models.
    pub models_dir: String,
    /// Maximum batch size for inference.
    pub max_batch_size: usize,
    /// Maximum sequence length in tokens.
    pub max_sequence_length: usize,
    /// Chunk size for streaming, in audio tokens.
    pub chunk_size: usize,
    /// Number format of the cache.
    pub kv_cache_dtype: String,
    /// Whether the GPU is used.
    pub use_metal: bool,
    /// Number of threads for CPU work.
    pub num_threads: usize,
}

impl EngineConfig {
    /// The configuration for a machine with `available` processors that
    /// keeps its models under `models_dir`.
    pub fn with_defaults(models_dir: String, use_metal: bool, available: usize) -> (config: Self)
        ensures
            config.models_dir == models_dir,
            config.max_batch_size == 8,
            config.max_sequence_length == 4096,
            config.chunk_size == 128,
            config.kv_cache_dtype@ == "float16"@,
            config.use_metal == use_metal,
            config.num_threads == if available <= 8 { available } else { 8 },
    {
        EngineConfig {
            models_dir,
            max_batch_size: default_max_batch_size(),
            max_sequence_length: default_max_sequence_length(),
            chunk_size: default_chunk_size(),
            kv_cache_dtype: default_kv_cache_dtype(),
            use_metal,
            num_threads: default_num_threads(available),
        }
    }
}

} // verus!
