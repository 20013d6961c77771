//! Serving core of an inference engine for autoregressive audio models:
//! a request scheduler and the paged key-value cache it hands out,
//! together with the plain configuration and format types of the audio
//! pipeline around it.
//!
//! Every item is verified with Verus. The state of each component is
//! described by a mathematical view, and each operation states how the
//! view after the call follows from the view before it.

pub mod api;
pub mod audio;
pub mod config;
pub mod engine;
pub mod error;
pub mod inference;
pub mod model;
pub mod tokenizer;

pub use config::EngineConfig;
pub use engine::{
    EngineCoreConfig, EngineCoreRequest, GenerationParams, KVCacheManager, RequestStatus,
    Scheduler, SchedulerConfig, SchedulingPolicy,
};
