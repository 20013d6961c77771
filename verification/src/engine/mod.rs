//! Request scheduling and paged cache management.

pub mod cache_model;
pub mod config;
pub mod cover_lemmas;
pub mod kv_cache;
pub mod order_lemmas;
pub mod pool_model;
pub mod request;
pub mod scheduler;
pub mod scheduler_lemmas;
pub mod scheduler_model;
pub mod step_lemmas;
pub mod sync_lemmas;
pub mod types;
pub mod waiting;

pub use config::EngineCoreConfig;
pub use kv_cache::{BlockAllocator, KVBlock, KVCacheConfig, KVCacheManager, KVCacheStats};
pub use request::{EngineCoreRequest, GenerationParams, RequestStatus};
pub use scheduler::{
    ScheduleResult, ScheduledRequest, Scheduler, SchedulerConfig, SchedulingPolicy,
};
pub use types::{BlockId, Priority, RequestId, SequenceId};
