//! The options of the engine core in one record.

use crate::engine::kv_cache::KVCacheConfig;
use crate::engine::scheduler::{SchedulerConfig, SchedulingPolicy};
use vstd::prelude::*;

verus! {

/// All options of scheduler and cache.
#[derive(Debug, Clone, Copy)]
pub struct EngineCoreConfig {
    /// Upper bound on the work units of a step.
    pub max_batch_size: usize,
    /// Upper bound on the tokens of a step.
    pub max_tokens_per_step: usize,
    /// Policy of the waiting queue.
    pub scheduling_policy: SchedulingPolicy,
    /// Whether a long prompt is ingested in chunks.
    pub enable_chunked_prefill: bool,
    /// Largest chunk of a prompt.
    pub chunked_prefill_threshold: usize,
    /// Whether running requests may be evicted when the cache is full.
    pub enable_preemption: bool,
    /// Tokens per cache block.
    pub block_size: usize,
    /// Number of blocks in the pool.
    pub max_blocks: usize,
    pub num_layers: usize,
    pub num_heads: usize,
    pub head_dim: usize,
    pub dtype_bytes: usize,
}

impl Default for EngineCoreConfig {
    fn default() -> (config: Self)
        ensures
            config == (EngineCoreConfig {
                max_batch_size: 8,
                max_tokens_per_step: 512,
                scheduling_policy: SchedulingPolicy::FCFS,
                enable_chunked_prefill: true,
                chunked_prefill_threshold: 256,
                enable_preemption: true,
                block_size: 16,
                max_blocks: 1024,
                num_layers: 24,
                num_heads: 16,
                head_dim: 64,
                dtype_bytes: 2,
            }),
    {
        EngineCoreConfig {
            max_batch_size: 8,
            max_tokens_per_step: 512,
            scheduling_policy: SchedulingPolicy::FCFS,
            enable_chunked_prefill: true,
            chunked_prefill_threshold: 256,
            enable_preemption: true,
            block_size: 16,
            max_blocks: 1024,
            num_layers: 24,
            num_heads: 16,
            head_dim: 64,
            dtype_bytes: 2,
        }
    }
}

impl EngineCoreConfig {
    /// The options of the scheduler.
    pub open spec fn spec_scheduler_config(&self) -> SchedulerConfig {
        SchedulerConfig {
            max_batch_size: self.max_batch_size,
            max_tokens_per_step: self.max_tokens_per_step,
            policy: self.scheduling_policy,
            enable_chunked_prefill: self.enable_chunked_prefill,
            chunked_prefill_threshold: self.chunked_prefill_threshold,
            enable_preemption: self.enable_preemption,
        }
    }

    /// The options of the cache.
    pub open spec fn spec_kv_cache_config(&self) -> KVCacheConfig {
        KVCacheConfig {
            num_layers: self.num_layers,
            num_heads: self.num_heads,
            head_dim: self.head_dim,
            block_size: self.block_size,
            max_blocks: self.max_blocks,
            dtype_bytes: self.dtype_bytes,
        }
    }

    /// The options of the cache.
    pub fn kv_cache_config(&self) -> (config: KVCacheConfig)
        ensures
            config == self.spec_kv_cache_config(),
    {
        KVCacheConfig {
            num_layers: self.num_layers,
            num_heads: self.num_heads,
            head_dim: self.head_dim,
            block_size: self.block_size,
            max_blocks: self.max_blocks,
            dtype_bytes: self.dtype_bytes,
        }
    }
}

impl From<&EngineCoreConfig> for SchedulerConfig {
    fn from(config: &EngineCoreConfig) -> (scheduler_config: Self) {
        SchedulerConfig {
            max_batch_size: config.max_batch_size,
            max_tokens_per_step: config.max_tokens_per_step,
            policy: config.scheduling_policy,
            enable_chunked_prefill: config.enable_chunked_prefill,
            chunked_prefill_threshold: config.chunked_prefill_threshold,
            enable_preemption: config.enable_preemption,
        }
    }
}

impl vstd::std_specs::convert::FromSpecImpl<&EngineCoreConfig> for SchedulerConfig {
    open spec fn obeys_from_spec() -> bool {
        true
    }

    open spec fn from_spec(config: &EngineCoreConfig) -> Self {
        config.spec_scheduler_config()
    }
}

} // verus!
