use izwi_core::engine::kv_cache::{BlockAllocator, KVCacheConfig, KVCacheManager};
use izwi_core::engine::scheduler::{Scheduler, SchedulerConfig};

#[test]
fn test_scheduler_creation() {
    let config = SchedulerConfig::default();
    let scheduler = Scheduler::new(config);
    assert_eq!(scheduler.waiting_count(), 0);
    assert_eq!(scheduler.running_count(), 0);
}

#[test]
fn test_block_allocator() {
    let config = KVCacheConfig {
        max_blocks: 10,
        ..Default::default()
    };
    let mut allocator = BlockAllocator::new(config);

    assert_eq!(allocator.num_free(), 10);
    assert_eq!(allocator.num_allocated(), 0);

    let blocks = allocator.allocate(3).unwrap();
    assert_eq!(blocks.len(), 3);
    assert_eq!(allocator.num_free(), 7);
    assert_eq!(allocator.num_allocated(), 3);

    allocator.free(blocks[0]);
    assert_eq!(allocator.num_free(), 8);
    assert_eq!(allocator.num_allocated(), 2);
}

#[test]
fn test_kv_cache_manager() {
    let config = KVCacheConfig {
        max_blocks: 100,
        block_size: 16,
        ..Default::default()
    };
    let mut manager = KVCacheManager::new(config);

    let blocks1 = manager.allocate(&"req1".to_string(), 5);
    assert_eq!(blocks1.len(), 5);

    let blocks2 = manager.allocate(&"req2".to_string(), 3);
    assert_eq!(blocks2.len(), 3);

    let stats = manager.stats();
    assert_eq!(stats.allocated_blocks, 8);
    assert_eq!(stats.num_sequences, 2);

    manager.free(&"req1".to_string());
    let stats = manager.stats();
    assert_eq!(stats.allocated_blocks, 3);
    assert_eq!(stats.num_sequences, 1);
}
