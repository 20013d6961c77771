use izwi_core::engine::kv_cache::{BlockAllocator, KVCacheConfig, KVCacheManager};
use izwi_core::engine::waiting::{id_less, precedes, WaitingQueue, WaitingRequest};
use izwi_core::engine::SchedulingPolicy;

fn small(block_size: usize, max_blocks: usize) -> KVCacheConfig {
    KVCacheConfig {
        block_size,
        max_blocks,
        ..Default::default()
    }
}

#[test]
fn default_cache_config_and_bytes() {
    let config = KVCacheConfig::default();
    assert_eq!(config.num_layers, 24);
    assert_eq!(config.num_heads, 16);
    assert_eq!(config.head_dim, 64);
    assert_eq!(config.block_size, 16);
    assert_eq!(config.max_blocks, 1024);
    assert_eq!(config.dtype_bytes, 2);
    assert!(config.is_valid());
    assert_eq!(config.block_memory_bytes(), 1_572_864);
    assert_eq!(config.checked_block_memory_bytes(), Some(1_572_864));
    assert_eq!(config.total_memory_bytes(), 1_610_612_736);
}

#[test]
fn invalid_cache_configs_are_told() {
    assert!(!small(0, 8).is_valid());
    assert!(!small(16, 0).is_valid());
    let huge = KVCacheConfig {
        num_layers: usize::MAX,
        ..Default::default()
    };
    assert!(!huge.is_valid());
    assert_eq!(huge.checked_block_memory_bytes(), None);
    let zero_heads = KVCacheConfig {
        num_heads: 0,
        num_layers: usize::MAX,
        ..Default::default()
    };
    assert_eq!(zero_heads.checked_block_memory_bytes(), Some(0));
    assert!(zero_heads.is_valid());
}

#[test]
fn blocks_for_tokens_rounds_up() {
    let config = small(16, 8);
    assert_eq!(config.blocks_for_tokens(0), 0);
    assert_eq!(config.blocks_for_tokens(1), 1);
    assert_eq!(config.blocks_for_tokens(16), 1);
    assert_eq!(config.blocks_for_tokens(17), 2);
    assert_eq!(config.blocks_for_tokens(32), 2);
    assert_eq!(config.blocks_for_tokens(usize::MAX), usize::MAX / 16 + 1);
    assert_eq!(small(1, 8).blocks_for_tokens(usize::MAX), usize::MAX);
}

#[test]
fn allocator_hands_out_from_the_front_and_takes_back_at_the_end() {
    let mut allocator = BlockAllocator::new(small(16, 10));
    assert!(allocator.can_allocate(10));
    assert!(!allocator.can_allocate(11));
    assert_eq!(allocator.allocate(3), Some(vec![0, 1, 2]));
    let block = allocator.get_block(1).unwrap();
    assert_eq!(block.id, 1);
    assert_eq!(block.ref_count, 1);
    assert_eq!(block.num_tokens, 0);
    assert_eq!(block.content_hash, None);
    assert_eq!(allocator.get_block(9).unwrap().ref_count, 0);
    assert!(allocator.get_block(10).is_none());
    allocator.free(1);
    assert_eq!(allocator.get_block(1).unwrap().ref_count, 0);
    assert_eq!(allocator.allocate(8), Some(vec![3, 4, 5, 6, 7, 8, 9, 1]));
    assert_eq!(allocator.num_free(), 0);
    assert_eq!(allocator.num_allocated(), 10);
    assert_eq!(allocator.allocate(1), None);
    assert_eq!(allocator.allocate(0), Some(vec![]));
}

#[test]
fn failed_allocation_changes_nothing() {
    let mut allocator = BlockAllocator::new(small(16, 4));
    let held = allocator.allocate(3).unwrap();
    assert_eq!(allocator.allocate(2), None);
    assert_eq!(allocator.num_free(), 1);
    assert_eq!(allocator.num_allocated(), 3);
    assert_eq!(allocator.allocate(1), Some(vec![3]));
    assert_eq!(held, vec![0, 1, 2]);
}

#[test]
fn freeing_a_free_or_unknown_block_is_ignored() {
    let mut allocator = BlockAllocator::new(small(16, 4));
    allocator.free(2);
    allocator.free(99);
    assert_eq!(allocator.num_free(), 4);
    assert_eq!(allocator.num_allocated(), 0);
    let ids = allocator.allocate(2).unwrap();
    allocator.free(ids[0]);
    allocator.free(ids[0]);
    assert_eq!(allocator.num_free(), 3);
    assert_eq!(allocator.num_allocated(), 1);
    assert_eq!(allocator.num_free() + allocator.num_allocated(), 4);
}

#[test]
fn allocate_then_free_blocks_restores_the_counts() {
    let mut allocator = BlockAllocator::new(small(16, 6));
    let kept = allocator.allocate(2).unwrap();
    let ids = allocator.allocate(3).unwrap();
    assert_eq!(allocator.num_free(), 1);
    allocator.free_blocks(&ids);
    assert_eq!(allocator.num_free(), 4);
    assert_eq!(allocator.num_allocated(), 2);
    assert_eq!(allocator.get_block(kept[0]).unwrap().ref_count, 1);
    assert_eq!(allocator.get_block(kept[1]).unwrap().ref_count, 1);
    assert_eq!(allocator.allocate(4), Some(vec![5, 2, 3, 4]));
}

#[test]
fn allocator_memory_totals() {
    let mut allocator = BlockAllocator::new(KVCacheConfig {
        num_layers: 2,
        num_heads: 3,
        head_dim: 5,
        block_size: 4,
        max_blocks: 7,
        dtype_bytes: 2,
    });
    assert_eq!(allocator.memory_used_bytes(), 0);
    assert_eq!(allocator.memory_capacity_bytes(), 7 * 480);
    let _ = allocator.allocate(3);
    assert_eq!(allocator.memory_used_bytes(), 3 * 480);
    allocator.set_block_tokens(1, 4);
    assert_eq!(allocator.get_block(1).unwrap().num_tokens, 4);
    allocator.set_block_tokens(99, 1);
}

#[test]
fn manager_appends_to_tables_and_frees_them() {
    let mut manager = KVCacheManager::new(small(16, 8));
    let a = "a".to_string();
    let b = "b".to_string();
    assert_eq!(manager.get_block_table(&a), None);
    assert_eq!(manager.allocate(&a, 2), vec![0, 1]);
    assert_eq!(manager.allocate(&b, 1), vec![2]);
    assert_eq!(manager.extend(&a, 2), vec![3, 4]);
    assert_eq!(manager.get_block_table(&a), Some(&[0usize, 1, 3, 4][..]));
    assert_eq!(manager.get_blocks(&a), Some(&[0usize, 1, 3, 4][..]));
    assert_eq!(manager.get_blocks(&b), Some(&[2usize][..]));
    assert!(manager.can_allocate(3));
    assert!(!manager.can_allocate(4));
    assert_eq!(manager.allocate(&b, 4), Vec::<usize>::new());
    assert_eq!(manager.get_blocks(&b), Some(&[2usize][..]));
    assert_eq!(manager.num_free_blocks(), 3);

    manager.free(&a);
    assert_eq!(manager.get_blocks(&a), None);
    let stats = manager.stats();
    assert_eq!(stats.total_blocks, 8);
    assert_eq!(stats.allocated_blocks, 1);
    assert_eq!(stats.free_blocks, 7);
    assert_eq!(stats.num_sequences, 1);
    manager.free(&a);
    manager.free(&"nobody".to_string());
    assert_eq!(manager.stats().free_blocks, 7);
    assert_eq!(manager.allocate(&a, 7), vec![5, 6, 7, 0, 1, 3, 4]);
}

#[test]
fn manager_stats_and_tokens() {
    let config = KVCacheConfig {
        num_layers: 2,
        num_heads: 3,
        head_dim: 5,
        block_size: 4,
        max_blocks: 7,
        dtype_bytes: 2,
    };
    let mut manager = KVCacheManager::new(config);
    assert_eq!(manager.config().max_blocks, 7);
    assert_eq!(manager.blocks_for_tokens(9), 3);
    assert_eq!(manager.blocks_for_tokens(8), 2);
    let _ = manager.allocate(&"r".to_string(), 2);
    manager.update_block_tokens(0, 4);
    manager.update_block_tokens(42, 1);
    let stats = manager.stats();
    assert_eq!(stats.memory_used_bytes, 960);
    assert_eq!(stats.memory_capacity_bytes, 3360);
    assert_eq!(stats.allocated_blocks + stats.free_blocks, stats.total_blocks);
    let empty = manager.allocate(&"z".to_string(), 0);
    assert!(empty.is_empty());
    assert_eq!(manager.stats().num_sequences, 2);
}

#[test]
fn names_are_ordered_by_bytes() {
    let s = |x: &str| x.to_string();
    assert!(id_less(&s("a"), &s("b")));
    assert!(!id_less(&s("b"), &s("a")));
    assert!(id_less(&s("a"), &s("aa")));
    assert!(!id_less(&s("aa"), &s("a")));
    assert!(id_less(&s(""), &s("a")));
    assert!(!id_less(&s("a"), &s("a")));
    assert!(!id_less(&s(""), &s("")));
    assert!(id_less(&s("Z"), &s("a")));
    assert!(id_less(&s("z"), &s("\u{e9}")));
    assert!(id_less(&s("req10"), &s("req2")));
}

fn entry(id: &str, priority: i32, arrival_time: u64) -> WaitingRequest {
    WaitingRequest {
        request_id: id.to_string(),
        priority,
        arrival_time,
    }
}

#[test]
fn service_order_compares_priority_then_arrival_then_name() {
    assert!(precedes(&entry("x", 2, 9), &entry("a", 1, 1)));
    assert!(!precedes(&entry("a", 1, 1), &entry("x", 2, 9)));
    assert!(precedes(&entry("x", 1, 1), &entry("a", 1, 2)));
    assert!(precedes(&entry("a", 1, 1), &entry("b", 1, 1)));
    assert!(!precedes(&entry("a", 1, 1), &entry("a", 1, 1)));
    assert!(precedes(&entry("a", -1, 5), &entry("a", -2, 0)));
}

#[test]
fn waiting_queue_first_come_first_served() {
    let mut queue = WaitingQueue::new(SchedulingPolicy::FCFS);
    assert!(queue.is_empty());
    assert!(queue.peek().is_none());
    assert!(queue.pop().is_none());
    queue.push(entry("b", 1, 5));
    queue.push(entry("a", 9, 1));
    queue.push(entry("b", 1, 6));
    assert_eq!(queue.len(), 3);
    assert_eq!(queue.peek().unwrap().request_id, "b");
    queue.remove(&"b".to_string());
    assert_eq!(queue.len(), 1);
    assert_eq!(queue.pop().unwrap().request_id, "a");
    assert!(queue.is_empty());
}

#[test]
fn waiting_queue_by_priority_is_stable() {
    let mut queue = WaitingQueue::new(SchedulingPolicy::Priority);
    queue.push(entry("low", 1, 1));
    queue.push(entry("dup", 5, 2));
    queue.push(entry("high", 7, 9));
    queue.push(entry("dup", 5, 2));
    queue.push(entry("early", 5, 1));
    let mut order = Vec::new();
    while let Some(head) = queue.pop() {
        order.push(head.request_id);
    }
    assert_eq!(order, vec!["high", "early", "dup", "dup", "low"]);
}
