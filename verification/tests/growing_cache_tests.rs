use izwi_core::inference::kv_cache::{KVBlock, KVCache, KVCacheConfig, KVCacheDtype};
use izwi_core::model::weights::{has_prefix, ModelWeights, TensorData, TensorDtype};

fn config(block_size: usize) -> KVCacheConfig {
    KVCacheConfig {
        num_layers: 2,
        num_heads: 3,
        head_dim: 4,
        block_size,
        max_seq_len: 4096,
        dtype: KVCacheDtype::Float32,
    }
}

fn tensor(name: &str, bytes: usize) -> TensorData {
    TensorData {
        name: name.to_string(),
        shape: vec![bytes],
        dtype: TensorDtype::Uint8,
        data: vec![0u8; bytes],
    }
}

#[test]
fn block_capacity() {
    let block = KVBlock::new(3);
    assert_eq!(block.id, 3);
    assert_eq!(block.num_tokens, 0);
    assert!(!block.is_full(16));
    assert!(block.is_full(0));
    assert_eq!(block.remaining_capacity(16), 16);
    let used = KVBlock { id: 0, num_tokens: 20 };
    assert!(used.is_full(16));
    assert_eq!(used.remaining_capacity(16), 0);
    assert_eq!(KVBlock { id: 0, num_tokens: 5 }.remaining_capacity(16), 11);
}

#[test]
fn new_cache_has_64_free_blocks() {
    let cache = KVCache::new(config(16));
    let stats = cache.stats();
    assert_eq!(stats.total_blocks, 64);
    assert_eq!(stats.free_blocks, 64);
    assert_eq!(stats.active_sequences, 0);
    assert_eq!(stats.memory_bytes, 64 * 2 * 3 * 16 * 4 * 4 * 2);
    assert_eq!(cache.memory_bytes(), 196_608);
    assert_eq!(cache.get_block(63).unwrap().id, 63);
    assert!(cache.get_block(64).is_none());
}

#[test]
fn sequences_reuse_the_last_freed_block_first() {
    let mut cache = KVCache::new(config(16));
    assert_eq!(cache.allocate_sequence("a", 40), vec![63, 62, 61]);
    assert_eq!(cache.allocate_sequence("b", 1), vec![60]);
    assert_eq!(cache.get_sequence_blocks("a"), Some(&[63usize, 62, 61][..]));
    assert_eq!(cache.allocate_sequence("none", 0), Vec::<usize>::new());
    assert_eq!(cache.get_sequence_blocks("none"), Some(&[][..]));
    assert_eq!(cache.get_sequence_blocks("nobody"), None);
    cache.free_sequence("a");
    assert_eq!(cache.get_sequence_blocks("a"), None);
    assert_eq!(cache.stats().free_blocks, 63);
    assert_eq!(cache.allocate_sequence("c", 17), vec![61, 62]);
    cache.free_sequence("nobody");
    assert_eq!(cache.stats().active_sequences, 3);
}

#[test]
fn cache_grows_when_no_block_is_free() {
    let mut cache = KVCache::new(config(1));
    let first = cache.allocate_sequence("big", 64);
    assert_eq!(first.len(), 64);
    assert_eq!(cache.stats().free_blocks, 0);
    assert_eq!(cache.allocate_sequence("more", 2), vec![64, 65]);
    assert_eq!(cache.stats().total_blocks, 66);
    assert_eq!(cache.get_block(65).unwrap().id, 65);
}

#[test]
fn extend_adds_blocks_only_when_the_last_is_short() {
    let mut cache = KVCache::new(config(4));
    cache.allocate_sequence("s", 4);
    cache.extend_sequence("s", 4);
    assert_eq!(cache.get_sequence_blocks("s"), Some(&[63usize][..]));
    cache.update("s");
    cache.update("s");
    assert_eq!(cache.get_block(63).unwrap().num_tokens, 2);
    cache.extend_sequence("s", 2);
    assert_eq!(cache.get_sequence_blocks("s"), Some(&[63usize][..]));
    cache.extend_sequence("s", 3);
    assert_eq!(cache.get_sequence_blocks("s"), Some(&[63usize, 62][..]));
    cache.extend_sequence("s", 9);
    assert_eq!(cache.get_sequence_blocks("s"), Some(&[63usize, 62, 61, 60, 59][..]));
    cache.extend_sequence("unknown", 9);
    assert_eq!(cache.get_sequence_blocks("unknown"), None);
    cache.allocate_sequence("empty", 0);
    cache.extend_sequence("empty", 1);
    assert_eq!(cache.get_sequence_blocks("empty"), Some(&[58usize][..]));
    cache.update("nobody");
}

#[test]
fn reallocation_resets_the_token_count() {
    let mut cache = KVCache::new(config(4));
    cache.allocate_sequence("s", 1);
    cache.update("s");
    assert_eq!(cache.get_block(63).unwrap().num_tokens, 1);
    cache.free_sequence("s");
    assert_eq!(cache.allocate_sequence("t", 1), vec![63]);
    assert_eq!(cache.get_block(63).unwrap().num_tokens, 0);
    assert_eq!(cache.allocate_sequence("t", 1), vec![62]);
    assert_eq!(cache.get_sequence_blocks("t"), Some(&[62usize][..]));
    assert_eq!(cache.stats().active_sequences, 1);
}

#[test]
fn prefixes_of_names() {
    assert!(has_prefix("model.layers.0", "model."));
    assert!(has_prefix("model", "model"));
    assert!(has_prefix("model", ""));
    assert!(!has_prefix("mode", "model"));
    assert!(!has_prefix("xmodel", "model"));
    assert!(has_prefix("\u{e9}t\u{e9}", "\u{e9}"));
    assert!(!has_prefix("\u{e9}", "e"));
}

#[test]
fn weights_by_name_and_prefix() {
    let mut weights = ModelWeights::new();
    assert_eq!(weights.len(), 0);
    assert_eq!(weights.memory_bytes(), 0);
    weights.insert(tensor("enc.a", 3));
    weights.insert(tensor("dec.b", 5));
    weights.insert(tensor("enc.c", 7));
    assert_eq!(weights.len(), 3);
    assert_eq!(weights.get("dec.b").unwrap().data.len(), 5);
    assert!(weights.get("dec").is_none());
    let names: Vec<&str> = weights.get_by_prefix("enc.").iter().map(|t| t.name.as_str()).collect();
    assert_eq!(names, vec!["enc.a", "enc.c"]);
    assert!(weights.get_by_prefix("x").is_empty());
    assert_eq!(weights.get_by_prefix("").len(), 3);
    assert_eq!(weights.memory_bytes(), 15);
    assert_eq!(weights.checked_memory_bytes(), Some(15));
    weights.insert(tensor("enc.a", 10));
    assert_eq!(weights.len(), 3);
    assert_eq!(weights.get("enc.a").unwrap().data.len(), 10);
    assert_eq!(weights.memory_bytes(), 22);
}
