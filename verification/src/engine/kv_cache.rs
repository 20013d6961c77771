//! Paged key-value cache: a fixed pool of blocks with a free list, and the
//! block table of every request that holds blocks.

use crate::engine::cache_model::{
    lemma_allocate_wf, lemma_free_wf, lemma_fresh_cache_wf, lemma_index_of_unique, CacheView,
    TableView,
};
use crate::engine::pool_model::{
    lemma_free_bounded, lemma_fresh_wf, lemma_release, lemma_take, lemma_take_next, PoolView,
};
use crate::engine::types::{BlockId, RequestId};
use std::collections::VecDeque;
use vstd::prelude::*;

verus! {

/// The least number of groups of `size` items that hold `count` items.
pub open spec fn ceil_div(count: int, size: int) -> int {
    (count + size - 1) / size
}

/// Shape of the cache: the pool size and what decides the bytes of one block.
#[derive(Debug, Clone, Copy)]
pub struct KVCacheConfig {
    /// Number of transformer layers.
    pub num_layers: usize,
    /// Number of attention heads per layer.
    pub num_heads: usize,
    /// Dimension of each attention head.
    pub head_dim: usize,
    /// Number of tokens per block.
    pub block_size: usize,
    /// Number of blocks in the pool.
    pub max_blocks: usize,
    /// Bytes per stored number (2 for half precision, 4 for single).
    pub dtype_bytes: usize,
}

impl Default for KVCacheConfig {
    fn default() -> (config: Self)
        ensures
            config == (KVCacheConfig {
                num_layers: 24,
                num_heads: 16,
                head_dim: 64,
                block_size: 16,
                max_blocks: 1024,
                dtype_bytes: 2,
            }),
    {
        KVCacheConfig {
            num_layers: 24,
            num_heads: 16,
            head_dim: 64,
            block_size: 16,
            max_blocks: 1024,
            dtype_bytes: 2,
        }
    }
}

impl KVCacheConfig {
    /// Bytes of one block: keys and values for `block_size` tokens in every
    /// head of every layer.
    pub open spec fn block_bytes(&self) -> int {
        2 * self.block_size * self.num_heads * self.head_dim * self.dtype_bytes * self.num_layers
    }

    /// Bytes of the whole pool.
    pub open spec fn total_bytes(&self) -> int {
        self.block_bytes() * self.max_blocks
    }

    /// A configuration a cache can be built from: blocks hold at least one
    /// token, the pool holds at least one block, and the pool's byte count
    /// is a machine number.
    pub open spec fn valid(&self) -> bool {
        &&& self.block_size > 0
        &&& self.max_blocks > 0
        &&& self.total_bytes() <= usize::MAX
    }

    proof fn lemma_block_bytes_zero(&self)
        requires
            self.block_size == 0 || self.num_heads == 0 || self.head_dim == 0
                || self.dtype_bytes == 0 || self.num_layers == 0,
        ensures
            self.block_bytes() == 0,
    {
        assert(2 * self.block_size * self.num_heads * self.head_dim * self.dtype_bytes
            * self.num_layers == 0) by (nonlinear_arith)
            requires
                self.block_size == 0 || self.num_heads == 0 || self.head_dim == 0
                    || self.dtype_bytes == 0 || self.num_layers == 0,
        ;
    }

    /// The bytes of one block, or `None` where they are no machine number.
    pub fn checked_block_memory_bytes(&self) -> (bytes: Option<usize>)
        ensures
            bytes is Some <==> self.block_bytes() <= usize::MAX,
            bytes is Some ==> bytes->0 == self.block_bytes(),
    {
        if self.block_size == 0 || self.num_heads == 0 || self.head_dim == 0
            || self.dtype_bytes == 0 || self.num_layers == 0 {
            proof {
                self.lemma_block_bytes_zero();
            }
            return Some(0);
        }
        let two: usize = 2;
        let p1 = match two.checked_mul(self.block_size) {
            Some(p) => p,
            None => {
                proof {
                    lemma_product_grows(2 * self.block_size, self.num_heads as int);
                    lemma_product_grows(2 * self.block_size * self.num_heads, self.head_dim as int);
                    lemma_product_grows(
                        2 * self.block_size * self.num_heads * self.head_dim,
                        self.dtype_bytes as int,
                    );
                    lemma_product_grows(
                        2 * self.block_size * self.num_heads * self.head_dim * self.dtype_bytes,
                        self.num_layers as int,
                    );
                }
                return None;
            },
        };
        let p2 = match p1.checked_mul(self.num_heads) {
            Some(p) => p,
            None => {
                proof {
                    lemma_product_grows(2 * self.block_size * self.num_heads, self.head_dim as int);
                    lemma_product_grows(
                        2 * self.block_size * self.num_heads * self.head_dim,
                        self.dtype_bytes as int,
                    );
                    lemma_product_grows(
                        2 * self.block_size * self.num_heads * self.head_dim * self.dtype_bytes,
                        self.num_layers as int,
                    );
                }
                return None;
            },
        };
        let p3 = match p2.checked_mul(self.head_dim) {
            Some(p) => p,
            None => {
                proof {
                    lemma_product_grows(
                        2 * self.block_size * self.num_heads * self.head_dim,
                        self.dtype_bytes as int,
                    );
                    lemma_product_grows(
                        2 * self.block_size * self.num_heads * self.head_dim * self.dtype_bytes,
                        self.num_layers as int,
                    );
                }
                return None;
            },
        };
        let p4 = match p3.checked_mul(self.dtype_bytes) {
            Some(p) => p,
            None => {
                proof {
                    lemma_product_grows(
                        2 * self.block_size * self.num_heads * self.head_dim * self.dtype_bytes,
                        self.num_layers as int,
                    );
                }
                return None;
            },
        };
        p4.checked_mul(self.num_layers)
    }

    /// Whether a cache can be built from this configuration.
    pub fn is_valid(&self) -> (ok: bool)
        ensures
            ok == self.valid(),
    {
        if self.block_size == 0 || self.max_blocks == 0 {
            return false;
        }
        match self.checked_block_memory_bytes() {
            Some(per_block) => per_block.checked_mul(self.max_blocks).is_some(),
            None => {
                proof {
                    lemma_product_grows(self.block_bytes(), self.max_blocks as int);
                }
                false
            },
        }
    }

    /// Memory of one block in bytes.
    pub fn block_memory_bytes(&self) -> (bytes: usize)
        requires
            self.block_bytes() <= usize::MAX,
        ensures
            bytes == self.block_bytes(),
    {
        match self.checked_block_memory_bytes() {
            Some(bytes) => bytes,
            None => 0,
        }
    }

    /// Memory of all blocks in bytes.
    pub fn total_memory_bytes(&self) -> (bytes: usize)
        requires
            self.block_bytes() <= usize::MAX,
            self.total_bytes() <= usize::MAX,
        ensures
            bytes == self.total_bytes(),
    {
        self.block_memory_bytes() * self.max_blocks
    }

    /// Number of blocks that hold `num_tokens` tokens.
    pub fn blocks_for_tokens(&self, num_tokens: usize) -> (blocks: usize)
        requires
            self.block_size > 0,
        ensures
            blocks == ceil_div(num_tokens as int, self.block_size as int),
    {
        blocks_for(num_tokens, self.block_size)
    }
}

/// Number of blocks of `block_size` tokens that hold `num_tokens` tokens.
pub fn blocks_for(num_tokens: usize, block_size: usize) -> (blocks: usize)
    requires
        block_size > 0,
    ensures
        blocks == ceil_div(num_tokens as int, block_size as int),
{
    let whole: usize = num_tokens / block_size;
    let rest: usize = num_tokens % block_size;
    proof {
        lemma_ceil_div(num_tokens as int, block_size as int);
    }
    if rest == 0 {
        whole
    } else {
        assert(whole < usize::MAX) by (nonlinear_arith)
            requires
                whole == num_tokens as int / block_size as int,
                rest == num_tokens as int % block_size as int,
                rest != 0,
                block_size > 0,
                num_tokens <= usize::MAX,
        ;
        whole + 1
    }
}

/// A product of a non-negative number with a positive one is no smaller.
pub proof fn lemma_product_grows(a: int, b: int)
    requires
        a >= 0,
        b >= 1,
    ensures
        a * b >= a,
{
    assert(a * b >= a) by (nonlinear_arith)
        requires
            a >= 0,
            b >= 1,
    ;
}

/// The blocks for at least one token are one more than the whole blocks
/// in front of the last token.
pub proof fn lemma_ceil_div_last(count: int, size: int)
    requires
        count >= 1,
        size > 0,
    ensures
        ceil_div(count, size) == (count - 1) / size + 1,
{
    assert((count + size - 1) / size == (count - 1) / size + 1) by (nonlinear_arith)
        requires
            count >= 1,
            size > 0,
    ;
}

/// `ceil_div` in terms of quotient and remainder.
pub proof fn lemma_ceil_div(count: int, size: int)
    requires
        count >= 0,
        size > 0,
    ensures
        ceil_div(count, size) == count / size + if count % size == 0 { 0int } else { 1int },
        ceil_div(count, size) * size >= count,
        count == 0 <==> ceil_div(count, size) == 0,
{
    let q = count / size;
    let r = count % size;
    assert(count == q * size + r && 0 <= r < size) by (nonlinear_arith)
        requires
            q == count / size,
            r == count % size,
            size > 0,
    ;
    if r == 0 {
        assert((q * size + size - 1) / size == q) by (nonlinear_arith)
            requires
                size > 0,
        ;
    } else {
        assert((q * size + r + size - 1) / size == q + 1) by (nonlinear_arith)
            requires
                size > 0,
                0 < r < size,
        ;
    }
    assert(ceil_div(count, size) * size >= count) by (nonlinear_arith)
        requires
            ceil_div(count, size) == q + if r == 0 { 0int } else { 1int },
            count == q * size + r,
            0 <= r < size,
    ;
    assert(q >= 0) by (nonlinear_arith)
        requires
            count == q * size + r,
            0 <= r < size,
            size > 0,
            count >= 0,
    ;
    if count > 0 && r == 0 {
        assert(q > 0) by (nonlinear_arith)
            requires
                count == q * size + r,
                r == 0,
                count > 0,
                size > 0,
        ;
    }
}

/// One block of the cache pool.
#[derive(Debug, Clone, Copy)]
pub struct KVBlock {
    /// Index of the block in the pool; it never changes.
    pub id: BlockId,
    /// Number of tokens stored in this block.
    pub num_tokens: usize,
    /// Number of holders; zero while the block is free.
    pub ref_count: usize,
    /// Fingerprint of the content, kept for sharing of common prefixes.
    pub content_hash: Option<u64>,
}

/// Owner of the block pool: hands blocks out from the front of a free list
/// and takes them back at its end.
pub struct BlockAllocator {
    config: KVCacheConfig,
    /// All blocks, each at the index that is its identifier.
    blocks: Vec<KVBlock>,
    /// Identifiers of the free blocks.
    free_list: VecDeque<BlockId>,
    /// Number of blocks that are not free.
    num_allocated: usize,
}

impl View for BlockAllocator {
    type V = PoolView;

    closed spec fn view(&self) -> PoolView {
        PoolView { blocks: self.blocks@, free: self.free_list@ }
    }
}

impl BlockAllocator {
    /// The configuration the allocator was built from.
    pub closed spec fn spec_config(&self) -> KVCacheConfig {
        self.config
    }

    /// The counter of allocated blocks agrees with the free list.
    pub closed spec fn counted(&self) -> bool {
        self.num_allocated + self.free_list@.len() == self.blocks@.len()
    }

    /// The allocator's invariant: a valid configuration, a well-formed pool
    /// of `max_blocks` blocks, none holding more than `block_size` tokens.
    pub open spec fn wf(&self) -> bool {
        &&& self.spec_config().valid()
        &&& self@.wf()
        &&& self@.blocks.len() == self.spec_config().max_blocks
        &&& self@.within(self.spec_config().block_size)
        &&& self.counted()
    }

    /// Creates an allocator whose blocks are all free.
    pub fn new(config: KVCacheConfig) -> (allocator: Self)
        requires
            config.valid(),
        ensures
            allocator.wf(),
            allocator.spec_config() == config,
            allocator@ == PoolView::fresh(config.max_blocks as nat),
    {
        let max_blocks: usize = config.max_blocks;
        let mut blocks: Vec<KVBlock> = Vec::new();
        let mut free_list: VecDeque<BlockId> = VecDeque::new();
        let mut id: usize = 0;
        while id < max_blocks
            invariant
                id <= max_blocks,
                blocks@ == PoolView::fresh(id as nat).blocks,
                free_list@ == PoolView::fresh(id as nat).free,
            decreases max_blocks - id,
        {
            blocks.push(KVBlock { id, num_tokens: 0, ref_count: 0, content_hash: None });
            free_list.push_back(id);
            id += 1;
            assert(blocks@ =~= PoolView::fresh(id as nat).blocks);
            assert(free_list@ =~= PoolView::fresh(id as nat).free);
        }
        proof {
            lemma_fresh_wf(max_blocks as nat, config.block_size);
        }
        BlockAllocator { config, blocks, free_list, num_allocated: 0 }
    }

    /// Whether `n` blocks are free.
    pub fn can_allocate(&self, n: usize) -> (ok: bool)
        ensures
            ok == (n <= self@.free_count()),
    {
        self.free_list.len() >= n
    }

    /// Hands out `n` blocks, or none at all where fewer than `n` are free.
    pub fn allocate(&mut self, n: usize) -> (ids: Option<Vec<BlockId>>)
        requires
            old(self).wf(),
        ensures
            final(self).wf(),
            final(self).spec_config() == old(self).spec_config(),
            ids is Some <==> n <= old(self)@.free_count(),
            ids is None ==> final(self)@ == old(self)@,
            ids is Some ==> ids->0@ == old(self)@.taken(n as nat) && final(self)@ == old(self)@.take(
                n as nat,
            ),
    {
        if !self.can_allocate(n) {
            return None;
        }
        let mut block_ids: Vec<BlockId> = Vec::new();
        let mut count: usize = 0;
        proof {
            lemma_take(old(self)@, 0);
            assert(old(self)@.take(0) =~= old(self)@);
            assert(old(self)@.taken(0) =~= Seq::<BlockId>::empty());
        }
        while count < n
            invariant
                old(self).wf(),
                n <= old(self)@.free_count(),
                count <= n,
                self.config == old(self).config,
                self@ == old(self)@.take(count as nat),
                block_ids@ == old(self)@.taken(count as nat),
                self.num_allocated == old(self).num_allocated + count,
                old(self).num_allocated + old(self).free_list@.len() == old(self).blocks@.len(),
            decreases n - count,
        {
            proof {
                lemma_take(old(self)@, count as nat);
                lemma_take_next(old(self)@, count as nat);
            }
            let popped = self.free_list.pop_front();
            match popped {
                Some(id) => {
                    self.blocks[id] = KVBlock { id, num_tokens: 0, ref_count: 1, content_hash: None };
                    block_ids.push(id);
                    self.num_allocated += 1;
                },
                None => {},
            }
            count += 1;
            assert(self@ =~= old(self)@.take(count as nat));
        }
        proof {
            lemma_take(old(self)@, n as nat);
        }
        Some(block_ids)
    }

    /// Drops one reference to a block. A block that loses its last reference
    /// returns to the free list; an identifier out of range or of a free
    /// block is ignored.
    pub fn free(&mut self, block_id: BlockId)
        requires
            old(self).wf(),
        ensures
            final(self).wf(),
            final(self).spec_config() == old(self).spec_config(),
            final(self)@ == old(self)@.release(block_id),
    {
        proof {
            lemma_release(self@, block_id);
            lemma_free_bounded(self@);
        }
        if block_id < self.blocks.len() && self.blocks[block_id].ref_count > 0 {
            self.blocks[block_id].ref_count -= 1;
            if self.blocks[block_id].ref_count == 0 {
                self.free_list.push_back(block_id);
                self.num_allocated -= 1;
            }
            assert(self@ =~= old(self)@.release(block_id));
        }
    }

    /// Drops one reference to each of the blocks, in order.
    pub fn free_blocks(&mut self, block_ids: &[BlockId])
        requires
            old(self).wf(),
        ensures
            final(self).wf(),
            final(self).spec_config() == old(self).spec_config(),
            final(self)@ == old(self)@.release_all(block_ids@),
    {
        let mut i: usize = 0;
        while i < block_ids.len()
            invariant
                i <= block_ids@.len(),
                self.wf(),
                self.spec_config() == old(self).spec_config(),
                self@ == old(self)@.release_all(block_ids@.take(i as int)),
            decreases block_ids@.len() - i,
        {
            self.free(block_ids[i]);
            i += 1;
            assert(block_ids@.take(i as int).drop_last() =~= block_ids@.take(i - 1));
        }
        assert(block_ids@.take(i as int) =~= block_ids@);
    }

    /// The metadata of a block, if the identifier is in range.
    pub fn get_block(&self, block_id: BlockId) -> (block: Option<&KVBlock>)
        ensures
            block is Some <==> block_id < self@.blocks.len(),
            block is Some ==> *block->0 == self@.blocks[block_id as int],
    {
        if block_id < self.blocks.len() {
            Some(&self.blocks[block_id])
        } else {
            None
        }
    }

    /// Records how many tokens a block holds; an identifier out of range is
    /// ignored.
    pub fn set_block_tokens(&mut self, block_id: BlockId, num_tokens: usize)
        requires
            old(self).wf(),
            num_tokens <= old(self).spec_config().block_size,
        ensures
            final(self).wf(),
            final(self).spec_config() == old(self).spec_config(),
            final(self)@ == old(self)@.with_tokens(block_id, num_tokens),
    {
        if block_id < self.blocks.len() {
            self.blocks[block_id].num_tokens = num_tokens;
            assert(self@ =~= old(self)@.with_tokens(block_id, num_tokens));
            assert forall|i: int| 0 <= i < self@.blocks.len() && (#[trigger] self@.blocks[i]).ref_count
                == 0 implies self@.free.contains(i as usize) by {
                assert(old(self)@.blocks[i].ref_count == 0);
            }
            assert forall|j: int| 0 <= j < self@.free.len() implies (#[trigger] self@.free[j])
                < self@.blocks.len() && self@.blocks[self@.free[j] as int].ref_count == 0 by {
                assert(old(self)@.free[j] == self@.free[j]);
            }
            assert forall|i: int| 0 <= i < self@.blocks.len() implies (#[trigger] self@.blocks[i]).num_tokens
                <= self.spec_config().block_size by {
                assert(old(self)@.blocks[i].num_tokens <= self.spec_config().block_size || i == block_id);
            }
        }
    }

    /// Number of free blocks.
    pub fn num_free(&self) -> (n: usize)
        ensures
            n == self@.free_count(),
    {
        self.free_list.len()
    }

    /// Number of allocated blocks.
    pub fn num_allocated(&self) -> (n: usize)
        requires
            self.wf(),
        ensures
            n == self@.allocated_count(),
            n + self@.free_count() == self.spec_config().max_blocks,
    {
        self.num_allocated
    }

    /// Bytes held by the allocated blocks.
    pub fn memory_used_bytes(&self) -> (bytes: usize)
        requires
            self.wf(),
        ensures
            bytes == self@.allocated_count() * self.spec_config().block_bytes(),
    {
        proof {
            lemma_bytes_fit(self.config, self.num_allocated as int);
        }
        self.num_allocated * self.config.block_memory_bytes()
    }

    /// Bytes of the whole pool.
    pub fn memory_capacity_bytes(&self) -> (bytes: usize)
        requires
            self.wf(),
        ensures
            bytes == self.spec_config().total_bytes(),
    {
        proof {
            lemma_bytes_fit(self.config, self.config.max_blocks as int);
        }
        self.config.total_memory_bytes()
    }
}

/// In a valid configuration, the bytes of any part of the pool are a machine
/// number, and no more than the bytes of the whole pool.
pub proof fn lemma_bytes_fit(config: KVCacheConfig, count: int)
    requires
        config.valid(),
        0 <= count <= config.max_blocks,
    ensures
        0 <= config.block_bytes() <= usize::MAX,
        0 <= count * config.block_bytes() <= config.total_bytes(),
{
    let per_block = config.block_bytes();
    assert(per_block >= 0) by (nonlinear_arith)
        requires
            per_block == 2 * config.block_size * config.num_heads * config.head_dim
                * config.dtype_bytes * config.num_layers,
    ;
    lemma_product_grows(per_block, config.max_blocks as int);
    assert(0 <= count * per_block <= per_block * config.max_blocks) by (nonlinear_arith)
        requires
            per_block >= 0,
            0 <= count <= config.max_blocks,
    ;
}

/// Copies a list of block identifiers.
pub fn copy_block_ids(ids: &Vec<BlockId>) -> (copy: Vec<BlockId>)
    ensures
        copy@ == ids@,
{
    let mut copy: Vec<BlockId> = Vec::new();
    let mut i: usize = 0;
    while i < ids.len()
        invariant
            i <= ids@.len(),
            copy@ == ids@.take(i as int),
        decreases ids@.len() - i,
    {
        copy.push(ids[i]);
        i += 1;
        assert(copy@ =~= ids@.take(i as int));
    }
    assert(ids@.take(i as int) =~= ids@);
    copy
}

/// The block table of one request.
struct BlockTable {
    request_id: RequestId,
    block_ids: Vec<BlockId>,
}

impl View for BlockTable {
    type V = TableView;

    closed spec fn view(&self) -> TableView {
        TableView { request_id: self.request_id@, blocks: self.block_ids@ }
    }
}

/// Totals of a cache manager.
#[derive(Debug, Clone, Copy)]
pub struct KVCacheStats {
    pub total_blocks: usize,
    pub allocated_blocks: usize,
    pub free_blocks: usize,
    pub num_sequences: usize,
    pub memory_used_bytes: usize,
    pub memory_capacity_bytes: usize,
}

/// Keeps the block table of every request and forwards allocation and
/// release to the block allocator it owns.
pub struct KVCacheManager {
    config: KVCacheConfig,
    allocator: BlockAllocator,
    /// One table per request that holds blocks, without repeated requests.
    tables: Vec<BlockTable>,
}

impl View for KVCacheManager {
    type V = CacheView;

    closed spec fn view(&self) -> CacheView {
        CacheView {
            config: self.config,
            pool: self.allocator@,
            tables: self.tables@.map_values(|t: BlockTable| t@),
        }
    }
}

impl KVCacheManager {
    /// The allocator inside agrees with the manager's configuration.
    pub closed spec fn consistent(&self) -> bool {
        self.allocator.wf() && self.allocator.spec_config() == self.config
    }

    /// The manager's invariant.
    pub open spec fn wf(&self) -> bool {
        self@.wf() && self.consistent()
    }

    /// Creates a manager over a pool of free blocks.
    pub fn new(config: KVCacheConfig) -> (manager: Self)
        requires
            config.valid(),
        ensures
            manager.wf(),
            manager@ == CacheView::fresh(config),
    {
        let allocator = BlockAllocator::new(config);
        let manager = KVCacheManager { config, allocator, tables: Vec::new() };
        proof {
            lemma_fresh_cache_wf(config);
            assert(manager@.tables =~= Seq::<TableView>::empty());
        }
        manager
    }

    /// Whether `n` blocks are free.
    pub fn can_allocate(&self, n: usize) -> (ok: bool)
        ensures
            ok == self@.can_allocate(n as nat),
    {
        self.allocator.can_allocate(n)
    }

    /// Index of the request's table.
    fn find_table(&self, request_id: &RequestId) -> (index: Option<usize>)
        ensures
            match index {
                Some(i) => i < self@.tables.len() && self@.ids()[i as int] == request_id@,
                None => !self@.has_table(request_id@),
            },
    {
        let mut i: usize = 0;
        while i < self.tables.len()
            invariant
                i <= self.tables@.len(),
                forall|j: int| 0 <= j < i ==> self@.ids()[j] != request_id@,
            decreases self.tables@.len() - i,
        {
            if self.tables[i].request_id == *request_id {
                return Some(i);
            }
            i += 1;
        }
        None
    }

    /// Allocates `num_blocks` blocks and appends them to the request's
    /// block table, which is created if absent. Returns the appended
    /// blocks; none, with the cache unchanged, where too few are free.
    pub fn allocate(&mut self, request_id: &RequestId, num_blocks: usize) -> (block_ids: Vec<
        BlockId,
    >)
        requires
            old(self).wf(),
        ensures
            final(self).wf(),
            block_ids@ == old(self)@.granted(num_blocks as nat),
            final(self)@ == old(self)@.allocate(request_id@, num_blocks as nat),
    {
        proof {
            lemma_allocate_wf(self@, request_id@, num_blocks as nat);
        }
        match self.allocator.allocate(num_blocks) {
            Some(block_ids) => {
                match self.find_table(request_id) {
                    Some(at) => {
                        proof {
                            lemma_index_of_unique(old(self)@.ids(), at as int);
                        }
                        let mut k: usize = 0;
                        while k < block_ids.len()
                            invariant
                                k <= block_ids@.len(),
                                at < self.tables@.len(),
                                self.tables@.len() == old(self).tables@.len(),
                                self.config == old(self).config,
                                self.consistent(),
                                self.allocator@ == old(self)@.pool.take(num_blocks as nat),
                                forall|j: int|
                                    0 <= j < self.tables@.len() && j != at ==> self.tables@[j]
                                        == old(self).tables@[j],
                                self.tables@[at as int].request_id == old(self).tables@[at as int].request_id,
                                self.tables@[at as int].block_ids@ == old(self).tables@[at as int].block_ids@
                                    + block_ids@.take(k as int),
                            decreases block_ids@.len() - k,
                        {
                            self.tables[at].block_ids.push(block_ids[k]);
                            k += 1;
                            assert(self.tables@[at as int].block_ids@ =~= old(self).tables@[at as int].block_ids@
                                + block_ids@.take(k as int));
                        }
                        assert(block_ids@.take(k as int) =~= block_ids@);
                        assert(self@.tables =~= old(self)@.allocate(
                            request_id@,
                            num_blocks as nat,
                        ).tables);
                    },
                    None => {
                        let table = BlockTable {
                            request_id: request_id.clone(),
                            block_ids: copy_block_ids(&block_ids),
                        };
                        self.tables.push(table);
                        assert(self@.tables =~= old(self)@.allocate(
                            request_id@,
                            num_blocks as nat,
                        ).tables);
                    },
                }
                block_ids
            },
            None => Vec::new(),
        }
    }

    /// Grows the request's block table during decode; the same as
    /// `allocate`.
    pub fn extend(&mut self, request_id: &RequestId, additional_blocks: usize) -> (block_ids: Vec<
        BlockId,
    >)
        requires
            old(self).wf(),
        ensures
            final(self).wf(),
            block_ids@ == old(self)@.granted(additional_blocks as nat),
            final(self)@ == old(self)@.allocate(request_id@, additional_blocks as nat),
    {
        self.allocate(request_id, additional_blocks)
    }

    /// Removes the request's block table and releases each of its blocks.
    pub fn free(&mut self, request_id: &RequestId)
        requires
            old(self).wf(),
        ensures
            final(self).wf(),
            final(self)@ == old(self)@.free(request_id@),
    {
        proof {
            lemma_free_wf(self@, request_id@);
        }
        match self.find_table(request_id) {
            Some(at) => {
                proof {
                    lemma_index_of_unique(old(self)@.ids(), at as int);
                }
                let table = self.tables.remove(at);
                self.allocator.free_blocks(table.block_ids.as_slice());
                assert(self@.tables =~= old(self)@.tables.remove(at as int));
            },
            None => {},
        }
    }

    /// The blocks allocated to a request.
    pub fn get_blocks(&self, request_id: &RequestId) -> (blocks: Option<&[BlockId]>)
        requires
            self.wf(),
        ensures
            blocks is Some <==> self@.has_table(request_id@),
            blocks is Some ==> blocks->0@ == self@.table(request_id@),
    {
        self.get_block_table(request_id)
    }

    /// The block table of a request.
    pub fn get_block_table(&self, request_id: &RequestId) -> (blocks: Option<&[BlockId]>)
        requires
            self.wf(),
        ensures
            blocks is Some <==> self@.has_table(request_id@),
            blocks is Some ==> blocks->0@ == self@.table(request_id@),
    {
        match self.find_table(request_id) {
            Some(at) => {
                proof {
                    lemma_index_of_unique(self@.ids(), at as int);
                }
                Some(self.tables[at].block_ids.as_slice())
            },
            None => None,
        }
    }

    /// Records how many tokens a block holds; an identifier out of range is
    /// ignored.
    pub fn update_block_tokens(&mut self, block_id: BlockId, num_tokens: usize)
        requires
            old(self).wf(),
            num_tokens <= old(self)@.config.block_size,
        ensures
            final(self).wf(),
            final(self)@ == old(self)@.with_tokens(block_id, num_tokens),
    {
        self.allocator.set_block_tokens(block_id, num_tokens);
        assert(self@.tables =~= old(self)@.tables);
    }

    /// Number of free blocks.
    pub fn num_free_blocks(&self) -> (n: usize)
        ensures
            n == self@.pool.free_count(),
    {
        self.allocator.num_free()
    }

    /// Number of blocks that hold `num_tokens` tokens.
    pub fn blocks_for_tokens(&self, num_tokens: usize) -> (blocks: usize)
        requires
            self.wf(),
        ensures
            blocks == self@.blocks_for(num_tokens as int),
    {
        self.config.blocks_for_tokens(num_tokens)
    }

    /// Totals over the pool and the tables.
    pub fn stats(&self) -> (stats: KVCacheStats)
        requires
            self.wf(),
        ensures
            stats.total_blocks == self@.config.max_blocks,
            stats.allocated_blocks == self@.pool.allocated_count(),
            stats.free_blocks == self@.pool.free_count(),
            stats.allocated_blocks + stats.free_blocks == stats.total_blocks,
            stats.num_sequences == self@.tables.len(),
            stats.memory_used_bytes == self@.pool.allocated_count() * self@.config.block_bytes(),
            stats.memory_capacity_bytes == self@.config.total_bytes(),
    {
        KVCacheStats {
            total_blocks: self.config.max_blocks,
            allocated_blocks: self.allocator.num_allocated(),
            free_blocks: self.allocator.num_free(),
            num_sequences: self.tables.len(),
            memory_used_bytes: self.allocator.memory_used_bytes(),
            memory_capacity_bytes: self.allocator.memory_capacity_bytes(),
        }
    }

    /// The configuration the manager was built from.
    pub fn config(&self) -> (config: &KVCacheConfig)
        ensures
            *config == self@.config,
    {
        &self.config
    }
}

} // verus!
