//! Shape and totals of the growing cache of the single-request back end.

use crate::engine::cache_model::lemma_index_of_unique;
use crate::engine::kv_cache::{blocks_for, ceil_div, copy_block_ids};
use vstd::prelude::*;

verus! {

/// Number format of cached keys and values.
#[derive(Debug, Clone, Copy, PartialEq, Eq, Structural)]
pub enum KVCacheDtype {
    Float32,
    Float16,
    BFloat16,
}

impl KVCacheDtype {
    /// Bytes of one number.
    pub open spec fn spec_size_bytes(&self) -> nat {
        match self {
            KVCacheDtype::Float32 => 4,
            KVCacheDtype::Float16 => 2,
            KVCacheDtype::BFloat16 => 2,
        }
    }

    /// Bytes of one number.
    pub fn size_bytes(&self) -> (bytes: usize)
        ensures
            bytes == self.spec_size_bytes(),
    {
        match self {
            KVCacheDtype::Float32 => 4,
            KVCacheDtype::Float16 => 2,
            KVCacheDtype::BFloat16 => 2,
        }
    }
}

/// Configuration of the cache.
#[derive(Debug, Clone, Copy)]
pub struct KVCacheConfig {
    /// Number of layers in the model.
    pub num_layers: usize,
    /// Number of attention heads.
    pub num_heads: usize,
    /// Head dimension.
    pub head_dim: usize,
    /// Tokens per block.
    pub block_size: usize,
    /// Maximum sequence length.
    pub max_seq_len: usize,
    /// Number format.
    pub dtype: KVCacheDtype,
}

impl Default for KVCacheConfig {
    fn default() -> (config: Self)
        ensures
            config == (KVCacheConfig {
                num_layers: 28,
                num_heads: 12,
                head_dim: 128,
                block_size: 16,
                max_seq_len: 4096,
                dtype: KVCacheDtype::Float16,
            }),
    {
        KVCacheConfig {
            num_layers: 28,
            num_heads: 12,
            head_dim: 128,
            block_size: 16,
            max_seq_len: 4096,
            dtype: KVCacheDtype::Float16,
        }
    }
}

impl KVCacheConfig {
    /// Bytes of one block: keys and values of `block_size` tokens in every
    /// head of every layer.
    pub open spec fn spec_block_bytes(&self) -> int {
        self.num_layers * self.num_heads * self.block_size * self.head_dim
            * self.dtype.spec_size_bytes() * 2
    }

    /// Bytes of one block, or `None` where they are no machine number.
    pub fn block_bytes(&self) -> (bytes: Option<usize>)
        ensures
            bytes is Some <==> self.spec_block_bytes() <= usize::MAX,
            bytes is Some ==> bytes->0 == self.spec_block_bytes(),
    {
        if self.num_layers == 0 || self.num_heads == 0 || self.block_size == 0 || self.head_dim
            == 0 {
            assert(self.num_layers * self.num_heads * self.block_size * self.head_dim
                * self.dtype.spec_size_bytes() * 2 == 0) by (nonlinear_arith)
                requires
                    self.num_layers == 0 || self.num_heads == 0 || self.block_size == 0
                        || self.head_dim == 0,
            ;
            return Some(0);
        }
        proof {
            self.lemma_partial_products();
        }
        let a = match self.num_layers.checked_mul(self.num_heads) {
            Some(a) => a,
            None => {
                return None;
            },
        };
        let b = match a.checked_mul(self.block_size) {
            Some(b) => b,
            None => {
                return None;
            },
        };
        let c = match b.checked_mul(self.head_dim) {
            Some(c) => c,
            None => {
                return None;
            },
        };
        let d = match c.checked_mul(self.dtype.size_bytes()) {
            Some(d) => d,
            None => {
                return None;
            },
        };
        d.checked_mul(2)
    }

    /// With positive factors, every partial product is within the whole.
    proof fn lemma_partial_products(&self)
        ensures
            self.num_layers > 0 && self.num_heads > 0 && self.block_size > 0 && self.head_dim > 0
                ==> {
                &&& self.num_layers * self.num_heads <= self.spec_block_bytes()
                &&& self.num_layers * self.num_heads * self.block_size <= self.spec_block_bytes()
                &&& self.num_layers * self.num_heads * self.block_size * self.head_dim
                    <= self.spec_block_bytes()
                &&& self.num_layers * self.num_heads * self.block_size * self.head_dim
                    * self.dtype.spec_size_bytes() <= self.spec_block_bytes()
            },
    {
        if self.num_layers > 0 && self.num_heads > 0 && self.block_size > 0 && self.head_dim > 0 {
            let p1 = self.num_layers * self.num_heads;
            let p2 = p1 * self.block_size;
            let p3 = p2 * self.head_dim;
            let p4 = p3 * self.dtype.spec_size_bytes();
            assert(p1 >= 1) by (nonlinear_arith)
                requires
                    p1 == self.num_layers * self.num_heads,
                    self.num_layers > 0,
                    self.num_heads > 0,
            ;
            assert(p2 >= p1) by (nonlinear_arith)
                requires
                    p2 == p1 * self.block_size,
                    p1 >= 1,
                    self.block_size > 0,
            ;
            assert(p3 >= p2) by (nonlinear_arith)
                requires
                    p3 == p2 * self.head_dim,
                    p2 >= 1,
                    self.head_dim > 0,
            ;
            assert(p4 >= p3) by (nonlinear_arith)
                requires
                    p4 == p3 * self.dtype.spec_size_bytes(),
                    p3 >= 1,
                    self.dtype.spec_size_bytes() >= 2,
            ;
            assert(p4 * 2 >= p4);
        }
    }
}

/// Totals of the cache.
#[derive(Debug, Clone, Copy)]
pub struct KVCacheStats {
    pub total_blocks: usize,
    pub free_blocks: usize,
    pub active_sequences: usize,
    pub memory_bytes: usize,
}

/// One block of the cache. The keys and values it stands for are kept by
/// the back end; here is what the bookkeeping reads.
#[derive(Debug, Clone, Copy)]
pub struct KVBlock {
    /// Index of the block.
    pub id: usize,
    /// Number of tokens stored in this block.
    pub num_tokens: usize,
}

impl KVBlock {
    /// An empty block.
    pub fn new(id: usize) -> (block: Self)
        ensures
            block == (KVBlock { id, num_tokens: 0 }),
    {
        KVBlock { id, num_tokens: 0 }
    }

    /// Whether the block holds `block_size` tokens or more.
    pub fn is_full(&self, block_size: usize) -> (full: bool)
        ensures
            full == (self.num_tokens >= block_size),
    {
        self.num_tokens >= block_size
    }

    /// The tokens that still fit in the block.
    pub open spec fn spec_remaining_capacity(&self, block_size: usize) -> usize {
        if block_size >= self.num_tokens {
            (block_size - self.num_tokens) as usize
        } else {
            0
        }
    }

    /// The tokens that still fit in the block.
    pub fn remaining_capacity(&self, block_size: usize) -> (room: usize)
        ensures
            room == self.spec_remaining_capacity(block_size),
    {
        if block_size >= self.num_tokens {
            block_size - self.num_tokens
        } else {
            0
        }
    }
}

/// The blocks of one sequence, in the order of its tokens.
pub struct SequenceView {
    pub sequence_id: Seq<char>,
    pub blocks: Seq<usize>,
}

/// State of the growing cache: all blocks ever made, those that are free
/// for reuse, and the blocks of every sequence.
#[verifier::ext_equal]
pub struct GrowingView {
    pub config: KVCacheConfig,
    pub blocks: Seq<KVBlock>,
    /// Free blocks; the last one is reused first.
    pub free: Seq<usize>,
    pub sequences: Seq<SequenceView>,
}

/// Number of blocks that a new cache holds.
pub const INITIAL_BLOCKS: usize = 64;

impl GrowingView {
    /// A cache of 64 empty blocks, all free, and no sequence.
    pub open spec fn fresh(config: KVCacheConfig) -> GrowingView {
        GrowingView {
            config,
            blocks: Seq::new(64, |i: int| KVBlock { id: i as usize, num_tokens: 0 }),
            free: Seq::new(64, |i: int| i as usize),
            sequences: Seq::empty(),
        }
    }

    pub open spec fn ids(self) -> Seq<Seq<char>> {
        self.sequences.map_values(|s: SequenceView| s.sequence_id)
    }

    /// Whether the sequence has blocks assigned, be it none.
    pub open spec fn has_sequence(self, sequence_id: Seq<char>) -> bool {
        self.ids().contains(sequence_id)
    }

    pub open spec fn sequence_index(self, sequence_id: Seq<char>) -> int {
        self.ids().index_of(sequence_id)
    }

    /// The blocks of a sequence.
    pub open spec fn sequence(self, sequence_id: Seq<char>) -> Seq<usize> {
        self.sequences[self.sequence_index(sequence_id)].blocks
    }

    /// The invariant: every block sits at its own index, and every block
    /// that is free or belongs to a sequence exists; no sequence is kept
    /// twice.
    pub open spec fn wf(self) -> bool {
        &&& self.blocks.len() <= usize::MAX
        &&& forall|i: int| 0 <= i < self.blocks.len() ==> (#[trigger] self.blocks[i]).id == i
        &&& forall|j: int| 0 <= j < self.free.len() ==> (#[trigger] self.free[j]) < self.blocks.len()
        &&& forall|s: int, a: int|
            0 <= s < self.sequences.len() && 0 <= a < self.sequences[s].blocks.len() ==> (
            #[trigger] self.sequences[s].blocks[a]) < self.blocks.len()
        &&& self.ids().no_duplicates()
    }

    /// The block that is handed out next: the last free one, or a new one.
    pub open spec fn next_block(self) -> usize {
        if self.free.len() > 0 {
            self.free.last()
        } else {
            self.blocks.len() as usize
        }
    }

    /// The cache after one block was handed out, empty of tokens.
    pub open spec fn take_block(self) -> GrowingView {
        if self.free.len() > 0 {
            GrowingView {
                blocks: self.blocks.update(
                    self.free.last() as int,
                    KVBlock { id: self.blocks[self.free.last() as int].id, num_tokens: 0 },
                ),
                free: self.free.drop_last(),
                ..self
            }
        } else {
            GrowingView {
                blocks: self.blocks.push(KVBlock { id: self.blocks.len() as usize, num_tokens: 0 }),
                ..self
            }
        }
    }

    /// The cache after `n` blocks were handed out.
    pub open spec fn take_blocks(self, n: nat) -> GrowingView
        decreases n,
    {
        if n == 0 {
            self
        } else {
            self.take_blocks((n - 1) as nat).take_block()
        }
    }

    /// The `n` blocks that are handed out next, in order.
    pub open spec fn taken_blocks(self, n: nat) -> Seq<usize>
        decreases n,
    {
        if n == 0 {
            Seq::empty()
        } else {
            self.taken_blocks((n - 1) as nat).push(self.take_blocks((n - 1) as nat).next_block())
        }
    }

    /// The sequences after one of them was given `blocks`, in place of
    /// what it had.
    pub open spec fn put(self, sequence_id: Seq<char>, blocks: Seq<usize>) -> Seq<SequenceView> {
        if self.has_sequence(sequence_id) {
            self.sequences.update(
                self.sequence_index(sequence_id),
                SequenceView { sequence_id, blocks },
            )
        } else {
            self.sequences.push(SequenceView { sequence_id, blocks })
        }
    }

    /// The cache after a sequence of `num_tokens` tokens was given the
    /// blocks that hold them.
    pub open spec fn allocate_sequence(self, sequence_id: Seq<char>, num_tokens: nat) -> GrowingView {
        let n = ceil_div(num_tokens as int, self.config.block_size as int) as nat;
        GrowingView { sequences: self.put(sequence_id, self.taken_blocks(n)), ..self.take_blocks(n) }
    }

    /// Whether a sequence needs more blocks for `additional_tokens` more
    /// tokens: it has no block, or its last block has less room.
    pub open spec fn needs_more(self, sequence_id: Seq<char>, additional_tokens: nat) -> bool {
        let blocks = self.sequence(sequence_id);
        blocks.len() == 0 || self.blocks[blocks.last() as int].spec_remaining_capacity(
            self.config.block_size,
        ) < additional_tokens
    }

    /// The cache after a sequence was extended by `additional_tokens`
    /// tokens: where it needs more blocks, it gets those that hold the
    /// additional tokens; an unknown sequence changes nothing.
    pub open spec fn extend_sequence(self, sequence_id: Seq<char>, additional_tokens: nat) -> GrowingView {
        if self.has_sequence(sequence_id) && self.needs_more(sequence_id, additional_tokens) {
            let n = ceil_div(additional_tokens as int, self.config.block_size as int) as nat;
            GrowingView {
                sequences: self.put(
                    sequence_id,
                    self.sequence(sequence_id) + self.taken_blocks(n),
                ),
                ..self.take_blocks(n)
            }
        } else {
            self
        }
    }

    /// The cache after a sequence was dropped: its blocks are free again.
    pub open spec fn free_sequence(self, sequence_id: Seq<char>) -> GrowingView {
        if self.has_sequence(sequence_id) {
            GrowingView {
                free: self.free + self.sequence(sequence_id),
                sequences: self.sequences.remove(self.sequence_index(sequence_id)),
                ..self
            }
        } else {
            self
        }
    }

    /// Whether a token can be recorded for the sequence: it has a block.
    pub open spec fn can_record(self, sequence_id: Seq<char>) -> bool {
        self.has_sequence(sequence_id) && self.sequence(sequence_id).len() > 0
    }

    /// The cache after one token was recorded in the last block of a
    /// sequence; a sequence without blocks changes nothing.
    pub open spec fn record_token(self, sequence_id: Seq<char>) -> GrowingView {
        if self.can_record(sequence_id) {
            let last = self.sequence(sequence_id).last() as int;
            GrowingView {
                blocks: self.blocks.update(
                    last,
                    KVBlock {
                        id: self.blocks[last].id,
                        num_tokens: (self.blocks[last].num_tokens + 1) as usize,
                    },
                ),
                ..self
            }
        } else {
            self
        }
    }

    /// Bytes of all blocks.
    pub open spec fn memory_bytes(self) -> int {
        self.blocks.len() * self.config.spec_block_bytes()
    }
}

/// Handing out a block keeps the cache well formed, given that the blocks
/// can still be counted; the block exists afterwards.
pub proof fn lemma_take_block(v: GrowingView)
    requires
        v.wf(),
        v.take_block().blocks.len() <= usize::MAX,
    ensures
        v.take_block().wf(),
        v.next_block() < v.take_block().blocks.len(),
        v.take_block().blocks.len() >= v.blocks.len(),
        v.take_block().sequences == v.sequences,
        v.take_block().config == v.config,
{
    let after = v.take_block();
    assert(after.ids() == v.ids());
    if v.free.len() > 0 {
        assert(v.free.last() == v.free[v.free.len() - 1]);
        assert forall|j: int| 0 <= j < after.free.len() implies (#[trigger] after.free[j])
            < after.blocks.len() by {
            assert(after.free[j] == v.free[j]);
        }
    }
    assert forall|s: int, a: int|
        0 <= s < after.sequences.len() && 0 <= a < after.sequences[s].blocks.len() implies (
    #[trigger] after.sequences[s].blocks[a]) < after.blocks.len() by {
        assert(v.sequences[s].blocks[a] < v.blocks.len());
    }
}

/// Bookkeeping of one sequence.
struct SequenceBlocks {
    sequence_id: String,
    blocks: Vec<usize>,
}

impl View for SequenceBlocks {
    type V = SequenceView;

    closed spec fn view(&self) -> SequenceView {
        SequenceView { sequence_id: self.sequence_id@, blocks: self.blocks@ }
    }
}

/// Bookkeeping of a cache that grows on demand: blocks are reused when
/// free and made when none is.
pub struct KVCache {
    config: KVCacheConfig,
    blocks: Vec<KVBlock>,
    free_blocks: Vec<usize>,
    sequence_blocks: Vec<SequenceBlocks>,
}

impl View for KVCache {
    type V = GrowingView;

    closed spec fn view(&self) -> GrowingView {
        GrowingView {
            config: self.config,
            blocks: self.blocks@,
            free: self.free_blocks@,
            sequences: self.sequence_blocks@.map_values(|s: SequenceBlocks| s@),
        }
    }
}

impl KVCache {
    /// The cache's invariant.
    pub open spec fn wf(&self) -> bool {
        self@.wf()
    }

    /// Creates a cache of 64 free blocks.
    pub fn new(config: KVCacheConfig) -> (cache: Self)
        ensures
            cache.wf(),
            cache@ == GrowingView::fresh(config),
    {
        let mut blocks: Vec<KVBlock> = Vec::new();
        let mut free_blocks: Vec<usize> = Vec::new();
        let mut i: usize = 0;
        while i < INITIAL_BLOCKS
            invariant
                i <= 64,
                blocks@ == Seq::new(i as nat, |k: int| KVBlock { id: k as usize, num_tokens: 0 }),
                free_blocks@ == Seq::new(i as nat, |k: int| k as usize),
            decreases 64 - i,
        {
            blocks.push(KVBlock::new(i));
            free_blocks.push(i);
            i += 1;
            assert(blocks@ =~= Seq::new(i as nat, |k: int| KVBlock { id: k as usize, num_tokens: 0 }));
            assert(free_blocks@ =~= Seq::new(i as nat, |k: int| k as usize));
        }
        let cache = KVCache { config, blocks, free_blocks, sequence_blocks: Vec::new() };
        assert(cache@.sequences =~= Seq::<SequenceView>::empty());
        cache
    }

    /// Index of the bookkeeping of a sequence.
    fn find_sequence(&self, sequence_id: &str) -> (index: Option<usize>)
        ensures
            match index {
                Some(i) => i < self@.sequences.len() && self@.ids()[i as int] == sequence_id@,
                None => !self@.has_sequence(sequence_id@),
            },
    {
        let wanted = sequence_id.to_string();
        let mut i: usize = 0;
        while i < self.sequence_blocks.len()
            invariant
                i <= self.sequence_blocks@.len(),
                wanted@ == sequence_id@,
                forall|j: int| 0 <= j < i ==> self@.ids()[j] != sequence_id@,
            decreases self.sequence_blocks@.len() - i,
        {
            if self.sequence_blocks[i].sequence_id == wanted {
                return Some(i);
            }
            i += 1;
        }
        None
    }

    /// Hands out one block.
    fn allocate_block(&mut self) -> (id: usize)
        requires
            old(self).wf(),
        ensures
            final(self).wf(),
            final(self)@ == old(self)@.take_block(),
            id == old(self)@.next_block(),
    {
        let id = match self.free_blocks.pop() {
            Some(id) => {
                self.blocks[id].num_tokens = 0;
                id
            },
            None => {
                let id = self.blocks.len();
                self.blocks.push(KVBlock::new(id));
                id
            },
        };
        let total: usize = self.blocks.len();
        proof {
            assert(self.blocks@.len() == total);
            assert(self@.blocks =~= old(self)@.take_block().blocks);
            assert(self@.free =~= old(self)@.take_block().free);
            assert(self@ =~= old(self)@.take_block());
            lemma_take_block(old(self)@);
        }
        id
    }

    /// Hands out `n` blocks.
    fn allocate_blocks(&mut self, n: usize) -> (ids: Vec<usize>)
        requires
            old(self).wf(),
        ensures
            final(self).wf(),
            final(self)@ == old(self)@.take_blocks(n as nat),
            ids@ == old(self)@.taken_blocks(n as nat),
            final(self)@.sequences == old(self)@.sequences,
            final(self)@.config == old(self)@.config,
            final(self)@.blocks.len() >= old(self)@.blocks.len(),
            forall|k: int| 0 <= k < ids@.len() ==> (#[trigger] ids@[k]) < final(self)@.blocks.len(),
    {
        let mut ids: Vec<usize> = Vec::new();
        let mut k: usize = 0;
        while k < n
            invariant
                k <= n,
                self.wf(),
                self@ == old(self)@.take_blocks(k as nat),
                ids@ == old(self)@.taken_blocks(k as nat),
                self@.sequences == old(self)@.sequences,
                self@.config == old(self)@.config,
                self@.blocks.len() >= old(self)@.blocks.len(),
                forall|j: int| 0 <= j < ids@.len() ==> (#[trigger] ids@[j]) < self@.blocks.len(),
            decreases n - k,
        {
            let ghost before = self@;
            let id = self.allocate_block();
            proof {
                lemma_take_block(before);
            }
            ids.push(id);
            k += 1;
        }
        ids
    }

    /// Gives a sequence its blocks, in place of what it had.
    fn put_sequence(&mut self, sequence_id: &str, blocks: Vec<usize>)
        requires
            old(self).wf(),
            forall|k: int| 0 <= k < blocks@.len() ==> (#[trigger] blocks@[k]) < old(self)@.blocks.len(),
        ensures
            final(self).wf(),
            final(self)@ == (GrowingView {
                sequences: old(self)@.put(sequence_id@, blocks@),
                ..old(self)@
            }),
    {
        match self.find_sequence(sequence_id) {
            Some(at) => {
                proof {
                    lemma_index_of_unique(old(self)@.ids(), at as int);
                }
                self.sequence_blocks[at].blocks = blocks;
                assert(self@.sequences =~= old(self)@.put(sequence_id@, blocks@));
                assert(self@.ids() =~= old(self)@.ids());
            },
            None => {
                self.sequence_blocks.push(
                    SequenceBlocks { sequence_id: sequence_id.to_string(), blocks },
                );
                assert(self@.sequences =~= old(self)@.put(sequence_id@, blocks@));
                assert(self@.ids() =~= old(self)@.ids().push(sequence_id@));
                assert(self@.ids().no_duplicates()) by {
                    assert forall|a: int, b: int|
                        0 <= a < self@.ids().len() && 0 <= b < self@.ids().len() && a
                            != b implies self@.ids()[a] != self@.ids()[b] by {
                        if a < old(self)@.ids().len() {
                            assert(old(self)@.ids().contains(old(self)@.ids()[a]));
                        }
                        if b < old(self)@.ids().len() {
                            assert(old(self)@.ids().contains(old(self)@.ids()[b]));
                        }
                    }
                }
            },
        }
        assert forall|s: int, a: int|
            0 <= s < self@.sequences.len() && 0 <= a < self@.sequences[s].blocks.len() implies (
        #[trigger] self@.sequences[s].blocks[a]) < self@.blocks.len() by {
            if s < old(self)@.sequences.len() && self@.sequences[s] == old(self)@.sequences[s] {
                assert(old(self)@.sequences[s].blocks[a] < old(self)@.blocks.len());
            } else {
                assert(self@.sequences[s].blocks[a] == blocks@[a]);
            }
        }
    }

    /// Allocates the blocks for a new sequence of `num_tokens` tokens and
    /// returns them.
    pub fn allocate_sequence(&mut self, sequence_id: &str, num_tokens: usize) -> (blocks: Vec<usize>)
        requires
            old(self).wf(),
            old(self)@.config.block_size > 0,
        ensures
            final(self).wf(),
            final(self)@ == old(self)@.allocate_sequence(sequence_id@, num_tokens as nat),
            blocks@ == old(self)@.taken_blocks(
                ceil_div(num_tokens as int, old(self)@.config.block_size as int) as nat,
            ),
    {
        let n = blocks_for(num_tokens, self.config.block_size);
        let allocated = self.allocate_blocks(n);
        let kept = copy_block_ids(&allocated);
        self.put_sequence(sequence_id, kept);
        allocated
    }

    /// Extends a sequence by `additional_tokens` tokens.
    pub fn extend_sequence(&mut self, sequence_id: &str, additional_tokens: usize)
        requires
            old(self).wf(),
            old(self)@.config.block_size > 0,
        ensures
            final(self).wf(),
            final(self)@ == old(self)@.extend_sequence(sequence_id@, additional_tokens as nat),
    {
        let at = match self.find_sequence(sequence_id) {
            Some(at) => at,
            None => {
                return;
            },
        };
        proof {
            lemma_index_of_unique(self@.ids(), at as int);
        }
        let held: usize = self.sequence_blocks[at].blocks.len();
        let needs_more_blocks = if held > 0 {
            let last_block_id = self.sequence_blocks[at].blocks[held - 1];
            assert(last_block_id == self@.sequences[at as int].blocks[held - 1]);
            let remaining = self.blocks[last_block_id].remaining_capacity(self.config.block_size);
            remaining < additional_tokens
        } else {
            true
        };
        if !needs_more_blocks {
            return;
        }
        let n = blocks_for(additional_tokens, self.config.block_size);
        let new_block_ids = self.allocate_blocks(n);
        let mut k: usize = 0;
        while k < new_block_ids.len()
            invariant
                k <= new_block_ids@.len(),
                at < self.sequence_blocks@.len(),
                self@.sequences.len() == old(self)@.sequences.len(),
                self@.config == old(self)@.config,
                self@.blocks == old(self)@.take_blocks(n as nat).blocks,
                self@.free == old(self)@.take_blocks(n as nat).free,
                forall|j: int|
                    0 <= j < self@.sequences.len() && j != at ==> self@.sequences[j] == old(
                        self,
                    )@.sequences[j],
                self@.sequences[at as int].sequence_id == old(self)@.sequences[at as int].sequence_id,
                self@.sequences[at as int].blocks == old(self)@.sequences[at as int].blocks
                    + new_block_ids@.take(k as int),
            decreases new_block_ids@.len() - k,
        {
            let ghost before = self@;
            self.sequence_blocks[at].blocks.push(new_block_ids[k]);
            k += 1;
            proof {
                assert(self@.sequences[at as int].blocks =~= old(self)@.sequences[at as int].blocks
                    + new_block_ids@.take(k as int));
                assert forall|j: int| 0 <= j < self@.sequences.len() && j != at implies self@.sequences[j]
                    == old(self)@.sequences[j] by {
                    assert(self@.sequences[j] == before.sequences[j]);
                }
            }
        }
        proof {
            assert(new_block_ids@.take(k as int) =~= new_block_ids@);
            let target = old(self)@.extend_sequence(sequence_id@, additional_tokens as nat);
            assert(self@.sequences =~= target.sequences);
            assert(self@ =~= target);
            assert(self@.ids() =~= old(self)@.ids());
            assert forall|s: int, a: int|
                0 <= s < self@.sequences.len() && 0 <= a < self@.sequences[s].blocks.len() implies (
            #[trigger] self@.sequences[s].blocks[a]) < self@.blocks.len() by {
                if s != at || a < held {
                    assert(self@.sequences[s].blocks[a] == old(self)@.sequences[s].blocks[a]);
                    assert(old(self)@.sequences[s].blocks[a] < old(self)@.blocks.len());
                } else {
                    assert(self@.sequences[s].blocks[a] == new_block_ids@[a - held]);
                }
            }
        }
    }

    /// Frees the blocks of a sequence.
    pub fn free_sequence(&mut self, sequence_id: &str)
        requires
            old(self).wf(),
        ensures
            final(self).wf(),
            final(self)@ == old(self)@.free_sequence(sequence_id@),
    {
        match self.find_sequence(sequence_id) {
            Some(at) => {
                proof {
                    lemma_index_of_unique(old(self)@.ids(), at as int);
                }
                let entry = self.sequence_blocks.remove(at);
                let mut k: usize = 0;
                while k < entry.blocks.len()
                    invariant
                        k <= entry.blocks@.len(),
                        self.config == old(self).config,
                        self.blocks == old(self).blocks,
                        self.sequence_blocks@ == old(self).sequence_blocks@.remove(at as int),
                        self.free_blocks@ == old(self).free_blocks@ + entry.blocks@.take(k as int),
                    decreases entry.blocks@.len() - k,
                {
                    self.free_blocks.push(entry.blocks[k]);
                    k += 1;
                    assert(self.free_blocks@ =~= old(self).free_blocks@ + entry.blocks@.take(
                        k as int,
                    ));
                }
                proof {
                    assert(entry.blocks@.take(k as int) =~= entry.blocks@);
                    assert(self@.sequences =~= old(self)@.sequences.remove(at as int));
                    assert(self@ =~= old(self)@.free_sequence(sequence_id@));
                    assert(self@.ids() =~= old(self)@.ids().remove(at as int));
                    crate::engine::scheduler_lemmas::lemma_remove_distinct(
                        old(self)@.ids(),
                        at as int,
                    );
                    assert forall|j: int| 0 <= j < self@.free.len() implies (#[trigger] self@.free[j])
                        < self@.blocks.len() by {
                        if j >= old(self)@.free.len() {
                            assert(self@.free[j] == old(self)@.sequences[at as int].blocks[j
                                - old(self)@.free.len()]);
                        } else {
                            assert(self@.free[j] == old(self)@.free[j]);
                        }
                    }
                    assert forall|s: int, a: int|
                        0 <= s < self@.sequences.len() && 0 <= a
                            < self@.sequences[s].blocks.len() implies (
                    #[trigger] self@.sequences[s].blocks[a]) < self@.blocks.len() by {
                        let s0 = if s < at { s } else { s + 1 };
                        assert(self@.sequences[s] == old(self)@.sequences[s0]);
                        assert(old(self)@.sequences[s0].blocks[a] < old(self)@.blocks.len());
                    }
                }
            },
            None => {},
        }
    }

    /// The blocks of a sequence.
    pub fn get_sequence_blocks(&self, sequence_id: &str) -> (blocks: Option<&[usize]>)
        requires
            self.wf(),
        ensures
            blocks is Some <==> self@.has_sequence(sequence_id@),
            blocks is Some ==> blocks->0@ == self@.sequence(sequence_id@),
    {
        match self.find_sequence(sequence_id) {
            Some(at) => {
                proof {
                    lemma_index_of_unique(self@.ids(), at as int);
                }
                Some(self.sequence_blocks[at].blocks.as_slice())
            },
            None => None,
        }
    }

    /// The bookkeeping of a block.
    pub fn get_block(&self, block_id: usize) -> (block: Option<&KVBlock>)
        ensures
            block is Some <==> block_id < self@.blocks.len(),
            block is Some ==> *block->0 == self@.blocks[block_id as int],
    {
        if block_id < self.blocks.len() {
            Some(&self.blocks[block_id])
        } else {
            None
        }
    }

    /// Records one more token in the last block of a sequence.
    pub fn update(&mut self, sequence_id: &str)
        requires
            old(self).wf(),
            old(self)@.can_record(sequence_id@) ==> old(self)@.blocks[old(self)@.sequence(
                sequence_id@,
            ).last() as int].num_tokens < usize::MAX,
        ensures
            final(self).wf(),
            final(self)@ == old(self)@.record_token(sequence_id@),
    {
        match self.find_sequence(sequence_id) {
            Some(at) => {
                proof {
                    lemma_index_of_unique(old(self)@.ids(), at as int);
                }
                let held: usize = self.sequence_blocks[at].blocks.len();
                if held > 0 {
                    let block_id = self.sequence_blocks[at].blocks[held - 1];
                    assert(block_id == self@.sequences[at as int].blocks[held - 1]);
                    self.blocks[block_id].num_tokens += 1;
                    assert(self@.blocks =~= old(self)@.record_token(sequence_id@).blocks);
                    assert(self@ =~= old(self)@.record_token(sequence_id@));
                    assert(self@.ids() == old(self)@.ids());
                    assert forall|s: int, a: int|
                        0 <= s < self@.sequences.len() && 0 <= a
                            < self@.sequences[s].blocks.len() implies (
                    #[trigger] self@.sequences[s].blocks[a]) < self@.blocks.len() by {
                        assert(old(self)@.sequences[s].blocks[a] < old(self)@.blocks.len());
                    }
                }
            },
            None => {},
        }
    }

    /// Bytes of all blocks.
    pub fn memory_bytes(&self) -> (bytes: usize)
        requires
            self@.config.spec_block_bytes() <= usize::MAX,
            self@.memory_bytes() <= usize::MAX,
        ensures
            bytes == self@.memory_bytes(),
    {
        match self.config.block_bytes() {
            Some(per_block) => self.blocks.len() * per_block,
            None => 0,
        }
    }

    /// Totals of the cache.
    pub fn stats(&self) -> (stats: KVCacheStats)
        requires
            self@.config.spec_block_bytes() <= usize::MAX,
            self@.memory_bytes() <= usize::MAX,
        ensures
            stats.total_blocks == self@.blocks.len(),
            stats.free_blocks == self@.free.len(),
            stats.active_sequences == self@.sequences.len(),
            stats.memory_bytes == self@.memory_bytes(),
    {
        KVCacheStats {
            total_blocks: self.blocks.len(),
            free_blocks: self.free_blocks.len(),
            active_sequences: self.sequence_blocks.len(),
            memory_bytes: self.memory_bytes(),
        }
    }
}

} // verus!
