//! Mathematical model of the cache manager: the block pool together with
//! the block table of every request that holds blocks.

use crate::engine::kv_cache::{ceil_div, KVCacheConfig};
use crate::engine::pool_model::{
    lemma_release_all, lemma_release_solely_held, lemma_take, PoolView,
};
use crate::engine::types::BlockId;
use vstd::prelude::*;

verus! {

/// The block table of one request: its blocks in the order of the tokens
/// they back. Token `p` lives in block `p / block_size`, slot
/// `p % block_size`.
pub struct TableView {
    pub request_id: Seq<char>,
    pub blocks: Seq<BlockId>,
}

/// State of a cache manager.
#[verifier::ext_equal]
pub struct CacheView {
    pub config: KVCacheConfig,
    pub pool: PoolView,
    /// The block tables, in the order in which their requests first
    /// received blocks.
    pub tables: Seq<TableView>,
}

/// In a sequence without duplicates, an item is found at its own index.
pub proof fn lemma_index_of_unique<A>(items: Seq<A>, i: int)
    requires
        items.no_duplicates(),
        0 <= i < items.len(),
    ensures
        items.contains(items[i]),
        items.index_of(items[i]) == i,
{
    let found = items.index_of(items[i]);
    assert(0 <= found < items.len() && items[found] == items[i]);
}

impl CacheView {
    /// A cache in which every block is free and no request has a table.
    pub open spec fn fresh(config: KVCacheConfig) -> CacheView {
        CacheView {
            config,
            pool: PoolView::fresh(config.max_blocks as nat),
            tables: Seq::empty(),
        }
    }

    /// The requests that have a table.
    pub open spec fn ids(self) -> Seq<Seq<char>> {
        self.tables.map_values(|t: TableView| t.request_id)
    }

    /// Whether the request has a table.
    pub open spec fn has_table(self, request_id: Seq<char>) -> bool {
        self.ids().contains(request_id)
    }

    /// Where the request's table stands in `tables`.
    pub open spec fn table_index(self, request_id: Seq<char>) -> int {
        self.ids().index_of(request_id)
    }

    /// The blocks of the request; none for a request without a table.
    pub open spec fn table(self, request_id: Seq<char>) -> Seq<BlockId> {
        if self.has_table(request_id) {
            self.tables[self.table_index(request_id)].blocks
        } else {
            Seq::empty()
        }
    }

    /// No block stands twice in the tables, neither in two tables nor twice
    /// in one.
    pub open spec fn tables_disjoint(self) -> bool {
        forall|t1: int, a: int, t2: int, b: int|
            0 <= t1 < self.tables.len() && 0 <= a < self.tables[t1].blocks.len() && 0 <= t2
                < self.tables.len() && 0 <= b < self.tables[t2].blocks.len() && (t1 != t2 || a
                != b) ==> #[trigger] self.tables[t1].blocks[a] != #[trigger] self.tables[t2].blocks[b]
    }

    /// Every block in a table is a live block of the pool with exactly one
    /// reference.
    pub open spec fn tables_held(self) -> bool {
        forall|t: int, a: int|
            0 <= t < self.tables.len() && 0 <= a < self.tables[t].blocks.len() ==> (
            #[trigger] self.tables[t].blocks[a]) < self.pool.blocks.len()
                && self.pool.blocks[self.tables[t].blocks[a] as int].ref_count == 1
    }

    /// The manager's invariant. The blocks of all tables are pairwise
    /// distinct and all of them are allocated.
    pub open spec fn wf(self) -> bool {
        &&& self.config.valid()
        &&& self.pool.wf()
        &&& self.pool.blocks.len() == self.config.max_blocks
        &&& self.pool.within(self.config.block_size)
        &&& self.ids().no_duplicates()
        &&& self.tables_disjoint()
        &&& self.tables_held()
    }

    /// Whether `n` blocks are free.
    pub open spec fn can_allocate(self, n: nat) -> bool {
        n <= self.pool.free_count()
    }

    /// The blocks that a request for `n` blocks receives: the first `n` of
    /// the free list, or none where fewer are free.
    pub open spec fn granted(self, n: nat) -> Seq<BlockId> {
        if self.can_allocate(n) {
            self.pool.taken(n)
        } else {
            Seq::empty()
        }
    }

    /// The cache after the request asked for `n` blocks: where they are
    /// free, they leave the pool and join the end of the request's table,
    /// which is created if the request had none; otherwise nothing changes.
    pub open spec fn allocate(self, request_id: Seq<char>, n: nat) -> CacheView {
        if self.can_allocate(n) {
            CacheView {
                config: self.config,
                pool: self.pool.take(n),
                tables: if self.has_table(request_id) {
                    self.tables.update(
                        self.table_index(request_id),
                        TableView {
                            request_id,
                            blocks: self.table(request_id) + self.pool.taken(n),
                        },
                    )
                } else {
                    self.tables.push(TableView { request_id, blocks: self.pool.taken(n) })
                },
            }
        } else {
            self
        }
    }

    /// The cache after the request's table was removed and each of its
    /// blocks released; a request without a table changes nothing.
    pub open spec fn free(self, request_id: Seq<char>) -> CacheView {
        if self.has_table(request_id) {
            CacheView {
                config: self.config,
                pool: self.pool.release_all(self.table(request_id)),
                tables: self.tables.remove(self.table_index(request_id)),
            }
        } else {
            self
        }
    }

    /// The cache after the occupancy of one block was recorded.
    pub open spec fn with_tokens(self, block_id: BlockId, num_tokens: usize) -> CacheView {
        CacheView {
            config: self.config,
            pool: self.pool.with_tokens(block_id, num_tokens),
            tables: self.tables,
        }
    }

    /// Number of blocks that hold `num_tokens` tokens.
    pub open spec fn blocks_for(self, num_tokens: int) -> int {
        ceil_div(num_tokens, self.config.block_size as int)
    }
}

/// A fresh cache is well formed.
pub proof fn lemma_fresh_cache_wf(config: KVCacheConfig)
    requires
        config.valid(),
    ensures
        CacheView::fresh(config).wf(),
{
    crate::engine::pool_model::lemma_fresh_wf(config.max_blocks as nat, config.block_size);
}

/// Allocation keeps the cache well formed. It changes the table of the
/// asking request only, and that by appending.
pub proof fn lemma_allocate_wf(cache: CacheView, request_id: Seq<char>, n: nat)
    requires
        cache.wf(),
    ensures
        cache.allocate(request_id, n).wf(),
        cache.allocate(request_id, n).config == cache.config,
        cache.allocate(request_id, n).table(request_id) == cache.table(request_id) + cache.granted(n),
        cache.allocate(request_id, n).pool.free_count() == cache.pool.free_count() - cache.granted(n).len(),
        cache.can_allocate(n) ==> cache.allocate(request_id, n).has_table(request_id),
        forall|other: Seq<char>|
            other != request_id ==> cache.allocate(request_id, n).has_table(other)
                == cache.has_table(other) && cache.allocate(request_id, n).table(other)
                == cache.table(other),
{
    let after = cache.allocate(request_id, n);
    if cache.can_allocate(n) {
        lemma_take(cache.pool, n);
        let ids = cache.pool.taken(n);
        let at = if cache.has_table(request_id) {
            cache.table_index(request_id)
        } else {
            cache.tables.len() as int
        };
        if cache.has_table(request_id) {
            lemma_index_of_unique(cache.ids(), at);
            assert(after.ids() =~= cache.ids());
        } else {
            assert(after.ids() =~= cache.ids().push(request_id));
            assert(after.ids().no_duplicates()) by {
                assert forall|a: int, b: int|
                    0 <= a < after.ids().len() && 0 <= b < after.ids().len() && a != b implies after.ids()[a]
                    != after.ids()[b] by {
                    if a < cache.ids().len() {
                        assert(cache.ids().contains(cache.ids()[a]));
                    }
                    if b < cache.ids().len() {
                        assert(cache.ids().contains(cache.ids()[b]));
                    }
                }
            }
        }
        assert(after.ids()[at] == request_id);
        lemma_index_of_unique(after.ids(), at);
        // Every old table is a prefix of the table that now stands at its index.
        assert forall|t: int, a: int|
            0 <= t < cache.tables.len() && 0 <= a < cache.tables[t].blocks.len() implies after.tables[t].blocks[a]
            == cache.tables[t].blocks[a] && cache.pool.is_live(cache.tables[t].blocks[a]) by {
            assert(cache.tables[t].blocks[a] < cache.pool.blocks.len());
        }
        assert forall|t: int, a: int|
            0 <= t < after.tables.len() && 0 <= a < after.tables[t].blocks.len() implies (
        #[trigger] after.tables[t].blocks[a]) < after.pool.blocks.len()
            && after.pool.blocks[after.tables[t].blocks[a] as int].ref_count == 1 && (if t
            < cache.tables.len() && a < cache.tables[t].blocks.len() {
            after.tables[t].blocks[a] == cache.tables[t].blocks[a]
        } else {
            t == at && after.tables[t].blocks[a] == ids[a - (after.tables[t].blocks.len() - n)]
        }) by {
            if t < cache.tables.len() && a < cache.tables[t].blocks.len() {
                let id = cache.tables[t].blocks[a];
                assert(cache.pool.is_live(id));
                assert(after.pool.blocks[id as int] == cache.pool.blocks[id as int]);
            } else {
                let k = a - (after.tables[t].blocks.len() - n);
                assert(after.tables[t].blocks[a] == ids[k]);
            }
        }
        assert(after.tables_disjoint()) by {
            assert forall|t1: int, a: int, t2: int, b: int|
                0 <= t1 < after.tables.len() && 0 <= a < after.tables[t1].blocks.len() && 0 <= t2
                    < after.tables.len() && 0 <= b < after.tables[t2].blocks.len() && (t1 != t2
                    || a != b) implies #[trigger] after.tables[t1].blocks[a]
                != #[trigger] after.tables[t2].blocks[b] by {
                let old1 = t1 < cache.tables.len() && a < cache.tables[t1].blocks.len();
                let old2 = t2 < cache.tables.len() && b < cache.tables[t2].blocks.len();
                let x = after.tables[t1].blocks[a];
                let y = after.tables[t2].blocks[b];
                if old1 && old2 {
                    assert(x == cache.tables[t1].blocks[a]);
                    assert(y == cache.tables[t2].blocks[b]);
                } else if old1 {
                    assert(x == cache.tables[t1].blocks[a]);
                    assert(cache.pool.is_live(x));
                    let k = b - (after.tables[t2].blocks.len() - n);
                    assert(y == ids[k]);
                } else if old2 {
                    assert(y == cache.tables[t2].blocks[b]);
                    assert(cache.pool.is_live(y));
                    let k = a - (after.tables[t1].blocks.len() - n);
                    assert(x == ids[k]);
                } else {
                    let k1 = a - (after.tables[t1].blocks.len() - n);
                    let k2 = b - (after.tables[t2].blocks.len() - n);
                    assert(x == ids[k1] && y == ids[k2]);
                    assert(t1 == at && t2 == at);
                }
            }
        }
        assert forall|other: Seq<char>| other != request_id implies after.has_table(other)
            == cache.has_table(other) && after.table(other) == cache.table(other) by {
            if cache.has_table(other) {
                let i = cache.table_index(other);
                assert(after.ids()[i] == other);
                lemma_index_of_unique(after.ids(), i);
            }
            if after.has_table(other) {
                let i = after.table_index(other);
                assert(i != at);
                assert(cache.ids()[i] == other);
                lemma_index_of_unique(cache.ids(), i);
            }
        }
    } else {
        assert(cache.table(request_id) + Seq::<BlockId>::empty() =~= cache.table(request_id));
    }
}

/// Freeing a request keeps the cache well formed; every block of its table
/// returns to the free list, and no other table changes.
pub proof fn lemma_free_wf(cache: CacheView, request_id: Seq<char>)
    requires
        cache.wf(),
    ensures
        cache.free(request_id).wf(),
        cache.free(request_id).config == cache.config,
        !cache.free(request_id).has_table(request_id),
        cache.free(request_id).pool.free == cache.pool.free + cache.table(request_id),
        cache.free(request_id).pool.allocated_count() == cache.pool.allocated_count()
            - cache.table(request_id).len(),
        cache.free(request_id).tables.len() == cache.tables.len() - if cache.has_table(
            request_id,
        ) {
            1int
        } else {
            0int
        },
        forall|other: Seq<char>|
            other != request_id ==> cache.free(request_id).has_table(other) == cache.has_table(
                other,
            ) && cache.free(request_id).table(other) == cache.table(other),
{
    let after = cache.free(request_id);
    if cache.has_table(request_id) {
        let at = cache.table_index(request_id);
        let blocks = cache.table(request_id);
        assert(cache.ids()[at] == request_id);
        assert(cache.pool.solely_held(blocks)) by {
            assert forall|k: int| 0 <= k < blocks.len() implies (#[trigger] blocks[k])
                < cache.pool.blocks.len() && cache.pool.blocks[blocks[k] as int].ref_count
                == 1 by {
                assert(blocks[k] == cache.tables[at].blocks[k]);
            }
            assert forall|a: int, b: int|
                0 <= a < blocks.len() && 0 <= b < blocks.len() && a != b implies blocks[a]
                != blocks[b] by {
                assert(cache.tables[at].blocks[a] != cache.tables[at].blocks[b]);
            }
        }
        lemma_release_all(cache.pool, blocks);
        lemma_release_solely_held(cache.pool, blocks);
        assert(after.ids() =~= cache.ids().remove(at));
        assert(after.ids().no_duplicates()) by {
            assert forall|a: int, b: int|
                0 <= a < after.ids().len() && 0 <= b < after.ids().len() && a != b implies after.ids()[a]
                != after.ids()[b] by {
                let a0 = if a < at { a } else { a + 1 };
                let b0 = if b < at { b } else { b + 1 };
                assert(after.ids()[a] == cache.ids()[a0] && after.ids()[b] == cache.ids()[b0]);
            }
        }
        assert forall|t: int, a: int|
            0 <= t < after.tables.len() && 0 <= a < after.tables[t].blocks.len() implies (
        #[trigger] after.tables[t].blocks[a]) < after.pool.blocks.len()
            && after.pool.blocks[after.tables[t].blocks[a] as int].ref_count == 1 by {
            let t0 = if t < at { t } else { t + 1 };
            let id = cache.tables[t0].blocks[a];
            assert(after.tables[t].blocks[a] == id);
            if blocks.contains(id) {
                let k = choose|k: int| 0 <= k < blocks.len() && blocks[k] == id;
                assert(cache.tables[at].blocks[k] == cache.tables[t0].blocks[a]);
            }
            assert(after.pool.blocks[id as int] == cache.pool.blocks[id as int]);
        }
        assert(after.tables_disjoint()) by {
            assert forall|t1: int, a: int, t2: int, b: int|
                0 <= t1 < after.tables.len() && 0 <= a < after.tables[t1].blocks.len() && 0 <= t2
                    < after.tables.len() && 0 <= b < after.tables[t2].blocks.len() && (t1 != t2
                    || a != b) implies #[trigger] after.tables[t1].blocks[a]
                != #[trigger] after.tables[t2].blocks[b] by {
                let s1 = if t1 < at { t1 } else { t1 + 1 };
                let s2 = if t2 < at { t2 } else { t2 + 1 };
                assert(after.tables[t1].blocks[a] == cache.tables[s1].blocks[a]);
                assert(after.tables[t2].blocks[b] == cache.tables[s2].blocks[b]);
            }
        }
        assert(!after.has_table(request_id)) by {
            if after.has_table(request_id) {
                let i = after.table_index(request_id);
                let i0 = if i < at { i } else { i + 1 };
                assert(after.ids()[i] == cache.ids()[i0]);
            }
        }
        assert forall|other: Seq<char>| other != request_id implies after.has_table(other)
            == cache.has_table(other) && after.table(other) == cache.table(other) by {
            if cache.has_table(other) {
                let i = cache.table_index(other);
                let j = if i < at { i } else { i - 1 };
                assert(after.ids()[j] == other);
                lemma_index_of_unique(after.ids(), j);
            }
            if after.has_table(other) {
                let j = after.table_index(other);
                let i = if j < at { j } else { j + 1 };
                assert(cache.ids()[i] == other);
                lemma_index_of_unique(cache.ids(), i);
            }
        }
    } else {
        assert(cache.pool.free + Seq::<BlockId>::empty() =~= cache.pool.free);
    }
}

/// No block belongs to two requests, none stands twice in a table, and
/// every block of a table is allocated.
pub proof fn lemma_tables_disjoint_and_allocated(cache: CacheView)
    requires
        cache.wf(),
    ensures
        forall|t1: int, a: int, t2: int, b: int|
            0 <= t1 < cache.tables.len() && 0 <= a < cache.tables[t1].blocks.len() && 0 <= t2
                < cache.tables.len() && 0 <= b < cache.tables[t2].blocks.len() && (t1 != t2 || a
                != b) ==> #[trigger] cache.tables[t1].blocks[a] != #[trigger] cache.tables[t2].blocks[b],
        forall|t: int, a: int|
            0 <= t < cache.tables.len() && 0 <= a < cache.tables[t].blocks.len()
                ==> cache.pool.is_live(#[trigger] cache.tables[t].blocks[a]) && !cache.pool.free.contains(
                cache.tables[t].blocks[a],
            ),
{
    assert forall|t: int, a: int|
        0 <= t < cache.tables.len() && 0 <= a < cache.tables[t].blocks.len() implies cache.pool.is_live(
        #[trigger] cache.tables[t].blocks[a],
    ) && !cache.pool.free.contains(cache.tables[t].blocks[a]) by {
        let id = cache.tables[t].blocks[a];
        if cache.pool.free.contains(id) {
            let j = choose|j: int| 0 <= j < cache.pool.free.len() && cache.pool.free[j] == id;
            assert(cache.pool.blocks[cache.pool.free[j] as int].ref_count == 0);
        }
    }
}

/// Blocks that a request without a table receives and gives back leave the
/// cache as it was, but for the order of the free list: the tables are the
/// same, as many blocks are free and as many allocated as before, and the
/// blocks of the other requests are untouched.
pub proof fn lemma_allocate_free_round_trip(cache: CacheView, request_id: Seq<char>, n: nat)
    requires
        cache.wf(),
        !cache.has_table(request_id),
    ensures
        cache.allocate(request_id, n).free(request_id).wf(),
        cache.allocate(request_id, n).free(request_id).tables == cache.tables,
        cache.allocate(request_id, n).free(request_id).pool.free_count()
            == cache.pool.free_count(),
        cache.allocate(request_id, n).free(request_id).pool.allocated_count()
            == cache.pool.allocated_count(),
        cache.allocate(request_id, n).free(request_id).pool.free.to_multiset()
            == cache.pool.free.to_multiset(),
        forall|id: BlockId|
            cache.pool.is_live(id) ==> cache.allocate(request_id, n).free(
                request_id,
            ).pool.blocks[id as int] == cache.pool.blocks[id as int],
{
    let mid = cache.allocate(request_id, n);
    lemma_allocate_wf(cache, request_id, n);
    lemma_free_wf(mid, request_id);
    if cache.can_allocate(n) {
        crate::engine::pool_model::lemma_take_release_round_trip(cache.pool, n);
        let at = cache.tables.len() as int;
        assert(mid.ids()[at] == request_id);
        lemma_index_of_unique(mid.ids(), at);
        assert(mid.table(request_id) == cache.pool.taken(n));
        assert(mid.tables.remove(at) =~= cache.tables);
    }
}

} // verus!
