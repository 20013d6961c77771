//! Mathematical model of the block pool: the metadata of every block and
//! the free list, with allocation and release as functions on that state.

use crate::engine::kv_cache::KVBlock;
use crate::engine::types::BlockId;
use vstd::prelude::*;

verus! {

/// Metadata of a block that has just been handed out.
pub open spec fn live_block(id: BlockId) -> KVBlock {
    KVBlock { id, num_tokens: 0, ref_count: 1, content_hash: None }
}

/// Metadata of a block that has never been handed out.
pub open spec fn idle_block(id: BlockId) -> KVBlock {
    KVBlock { id, num_tokens: 0, ref_count: 0, content_hash: None }
}

/// State of a block pool.
#[verifier::ext_equal]
pub struct PoolView {
    /// Metadata of block `i` at index `i`.
    pub blocks: Seq<KVBlock>,
    /// Identifiers of the free blocks; the front is handed out next.
    pub free: Seq<BlockId>,
}

impl PoolView {
    /// A pool of `size` blocks, all free, in rising order.
    pub open spec fn fresh(size: nat) -> PoolView {
        PoolView {
            blocks: Seq::new(size, |i: int| idle_block(i as usize)),
            free: Seq::new(size, |i: int| i as usize),
        }
    }

    /// Every block sits at its own index, and the free list holds, once each,
    /// exactly the blocks that nobody references.
    pub open spec fn wf(self) -> bool {
        &&& self.blocks.len() <= usize::MAX
        &&& forall|i: int| 0 <= i < self.blocks.len() ==> (#[trigger] self.blocks[i]).id == i
        &&& self.free.no_duplicates()
        &&& forall|j: int|
            0 <= j < self.free.len() ==> (#[trigger] self.free[j]) < self.blocks.len()
                && self.blocks[self.free[j] as int].ref_count == 0
        &&& forall|i: int|
            0 <= i < self.blocks.len() && (#[trigger] self.blocks[i]).ref_count == 0
                ==> self.free.contains(i as usize)
    }

    /// Number of free blocks.
    pub open spec fn free_count(self) -> nat {
        self.free.len()
    }

    /// Number of blocks that are not free.
    pub open spec fn allocated_count(self) -> int {
        self.blocks.len() - self.free.len()
    }

    /// Whether `id` names a block that somebody references.
    pub open spec fn is_live(self, id: BlockId) -> bool {
        id < self.blocks.len() && self.blocks[id as int].ref_count > 0
    }

    /// The identifiers that an allocation of `n` blocks hands out.
    pub open spec fn taken(self, n: nat) -> Seq<BlockId> {
        self.free.take(n as int)
    }

    /// The pool after `n` blocks were handed out from the front of the free
    /// list, each reset to no tokens and one reference.
    pub open spec fn take(self, n: nat) -> PoolView {
        PoolView {
            blocks: Seq::new(
                self.blocks.len(),
                |i: int|
                    if self.taken(n).contains(i as usize) {
                        live_block(i as usize)
                    } else {
                        self.blocks[i]
                    },
            ),
            free: self.free.skip(n as int),
        }
    }

    /// The pool after one reference to `id` was dropped: a block that loses
    /// its last reference joins the back of the free list; an identifier out
    /// of range, or of a free block, changes nothing.
    pub open spec fn release(self, id: BlockId) -> PoolView {
        if self.is_live(id) {
            let block = self.blocks[id as int];
            PoolView {
                blocks: self.blocks.update(
                    id as int,
                    KVBlock { ref_count: (block.ref_count - 1) as usize, ..block },
                ),
                free: if block.ref_count == 1 {
                    self.free.push(id)
                } else {
                    self.free
                },
            }
        } else {
            self
        }
    }

    /// The pool after one reference to each of `ids` was dropped, in order.
    pub open spec fn release_all(self, ids: Seq<BlockId>) -> PoolView
        decreases ids.len(),
    {
        if ids.len() == 0 {
            self
        } else {
            self.release_all(ids.drop_last()).release(ids.last())
        }
    }

    /// The pool after the occupancy of block `id` was set to `num_tokens`;
    /// an identifier out of range changes nothing.
    pub open spec fn with_tokens(self, id: BlockId, num_tokens: usize) -> PoolView {
        if id < self.blocks.len() {
            PoolView {
                blocks: self.blocks.update(
                    id as int,
                    KVBlock { num_tokens, ..self.blocks[id as int] },
                ),
                free: self.free,
            }
        } else {
            self
        }
    }

    /// Whether every block holds at most `block_size` tokens.
    pub open spec fn within(self, block_size: usize) -> bool {
        forall|i: int| 0 <= i < self.blocks.len() ==> (#[trigger] self.blocks[i]).num_tokens <= block_size
    }

    /// Whether `ids` are distinct blocks with exactly one reference each.
    pub open spec fn solely_held(self, ids: Seq<BlockId>) -> bool {
        &&& ids.no_duplicates()
        &&& forall|k: int|
            0 <= k < ids.len() ==> (#[trigger] ids[k]) < self.blocks.len()
                && self.blocks[ids[k] as int].ref_count == 1
    }
}

/// A sequence of distinct numbers below `bound` has at most `bound` items.
pub proof fn lemma_distinct_bounded(items: Seq<usize>, bound: nat)
    requires
        items.no_duplicates(),
        forall|j: int| 0 <= j < items.len() ==> (#[trigger] items[j]) < bound,
    ensures
        items.len() <= bound,
    decreases bound,
{
    if bound == 0 {
        if items.len() > 0 {
            assert(items[0] < bound);
        }
    } else {
        let top = (bound - 1) as usize;
        if items.contains(top) {
            let k = choose|k: int| 0 <= k < items.len() && items[k] == top;
            let rest = items.remove(k);
            assert forall|j: int| 0 <= j < rest.len() implies (#[trigger] rest[j]) < bound - 1 by {
                if j < k {
                    assert(rest[j] == items[j]);
                } else {
                    assert(rest[j] == items[j + 1]);
                }
            }
            assert(rest.no_duplicates()) by {
                assert forall|a: int, b: int|
                    0 <= a < rest.len() && 0 <= b < rest.len() && a != b implies rest[a]
                    != rest[b] by {
                    let a0 = if a < k { a } else { a + 1 };
                    let b0 = if b < k { b } else { b + 1 };
                    assert(rest[a] == items[a0] && rest[b] == items[b0]);
                }
            }
            lemma_distinct_bounded(rest, (bound - 1) as nat);
        } else {
            assert forall|j: int| 0 <= j < items.len() implies (#[trigger] items[j]) < bound - 1 by {
                assert(items.contains(items[j]));
            }
            lemma_distinct_bounded(items, (bound - 1) as nat);
        }
    }
}

/// The free list is no longer than the pool, and shorter while any block
/// is live.
pub proof fn lemma_free_bounded(pool: PoolView)
    requires
        pool.wf(),
    ensures
        pool.free.len() <= pool.blocks.len(),
        pool.allocated_count() >= 0,
        forall|id: BlockId| pool.is_live(id) ==> pool.free.len() < pool.blocks.len(),
{
    lemma_distinct_bounded(pool.free, pool.blocks.len());
    assert forall|id: BlockId| pool.is_live(id) implies pool.free.len() < pool.blocks.len() by {
        let more = pool.free.push(id);
        assert(more.no_duplicates()) by {
            assert forall|a: int, b: int|
                0 <= a < more.len() && 0 <= b < more.len() && a != b implies more[a]
                != more[b] by {
                if a < pool.free.len() {
                    assert(pool.blocks[pool.free[a] as int].ref_count == 0);
                }
                if b < pool.free.len() {
                    assert(pool.blocks[pool.free[b] as int].ref_count == 0);
                }
            }
        }
        assert forall|j: int| 0 <= j < more.len() implies (#[trigger] more[j])
            < pool.blocks.len() by {
            if j < pool.free.len() {
                assert(more[j] == pool.free[j]);
            }
        }
        lemma_distinct_bounded(more, pool.blocks.len());
    }
}

/// A fresh pool is well formed and empty of tokens.
pub proof fn lemma_fresh_wf(size: nat, block_size: usize)
    requires
        size <= usize::MAX,
    ensures
        PoolView::fresh(size).wf(),
        PoolView::fresh(size).within(block_size),
        PoolView::fresh(size).free_count() == size,
        PoolView::fresh(size).allocated_count() == 0,
{
    let pool = PoolView::fresh(size);
    assert forall|i: int| 0 <= i < pool.blocks.len() && (#[trigger] pool.blocks[i]).ref_count == 0
        implies pool.free.contains(i as usize) by {
        assert(pool.free[i] == i as usize);
    }
}

/// Handing out blocks keeps the pool well formed; it moves `n` blocks from
/// free to allocated and leaves every other block as it was.
pub proof fn lemma_take(pool: PoolView, n: nat)
    requires
        pool.wf(),
        n <= pool.free_count(),
    ensures
        pool.take(n).wf(),
        pool.take(n).blocks.len() == pool.blocks.len(),
        pool.take(n).free_count() == pool.free_count() - n,
        pool.take(n).allocated_count() == pool.allocated_count() + n,
        pool.take(n).solely_held(pool.taken(n)),
        forall|k: int| 0 <= k < n ==> !pool.is_live(#[trigger] pool.taken(n)[k]),
        forall|id: BlockId|
            pool.is_live(id) ==> pool.take(n).blocks[id as int] == pool.blocks[id as int],
        forall|block_size: usize| pool.within(block_size) ==> pool.take(n).within(block_size),
{
    let after = pool.take(n);
    let ids = pool.taken(n);
    assert forall|k: int| 0 <= k < n implies !pool.is_live(#[trigger] ids[k]) by {
        assert(ids[k] == pool.free[k]);
    }
    assert forall|id: BlockId| pool.is_live(id) implies after.blocks[id as int]
        == pool.blocks[id as int] by {
        if ids.contains(id) {
            let k = choose|k: int| 0 <= k < ids.len() && ids[k] == id;
            assert(ids[k] == pool.free[k]);
        }
    }
    assert(after.free.no_duplicates()) by {
        assert forall|a: int, b: int|
            0 <= a < after.free.len() && 0 <= b < after.free.len() && a != b implies after.free[a]
            != after.free[b] by {
            assert(after.free[a] == pool.free[a + n]);
            assert(after.free[b] == pool.free[b + n]);
        }
    }
    assert forall|j: int| 0 <= j < after.free.len() implies (#[trigger] after.free[j])
        < after.blocks.len() && after.blocks[after.free[j] as int].ref_count == 0 by {
        assert(after.free[j] == pool.free[j + n]);
        if ids.contains(after.free[j]) {
            let k = choose|k: int| 0 <= k < ids.len() && ids[k] == after.free[j];
            assert(ids[k] == pool.free[k]);
        }
    }
    assert forall|i: int|
        0 <= i < after.blocks.len() && (#[trigger] after.blocks[i]).ref_count == 0 implies after.free.contains(
        i as usize,
    ) by {
        assert(!ids.contains(i as usize));
        assert(pool.blocks[i].ref_count == 0);
        let j = choose|j: int| 0 <= j < pool.free.len() && pool.free[j] == i as usize;
        if j < n {
            assert(ids[j] == i as usize);
        }
        assert(after.free[j - n] == i as usize);
    }
    assert(ids.no_duplicates()) by {
        assert forall|a: int, b: int|
            0 <= a < ids.len() && 0 <= b < ids.len() && a != b implies ids[a] != ids[b] by {
            assert(ids[a] == pool.free[a]);
            assert(ids[b] == pool.free[b]);
        }
    }
    assert forall|k: int| 0 <= k < ids.len() implies (#[trigger] ids[k]) < after.blocks.len()
        && after.blocks[ids[k] as int].ref_count == 1 by {
        assert(ids[k] == pool.free[k]);
        assert(ids.contains(ids[k]));
    }
    assert forall|block_size: usize| pool.within(block_size) implies after.within(block_size) by {
        assert forall|i: int| 0 <= i < after.blocks.len() implies (#[trigger] after.blocks[i]).num_tokens
            <= block_size by {
            assert(pool.blocks[i].num_tokens <= block_size);
        }
    }
}

/// Handing out `n` blocks and one more equals handing out `n + 1`.
pub proof fn lemma_take_next(pool: PoolView, n: nat)
    requires
        pool.wf(),
        n < pool.free_count(),
    ensures
        pool.take(n + 1).free == pool.take(n).free.skip(1),
        pool.take(n + 1).blocks == pool.take(n).blocks.update(
            pool.free[n as int] as int,
            live_block(pool.free[n as int]),
        ),
        pool.taken(n + 1) == pool.taken(n).push(pool.free[n as int]),
        pool.take(n).free[0] == pool.free[n as int],
{
    let id = pool.free[n as int];
    assert(pool.taken(n + 1) =~= pool.taken(n).push(id));
    assert(pool.take(n + 1).free =~= pool.take(n).free.skip(1));
    assert(pool.take(n + 1).blocks =~= pool.take(n).blocks.update(id as int, live_block(id))) by {
        assert forall|i: int| 0 <= i < pool.blocks.len() implies pool.take(n + 1).blocks[i]
            == pool.take(n).blocks.update(id as int, live_block(id))[i] by {
            if i == id as int {
                assert(pool.taken(n + 1)[n as int] == id);
            } else {
                let fewer = pool.taken(n);
                let more = pool.taken(n + 1);
                if fewer.contains(i as usize) {
                    let k = choose|k: int| 0 <= k < fewer.len() && fewer[k] == i as usize;
                    assert(more[k] == i as usize);
                }
                if more.contains(i as usize) {
                    let k = choose|k: int| 0 <= k < more.len() && more[k] == i as usize;
                    assert(k != n);
                    assert(fewer[k] == i as usize);
                }
            }
        }
    }
}

/// Dropping a reference keeps the pool well formed; the count of allocated
/// blocks falls by one exactly when a last reference was dropped.
pub proof fn lemma_release(pool: PoolView, id: BlockId)
    requires
        pool.wf(),
    ensures
        pool.release(id).wf(),
        pool.release(id).blocks.len() == pool.blocks.len(),
        pool.release(id).allocated_count() == pool.allocated_count() - if pool.is_live(id)
            && pool.blocks[id as int].ref_count == 1 {
            1int
        } else {
            0int
        },
        forall|block_size: usize| pool.within(block_size) ==> pool.release(id).within(block_size),
{
    let after = pool.release(id);
    if pool.is_live(id) {
        let block = pool.blocks[id as int];
        assert(!pool.free.contains(id)) by {
            if pool.free.contains(id) {
                let j = choose|j: int| 0 <= j < pool.free.len() && pool.free[j] == id;
                assert(pool.blocks[pool.free[j] as int].ref_count == 0);
            }
        }
        if block.ref_count == 1 {
            assert(after.free.no_duplicates()) by {
                assert forall|a: int, b: int|
                    0 <= a < after.free.len() && 0 <= b < after.free.len() && a != b implies after.free[a]
                    != after.free[b] by {
                    if a < pool.free.len() {
                        assert(pool.free.contains(pool.free[a]));
                    }
                    if b < pool.free.len() {
                        assert(pool.free.contains(pool.free[b]));
                    }
                }
            }
            assert forall|j: int| 0 <= j < after.free.len() implies (#[trigger] after.free[j])
                < after.blocks.len() && after.blocks[after.free[j] as int].ref_count == 0 by {
                if j < pool.free.len() {
                    assert(after.free[j] == pool.free[j]);
                    assert(pool.free.contains(pool.free[j]));
                }
            }
            assert forall|i: int|
                0 <= i < after.blocks.len() && (#[trigger] after.blocks[i]).ref_count == 0 implies after.free.contains(
                i as usize,
            ) by {
                if i == id as int {
                    assert(after.free[pool.free.len() as int] == id);
                } else {
                    assert(pool.blocks[i].ref_count == 0);
                    let j = choose|j: int| 0 <= j < pool.free.len() && pool.free[j] == i as usize;
                    assert(after.free[j] == i as usize);
                }
            }
        } else {
            assert forall|j: int| 0 <= j < after.free.len() implies (#[trigger] after.free[j])
                < after.blocks.len() && after.blocks[after.free[j] as int].ref_count == 0 by {
                assert(pool.free.contains(pool.free[j]));
            }
            assert forall|i: int|
                0 <= i < after.blocks.len() && (#[trigger] after.blocks[i]).ref_count == 0 implies after.free.contains(
                i as usize,
            ) by {
                assert(pool.blocks[i].ref_count == 0);
            }
        }
        assert forall|block_size: usize| pool.within(block_size) implies after.within(
            block_size,
        ) by {
            assert forall|i: int| 0 <= i < after.blocks.len() implies (#[trigger] after.blocks[i]).num_tokens
                <= block_size by {
                assert(pool.blocks[i].num_tokens <= block_size);
            }
        }
    }
}

/// Dropping references one after another keeps the pool well formed.
pub proof fn lemma_release_all(pool: PoolView, ids: Seq<BlockId>)
    requires
        pool.wf(),
    ensures
        pool.release_all(ids).wf(),
        pool.release_all(ids).blocks.len() == pool.blocks.len(),
        pool.release_all(ids).allocated_count() <= pool.allocated_count(),
        forall|block_size: usize|
            pool.within(block_size) ==> pool.release_all(ids).within(block_size),
    decreases ids.len(),
{
    if ids.len() > 0 {
        lemma_release_all(pool, ids.drop_last());
        lemma_release(pool.release_all(ids.drop_last()), ids.last());
    }
}

/// Releasing blocks that are held once each returns every one of them to
/// the free list, in order, and touches no other block.
pub proof fn lemma_release_solely_held(pool: PoolView, ids: Seq<BlockId>)
    requires
        pool.wf(),
        pool.solely_held(ids),
    ensures
        pool.release_all(ids).free == pool.free + ids,
        pool.release_all(ids).blocks.len() == pool.blocks.len(),
        pool.release_all(ids).allocated_count() == pool.allocated_count() - ids.len(),
        forall|i: int|
            0 <= i < pool.blocks.len() ==> #[trigger] pool.release_all(ids).blocks[i] == if ids.contains(
                i as usize,
            ) {
                KVBlock { ref_count: 0, ..pool.blocks[i] }
            } else {
                pool.blocks[i]
            },
    decreases ids.len(),
{
    if ids.len() == 0 {
        assert(pool.free + ids =~= pool.free);
    } else {
        let front = ids.drop_last();
        let last = ids.last();
        assert(pool.solely_held(front)) by {
            assert forall|k: int| 0 <= k < front.len() implies (#[trigger] front[k])
                < pool.blocks.len() && pool.blocks[front[k] as int].ref_count == 1 by {
                assert(front[k] == ids[k]);
            }
            assert forall|a: int, b: int|
                0 <= a < front.len() && 0 <= b < front.len() && a != b implies front[a]
                != front[b] by {
                assert(front[a] == ids[a] && front[b] == ids[b]);
            }
        }
        lemma_release_solely_held(pool, front);
        let mid = pool.release_all(front);
        assert(!front.contains(last)) by {
            if front.contains(last) {
                let k = choose|k: int| 0 <= k < front.len() && front[k] == last;
                assert(ids[k] == ids[ids.len() - 1]);
            }
        }
        assert(last == ids[ids.len() - 1]);
        assert(mid.blocks[last as int] == pool.blocks[last as int]);
        assert(mid.is_live(last) && mid.blocks[last as int].ref_count == 1);
        let after = mid.release(last);
        assert(after.free =~= pool.free + ids) by {
            assert(ids =~= front.push(last));
        }
        assert forall|i: int| 0 <= i < pool.blocks.len() implies #[trigger] after.blocks[i]
            == if ids.contains(i as usize) {
            KVBlock { ref_count: 0, ..pool.blocks[i] }
        } else {
            pool.blocks[i]
        } by {
            if i == last as int {
                assert(ids.contains(last));
            } else {
                if front.contains(i as usize) {
                    let k = choose|k: int| 0 <= k < front.len() && front[k] == i as usize;
                    assert(ids[k] == i as usize);
                }
                if ids.contains(i as usize) {
                    let k = choose|k: int| 0 <= k < ids.len() && ids[k] == i as usize;
                    assert(front[k] == i as usize);
                }
            }
        }
    }
}

/// Blocks that were handed out and are released again leave the pool with
/// the free count and the allocated count it had before, and with every
/// block that was live untouched.
pub proof fn lemma_take_release_round_trip(pool: PoolView, n: nat)
    requires
        pool.wf(),
        n <= pool.free_count(),
    ensures
        pool.take(n).release_all(pool.taken(n)).wf(),
        pool.take(n).release_all(pool.taken(n)).free_count() == pool.free_count(),
        pool.take(n).release_all(pool.taken(n)).allocated_count() == pool.allocated_count(),
        pool.take(n).release_all(pool.taken(n)).free == pool.free.skip(n as int) + pool.free.take(
            n as int,
        ),
        pool.take(n).release_all(pool.taken(n)).free.to_multiset() == pool.free.to_multiset(),
        forall|id: BlockId|
            pool.is_live(id) ==> pool.take(n).release_all(pool.taken(n)).blocks[id as int]
                == pool.blocks[id as int],
{
    lemma_take(pool, n);
    let mid = pool.take(n);
    let ids = pool.taken(n);
    lemma_release_all(mid, ids);
    lemma_release_solely_held(mid, ids);
    let after = mid.release_all(ids);
    assert(after.free == pool.free.skip(n as int) + pool.free.take(n as int));
    assert(after.free.to_multiset() == pool.free.to_multiset()) by {
        vstd::seq_lib::lemma_multiset_commutative(pool.free.skip(n as int), pool.free.take(n as int));
        vstd::seq_lib::lemma_multiset_commutative(pool.free.take(n as int), pool.free.skip(n as int));
        assert(pool.free.take(n as int) + pool.free.skip(n as int) =~= pool.free);
    }
    assert forall|id: BlockId| pool.is_live(id) implies after.blocks[id as int]
        == pool.blocks[id as int] by {
        assert(mid.blocks[id as int] == pool.blocks[id as int]);
        if ids.contains(id) {
            let k = choose|k: int| 0 <= k < ids.len() && ids[k] == id;
            assert(!pool.is_live(ids[k]));
        }
    }
}

impl PoolView {
    /// Indices of the blocks that somebody references.
    pub open spec fn live_set(self) -> Set<int> {
        Set::new(|i: int| 0 <= i < self.blocks.len() && self.blocks[i].ref_count > 0)
    }

    /// Indices of the blocks that nobody references.
    pub open spec fn free_set(self) -> Set<int> {
        Set::new(|i: int| 0 <= i < self.blocks.len() && self.blocks[i].ref_count == 0)
    }
}

/// Every block is either free or allocated: the free list counts the blocks
/// without a reference, the allocated count those with one, and the two
/// add up to the size of the pool.
pub proof fn lemma_counts(pool: PoolView)
    requires
        pool.wf(),
    ensures
        pool.free_set().finite(),
        pool.live_set().finite(),
        pool.free_set().len() == pool.free_count(),
        pool.live_set().len() == pool.allocated_count(),
        pool.free_count() + pool.allocated_count() == pool.blocks.len(),
{
    let size = pool.blocks.len() as int;
    let all = vstd::set_lib::set_int_range(0, size);
    vstd::set_lib::lemma_int_range(0, size);
    let free = pool.free_set();
    let live = pool.live_set();
    vstd::set_lib::lemma_len_subset(free, all);
    vstd::set_lib::lemma_len_subset(live, all);
    let places = pool.free.map_values(|id: BlockId| id as int);
    assert(places.no_duplicates()) by {
        assert forall|a: int, b: int|
            0 <= a < places.len() && 0 <= b < places.len() && a != b implies places[a]
            != places[b] by {
            assert(pool.free[a] != pool.free[b]);
        }
    }
    places.unique_seq_to_set();
    assert(places.to_set() =~= free) by {
        assert forall|i: int| places.to_set().contains(i) implies free.contains(i) by {
            let j = choose|j: int| 0 <= j < places.len() && places[j] == i;
            assert(pool.free[j] as int == i);
        }
        assert forall|i: int| free.contains(i) implies places.to_set().contains(i) by {
            assert(pool.blocks[i].ref_count == 0);
            assert(pool.free.contains(i as usize));
            let j = choose|j: int| 0 <= j < pool.free.len() && pool.free[j] == i as usize;
            assert(places[j] == i);
        }
    }
    assert(free + live =~= all);
    assert(free.disjoint(live));
    vstd::set_lib::lemma_set_disjoint_lens(free, live);
}

} // verus!
