//! Scheduler and cache agree: as long as blocks reach a request through
//! the scheduler only, the block table that the scheduler keeps of a
//! running request is the one that the cache keeps, and the cache keeps
//! tables of running requests only. So the blocks of different running
//! requests are distinct, and all of them are allocated.

use crate::engine::cache_model::{
    lemma_allocate_wf, lemma_free_wf, lemma_tables_disjoint_and_allocated, CacheView,
};
use crate::engine::scheduler_lemmas::{lemma_abort_wf, lemma_finish_wf};
use crate::engine::scheduler_model::{
    blocks_short, release_request, SchedulerView, StepView,
};
use crate::engine::step_lemmas::{
    lemma_admit_head, lemma_continue_one, lemma_decode_one, lemma_grant, lemma_pop,
    lemma_start_inv,
};
use crate::engine::types::{BlockId, Priority};
use vstd::prelude::*;

verus! {

/// Whether scheduler and cache agree on the block tables.
pub open spec fn synced(sched: SchedulerView, cache: CacheView) -> bool {
    &&& forall|i: int|
        0 <= i < sched.running.len() ==> cache.has_table((#[trigger] sched.running[i]).request_id)
            && cache.table(sched.running[i].request_id) == sched.running[i].block_ids
    &&& forall|t: int|
        0 <= t < cache.tables.len() ==> sched.is_running((#[trigger] cache.tables[t]).request_id)
}

/// A scheduler without requests agrees with a cache without tables.
pub proof fn lemma_fresh_synced(sched: SchedulerView, cache: CacheView)
    requires
        sched.running.len() == 0,
        cache.tables.len() == 0,
    ensures
        synced(sched, cache),
{
}

/// Admission changes no block table.
pub proof fn lemma_add_synced(
    sched: SchedulerView,
    cache: CacheView,
    request_id: Seq<char>,
    priority: Priority,
    arrival_time: u64,
    total_prompt_tokens: nat,
    max_tokens: nat,
)
    requires
        synced(sched, cache),
    ensures
        synced(
            sched.add(request_id, priority, arrival_time, total_prompt_tokens, max_tokens),
            cache,
        ),
{
    let after = sched.add(request_id, priority, arrival_time, total_prompt_tokens, max_tokens);
    assert(after.running_ids() == sched.running_ids());
}

/// A progress report without new blocks changes no block table.
pub proof fn lemma_update_synced(
    sched: SchedulerView,
    cache: CacheView,
    request_id: Seq<char>,
    tokens_processed: nat,
    tokens_generated: nat,
)
    requires
        sched.wf(),
        synced(sched, cache),
    ensures
        synced(
            sched.update(request_id, tokens_processed, tokens_generated, Seq::<BlockId>::empty()),
            cache,
        ),
{
    let after = sched.update(
        request_id,
        tokens_processed,
        tokens_generated,
        Seq::<BlockId>::empty(),
    );
    if sched.is_running(request_id) {
        let at = sched.running_index(request_id);
        assert(sched.running_ids()[at] == request_id);
        assert(after.running_ids() =~= sched.running_ids());
        assert(sched.running[at].block_ids + Seq::<BlockId>::empty() =~= sched.running[at].block_ids);
        assert forall|i: int| 0 <= i < after.running.len() implies cache.has_table(
            (#[trigger] after.running[i]).request_id,
        ) && cache.table(after.running[i].request_id) == after.running[i].block_ids by {
            assert(cache.has_table(sched.running[i].request_id));
        }
    }
}

/// Finishing and aborting a request keep scheduler and cache in
/// agreement: the table of the request goes with it.
pub proof fn lemma_end_synced(sched: SchedulerView, cache: CacheView, request_id: Seq<char>)
    requires
        sched.wf(),
        cache.wf(),
        synced(sched, cache),
    ensures
        synced(sched.finish(request_id), release_request(sched, cache, request_id)),
        synced(sched.abort(request_id), release_request(sched, cache, request_id)),
{
    lemma_finish_wf(sched, cache, request_id);
    lemma_abort_wf(sched, cache, request_id);
    lemma_free_wf(cache, request_id);
    let fin = sched.finish(request_id);
    let abo = sched.abort(request_id);
    let after = release_request(sched, cache, request_id);
    assert(abo.running == fin.running);
    assert(abo.running_ids() == fin.running_ids());
    if sched.is_running(request_id) {
        let at = sched.running_index(request_id);
        assert(sched.running_ids()[at] == request_id);
        assert forall|i: int| 0 <= i < fin.running.len() implies after.has_table(
            (#[trigger] fin.running[i]).request_id,
        ) && after.table(fin.running[i].request_id) == fin.running[i].block_ids by {
            let i0 = if i < at { i } else { i + 1 };
            assert(fin.running[i] == sched.running[i0]);
            assert(sched.running_ids()[i0] != sched.running_ids()[at]);
            assert(cache.has_table(sched.running[i0].request_id));
        }
        assert forall|t: int| 0 <= t < after.tables.len() implies fin.is_running(
            (#[trigger] after.tables[t]).request_id,
        ) by {
            let id = after.tables[t].request_id;
            assert(after.ids()[t] == id);
            assert(after.has_table(id));
            assert(id != request_id);
            assert(cache.has_table(id));
            let t0 = cache.table_index(id);
            assert(cache.ids()[t0] == id);
            assert(sched.is_running(cache.tables[t0].request_id));
        }
    } else {
        assert(sched.halt(request_id) == sched.running);
    }
}

/// Work for a running request, with the blocks it lacks, keeps scheduler
/// and cache in agreement.
pub proof fn lemma_grant_synced(
    st: StepView,
    i: int,
    tokens: nat,
    extra: nat,
    is_prefill: bool,
    free_at_start: nat,
)
    requires
        st.inv(free_at_start),
        synced(st.sched, st.cache),
        0 <= i < st.sched.running.len(),
        1 <= tokens <= st.tokens_left,
        st.batch_left >= 1,
        st.cache.can_allocate(extra),
    ensures
        synced(
            st.grant(i, tokens, extra, is_prefill).sched,
            st.grant(i, tokens, extra, is_prefill).cache,
        ),
{
    let after = st.grant(i, tokens, extra, is_prefill);
    let r = st.sched.running[i];
    lemma_grant(st, i, tokens, extra, is_prefill, free_at_start);
    lemma_allocate_wf(st.cache, r.request_id, extra);
    assert(after.sched.running_ids() =~= st.sched.running_ids());
    assert(st.sched.running_ids()[i] == r.request_id);
    assert forall|k: int| 0 <= k < after.sched.running.len() implies after.cache.has_table(
        (#[trigger] after.sched.running[k]).request_id,
    ) && after.cache.table(after.sched.running[k].request_id)
        == after.sched.running[k].block_ids by {
        assert(st.cache.has_table(st.sched.running[k].request_id));
        if k != i {
            assert(st.sched.running_ids()[k] != st.sched.running_ids()[i]);
        }
    }
    assert forall|t: int| 0 <= t < after.cache.tables.len() implies after.sched.is_running(
        (#[trigger] after.cache.tables[t]).request_id,
    ) by {
        let id = after.cache.tables[t].request_id;
        assert(after.cache.ids()[t] == id);
        if id != r.request_id {
            assert(after.cache.has_table(id));
            assert(st.cache.has_table(id));
            let t0 = st.cache.table_index(id);
            assert(st.cache.ids()[t0] == id);
            assert(st.sched.is_running(st.cache.tables[t0].request_id));
        }
    }
}

/// The decode phase keeps scheduler and cache in agreement.
pub proof fn lemma_decode_from_synced(st: StepView, i: int, free_at_start: nat)
    requires
        st.inv(free_at_start),
        synced(st.sched, st.cache),
        0 <= i <= st.sched.running.len(),
    ensures
        synced(st.decode_from(i).sched, st.decode_from(i).cache),
    decreases st.sched.running.len() - i,
{
    if !(i >= st.sched.running.len() || st.spent()) {
        let r = st.sched.running[i];
        let extra = blocks_short(st.cache, r.num_tokens_processed + 1, r.block_ids.len());
        lemma_decode_one(st, i, free_at_start);
        if r.prefill_complete && st.cache.can_allocate(extra) {
            lemma_grant_synced(st, i, 1, extra, false, free_at_start);
        }
        lemma_decode_from_synced(st.decode_one(i), i + 1, free_at_start);
    }
}

/// The phase of the partly ingested prompts keeps scheduler and cache in
/// agreement.
pub proof fn lemma_continue_from_synced(st: StepView, i: int, free_at_start: nat)
    requires
        st.inv(free_at_start),
        synced(st.sched, st.cache),
        0 <= i <= st.sched.running.len(),
    ensures
        synced(st.continue_from(i).sched, st.continue_from(i).cache),
    decreases st.sched.running.len() - i,
{
    if !(i >= st.sched.running.len() || st.spent()) {
        let r = st.sched.running[i];
        let want = st.next_chunk(i);
        let extra = blocks_short(st.cache, r.num_tokens_processed + want, r.block_ids.len());
        lemma_continue_one(st, i, free_at_start);
        if !r.prefill_complete && st.sched.has_request(r.request_id) && want > 0
            && st.cache.can_allocate(extra) {
            lemma_grant_synced(st, i, want, extra, true, free_at_start);
        }
        lemma_continue_from_synced(st.continue_one(i), i + 1, free_at_start);
    }
}

/// The admission phase keeps scheduler and cache in agreement.
pub proof fn lemma_admit_from_synced(st: StepView, free_at_start: nat)
    requires
        st.inv(free_at_start),
        synced(st.sched, st.cache),
    ensures
        synced(st.admit_from().sched, st.admit_from().cache),
    decreases st.sched.waiting.len(),
{
    if st.spent() || st.sched.waiting.len() == 0 {
    } else if st.head_stale() {
        lemma_pop(st, free_at_start);
        assert(st.pop().sched.running_ids() == st.sched.running_ids());
        lemma_admit_from_synced(st.pop(), free_at_start);
    } else if st.head_fits() {
        let mid = st.admit_head();
        let head = st.sched.waiting[0];
        let needed = st.cache.blocks_for(st.head_chunk() as int) as nat;
        lemma_admit_head(st, free_at_start);
        lemma_allocate_wf(st.cache, head.request_id, needed);
        assert(!st.cache.has_table(head.request_id)) by {
            if st.cache.has_table(head.request_id) {
                let t = st.cache.table_index(head.request_id);
                assert(st.cache.ids()[t] == head.request_id);
                assert(st.sched.is_running(st.cache.tables[t].request_id));
            }
        }
        assert(st.cache.table(head.request_id) + st.cache.granted(needed) =~= st.cache.granted(
            needed,
        ));
        assert(mid.sched.running_ids() =~= st.sched.running_ids().push(head.request_id));
        assert forall|k: int| 0 <= k < mid.sched.running.len() implies mid.cache.has_table(
            (#[trigger] mid.sched.running[k]).request_id,
        ) && mid.cache.table(mid.sched.running[k].request_id)
            == mid.sched.running[k].block_ids by {
            if k < st.sched.running.len() {
                assert(mid.sched.running[k] == st.sched.running[k]);
                assert(st.sched.running_ids()[k] == st.sched.running[k].request_id);
                assert(st.sched.running_ids().contains(st.sched.running[k].request_id));
                assert(st.cache.has_table(st.sched.running[k].request_id));
            }
        }
        assert forall|t: int| 0 <= t < mid.cache.tables.len() implies mid.sched.is_running(
            (#[trigger] mid.cache.tables[t]).request_id,
        ) by {
            let id = mid.cache.tables[t].request_id;
            assert(mid.cache.ids()[t] == id);
            if id != head.request_id {
                assert(mid.cache.has_table(id));
                assert(st.cache.has_table(id));
                let t0 = st.cache.table_index(id);
                assert(st.cache.ids()[t0] == id);
                assert(st.sched.is_running(st.cache.tables[t0].request_id));
                let k = st.sched.running_index(id);
                assert(mid.sched.running_ids()[k] == id);
            } else {
                assert(mid.sched.running_ids()[st.sched.running.len() as int] == id);
            }
        }
        lemma_admit_from_synced(mid, free_at_start);
    }
}

/// A step keeps scheduler and cache in agreement.
pub proof fn lemma_run_synced(sched: SchedulerView, cache: CacheView)
    requires
        sched.wf(),
        cache.wf(),
        synced(sched, cache),
    ensures
        synced(StepView::run(sched, cache).sched, StepView::run(sched, cache).cache),
{
    let start = StepView::start(sched, cache);
    let free = cache.pool.free_count();
    lemma_start_inv(start);
    crate::engine::step_lemmas::lemma_decode_from(start, 0, free);
    lemma_decode_from_synced(start, 0, free);
    let decoded = start.decode_from(0);
    crate::engine::step_lemmas::lemma_continue_from(decoded, 0, free);
    lemma_continue_from_synced(decoded, 0, free);
    lemma_admit_from_synced(decoded.continue_from(0), free);
}

/// Where scheduler and cache agree, no block belongs to two running
/// requests, none stands twice in the table of one, and every block of a
/// running request is allocated.
pub proof fn lemma_running_blocks_disjoint(sched: SchedulerView, cache: CacheView)
    requires
        sched.wf(),
        cache.wf(),
        synced(sched, cache),
    ensures
        forall|i: int, a: int, j: int, b: int|
            0 <= i < sched.running.len() && 0 <= a < sched.running[i].block_ids.len() && 0 <= j
                < sched.running.len() && 0 <= b < sched.running[j].block_ids.len() && (i != j
                || a != b) ==> #[trigger] sched.running[i].block_ids[a]
                != #[trigger] sched.running[j].block_ids[b],
        forall|i: int, a: int|
            0 <= i < sched.running.len() && 0 <= a < sched.running[i].block_ids.len()
                ==> cache.pool.is_live(#[trigger] sched.running[i].block_ids[a]),
{
    lemma_tables_disjoint_and_allocated(cache);
    assert forall|i: int| 0 <= i < sched.running.len() implies {
        let t = cache.table_index((#[trigger] sched.running[i]).request_id);
        0 <= t < cache.tables.len() && cache.tables[t].request_id == sched.running[i].request_id
            && cache.tables[t].blocks == sched.running[i].block_ids
    } by {
        let id = sched.running[i].request_id;
        assert(cache.has_table(id));
        let t = cache.table_index(id);
        assert(cache.ids()[t] == id);
    }
    assert forall|i: int, a: int, j: int, b: int|
        0 <= i < sched.running.len() && 0 <= a < sched.running[i].block_ids.len() && 0 <= j
            < sched.running.len() && 0 <= b < sched.running[j].block_ids.len() && (i != j || a
            != b) implies #[trigger] sched.running[i].block_ids[a]
        != #[trigger] sched.running[j].block_ids[b] by {
        let ti = cache.table_index(sched.running[i].request_id);
        let tj = cache.table_index(sched.running[j].request_id);
        if i != j {
            assert(sched.running_ids()[i] != sched.running_ids()[j]);
            assert(ti != tj);
        }
        assert(cache.tables[ti].blocks[a] != cache.tables[tj].blocks[b]);
    }
    assert forall|i: int, a: int|
        0 <= i < sched.running.len() && 0 <= a < sched.running[i].block_ids.len() implies cache.pool.is_live(
        #[trigger] sched.running[i].block_ids[a],
    ) by {
        let ti = cache.table_index(sched.running[i].request_id);
        assert(cache.pool.is_live(cache.tables[ti].blocks[a]));
    }
}

} // verus!
