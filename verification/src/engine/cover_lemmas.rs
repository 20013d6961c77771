//! Block tables are large enough: a step gives every request the blocks
//! for the tokens it schedules, so the table of a running request holds
//! its processed tokens as long as the executor reports no more tokens
//! than were scheduled.

use crate::engine::cache_model::{lemma_allocate_wf, CacheView};
use crate::engine::kv_cache::{ceil_div, lemma_ceil_div};
use crate::engine::scheduler_model::{blocks_short, SchedulerView, StepView, WorkView};
use crate::engine::step_lemmas::{
    lemma_admit_head, lemma_continue_one, lemma_decode_one, lemma_pop, lemma_start_inv,
};
use crate::engine::types::BlockId;
use vstd::prelude::*;

verus! {

/// A table holds `tokens` tokens exactly when it has the blocks for them.
pub proof fn lemma_holds_iff_blocks(blocks: nat, tokens: nat, block_size: nat)
    requires
        block_size > 0,
    ensures
        blocks * block_size >= tokens <==> blocks >= ceil_div(tokens as int, block_size as int),
{
    lemma_ceil_div(tokens as int, block_size as int);
    let need = ceil_div(tokens as int, block_size as int);
    if blocks >= need {
        assert(blocks * block_size >= need * block_size) by (nonlinear_arith)
            requires
                blocks >= need,
                block_size > 0,
        ;
    } else {
        let q = tokens as int / block_size as int;
        let r = tokens as int % block_size as int;
        assert(tokens == q * block_size + r && 0 <= r < block_size) by (nonlinear_arith)
            requires
                q == tokens as int / block_size as int,
                r == tokens as int % block_size as int,
                block_size > 0,
        ;
        assert(blocks * block_size < tokens) by (nonlinear_arith)
            requires
                blocks < need,
                need == q + if r == 0 { 0int } else { 1int },
                tokens == q * block_size + r,
                0 <= r < block_size,
                blocks >= 0,
        ;
    }
}

impl StepView {
    /// Whether every running request's table holds the tokens it has
    /// processed, and every work unit's table holds the tokens processed
    /// before the step and those of the step.
    pub open spec fn roomy(self) -> bool {
        &&& self.sched.covered(self.cache.config.block_size as nat)
        &&& forall|k: int|
            0 <= k < self.plan.work().len() ==> (#[trigger] self.plan.work()[k]).block_ids.len()
                * self.cache.config.block_size >= self.plan.work()[k].num_computed_tokens
                + self.plan.work()[k].num_tokens
    }
}

/// Work for a running request, with the blocks it lacks, keeps the tables
/// large enough.
pub proof fn lemma_grant_roomy(st: StepView, i: int, tokens: nat, is_prefill: bool, free_at_start: nat)
    requires
        st.inv(free_at_start),
        st.roomy(),
        0 <= i < st.sched.running.len(),
        1 <= tokens <= st.tokens_left,
        st.batch_left >= 1,
        st.cache.can_allocate(
            blocks_short(
                st.cache,
                st.sched.running[i].num_tokens_processed + tokens,
                st.sched.running[i].block_ids.len(),
            ),
        ),
    ensures
        st.grant(
            i,
            tokens,
            blocks_short(
                st.cache,
                st.sched.running[i].num_tokens_processed + tokens,
                st.sched.running[i].block_ids.len(),
            ),
            is_prefill,
        ).roomy(),
{
    let r = st.sched.running[i];
    let extra = blocks_short(st.cache, r.num_tokens_processed + tokens, r.block_ids.len());
    let after = st.grant(i, tokens, extra, is_prefill);
    let block_size = st.cache.config.block_size as nat;
    lemma_allocate_wf(st.cache, r.request_id, extra);
    let have = after.sched.running[i].block_ids.len();
    assert(have >= st.cache.blocks_for((r.num_tokens_processed + tokens) as int));
    lemma_holds_iff_blocks(have, r.num_tokens_processed + tokens, block_size);
    assert forall|k: int| 0 <= k < after.sched.running.len() implies (#[trigger] after.sched.running[k]).block_ids.len()
        * block_size >= after.sched.running[k].num_tokens_processed by {
        if k != i {
            assert(after.sched.running[k] == st.sched.running[k]);
        }
    }
    let work = after.plan.work();
    let before = st.plan.work();
    assert forall|k: int| 0 <= k < work.len() implies (#[trigger] work[k]).block_ids.len()
        * block_size >= work[k].num_computed_tokens + work[k].num_tokens by {
        if is_prefill {
            if k < before.len() {
                assert(work[k] == before[k]);
            }
        } else {
            let d = st.plan.decode_requests.len() as int;
            if k < d {
                assert(work[k] == before[k]);
            } else if k > d {
                assert(work[k] == before[k - 1]);
            }
        }
    }
}

/// One decode keeps the tables large enough.
pub proof fn lemma_decode_one_roomy(st: StepView, i: int, free_at_start: nat)
    requires
        st.inv(free_at_start),
        st.roomy(),
        0 <= i < st.sched.running.len(),
        !st.spent(),
    ensures
        st.decode_one(i).roomy(),
{
    let r = st.sched.running[i];
    let extra = blocks_short(st.cache, r.num_tokens_processed + 1, r.block_ids.len());
    if r.prefill_complete && st.cache.can_allocate(extra) {
        lemma_grant_roomy(st, i, 1, false, free_at_start);
    }
}

/// The decode phase keeps the tables large enough.
pub proof fn lemma_decode_from_roomy(st: StepView, i: int, free_at_start: nat)
    requires
        st.inv(free_at_start),
        st.roomy(),
        0 <= i <= st.sched.running.len(),
    ensures
        st.decode_from(i).roomy(),
    decreases st.sched.running.len() - i,
{
    if !(i >= st.sched.running.len() || st.spent()) {
        lemma_decode_one(st, i, free_at_start);
        lemma_decode_one_roomy(st, i, free_at_start);
        lemma_decode_from_roomy(st.decode_one(i), i + 1, free_at_start);
    }
}

/// The next chunk of one prompt keeps the tables large enough.
pub proof fn lemma_continue_one_roomy(st: StepView, i: int, free_at_start: nat)
    requires
        st.inv(free_at_start),
        st.roomy(),
        0 <= i < st.sched.running.len(),
        !st.spent(),
    ensures
        st.continue_one(i).roomy(),
{
    let r = st.sched.running[i];
    let want = st.next_chunk(i);
    let extra = blocks_short(st.cache, r.num_tokens_processed + want, r.block_ids.len());
    if !r.prefill_complete && st.sched.has_request(r.request_id) && want > 0
        && st.cache.can_allocate(extra) {
        lemma_grant_roomy(st, i, want, true, free_at_start);
    }
}

/// The phase of the partly ingested prompts keeps the tables large enough.
pub proof fn lemma_continue_from_roomy(st: StepView, i: int, free_at_start: nat)
    requires
        st.inv(free_at_start),
        st.roomy(),
        0 <= i <= st.sched.running.len(),
    ensures
        st.continue_from(i).roomy(),
    decreases st.sched.running.len() - i,
{
    if !(i >= st.sched.running.len() || st.spent()) {
        lemma_continue_one(st, i, free_at_start);
        lemma_continue_one_roomy(st, i, free_at_start);
        lemma_continue_from_roomy(st.continue_one(i), i + 1, free_at_start);
    }
}

/// The admission phase keeps the tables large enough.
pub proof fn lemma_admit_from_roomy(st: StepView, free_at_start: nat)
    requires
        st.inv(free_at_start),
        st.roomy(),
    ensures
        st.admit_from().roomy(),
    decreases st.sched.waiting.len(),
{
    if st.spent() || st.sched.waiting.len() == 0 {
    } else if st.head_stale() {
        lemma_pop(st, free_at_start);
        lemma_admit_from_roomy(st.pop(), free_at_start);
    } else if st.head_fits() {
        lemma_admit_head(st, free_at_start);
        let mid = st.admit_head();
        let head = st.sched.waiting[0];
        let block_size = st.cache.config.block_size as nat;
        lemma_allocate_wf(
            st.cache,
            head.request_id,
            st.cache.blocks_for(st.head_chunk() as int) as nat,
        );
        assert forall|k: int| 0 <= k < mid.sched.running.len() implies (#[trigger] mid.sched.running[k]).block_ids.len()
            * block_size >= mid.sched.running[k].num_tokens_processed by {
            if k < st.sched.running.len() {
                assert(mid.sched.running.drop_last()[k] == st.sched.running[k]);
            }
        }
        let work = mid.plan.work();
        let before = st.plan.work();
        assert forall|k: int| 0 <= k < work.len() implies (#[trigger] work[k]).block_ids.len()
            * block_size >= work[k].num_computed_tokens + work[k].num_tokens by {
            if k < before.len() {
                assert(work[k] == before[k]);
            } else {
                assert(work[k] == mid.plan.prefill_requests.last());
                assert(work[k].block_ids == mid.sched.running.last().block_ids);
            }
        }
        lemma_admit_from_roomy(mid, free_at_start);
    }
}

/// A step keeps the tables large enough: if the table of every running
/// request held its processed tokens before, it does so after, and the
/// table that a work unit carries holds the tokens processed before the
/// step together with those that the step schedules.
pub proof fn lemma_run_roomy(sched: SchedulerView, cache: CacheView)
    requires
        sched.wf(),
        cache.wf(),
        sched.covered(cache.config.block_size as nat),
    ensures
        StepView::run(sched, cache).sched.covered(cache.config.block_size as nat),
        forall|k: int|
            0 <= k < StepView::run(sched, cache).plan.work().len() ==> (#[trigger] StepView::run(
                sched,
                cache,
            ).plan.work()[k]).block_ids.len() * cache.config.block_size >= StepView::run(
                sched,
                cache,
            ).plan.work()[k].num_computed_tokens + StepView::run(
                sched,
                cache,
            ).plan.work()[k].num_tokens,
        forall|i: int|
            0 <= i < StepView::run(sched, cache).sched.running.len() ==> (#[trigger] StepView::run(
                sched,
                cache,
            ).sched.running[i]).block_ids.len() >= ceil_div(
                StepView::run(sched, cache).sched.running[i].num_tokens_processed as int,
                cache.config.block_size as int,
            ),
{
    let start = StepView::start(sched, cache);
    let free = cache.pool.free_count();
    lemma_start_inv(start);
    assert(start.plan.work() =~= Seq::<WorkView>::empty());
    crate::engine::step_lemmas::lemma_decode_from(start, 0, free);
    lemma_decode_from_roomy(start, 0, free);
    let decoded = start.decode_from(0);
    crate::engine::step_lemmas::lemma_continue_from(decoded, 0, free);
    lemma_continue_from_roomy(decoded, 0, free);
    let continued = decoded.continue_from(0);
    crate::engine::step_lemmas::lemma_admit_from(continued, free);
    lemma_admit_from_roomy(continued, free);
    let after = StepView::run(sched, cache);
    assert(after.cache.config == cache.config);
    assert forall|i: int| 0 <= i < after.sched.running.len() implies (#[trigger] after.sched.running[i]).block_ids.len()
        >= ceil_div(
        after.sched.running[i].num_tokens_processed as int,
        cache.config.block_size as int,
    ) by {
        lemma_holds_iff_blocks(
            after.sched.running[i].block_ids.len(),
            after.sched.running[i].num_tokens_processed,
            cache.config.block_size as nat,
        );
    }
}

/// A progress report keeps the tables large enough, given that the table
/// of the reported request, with the blocks that join it, holds what the
/// request has processed afterwards.
pub proof fn lemma_update_covered(
    s: SchedulerView,
    request_id: Seq<char>,
    tokens_processed: nat,
    tokens_generated: nat,
    new_block_ids: Seq<BlockId>,
    block_size: nat,
)
    requires
        s.wf(),
        s.covered(block_size),
        s.is_running(request_id) ==> (s.progress(request_id).block_ids.len()
            + new_block_ids.len()) * block_size >= s.progress(request_id).num_tokens_processed
            + tokens_processed,
    ensures
        s.update(request_id, tokens_processed, tokens_generated, new_block_ids).covered(
            block_size,
        ),
{
    let after = s.update(request_id, tokens_processed, tokens_generated, new_block_ids);
    if s.is_running(request_id) {
        let at = s.running_index(request_id);
        assert(s.running_ids()[at] == request_id);
        assert forall|i: int| 0 <= i < after.running.len() implies (#[trigger] after.running[i]).block_ids.len()
            * block_size >= after.running[i].num_tokens_processed by {
            if i != at {
                assert(after.running[i] == s.running[i]);
            }
        }
    }
}

/// Admission changes no table.
pub proof fn lemma_add_covered(
    s: SchedulerView,
    request_id: Seq<char>,
    priority: crate::engine::types::Priority,
    arrival_time: u64,
    total_prompt_tokens: nat,
    max_tokens: nat,
    block_size: nat,
)
    requires
        s.covered(block_size),
    ensures
        s.add(request_id, priority, arrival_time, total_prompt_tokens, max_tokens).covered(
            block_size,
        ),
{
}

/// Finishing and aborting keep the tables large enough.
pub proof fn lemma_end_covered(s: SchedulerView, request_id: Seq<char>, block_size: nat)
    requires
        s.wf(),
        s.covered(block_size),
    ensures
        s.finish(request_id).covered(block_size),
        s.abort(request_id).covered(block_size),
{
    let fin = s.finish(request_id);
    assert(s.abort(request_id).running == fin.running);
    if s.is_running(request_id) {
        let at = s.running_index(request_id);
        assert(s.running_ids()[at] == request_id);
        assert forall|i: int| 0 <= i < fin.running.len() implies (#[trigger] fin.running[i]).block_ids.len()
            * block_size >= fin.running[i].num_tokens_processed by {
            let i0 = if i < at { i } else { i + 1 };
            assert(fin.running[i] == s.running[i0]);
        }
    }
}

/// A step without running and waiting requests plans no work and changes
/// nothing.
pub proof fn lemma_run_idle(sched: SchedulerView, cache: CacheView)
    requires
        sched.running.len() == 0,
        sched.waiting.len() == 0,
    ensures
        StepView::run(sched, cache) == StepView::start(sched, cache),
        !StepView::run(sched, cache).plan.has_work(),
        StepView::run(sched, cache).plan.total_tokens == 0,
        StepView::run(sched, cache).plan.blocks_allocated == 0,
{
}

/// The admission phase ends with the request that uses up the token
/// budget: once the budget is spent, nothing more is admitted.
pub proof fn lemma_spent_ends_admission(st: StepView)
    requires
        st.spent(),
    ensures
        st.admit_from() == st,
{
}

} // verus!
