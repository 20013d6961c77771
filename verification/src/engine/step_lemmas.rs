//! What holds in the middle of a step: scheduler and cache stay well
//! formed, and the plan never exceeds the two budgets.

use crate::engine::cache_model::lemma_allocate_wf;
use crate::engine::kv_cache::lemma_ceil_div;
use crate::engine::scheduler_lemmas::lemma_push_distinct;
use crate::engine::scheduler_model::{tokens_of, StepView, WorkView};
use crate::engine::scheduler::SchedulingPolicy;
use crate::engine::waiting::served_before;
use vstd::prelude::*;

verus! {

impl StepView {
    /// The invariant of a step that began with `free_at_start` free
    /// blocks: scheduler and cache are well formed; the plan's tokens and
    /// the token budget left add up to the token budget, and so do the
    /// work units and the batch budget; the plan's total is the sum over
    /// its work units; every block that left the free list is counted; and
    /// no request is preempted.
    pub open spec fn inv(self, free_at_start: nat) -> bool {
        &&& self.sched.wf()
        &&& self.cache.wf()
        &&& self.plan.total_tokens + self.tokens_left == self.sched.config.max_tokens_per_step
        &&& self.plan.work().len() + self.batch_left == self.sched.config.max_batch_size
        &&& tokens_of(self.plan.work()) == self.plan.total_tokens
        &&& self.plan.blocks_allocated + self.cache.pool.free_count() == free_at_start
        &&& self.plan.preempted_requests.len() == 0
    }

    /// Whether the two states differ only in the block tables of running
    /// requests, the cache, the plan and the budgets.
    pub open spec fn same_requests(self, other: StepView) -> bool {
        &&& self.cache.config == other.cache.config
        &&& self.sched.config == other.sched.config
        &&& self.sched.waiting == other.sched.waiting
        &&& self.sched.requests == other.sched.requests
        &&& self.sched.next_sequence_id == other.sched.next_sequence_id
        &&& self.sched.running.len() == other.sched.running.len()
        &&& forall|i: int|
            0 <= i < self.sched.running.len() ==> {
                let a = #[trigger] self.sched.running[i];
                let b = other.sched.running[i];
                &&& a.request_id == b.request_id
                &&& a.sequence_id == b.sequence_id
                &&& a.num_tokens_processed == b.num_tokens_processed
                &&& a.num_tokens_generated == b.num_tokens_generated
                &&& a.prefill_complete == b.prefill_complete
                &&& a.block_ids.len() <= b.block_ids.len()
                &&& b.block_ids.take(a.block_ids.len() as int) == a.block_ids
            }
    }
}

/// The tokens of two lists of work add up.
pub proof fn lemma_tokens_of_concat(a: Seq<WorkView>, b: Seq<WorkView>)
    ensures
        tokens_of(a + b) == tokens_of(a) + tokens_of(b),
    decreases b.len(),
{
    if b.len() == 0 {
        assert(a + b =~= a);
    } else {
        lemma_tokens_of_concat(a, b.drop_last());
        assert((a + b).drop_last() =~= a + b.drop_last());
        assert((a + b).last() == b.last());
    }
}

/// A step starts within its invariant.
pub proof fn lemma_start_inv(st: StepView)
    requires
        st.sched.wf(),
        st.cache.wf(),
        st == StepView::start(st.sched, st.cache),
    ensures
        st.inv(st.cache.pool.free_count()),
{
    assert(st.plan.work() =~= Seq::<WorkView>::empty());
}

/// Work for a running request keeps the invariant and changes nothing of
/// the scheduler but the block table of that request, which grows.
pub proof fn lemma_grant(
    st: StepView,
    i: int,
    tokens: nat,
    extra: nat,
    is_prefill: bool,
    free_at_start: nat,
)
    requires
        st.inv(free_at_start),
        0 <= i < st.sched.running.len(),
        1 <= tokens <= st.tokens_left,
        st.batch_left >= 1,
        st.cache.can_allocate(extra),
    ensures
        st.grant(i, tokens, extra, is_prefill).inv(free_at_start),
        st.same_requests(st.grant(i, tokens, extra, is_prefill)),
{
    let after = st.grant(i, tokens, extra, is_prefill);
    let r = st.sched.running[i];
    lemma_allocate_wf(st.cache, r.request_id, extra);
    assert(after.sched.running_ids() =~= st.sched.running_ids());
    assert(after.sched.known_ids() =~= st.sched.known_ids());
    assert forall|k: int| 0 <= k < after.sched.running.len() implies after.sched.has_request(
        (#[trigger] after.sched.running[k]).request_id,
    ) && after.sched.running[k].num_tokens_generated <= after.sched.running[k].num_tokens_processed by {
        assert(st.sched.has_request(st.sched.running[k].request_id));
    }
    let work = if is_prefill {
        after.plan.prefill_requests.last()
    } else {
        after.plan.decode_requests.last()
    };
    lemma_tokens_of_concat(st.plan.decode_requests, st.plan.prefill_requests);
    lemma_tokens_of_concat(after.plan.decode_requests, after.plan.prefill_requests);
    if is_prefill {
        assert(after.plan.prefill_requests.drop_last() =~= st.plan.prefill_requests);
    } else {
        assert(after.plan.decode_requests.drop_last() =~= st.plan.decode_requests);
    }
    assert forall|k: int| 0 <= k < st.sched.running.len() implies {
        let a = #[trigger] st.sched.running[k];
        let b = after.sched.running[k];
        b.block_ids.take(a.block_ids.len() as int) == a.block_ids
    } by {
        let a = st.sched.running[k];
        let b = after.sched.running[k];
        assert(b.block_ids.take(a.block_ids.len() as int) =~= a.block_ids);
    }
}

/// A state differs from itself in nothing.
pub proof fn lemma_same_requests_reflexive(a: StepView)
    ensures
        a.same_requests(a),
{
    assert forall|i: int| 0 <= i < a.sched.running.len() implies {
        let x = #[trigger] a.sched.running[i];
        x.block_ids.take(x.block_ids.len() as int) == x.block_ids
    } by {
        let x = a.sched.running[i];
        assert(x.block_ids.take(x.block_ids.len() as int) =~= x.block_ids);
    }
}

/// Block tables that grew twice have grown.
pub proof fn lemma_same_requests_transitive(a: StepView, b: StepView, c: StepView)
    requires
        a.same_requests(b),
        b.same_requests(c),
    ensures
        a.same_requests(c),
{
    assert forall|i: int| 0 <= i < a.sched.running.len() implies {
        let x = #[trigger] a.sched.running[i];
        let z = c.sched.running[i];
        &&& x.request_id == z.request_id
        &&& x.sequence_id == z.sequence_id
        &&& x.num_tokens_processed == z.num_tokens_processed
        &&& x.num_tokens_generated == z.num_tokens_generated
        &&& x.prefill_complete == z.prefill_complete
        &&& x.block_ids.len() <= z.block_ids.len()
        &&& z.block_ids.take(x.block_ids.len() as int) == x.block_ids
    } by {
        let x = a.sched.running[i];
        let y = b.sched.running[i];
        let z = c.sched.running[i];
        assert(y.request_id == x.request_id);
        assert(z.request_id == y.request_id);
        assert(z.block_ids.take(x.block_ids.len() as int) =~= z.block_ids.take(
            y.block_ids.len() as int,
        ).take(x.block_ids.len() as int));
    }
}

/// One decode keeps the invariant.
pub proof fn lemma_decode_one(st: StepView, i: int, free_at_start: nat)
    requires
        st.inv(free_at_start),
        0 <= i < st.sched.running.len(),
        !st.spent(),
    ensures
        st.decode_one(i).inv(free_at_start),
        st.same_requests(st.decode_one(i)),
{
    let r = st.sched.running[i];
    let extra = crate::engine::scheduler_model::blocks_short(
        st.cache,
        r.num_tokens_processed + 1,
        r.block_ids.len(),
    );
    if r.prefill_complete && st.cache.can_allocate(extra) {
        lemma_grant(st, i, 1, extra, false, free_at_start);
    } else {
        lemma_same_requests_reflexive(st);
    }
}

/// The decode phase keeps the invariant.
pub proof fn lemma_decode_from(st: StepView, i: int, free_at_start: nat)
    requires
        st.inv(free_at_start),
        0 <= i <= st.sched.running.len(),
    ensures
        st.decode_from(i).inv(free_at_start),
        st.same_requests(st.decode_from(i)),
    decreases st.sched.running.len() - i,
{
    if i >= st.sched.running.len() || st.spent() {
        lemma_same_requests_reflexive(st);
    } else {
        lemma_decode_one(st, i, free_at_start);
        lemma_decode_from(st.decode_one(i), i + 1, free_at_start);
        lemma_same_requests_transitive(st, st.decode_one(i), st.decode_from(i));
    }
}

/// The chunk of a prompt is within what is left of prompt and budget.
pub proof fn lemma_chunk(config: crate::engine::scheduler::SchedulerConfig, remaining: nat, tokens_left: nat)
    ensures
        crate::engine::scheduler_model::chunk(config, remaining, tokens_left) <= remaining,
        crate::engine::scheduler_model::chunk(config, remaining, tokens_left) <= tokens_left,
{
}

/// The next chunk of one prompt keeps the invariant.
pub proof fn lemma_continue_one(st: StepView, i: int, free_at_start: nat)
    requires
        st.inv(free_at_start),
        0 <= i < st.sched.running.len(),
        !st.spent(),
    ensures
        st.continue_one(i).inv(free_at_start),
        st.same_requests(st.continue_one(i)),
{
    let r = st.sched.running[i];
    let want = st.next_chunk(i);
    let extra = crate::engine::scheduler_model::blocks_short(
        st.cache,
        r.num_tokens_processed + want,
        r.block_ids.len(),
    );
    if !r.prefill_complete && st.sched.has_request(r.request_id) && want > 0
        && st.cache.can_allocate(extra) {
        lemma_grant(st, i, want, extra, true, free_at_start);
    } else {
        lemma_same_requests_reflexive(st);
    }
}

/// The phase of the partly ingested prompts keeps the invariant.
pub proof fn lemma_continue_from(st: StepView, i: int, free_at_start: nat)
    requires
        st.inv(free_at_start),
        0 <= i <= st.sched.running.len(),
    ensures
        st.continue_from(i).inv(free_at_start),
        st.same_requests(st.continue_from(i)),
    decreases st.sched.running.len() - i,
{
    if i >= st.sched.running.len() || st.spent() {
        lemma_same_requests_reflexive(st);
    } else {
        lemma_continue_one(st, i, free_at_start);
        lemma_continue_from(st.continue_one(i), i + 1, free_at_start);
        lemma_same_requests_transitive(st, st.continue_one(i), st.continue_from(i));
    }
}

/// Dropping the head of the queue keeps the invariant.
pub proof fn lemma_pop(st: StepView, free_at_start: nat)
    requires
        st.inv(free_at_start),
        st.sched.waiting.len() > 0,
    ensures
        st.pop().inv(free_at_start),
{
    let after = st.pop();
    if st.sched.config.policy == SchedulingPolicy::Priority {
        assert forall|i: int, j: int| 0 <= i < j < after.sched.waiting.len() implies !served_before(
            #[trigger] after.sched.waiting[j],
            #[trigger] after.sched.waiting[i],
        ) by {
            assert(after.sched.waiting[i] == st.sched.waiting[i + 1]);
            assert(after.sched.waiting[j] == st.sched.waiting[j + 1]);
        }
    }
    assert(after.sched.running_ids() =~= st.sched.running_ids());
    assert(after.sched.known_ids() =~= st.sched.known_ids());
    assert forall|k: int| 0 <= k < after.sched.running.len() implies after.sched.has_request(
        (#[trigger] after.sched.running[k]).request_id,
    ) by {
        assert(st.sched.has_request(st.sched.running[k].request_id));
    }
}

/// Admitting the head of the queue keeps the invariant; the request runs
/// last, without a processed token, on blocks that hold its chunk.
pub proof fn lemma_admit_head(st: StepView, free_at_start: nat)
    requires
        st.inv(free_at_start),
        !st.spent(),
        st.sched.waiting.len() > 0,
        !st.head_stale(),
        st.head_fits(),
    ensures
        st.admit_head().inv(free_at_start),
        st.admit_head().sched.running.len() == st.sched.running.len() + 1,
        st.admit_head().sched.running.drop_last() == st.sched.running,
        st.admit_head().sched.running.last().request_id == st.sched.waiting[0].request_id,
        st.admit_head().sched.running.last().block_ids.len() * st.cache.config.block_size
            >= st.head_chunk(),
        st.admit_head().sched.requests == st.sched.requests,
        st.admit_head().sched.config == st.sched.config,
        st.admit_head().cache.config == st.cache.config,
{
    let after = st.admit_head();
    let head = st.sched.waiting[0];
    let want = st.head_chunk();
    let needed = st.cache.blocks_for(want as int) as nat;
    lemma_pop(st, free_at_start);
    lemma_chunk(
        st.sched.config,
        st.sched.meta(head.request_id).total_prompt_tokens,
        st.tokens_left,
    );
    lemma_ceil_div(want as int, st.cache.config.block_size as int);
    lemma_allocate_wf(st.cache, head.request_id, needed);
    lemma_push_distinct(st.sched.running_ids(), head.request_id);
    assert(after.sched.running_ids() =~= st.sched.running_ids().push(head.request_id));
    assert(after.sched.known_ids() =~= st.sched.known_ids());
    assert(after.sched.running.drop_last() =~= st.sched.running);
    assert forall|k: int| 0 <= k < after.sched.running.len() implies after.sched.has_request(
        (#[trigger] after.sched.running[k]).request_id,
    ) && after.sched.running[k].num_tokens_generated <= after.sched.running[k].num_tokens_processed by {
        if k < st.sched.running.len() {
            assert(st.sched.has_request(st.sched.running[k].request_id));
        }
    }
    assert(after.sched.waiting == st.pop().sched.waiting);
    lemma_tokens_of_concat(st.plan.decode_requests, st.plan.prefill_requests);
    lemma_tokens_of_concat(after.plan.decode_requests, after.plan.prefill_requests);
    assert(after.plan.prefill_requests.drop_last() =~= st.plan.prefill_requests);
}

/// The admission phase keeps the invariant. It removes a front part of
/// the queue, lets the running requests run on unchanged, and forgets no
/// request.
pub proof fn lemma_admit_from(st: StepView, free_at_start: nat)
    requires
        st.inv(free_at_start),
    ensures
        st.admit_from().inv(free_at_start),
        st.admit_from().sched.requests == st.sched.requests,
        st.admit_from().sched.config == st.sched.config,
        st.admit_from().cache.config == st.cache.config,
        st.admit_from().sched.next_sequence_id == st.sched.next_sequence_id,
        st.admit_from().sched.running.len() >= st.sched.running.len(),
        st.admit_from().sched.running.take(st.sched.running.len() as int) == st.sched.running,
    decreases st.sched.waiting.len(),
{
    if st.spent() || st.sched.waiting.len() == 0 {
        assert(st.sched.running.take(st.sched.running.len() as int) =~= st.sched.running);
    } else if st.head_stale() {
        lemma_pop(st, free_at_start);
        lemma_admit_from(st.pop(), free_at_start);
    } else if st.head_fits() {
        lemma_admit_head(st, free_at_start);
        lemma_admit_from(st.admit_head(), free_at_start);
        let mid = st.admit_head();
        let after = st.admit_from();
        assert(after.sched.running.take(st.sched.running.len() as int) =~= after.sched.running.take(
            mid.sched.running.len() as int,
        ).take(st.sched.running.len() as int));
        assert(mid.sched.running.take(st.sched.running.len() as int) =~= mid.sched.running.drop_last());
    } else {
        assert(st.sched.running.take(st.sched.running.len() as int) =~= st.sched.running);
    }
}

/// A whole step keeps scheduler and cache well formed and the plan within
/// the budgets: its tokens, which are the sum over its work units, are no
/// more than the token budget, and its work units no more than the batch
/// budget.
pub proof fn lemma_run(st: StepView)
    requires
        st.sched.wf(),
        st.cache.wf(),
        st == StepView::start(st.sched, st.cache),
    ensures
        StepView::run(st.sched, st.cache).inv(st.cache.pool.free_count()),
        StepView::run(st.sched, st.cache).sched.requests == st.sched.requests,
        StepView::run(st.sched, st.cache).plan.total_tokens == tokens_of(
            StepView::run(st.sched, st.cache).plan.work(),
        ),
        StepView::run(st.sched, st.cache).plan.total_tokens
            <= st.sched.config.max_tokens_per_step,
        StepView::run(st.sched, st.cache).plan.decode_requests.len() + StepView::run(
            st.sched,
            st.cache,
        ).plan.prefill_requests.len() <= st.sched.config.max_batch_size,
        StepView::run(st.sched, st.cache).plan.preempted_requests.len() == 0,
{
    let free = st.cache.pool.free_count();
    lemma_start_inv(st);
    lemma_decode_from(st, 0, free);
    lemma_continue_from(st.decode_from(0), 0, free);
    lemma_admit_from(st.decode_from(0).continue_from(0), free);
}

/// A step reorders no block table: every request that ran before the step
/// runs after it at the same place, with the same counts, and with a block
/// table that begins with the one it had.
pub proof fn lemma_run_tables_grow(st: StepView)
    requires
        st.sched.wf(),
        st.cache.wf(),
        st == StepView::start(st.sched, st.cache),
    ensures
        StepView::run(st.sched, st.cache).sched.running.len() >= st.sched.running.len(),
        forall|i: int|
            0 <= i < st.sched.running.len() ==> {
                let a = #[trigger] st.sched.running[i];
                let b = StepView::run(st.sched, st.cache).sched.running[i];
                &&& a.request_id == b.request_id
                &&& a.sequence_id == b.sequence_id
                &&& a.num_tokens_processed == b.num_tokens_processed
                &&& a.num_tokens_generated == b.num_tokens_generated
                &&& a.prefill_complete == b.prefill_complete
                &&& a.block_ids.is_prefix_of(b.block_ids)
            },
{
    let free = st.cache.pool.free_count();
    lemma_start_inv(st);
    lemma_decode_from(st, 0, free);
    lemma_continue_from(st.decode_from(0), 0, free);
    let mid = st.decode_from(0).continue_from(0);
    lemma_same_requests_transitive(st, st.decode_from(0), mid);
    lemma_admit_from(mid, free);
    let after = StepView::run(st.sched, st.cache).sched;
    assert forall|i: int| 0 <= i < st.sched.running.len() implies {
        let a = #[trigger] st.sched.running[i];
        let b = after.running[i];
        &&& a.request_id == b.request_id
        &&& a.sequence_id == b.sequence_id
        &&& a.num_tokens_processed == b.num_tokens_processed
        &&& a.num_tokens_generated == b.num_tokens_generated
        &&& a.prefill_complete == b.prefill_complete
        &&& a.block_ids.is_prefix_of(b.block_ids)
    } by {
        assert(after.running.take(mid.sched.running.len() as int)[i] == mid.sched.running[i]);
        assert(mid.sched.running[i].block_ids.take(st.sched.running[i].block_ids.len() as int)
            == st.sched.running[i].block_ids);
    }
}

} // verus!
