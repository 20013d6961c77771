//! The order in which waiting requests begin to run: a step takes them from
//! the front of the queue, so in the order of arrival under
//! first-come-first-served and in service order under the priority policy.

use crate::engine::cache_model::CacheView;
use crate::engine::scheduler::SchedulingPolicy;
use crate::engine::scheduler_model::{SchedulerView, StepView};
use crate::engine::step_lemmas::{
    lemma_admit_head, lemma_continue_from, lemma_decode_from, lemma_pop, lemma_start_inv,
};
use crate::engine::waiting::{enqueue, served_before, WaitingView};
use vstd::prelude::*;

verus! {

impl StepView {
    /// The number of entries that the admission phase takes from the front
    /// of the waiting queue, stale ones included.
    pub open spec fn taken(self) -> nat
        decreases self.sched.waiting.len(),
    {
        if self.spent() || self.sched.waiting.len() == 0 {
            0
        } else if self.head_stale() {
            self.pop().taken() + 1
        } else if self.head_fits() {
            self.admit_head().taken() + 1
        } else {
            0
        }
    }

    /// The places in the waiting queue of the requests that the admission
    /// phase admits, in the order in which it admits them.
    pub open spec fn admitted_at(self) -> Seq<int>
        decreases self.sched.waiting.len(),
    {
        if self.spent() || self.sched.waiting.len() == 0 {
            Seq::empty()
        } else if self.head_stale() {
            self.pop().admitted_at().map_values(|p: int| p + 1)
        } else if self.head_fits() {
            seq![0int] + self.admit_head().admitted_at().map_values(|p: int| p + 1)
        } else {
            Seq::empty()
        }
    }
}

/// The admission phase takes a front part of the waiting queue and leaves
/// the rest as it is. The requests it admits run behind those that ran
/// before, in the order in which they stood in the queue.
pub proof fn lemma_admission_order(st: StepView, free_at_start: nat)
    requires
        st.inv(free_at_start),
    ensures
        st.taken() <= st.sched.waiting.len(),
        st.admit_from().sched.waiting == st.sched.waiting.skip(st.taken() as int),
        st.admit_from().sched.running.len() == st.sched.running.len() + st.admitted_at().len(),
        forall|x: int|
            0 <= x < st.admitted_at().len() ==> 0 <= (#[trigger] st.admitted_at()[x]) < st.taken()
                && st.admit_from().sched.running[st.sched.running.len() + x].request_id
                == st.sched.waiting[st.admitted_at()[x]].request_id
                && st.admit_from().sched.running[st.sched.running.len() + x].sequence_id
                == st.sched.meta(st.sched.waiting[st.admitted_at()[x]].request_id).sequence_id
                && st.sched.has_request(st.sched.waiting[st.admitted_at()[x]].request_id),
        forall|x: int, y: int|
            0 <= x < y < st.admitted_at().len() ==> (#[trigger] st.admitted_at()[x]) < (
            #[trigger] st.admitted_at()[y]),
    decreases st.sched.waiting.len(),
{
    let after = st.admit_from();
    let at = st.admitted_at();
    if st.spent() || st.sched.waiting.len() == 0 {
        assert(st.sched.waiting.skip(0) =~= st.sched.waiting);
    } else if st.head_stale() {
        let mid = st.pop();
        lemma_pop(st, free_at_start);
        lemma_admission_order(mid, free_at_start);
        let inner = mid.admitted_at();
        assert(mid.sched.waiting.skip(mid.taken() as int) =~= st.sched.waiting.skip(
            st.taken() as int,
        ));
        assert(mid.sched.requests == st.sched.requests);
        assert forall|x: int| 0 <= x < at.len() implies 0 <= (#[trigger] at[x]) < st.taken()
            && after.sched.running[st.sched.running.len() + x].request_id
            == st.sched.waiting[at[x]].request_id && after.sched.running[st.sched.running.len()
            + x].sequence_id == st.sched.meta(st.sched.waiting[at[x]].request_id).sequence_id
            && st.sched.has_request(st.sched.waiting[at[x]].request_id) by {
            assert(at[x] == inner[x] + 1);
            assert(mid.sched.waiting[inner[x]] == st.sched.waiting[inner[x] + 1]);
        }
        assert forall|x: int, y: int| 0 <= x < y < at.len() implies (#[trigger] at[x]) < (
        #[trigger] at[y]) by {
            assert(at[x] == inner[x] + 1 && at[y] == inner[y] + 1);
        }
    } else if st.head_fits() {
        let mid = st.admit_head();
        lemma_admit_head(st, free_at_start);
        lemma_admission_order(mid, free_at_start);
        crate::engine::step_lemmas::lemma_admit_from(mid, free_at_start);
        let inner = mid.admitted_at();
        let n = st.sched.running.len() as int;
        assert(mid.sched.waiting.skip(mid.taken() as int) =~= st.sched.waiting.skip(
            st.taken() as int,
        ));
        assert(after.sched.running.take(n + 1)[n] == mid.sched.running[n]);
        assert(mid.sched.running[n] == mid.sched.running.last());
        assert forall|x: int| 0 <= x < at.len() implies 0 <= (#[trigger] at[x]) < st.taken()
            && after.sched.running[n + x].request_id == st.sched.waiting[at[x]].request_id
            && after.sched.running[n + x].sequence_id == st.sched.meta(
            st.sched.waiting[at[x]].request_id,
        ).sequence_id && st.sched.has_request(st.sched.waiting[at[x]].request_id) by {
            if x > 0 {
                assert(at[x] == inner[x - 1] + 1);
                assert(mid.sched.waiting[inner[x - 1]] == st.sched.waiting[inner[x - 1] + 1]);
                assert(after.sched.running[(n + 1) + (x - 1)].request_id
                    == mid.sched.waiting[inner[x - 1]].request_id);
            }
        }
        assert forall|x: int, y: int| 0 <= x < y < at.len() implies (#[trigger] at[x]) < (
        #[trigger] at[y]) by {
            assert(at[y] == inner[y - 1] + 1);
            if x > 0 {
                assert(at[x] == inner[x - 1] + 1);
            }
        }
    } else {
        assert(st.sched.waiting.skip(0) =~= st.sched.waiting);
    }
}

/// The state in which the admission phase of a step begins.
pub open spec fn before_admission(sched: SchedulerView, cache: CacheView) -> StepView {
    StepView::start(sched, cache).decode_from(0).continue_from(0)
}

/// The waiting entries of the requests that a step admits, in the order in
/// which it admits them.
pub open spec fn admitted(sched: SchedulerView, cache: CacheView) -> Seq<WaitingView> {
    before_admission(sched, cache).admitted_at().map_values(|p: int| sched.waiting[p])
}

/// A step admits requests in the order of the waiting queue: what it takes
/// from the queue is a front part of it, every request it admits stood in
/// that part, the admitted requests run behind all others in the order in
/// which they stood in the queue, each under its own name and sequence
/// number. So no request begins to run before one that stood in front of
/// it and is still waiting.
pub proof fn lemma_admits_in_queue_order(sched: SchedulerView, cache: CacheView)
    requires
        sched.wf(),
        cache.wf(),
    ensures
        ({
            let first = before_admission(sched, cache);
            let after = StepView::run(sched, cache).sched;
            let at = first.admitted_at();
            &&& first.taken() <= sched.waiting.len()
            &&& after.waiting == sched.waiting.skip(first.taken() as int)
            &&& after.running.len() == sched.running.len() + at.len()
            &&& after.running_ids().take(sched.running.len() as int) == sched.running_ids()
            &&& forall|x: int|
                0 <= x < at.len() ==> 0 <= (#[trigger] at[x]) < first.taken()
                    && after.running[sched.running.len() + x].request_id
                    == sched.waiting[at[x]].request_id && after.running[sched.running.len()
                    + x].sequence_id == sched.meta(sched.waiting[at[x]].request_id).sequence_id
                    && sched.has_request(sched.waiting[at[x]].request_id)
            &&& after.requests == sched.requests
            &&& after.next_sequence_id == sched.next_sequence_id
            &&& forall|i: int|
                0 <= i < sched.running.len() ==> (#[trigger] after.running[i]).sequence_id
                    == sched.running[i].sequence_id
            &&& forall|x: int, y: int|
                0 <= x < y < at.len() ==> (#[trigger] at[x]) < (#[trigger] at[y])
        }),
{
    let start = StepView::start(sched, cache);
    let free = cache.pool.free_count();
    lemma_start_inv(start);
    lemma_decode_from(start, 0, free);
    lemma_continue_from(start.decode_from(0), 0, free);
    crate::engine::step_lemmas::lemma_same_requests_transitive(
        start,
        start.decode_from(0),
        start.decode_from(0).continue_from(0),
    );
    let first = before_admission(sched, cache);
    lemma_admission_order(first, free);
    crate::engine::step_lemmas::lemma_admit_from(first, free);
    let after = StepView::run(sched, cache).sched;
    assert forall|i: int| 0 <= i < sched.running.len() implies (#[trigger] after.running[i]).sequence_id
        == sched.running[i].sequence_id by {
        assert(after.running.take(first.sched.running.len() as int)[i] == first.sched.running[i]);
        assert(sched.running[i].sequence_id == first.sched.running[i].sequence_id);
    }
    assert(after.running_ids().take(sched.running.len() as int) =~= sched.running_ids()) by {
        assert forall|i: int| 0 <= i < sched.running.len() implies after.running_ids()[i]
            == sched.running_ids()[i] by {
            assert(after.running.take(first.sched.running.len() as int)[i]
                == first.sched.running[i]);
            assert(sched.running[i].request_id == first.sched.running[i].request_id);
        }
    }
}

/// Under first-come-first-served a request joins the queue behind all
/// that wait.
pub proof fn lemma_fcfs_joins_last(queue: Seq<WaitingView>, entry: WaitingView)
    ensures
        enqueue(SchedulingPolicy::FCFS, queue, entry) == queue.push(entry),
{
}

/// Under the priority policy, of two requests that a step admits the one
/// admitted first is not served after the other: it has the higher
/// priority, or the same priority and the earlier arrival, or both are the
/// same and its name is not the greater. So of two admitted requests that
/// differ in priority or arrival, the one with the higher priority, or
/// with the same priority and the earlier arrival, is admitted first. And
/// no request that the step leaves waiting is served before one that it
/// admits.
pub proof fn lemma_admits_by_priority(sched: SchedulerView, cache: CacheView)
    requires
        sched.wf(),
        cache.wf(),
        sched.config.policy == SchedulingPolicy::Priority,
    ensures
        forall|x: int, y: int|
            0 <= x < y < admitted(sched, cache).len() ==> {
                let a = #[trigger] admitted(sched, cache)[x];
                let b = #[trigger] admitted(sched, cache)[y];
                &&& !served_before(b, a)
                &&& a.priority >= b.priority
                &&& a.priority == b.priority ==> a.arrival_time <= b.arrival_time
            },
        forall|x: int, y: int|
            0 <= x < admitted(sched, cache).len() && 0 <= y < admitted(sched, cache).len() && ({
                let a = #[trigger] admitted(sched, cache)[x];
                let b = #[trigger] admitted(sched, cache)[y];
                a.priority > b.priority || (a.priority == b.priority && a.arrival_time
                    < b.arrival_time)
            }) ==> x < y,
        forall|x: int, j: int|
            0 <= x < admitted(sched, cache).len() && 0 <= j < StepView::run(
                sched,
                cache,
            ).sched.waiting.len() ==> !served_before(
                #[trigger] StepView::run(sched, cache).sched.waiting[j],
                #[trigger] admitted(sched, cache)[x],
            ),
{
    lemma_admits_in_queue_order(sched, cache);
    let first = before_admission(sched, cache);
    let at = first.admitted_at();
    let adm = admitted(sched, cache);
    let after = StepView::run(sched, cache).sched;
    assert forall|x: int, y: int| 0 <= x < y < adm.len() implies {
        let a = #[trigger] adm[x];
        let b = #[trigger] adm[y];
        &&& !served_before(b, a)
        &&& a.priority >= b.priority
        &&& a.priority == b.priority ==> a.arrival_time <= b.arrival_time
    } by {
        assert(at[x] < at[y]);
        assert(adm[x] == sched.waiting[at[x]] && adm[y] == sched.waiting[at[y]]);
    }
    assert forall|x: int, y: int|
        0 <= x < adm.len() && 0 <= y < adm.len() && ({
            let a = #[trigger] adm[x];
            let b = #[trigger] adm[y];
            a.priority > b.priority || (a.priority == b.priority && a.arrival_time
                < b.arrival_time)
        }) implies x < y by {
        assert(adm[x] == sched.waiting[at[x]] && adm[y] == sched.waiting[at[y]]);
        if y < x {
            assert(at[y] < at[x]);
        }
    }
    assert forall|x: int, j: int| 0 <= x < adm.len() && 0 <= j < after.waiting.len() implies !served_before(
        #[trigger] after.waiting[j],
        #[trigger] adm[x],
    ) by {
        assert(at[x] < first.taken());
        assert(after.waiting[j] == sched.waiting[first.taken() + j]);
        assert(adm[x] == sched.waiting[at[x]]);
    }
}

impl SchedulerView {
    /// Whether requests run and wait in the order of their admission: the
    /// sequence numbers rise along the running requests, rise along the
    /// waiting requests that are still kept, and those of the running
    /// requests are below those of the waiting ones.
    pub open spec fn in_admission_order(self) -> bool {
        &&& forall|i: int|
            0 <= i < self.running.len() ==> (#[trigger] self.running[i]).sequence_id
                < self.next_sequence_id
        &&& forall|i: int, j: int|
            0 <= i < j < self.running.len() ==> (#[trigger] self.running[i]).sequence_id < (
            #[trigger] self.running[j]).sequence_id
        &&& forall|i: int, j: int|
            0 <= i < j < self.waiting.len() && self.has_request(
                (#[trigger] self.waiting[i]).request_id,
            ) && self.has_request((#[trigger] self.waiting[j]).request_id) ==> self.meta(
                self.waiting[i].request_id,
            ).sequence_id < self.meta(self.waiting[j].request_id).sequence_id
        &&& forall|i: int, j: int|
            0 <= i < self.running.len() && 0 <= j < self.waiting.len() && self.has_request(
                (#[trigger] self.waiting[j]).request_id,
            ) ==> (#[trigger] self.running[i]).sequence_id < self.meta(
                self.waiting[j].request_id,
            ).sequence_id
    }

    /// Whether an entry of the request stands in the waiting queue.
    pub open spec fn is_queued(self, request_id: Seq<char>) -> bool {
        exists|k: int| 0 <= k < self.waiting.len() && (#[trigger] self.waiting[k]).request_id == request_id
    }
}

/// A scheduler without requests is in the order of admission.
pub proof fn lemma_fresh_in_admission_order(config: crate::engine::scheduler::SchedulerConfig)
    ensures
        SchedulerView::fresh(config).wf(),
        SchedulerView::fresh(config).in_admission_order(),
{
}

/// Under first-come-first-served, admitting a request of which no entry
/// stands in the queue keeps the order of admission.
pub proof fn lemma_add_keeps_admission_order(
    s: SchedulerView,
    request_id: Seq<char>,
    priority: crate::engine::types::Priority,
    arrival_time: u64,
    total_prompt_tokens: nat,
    max_tokens: nat,
)
    requires
        s.wf(),
        s.config.policy == SchedulingPolicy::FCFS,
        s.in_admission_order(),
        !s.is_queued(request_id),
    ensures
        s.add(request_id, priority, arrival_time, total_prompt_tokens, max_tokens).in_admission_order(),
{
    let after = s.add(request_id, priority, arrival_time, total_prompt_tokens, max_tokens);
    crate::engine::scheduler_lemmas::lemma_add_wf(
        s,
        request_id,
        priority,
        arrival_time,
        total_prompt_tokens,
        max_tokens,
    );
    let n = s.waiting.len() as int;
    assert(after.waiting[n].request_id == request_id);
    assert forall|k: int| 0 <= k < n implies after.waiting[k] == s.waiting[k]
        && s.waiting[k].request_id != request_id by {
    }
    assert forall|other: Seq<char>| other != request_id && s.has_request(other) implies s.meta(
        other,
    ).sequence_id < s.next_sequence_id by {
        let k = s.meta_index(other);
        assert(s.known_ids()[k] == other);
        assert(s.requests[k].sequence_id < s.next_sequence_id);
    }
    assert forall|i: int, j: int|
        0 <= i < j < after.waiting.len() && after.has_request(
            (#[trigger] after.waiting[i]).request_id,
        ) && after.has_request((#[trigger] after.waiting[j]).request_id) implies after.meta(
        after.waiting[i].request_id,
    ).sequence_id < after.meta(after.waiting[j].request_id).sequence_id by {
        assert(after.waiting[i] == s.waiting[i]);
        if j < n {
            assert(after.waiting[j] == s.waiting[j]);
        }
    }
    assert forall|i: int, j: int|
        0 <= i < after.running.len() && 0 <= j < after.waiting.len() && after.has_request(
            (#[trigger] after.waiting[j]).request_id,
        ) implies (#[trigger] after.running[i]).sequence_id < after.meta(
        after.waiting[j].request_id,
    ).sequence_id by {
        if j < n {
            assert(after.waiting[j] == s.waiting[j]);
        }
    }
}

/// A progress report keeps the order of admission.
pub proof fn lemma_update_keeps_admission_order(
    s: SchedulerView,
    request_id: Seq<char>,
    tokens_processed: nat,
    tokens_generated: nat,
    new_block_ids: Seq<crate::engine::types::BlockId>,
)
    requires
        s.wf(),
        s.in_admission_order(),
    ensures
        s.update(request_id, tokens_processed, tokens_generated, new_block_ids).in_admission_order(),
{
    let after = s.update(request_id, tokens_processed, tokens_generated, new_block_ids);
    assert(after.known_ids() =~= s.known_ids());
    if s.is_running(request_id) {
        let at = s.running_index(request_id);
        assert(s.running_ids()[at] == request_id);
        assert forall|i: int| 0 <= i < after.running.len() implies (#[trigger] after.running[i]).sequence_id
            == s.running[i].sequence_id by {
        }
    }
}

/// Finishing and aborting a request keep the order of admission.
pub proof fn lemma_end_keeps_admission_order(s: SchedulerView, cache: CacheView, request_id: Seq<char>)
    requires
        s.wf(),
        cache.wf(),
        s.in_admission_order(),
    ensures
        s.finish(request_id).in_admission_order(),
        s.abort(request_id).in_admission_order(),
{
    crate::engine::scheduler_lemmas::lemma_finish_wf(s, cache, request_id);
    crate::engine::scheduler_lemmas::lemma_abort_wf(s, cache, request_id);
    crate::engine::waiting::lemma_without(s.waiting, request_id);
    let fin = s.finish(request_id);
    let abo = s.abort(request_id);
    assert(abo.running == fin.running);
    assert(abo.requests == fin.requests);
    // The running requests that are left keep their order.
    assert forall|i: int| 0 <= i < fin.running.len() implies exists|i0: int|
        0 <= i0 < s.running.len() && s.running[i0] == #[trigger] fin.running[i] by {
        if s.is_running(request_id) {
            let at = s.running_index(request_id);
            let i0 = if i < at { i } else { i + 1 };
            assert(s.running[i0] == fin.running[i]);
        } else {
            assert(s.running[i] == fin.running[i]);
        }
    }
    assert forall|i: int, j: int| 0 <= i < j < fin.running.len() implies (#[trigger] fin.running[i]).sequence_id
        < (#[trigger] fin.running[j]).sequence_id by {
        if s.is_running(request_id) {
            let at = s.running_index(request_id);
            let i0 = if i < at { i } else { i + 1 };
            let j0 = if j < at { j } else { j + 1 };
            assert(s.running[i0] == fin.running[i] && s.running[j0] == fin.running[j]);
        }
    }
    assert forall|id: Seq<char>| fin.has_request(id) implies s.has_request(id) && fin.meta(id)
        == s.meta(id) by {
    }
    assert forall|i: int, j: int|
        0 <= i < fin.running.len() && 0 <= j < fin.waiting.len() && fin.has_request(
            (#[trigger] fin.waiting[j]).request_id,
        ) implies (#[trigger] fin.running[i]).sequence_id < fin.meta(
        fin.waiting[j].request_id,
    ).sequence_id by {
        let i0 = choose|i0: int| 0 <= i0 < s.running.len() && s.running[i0] == fin.running[i];
        assert(s.running[i0].sequence_id < s.meta(s.waiting[j].request_id).sequence_id);
    }
    lemma_without_keeps_order(s.waiting, request_id);
    assert forall|i: int, j: int|
        0 <= i < j < abo.waiting.len() && abo.has_request(
            (#[trigger] abo.waiting[i]).request_id,
        ) && abo.has_request((#[trigger] abo.waiting[j]).request_id) implies abo.meta(
        abo.waiting[i].request_id,
    ).sequence_id < abo.meta(abo.waiting[j].request_id).sequence_id by {
        let (i0, j0) = choose|i0: int, j0: int|
            0 <= i0 < j0 < s.waiting.len() && s.waiting[i0] == abo.waiting[i] && s.waiting[j0]
                == abo.waiting[j];
        assert(fin.has_request(s.waiting[i0].request_id));
        assert(fin.has_request(s.waiting[j0].request_id));
    }
    assert forall|i: int, j: int|
        0 <= i < abo.running.len() && 0 <= j < abo.waiting.len() && abo.has_request(
            (#[trigger] abo.waiting[j]).request_id,
        ) implies (#[trigger] abo.running[i]).sequence_id < abo.meta(
        abo.waiting[j].request_id,
    ).sequence_id by {
        let i0 = choose|i0: int| 0 <= i0 < s.running.len() && s.running[i0] == fin.running[i];
        assert(s.waiting.contains(abo.waiting[j]));
        let j0 = choose|j0: int| 0 <= j0 < s.waiting.len() && s.waiting[j0] == abo.waiting[j];
        assert(fin.has_request(s.waiting[j0].request_id));
        assert(s.running[i0].sequence_id < s.meta(s.waiting[j0].request_id).sequence_id);
    }
}

/// Two entries that are left after a request was taken out of the queue
/// stood in the same order before.
pub proof fn lemma_without_keeps_order(queue: Seq<WaitingView>, request_id: Seq<char>)
    ensures
        forall|i: int, j: int|
            0 <= i < j < crate::engine::waiting::without(queue, request_id).len() ==> exists|
                i0: int,
                j0: int,
            |
                0 <= i0 < j0 < queue.len() && queue[i0] == #[trigger] crate::engine::waiting::without(
                    queue,
                    request_id,
                )[i] && queue[j0] == #[trigger] crate::engine::waiting::without(
                    queue,
                    request_id,
                )[j],
    decreases queue.len(),
{
    let after = crate::engine::waiting::without(queue, request_id);
    if queue.len() > 0 {
        let front = queue.drop_last();
        let rest = crate::engine::waiting::without(front, request_id);
        lemma_without_keeps_order(front, request_id);
        crate::engine::waiting::lemma_without(front, request_id);
        assert forall|i: int, j: int| 0 <= i < j < after.len() implies exists|i0: int, j0: int|
            0 <= i0 < j0 < queue.len() && queue[i0] == #[trigger] after[i] && queue[j0]
                == #[trigger] after[j] by {
            if j < rest.len() {
                assert(after[i] == rest[i] && after[j] == rest[j]);
                let (i0, j0) = choose|i0: int, j0: int|
                    0 <= i0 < j0 < front.len() && front[i0] == rest[i] && front[j0] == rest[j];
                assert(queue[i0] == front[i0] && queue[j0] == front[j0]);
            } else {
                assert(after[i] == rest[i]);
                assert(front.contains(rest[i]));
                let i0 = choose|i0: int| 0 <= i0 < front.len() && front[i0] == rest[i];
                assert(queue[i0] == after[i]);
                assert(queue[queue.len() - 1] == after[j]);
            }
        }
    }
}

/// A step keeps the order of admission: the requests that it admits run
/// in the order of their sequence numbers, behind all that ran before and
/// ahead of all that still wait.
pub proof fn lemma_run_keeps_admission_order(sched: SchedulerView, cache: CacheView)
    requires
        sched.wf(),
        cache.wf(),
        sched.in_admission_order(),
    ensures
        StepView::run(sched, cache).sched.in_admission_order(),
{
    lemma_admits_in_queue_order(sched, cache);
    let first = before_admission(sched, cache);
    let after = StepView::run(sched, cache).sched;
    let at = first.admitted_at();
    let n = sched.running.len() as int;
    let k = first.taken() as int;
    assert(after.known_ids() == sched.known_ids());
    assert forall|id: Seq<char>| sched.has_request(id) implies sched.meta(id).sequence_id
        < sched.next_sequence_id by {
        let m = sched.meta_index(id);
        assert(sched.known_ids()[m] == id);
        assert(sched.requests[m].sequence_id < sched.next_sequence_id);
    }
    assert forall|i: int| 0 <= i < after.running.len() implies (#[trigger] after.running[i]).sequence_id
        < after.next_sequence_id by {
        if i >= n {
            assert(at[i - n] < k);
            assert(after.running[n + (i - n)].sequence_id == sched.meta(
                sched.waiting[at[i - n]].request_id,
            ).sequence_id);
        }
    }
    assert forall|i: int, j: int| 0 <= i < j < after.running.len() implies (#[trigger] after.running[i]).sequence_id
        < (#[trigger] after.running[j]).sequence_id by {
        if j >= n {
            assert(at[j - n] < k);
            assert(after.running[n + (j - n)].sequence_id == sched.meta(
                sched.waiting[at[j - n]].request_id,
            ).sequence_id);
            if i >= n {
                assert(at[i - n] < at[j - n]);
                assert(after.running[n + (i - n)].sequence_id == sched.meta(
                    sched.waiting[at[i - n]].request_id,
                ).sequence_id);
            } else {
                assert(after.running[i].sequence_id == sched.running[i].sequence_id);
            }
        } else {
            assert(after.running[i].sequence_id == sched.running[i].sequence_id);
            assert(after.running[j].sequence_id == sched.running[j].sequence_id);
        }
    }
    assert forall|i: int, j: int|
        0 <= i < j < after.waiting.len() && after.has_request(
            (#[trigger] after.waiting[i]).request_id,
        ) && after.has_request((#[trigger] after.waiting[j]).request_id) implies after.meta(
        after.waiting[i].request_id,
    ).sequence_id < after.meta(after.waiting[j].request_id).sequence_id by {
        assert(after.waiting[i] == sched.waiting[k + i]);
        assert(after.waiting[j] == sched.waiting[k + j]);
    }
    assert forall|i: int, j: int|
        0 <= i < after.running.len() && 0 <= j < after.waiting.len() && after.has_request(
            (#[trigger] after.waiting[j]).request_id,
        ) implies (#[trigger] after.running[i]).sequence_id < after.meta(
        after.waiting[j].request_id,
    ).sequence_id by {
        assert(after.waiting[j] == sched.waiting[k + j]);
        if i >= n {
            assert(at[i - n] < k);
            assert(after.running[n + (i - n)].sequence_id == sched.meta(
                sched.waiting[at[i - n]].request_id,
            ).sequence_id);
        } else {
            assert(after.running[i].sequence_id == sched.running[i].sequence_id);
        }
    }
}

} // verus!
