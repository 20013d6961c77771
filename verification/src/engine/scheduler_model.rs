//! Mathematical model of the scheduler: its state, the operations of the
//! driver on it, and the step that plans the work of one model pass.
//!
//! A step has three phases. First every running request whose prompt is
//! ingested decodes one token. Next every running request whose prompt is
//! only partly ingested gets its next chunk. Last, requests are admitted
//! from the front of the waiting queue. Each phase goes on while both the
//! batch budget and the token budget last. A running request that cannot
//! get the blocks it needs makes no progress in the step and keeps what it
//! holds: no request is ever evicted, so the list of preempted requests of
//! a plan is always empty, and a full cache shows as requests that wait.

use crate::engine::cache_model::CacheView;
use crate::engine::request::RequestStatus;
use crate::engine::scheduler::SchedulerConfig;
use crate::engine::types::{BlockId, Priority};
use crate::engine::waiting::{enqueue, without, WaitingView};
use vstd::prelude::*;

verus! {

/// What the scheduler keeps of an admitted request.
pub struct MetaView {
    pub request_id: Seq<char>,
    pub sequence_id: nat,
    pub priority: Priority,
    pub arrival_time: u64,
    pub total_prompt_tokens: nat,
    pub max_tokens: nat,
}

/// Progress of a request that has begun processing.
pub struct RunningView {
    pub request_id: Seq<char>,
    pub sequence_id: nat,
    /// Prompt tokens ingested plus tokens generated.
    pub num_tokens_processed: nat,
    pub num_tokens_generated: nat,
    pub block_ids: Seq<BlockId>,
    pub prefill_complete: bool,
}

/// One unit of work of a step.
pub struct WorkView {
    pub request_id: Seq<char>,
    pub sequence_id: nat,
    pub num_tokens: nat,
    pub is_prefill: bool,
    pub block_ids: Seq<BlockId>,
    pub num_computed_tokens: nat,
}

/// The work of a step.
#[verifier::ext_equal]
pub struct PlanView {
    pub decode_requests: Seq<WorkView>,
    pub prefill_requests: Seq<WorkView>,
    pub preempted_requests: Seq<Seq<char>>,
    pub total_tokens: nat,
    pub blocks_allocated: nat,
}

/// State of a scheduler.
#[verifier::ext_equal]
pub struct SchedulerView {
    pub config: SchedulerConfig,
    /// The waiting queue, the request that is served next in front.
    pub waiting: Seq<WaitingView>,
    /// The running requests in the order in which they began to run.
    pub running: Seq<RunningView>,
    /// The admitted requests that have neither finished nor been aborted.
    pub requests: Seq<MetaView>,
    pub next_sequence_id: nat,
}

/// State in the middle of a step: scheduler, cache, the plan so far and
/// what is left of the two budgets.
#[verifier::ext_equal]
pub struct StepView {
    pub sched: SchedulerView,
    pub cache: CacheView,
    pub plan: PlanView,
    pub batch_left: nat,
    pub tokens_left: nat,
}

/// Sum of the token counts of a list of work units.
pub open spec fn tokens_of(work: Seq<WorkView>) -> nat
    decreases work.len(),
{
    if work.len() == 0 {
        0
    } else {
        tokens_of(work.drop_last()) + work.last().num_tokens
    }
}

/// The tokens of a prompt of which `remaining` are not ingested yet that
/// one step takes: no more than the chunk threshold where chunking is on,
/// and no more than the token budget has left.
pub open spec fn chunk(config: SchedulerConfig, remaining: nat, tokens_left: nat) -> nat {
    let clipped = if config.enable_chunked_prefill && remaining
        > config.chunked_prefill_threshold {
        config.chunked_prefill_threshold as nat
    } else {
        remaining
    };
    if clipped <= tokens_left {
        clipped
    } else {
        tokens_left
    }
}

/// The blocks that a table of `have` blocks lacks to hold `tokens` tokens.
pub open spec fn blocks_short(cache: CacheView, tokens: nat, have: nat) -> nat {
    if cache.blocks_for(tokens as int) > have {
        (cache.blocks_for(tokens as int) - have) as nat
    } else {
        0
    }
}

impl PlanView {
    /// A plan without work.
    pub open spec fn empty() -> PlanView {
        PlanView {
            decode_requests: Seq::empty(),
            prefill_requests: Seq::empty(),
            preempted_requests: Seq::empty(),
            total_tokens: 0,
            blocks_allocated: 0,
        }
    }

    /// Whether the plan holds any work.
    pub open spec fn has_work(self) -> bool {
        self.decode_requests.len() > 0 || self.prefill_requests.len() > 0
    }

    /// All work units, decodes first.
    pub open spec fn work(self) -> Seq<WorkView> {
        self.decode_requests + self.prefill_requests
    }
}

impl SchedulerView {
    /// A scheduler without requests.
    pub open spec fn fresh(config: SchedulerConfig) -> SchedulerView {
        SchedulerView {
            config,
            waiting: Seq::empty(),
            running: Seq::empty(),
            requests: Seq::empty(),
            next_sequence_id: 0,
        }
    }

    pub open spec fn running_ids(self) -> Seq<Seq<char>> {
        self.running.map_values(|r: RunningView| r.request_id)
    }

    pub open spec fn known_ids(self) -> Seq<Seq<char>> {
        self.requests.map_values(|m: MetaView| m.request_id)
    }

    /// Whether the request has begun processing.
    pub open spec fn is_running(self, request_id: Seq<char>) -> bool {
        self.running_ids().contains(request_id)
    }

    /// Whether the request is admitted and neither finished nor aborted.
    pub open spec fn has_request(self, request_id: Seq<char>) -> bool {
        self.known_ids().contains(request_id)
    }

    pub open spec fn running_index(self, request_id: Seq<char>) -> int {
        self.running_ids().index_of(request_id)
    }

    pub open spec fn meta_index(self, request_id: Seq<char>) -> int {
        self.known_ids().index_of(request_id)
    }

    /// The progress of a running request.
    pub open spec fn progress(self, request_id: Seq<char>) -> RunningView {
        self.running[self.running_index(request_id)]
    }

    /// What is kept of an admitted request.
    pub open spec fn meta(self, request_id: Seq<char>) -> MetaView {
        self.requests[self.meta_index(request_id)]
    }

    /// Where the request stands: running, waiting, or unknown.
    pub open spec fn status(self, request_id: Seq<char>) -> Option<RequestStatus> {
        if self.is_running(request_id) {
            Some(RequestStatus::Running)
        } else if self.has_request(request_id) {
            Some(RequestStatus::Waiting)
        } else {
            None
        }
    }

    /// The scheduler's invariant: the queue obeys its policy; no request
    /// runs twice or is kept twice; every running request is kept; sequence
    /// numbers are below the next one; and no request has generated more
    /// tokens than it has processed.
    pub open spec fn wf(self) -> bool {
        &&& crate::engine::waiting::queue_wf(self.config.policy, self.waiting)
        &&& self.running_ids().no_duplicates()
        &&& self.known_ids().no_duplicates()
        &&& forall|i: int|
            0 <= i < self.running.len() ==> self.has_request((#[trigger] self.running[i]).request_id)
                && self.running[i].num_tokens_generated <= self.running[i].num_tokens_processed
        &&& forall|i: int|
            0 <= i < self.requests.len() ==> (#[trigger] self.requests[i]).sequence_id
                < self.next_sequence_id
    }

    /// The requests without what is kept of one of them.
    pub open spec fn forget(self, request_id: Seq<char>) -> Seq<MetaView> {
        if self.has_request(request_id) {
            self.requests.remove(self.meta_index(request_id))
        } else {
            self.requests
        }
    }

    /// The running requests without one of them.
    pub open spec fn halt(self, request_id: Seq<char>) -> Seq<RunningView> {
        if self.is_running(request_id) {
            self.running.remove(self.running_index(request_id))
        } else {
            self.running
        }
    }

    /// The scheduler after a request was admitted: it gets the next
    /// sequence number and joins the waiting queue. What was kept under the
    /// same name is replaced.
    pub open spec fn add(
        self,
        request_id: Seq<char>,
        priority: Priority,
        arrival_time: u64,
        total_prompt_tokens: nat,
        max_tokens: nat,
    ) -> SchedulerView {
        let meta = MetaView {
            request_id,
            sequence_id: self.next_sequence_id,
            priority,
            arrival_time,
            total_prompt_tokens,
            max_tokens,
        };
        SchedulerView {
            config: self.config,
            waiting: enqueue(
                self.config.policy,
                self.waiting,
                WaitingView { request_id, priority, arrival_time },
            ),
            running: self.running,
            requests: if self.has_request(request_id) {
                self.requests.update(self.meta_index(request_id), meta)
            } else {
                self.requests.push(meta)
            },
            next_sequence_id: self.next_sequence_id + 1,
        }
    }

    /// The scheduler after the executor reported progress of a request: the
    /// counts grow by what was reported, blocks allocated since join the
    /// block table, and the prompt counts as ingested exactly when the
    /// processed tokens have reached its length. A request that is not
    /// running changes nothing.
    pub open spec fn update(
        self,
        request_id: Seq<char>,
        tokens_processed: nat,
        tokens_generated: nat,
        new_block_ids: Seq<BlockId>,
    ) -> SchedulerView {
        if self.is_running(request_id) {
            let r = self.progress(request_id);
            let processed = r.num_tokens_processed + tokens_processed;
            SchedulerView {
                running: self.running.update(
                    self.running_index(request_id),
                    RunningView {
                        request_id: r.request_id,
                        sequence_id: r.sequence_id,
                        num_tokens_processed: processed,
                        num_tokens_generated: r.num_tokens_generated + tokens_generated,
                        block_ids: r.block_ids + new_block_ids,
                        prefill_complete: if self.has_request(request_id) {
                            processed >= self.meta(request_id).total_prompt_tokens
                        } else {
                            r.prefill_complete
                        },
                    },
                ),
                ..self
            }
        } else {
            self
        }
    }

    /// The scheduler after a request finished: it neither runs nor is kept.
    pub open spec fn finish(self, request_id: Seq<char>) -> SchedulerView {
        SchedulerView {
            running: self.halt(request_id),
            requests: self.forget(request_id),
            ..self
        }
    }

    /// The scheduler after a request was aborted: it neither waits nor runs
    /// nor is kept.
    pub open spec fn abort(self, request_id: Seq<char>) -> SchedulerView {
        SchedulerView {
            waiting: without(self.waiting, request_id),
            running: self.halt(request_id),
            requests: self.forget(request_id),
            ..self
        }
    }

    /// Whether the block table of every running request holds the tokens
    /// that the request has processed.
    pub open spec fn covered(self, block_size: nat) -> bool {
        forall|i: int|
            0 <= i < self.running.len() ==> (#[trigger] self.running[i]).block_ids.len()
                * block_size >= self.running[i].num_tokens_processed
    }
}

/// The cache after a request finished or was aborted: the blocks of a
/// request that ran are released.
pub open spec fn release_request(sched: SchedulerView, cache: CacheView, request_id: Seq<char>) -> CacheView {
    if sched.is_running(request_id) {
        cache.free(request_id)
    } else {
        cache
    }
}

impl StepView {
    /// The state at the start of a step.
    pub open spec fn start(sched: SchedulerView, cache: CacheView) -> StepView {
        StepView {
            sched,
            cache,
            plan: PlanView::empty(),
            batch_left: sched.config.max_batch_size as nat,
            tokens_left: sched.config.max_tokens_per_step as nat,
        }
    }

    /// Whether a budget is used up.
    pub open spec fn spent(self) -> bool {
        self.batch_left == 0 || self.tokens_left == 0
    }

    /// The state after running request `i` was given `tokens` tokens of
    /// work, for which its table was grown by `extra` blocks.
    pub open spec fn grant(self, i: int, tokens: nat, extra: nat, is_prefill: bool) -> StepView {
        let r = self.sched.running[i];
        let block_ids = if extra > 0 {
            r.block_ids + self.cache.granted(extra)
        } else {
            r.block_ids
        };
        let work = WorkView {
            request_id: r.request_id,
            sequence_id: r.sequence_id,
            num_tokens: tokens,
            is_prefill,
            block_ids,
            num_computed_tokens: r.num_tokens_processed,
        };
        StepView {
            sched: SchedulerView {
                running: self.sched.running.update(i, RunningView { block_ids, ..r }),
                ..self.sched
            },
            cache: if extra > 0 {
                self.cache.allocate(r.request_id, extra)
            } else {
                self.cache
            },
            plan: PlanView {
                decode_requests: if is_prefill {
                    self.plan.decode_requests
                } else {
                    self.plan.decode_requests.push(work)
                },
                prefill_requests: if is_prefill {
                    self.plan.prefill_requests.push(work)
                } else {
                    self.plan.prefill_requests
                },
                preempted_requests: self.plan.preempted_requests,
                total_tokens: self.plan.total_tokens + tokens,
                blocks_allocated: self.plan.blocks_allocated + extra,
            },
            batch_left: (self.batch_left - 1) as nat,
            tokens_left: (self.tokens_left - tokens) as nat,
        }
    }

    /// Decode of running request `i`: a request whose prompt is ingested
    /// gets one token, and the blocks it lacks for it. Where they are not
    /// free, the request is skipped.
    pub open spec fn decode_one(self, i: int) -> StepView {
        let r = self.sched.running[i];
        let extra = blocks_short(self.cache, r.num_tokens_processed + 1, r.block_ids.len());
        if r.prefill_complete && self.cache.can_allocate(extra) {
            self.grant(i, 1, extra, false)
        } else {
            self
        }
    }

    /// The decode phase from running request `i` on.
    pub open spec fn decode_from(self, i: int) -> StepView
        decreases self.sched.running.len() - i,
    {
        if i < 0 || i >= self.sched.running.len() || self.spent() {
            self
        } else {
            self.decode_one(i).decode_from(i + 1)
        }
    }

    /// The tokens that running request `i` gets as the next chunk of its
    /// prompt.
    pub open spec fn next_chunk(self, i: int) -> nat {
        let r = self.sched.running[i];
        let total = self.sched.meta(r.request_id).total_prompt_tokens;
        let remaining = if total > r.num_tokens_processed {
            (total - r.num_tokens_processed) as nat
        } else {
            0
        };
        chunk(self.sched.config, remaining, self.tokens_left)
    }

    /// Next chunk of running request `i`: a request whose prompt is partly
    /// ingested gets its next chunk, and the blocks it lacks for it. Where
    /// nothing is left to ingest or the blocks are not free, the request is
    /// skipped.
    pub open spec fn continue_one(self, i: int) -> StepView {
        let r = self.sched.running[i];
        let want = self.next_chunk(i);
        let extra = blocks_short(self.cache, r.num_tokens_processed + want, r.block_ids.len());
        if !r.prefill_complete && self.sched.has_request(r.request_id) && want > 0
            && self.cache.can_allocate(extra) {
            self.grant(i, want, extra, true)
        } else {
            self
        }
    }

    /// The phase of the partly ingested prompts from running request `i` on.
    pub open spec fn continue_from(self, i: int) -> StepView
        decreases self.sched.running.len() - i,
    {
        if i < 0 || i >= self.sched.running.len() || self.spent() {
            self
        } else {
            self.continue_one(i).continue_from(i + 1)
        }
    }

    /// The state after the head of the waiting queue was dropped.
    pub open spec fn pop(self) -> StepView {
        StepView {
            sched: SchedulerView { waiting: self.sched.waiting.skip(1), ..self.sched },
            ..self
        }
    }

    /// Whether the head of the waiting queue is no request to admit: it is
    /// not kept any more, or it runs already.
    pub open spec fn head_stale(self) -> bool {
        let head = self.sched.waiting[0];
        !self.sched.has_request(head.request_id) || self.sched.is_running(head.request_id)
    }

    /// The tokens of its prompt that the head of the waiting queue gets in
    /// this step.
    pub open spec fn head_chunk(self) -> nat {
        chunk(
            self.sched.config,
            self.sched.meta(self.sched.waiting[0].request_id).total_prompt_tokens,
            self.tokens_left,
        )
    }

    /// Whether the head of the waiting queue can be admitted: it gets at
    /// least one token, and the blocks for its chunk are free.
    pub open spec fn head_fits(self) -> bool {
        self.head_chunk() > 0 && self.cache.can_allocate(
            self.cache.blocks_for(self.head_chunk() as int) as nat,
        )
    }

    /// The state after the head of the waiting queue was admitted: it
    /// leaves the queue and runs, with the blocks for its first chunk and
    /// no token processed; its prompt counts as ingested if the chunk is
    /// the whole prompt.
    pub open spec fn admit_head(self) -> StepView {
        let head = self.sched.waiting[0];
        let meta = self.sched.meta(head.request_id);
        let want = self.head_chunk();
        let needed = self.cache.blocks_for(want as int) as nat;
        let block_ids = self.cache.granted(needed);
        StepView {
            sched: SchedulerView {
                waiting: self.sched.waiting.skip(1),
                running: self.sched.running.push(
                    RunningView {
                        request_id: head.request_id,
                        sequence_id: meta.sequence_id,
                        num_tokens_processed: 0,
                        num_tokens_generated: 0,
                        block_ids,
                        prefill_complete: want >= meta.total_prompt_tokens,
                    },
                ),
                ..self.sched
            },
            cache: self.cache.allocate(head.request_id, needed),
            plan: PlanView {
                prefill_requests: self.plan.prefill_requests.push(
                    WorkView {
                        request_id: head.request_id,
                        sequence_id: meta.sequence_id,
                        num_tokens: want,
                        is_prefill: true,
                        block_ids,
                        num_computed_tokens: 0,
                    },
                ),
                total_tokens: self.plan.total_tokens + want,
                blocks_allocated: self.plan.blocks_allocated + block_ids.len(),
                ..self.plan
            },
            batch_left: (self.batch_left - 1) as nat,
            tokens_left: (self.tokens_left - want) as nat,
        }
    }

    /// The admission phase: while the budgets last and requests wait, a
    /// stale head is dropped and a head that fits is admitted; the phase
    /// ends at the first head that does not fit, which stays in the queue.
    pub open spec fn admit_from(self) -> StepView
        decreases self.sched.waiting.len(),
    {
        if self.spent() || self.sched.waiting.len() == 0 {
            self
        } else if self.head_stale() {
            self.pop().admit_from()
        } else if self.head_fits() {
            self.admit_head().admit_from()
        } else {
            self
        }
    }

    /// One whole step.
    pub open spec fn run(sched: SchedulerView, cache: CacheView) -> StepView {
        StepView::start(sched, cache).decode_from(0).continue_from(0).admit_from()
    }
}

} // verus!
