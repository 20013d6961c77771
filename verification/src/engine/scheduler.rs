//! Request scheduler: picks, for every step of the model, the running
//! requests that decode, the prompts that are ingested, and the blocks of
//! cache each of them gets.

use crate::engine::cache_model::lemma_index_of_unique;
use crate::engine::kv_cache::{copy_block_ids, lemma_ceil_div_last, KVCacheManager};
use crate::engine::request::{EngineCoreRequest, RequestStatus};
use crate::engine::scheduler_lemmas::{
    lemma_abort_wf, lemma_add_wf, lemma_finish_wf, lemma_update_wf,
};
use crate::engine::scheduler_model::{
    blocks_short, chunk, release_request, tokens_of, MetaView, PlanView, RunningView,
    SchedulerView, StepView, WorkView,
};
use crate::engine::step_lemmas::{
    lemma_admit_head, lemma_chunk, lemma_continue_one, lemma_decode_one, lemma_grant, lemma_pop,
    lemma_run, lemma_start_inv,
};
use crate::engine::types::{BlockId, Priority, RequestId, SequenceId};
use crate::engine::waiting::{WaitingQueue, WaitingRequest};
use vstd::prelude::*;

verus! {

/// Policy that orders the waiting queue.
#[derive(Debug, Clone, Copy, PartialEq, Eq, Structural)]
pub enum SchedulingPolicy {
    /// First come, first served.
    FCFS,
    /// Higher priority first; among equals the earlier arrival; among
    /// those the smaller name.
    Priority,
}

impl Default for SchedulingPolicy {
    fn default() -> (policy: Self)
        ensures
            policy == SchedulingPolicy::FCFS,
    {
        SchedulingPolicy::FCFS
    }
}

/// Budgets and switches of the scheduler.
#[derive(Debug, Clone, Copy)]
pub struct SchedulerConfig {
    /// Upper bound on the work units of a step.
    pub max_batch_size: usize,
    /// Upper bound on the tokens of a step.
    pub max_tokens_per_step: usize,
    /// Policy of the waiting queue.
    pub policy: SchedulingPolicy,
    /// Whether a long prompt is ingested in chunks.
    pub enable_chunked_prefill: bool,
    /// Largest chunk of a prompt.
    pub chunked_prefill_threshold: usize,
    /// Whether running requests may be evicted when the cache is full.
    /// No request is ever evicted; the switch is kept for the driver.
    pub enable_preemption: bool,
}

impl Default for SchedulerConfig {
    fn default() -> (config: Self)
        ensures
            config == (SchedulerConfig {
                max_batch_size: 8,
                max_tokens_per_step: 512,
                policy: SchedulingPolicy::FCFS,
                enable_chunked_prefill: true,
                chunked_prefill_threshold: 256,
                enable_preemption: true,
            }),
    {
        SchedulerConfig {
            max_batch_size: 8,
            max_tokens_per_step: 512,
            policy: SchedulingPolicy::FCFS,
            enable_chunked_prefill: true,
            chunked_prefill_threshold: 256,
            enable_preemption: true,
        }
    }
}

/// A request that has been scheduled for processing.
#[derive(Debug, Clone)]
pub struct ScheduledRequest {
    pub request_id: RequestId,
    pub sequence_id: SequenceId,
    /// Number of tokens to process in this step.
    pub num_tokens: usize,
    /// Whether the tokens belong to the prompt.
    pub is_prefill: bool,
    /// The whole block table of the request.
    pub block_ids: Vec<BlockId>,
    /// Number of tokens processed before this step.
    pub num_computed_tokens: usize,
}

impl View for ScheduledRequest {
    type V = WorkView;

    open spec fn view(&self) -> WorkView {
        WorkView {
            request_id: self.request_id@,
            sequence_id: self.sequence_id as nat,
            num_tokens: self.num_tokens as nat,
            is_prefill: self.is_prefill,
            block_ids: self.block_ids@,
            num_computed_tokens: self.num_computed_tokens as nat,
        }
    }
}

/// Result of scheduling a step.
#[derive(Debug, Clone)]
pub struct ScheduleResult {
    /// Running requests that decode.
    pub decode_requests: Vec<ScheduledRequest>,
    /// Requests whose prompt is ingested, in whole or in part.
    pub prefill_requests: Vec<ScheduledRequest>,
    /// Requests evicted to make room; always empty.
    pub preempted_requests: Vec<RequestId>,
    /// Tokens to process in this step.
    pub total_tokens: usize,
    /// Blocks allocated in this step.
    pub blocks_allocated: usize,
}

impl View for ScheduleResult {
    type V = PlanView;

    open spec fn view(&self) -> PlanView {
        PlanView {
            decode_requests: self.decode_requests@.map_values(|w: ScheduledRequest| w@),
            prefill_requests: self.prefill_requests@.map_values(|w: ScheduledRequest| w@),
            preempted_requests: self.preempted_requests@.map_values(|id: RequestId| id@),
            total_tokens: self.total_tokens as nat,
            blocks_allocated: self.blocks_allocated as nat,
        }
    }
}

/// The names without those that repeat the name just before them.
pub open spec fn without_repeats(ids: Seq<Seq<char>>) -> Seq<Seq<char>>
    decreases ids.len(),
{
    if ids.len() <= 1 {
        ids
    } else if ids.last() == ids[ids.len() - 2] {
        without_repeats(ids.drop_last())
    } else {
        without_repeats(ids.drop_last()).push(ids.last())
    }
}

/// A list of names and the same list without repeats end alike.
pub proof fn lemma_without_repeats_last(ids: Seq<Seq<char>>)
    requires
        ids.len() > 0,
    ensures
        without_repeats(ids).len() > 0,
        without_repeats(ids).last() == ids.last(),
    decreases ids.len(),
{
    if ids.len() > 1 && ids.last() == ids[ids.len() - 2] {
        lemma_without_repeats_last(ids.drop_last());
    }
}

impl ScheduleResult {
    /// A result without work.
    pub fn empty() -> (result: Self)
        ensures
            result@ == PlanView::empty(),
    {
        let result = ScheduleResult {
            decode_requests: Vec::new(),
            prefill_requests: Vec::new(),
            preempted_requests: Vec::new(),
            total_tokens: 0,
            blocks_allocated: 0,
        };
        assert(result@ =~= PlanView::empty());
        result
    }

    /// Whether there is any work to do.
    pub fn has_work(&self) -> (work: bool)
        ensures
            work == self@.has_work(),
    {
        self.decode_requests.len() > 0 || self.prefill_requests.len() > 0
    }

    /// The names of all work units, decodes first.
    pub open spec fn work_ids(&self) -> Seq<Seq<char>> {
        self@.work().map_values(|w: WorkView| w.request_id)
    }

    /// The names of all scheduled requests, decodes first, a name that
    /// repeats the one before it left out.
    pub fn all_request_ids(&self) -> (ids: Vec<RequestId>)
        ensures
            ids@.map_values(|id: RequestId| id@) == without_repeats(self.work_ids()),
    {
        let mut ids: Vec<RequestId> = Vec::new();
        let ghost all = self.work_ids();
        let decodes: usize = self.decode_requests.len();
        let prefills: usize = self.prefill_requests.len();
        let mut i: usize = 0;
        assert(ids@.map_values(|id: RequestId| id@) =~= without_repeats(all.take(0)));
        while i < decodes
            invariant
                i <= decodes,
                decodes == self.decode_requests@.len(),
                all == self.work_ids(),
                ids@.map_values(|id: RequestId| id@) == without_repeats(all.take(i as int)),
            decreases decodes - i,
        {
            proof {
                assert(all[i as int] == self.decode_requests@[i as int].request_id@);
            }
            push_unless_repeated(&mut ids, &self.decode_requests[i].request_id, Ghost(all), Ghost(i as int));
            i += 1;
        }
        let mut j: usize = 0;
        while j < prefills
            invariant
                j <= prefills,
                i == decodes,
                decodes == self.decode_requests@.len(),
                prefills == self.prefill_requests@.len(),
                all == self.work_ids(),
                ids@.map_values(|id: RequestId| id@) == without_repeats(all.take(decodes + j)),
            decreases prefills - j,
        {
            proof {
                assert(all[decodes + j] == self.prefill_requests@[j as int].request_id@);
            }
            push_unless_repeated(
                &mut ids,
                &self.prefill_requests[j].request_id,
                Ghost(all),
                Ghost(decodes + j),
            );
            j += 1;
        }
        assert(all.take(decodes + prefills) =~= all);
        ids
    }
}

/// Appends the name at index `at` of `all`, unless it repeats the one
/// before it.
fn push_unless_repeated(
    ids: &mut Vec<RequestId>,
    id: &RequestId,
    Ghost(all): Ghost<Seq<Seq<char>>>,
    Ghost(at): Ghost<int>,
)
    requires
        0 <= at < all.len(),
        all[at] == id@,
        old(ids)@.map_values(|id: RequestId| id@) == without_repeats(all.take(at)),
    ensures
        final(ids)@.map_values(|id: RequestId| id@) == without_repeats(all.take(at + 1)),
{
    let ghost prefix = all.take(at);
    let ghost next = all.take(at + 1);
    proof {
        assert(next.drop_last() =~= prefix);
        assert(next.last() == id@);
        if at > 0 {
            lemma_without_repeats_last(prefix);
            assert(prefix.last() == next[next.len() - 2]);
        }
    }
    let n: usize = ids.len();
    let ghost before = ids@.map_values(|id: RequestId| id@);
    if n > 0 && ids[n - 1] == *id {
        assert(before.last() == id@);
    } else {
        ids.push(id.clone());
        proof {
            assert(ids@.map_values(|id: RequestId| id@) =~= before.push(id@));
            if at > 0 {
                assert(before.last() != id@);
            } else {
                assert(prefix.len() == 0);
            }
        }
    }
}

/// The tokens of a prompt that one step takes.
fn chunk_tokens(config: &SchedulerConfig, remaining: usize, tokens_left: usize) -> (want: usize)
    ensures
        want == chunk(*config, remaining as nat, tokens_left as nat),
{
    let clipped: usize = if config.enable_chunked_prefill && remaining
        > config.chunked_prefill_threshold {
        config.chunked_prefill_threshold
    } else {
        remaining
    };
    if clipped <= tokens_left {
        clipped
    } else {
        tokens_left
    }
}

/// The blocks that a table of `have` blocks lacks to hold `tokens` more
/// tokens behind `processed` ones; `None` where the cache has not that
/// many free.
fn shortfall(kv_cache: &KVCacheManager, processed: usize, tokens: usize, have: usize) -> (extra: Option<
    usize,
>)
    requires
        kv_cache.wf(),
        tokens >= 1,
        processed + tokens - 1 <= usize::MAX,
    ensures
        extra is Some <==> kv_cache@.can_allocate(
            blocks_short(kv_cache@, (processed + tokens) as nat, have as nat),
        ),
        extra is Some ==> extra->0 == blocks_short(
            kv_cache@,
            (processed + tokens) as nat,
            have as nat,
        ),
{
    let block_size: usize = kv_cache.config().block_size;
    let last: usize = processed + (tokens - 1);
    let whole: usize = last / block_size;
    proof {
        lemma_ceil_div_last(processed + tokens, block_size as int);
    }
    if whole >= have {
        let lacking: usize = whole - have;
        if lacking < kv_cache.num_free_blocks() {
            Some(lacking + 1)
        } else {
            None
        }
    } else {
        Some(0)
    }
}

/// What the scheduler keeps of an admitted request.
#[derive(Debug, Clone)]
struct RequestMetadata {
    request_id: RequestId,
    sequence_id: SequenceId,
    priority: Priority,
    arrival_time: u64,
    total_prompt_tokens: usize,
    max_tokens: usize,
}

impl View for RequestMetadata {
    type V = MetaView;

    closed spec fn view(&self) -> MetaView {
        MetaView {
            request_id: self.request_id@,
            sequence_id: self.sequence_id as nat,
            priority: self.priority,
            arrival_time: self.arrival_time,
            total_prompt_tokens: self.total_prompt_tokens as nat,
            max_tokens: self.max_tokens as nat,
        }
    }
}

/// Progress of a running request.
#[derive(Debug, Clone)]
struct RunningRequest {
    request_id: RequestId,
    sequence_id: SequenceId,
    num_tokens_processed: usize,
    num_tokens_generated: usize,
    block_ids: Vec<BlockId>,
    prefill_complete: bool,
}

impl View for RunningRequest {
    type V = RunningView;

    closed spec fn view(&self) -> RunningView {
        RunningView {
            request_id: self.request_id@,
            sequence_id: self.sequence_id as nat,
            num_tokens_processed: self.num_tokens_processed as nat,
            num_tokens_generated: self.num_tokens_generated as nat,
            block_ids: self.block_ids@,
            prefill_complete: self.prefill_complete,
        }
    }
}

/// Request scheduler.
pub struct Scheduler {
    config: SchedulerConfig,
    waiting: WaitingQueue,
    /// Running requests in the order in which they began to run.
    running: Vec<RunningRequest>,
    /// One entry per admitted request that has not ended.
    requests: Vec<RequestMetadata>,
    next_sequence_id: SequenceId,
}

impl View for Scheduler {
    type V = SchedulerView;

    closed spec fn view(&self) -> SchedulerView {
        SchedulerView {
            config: self.config,
            waiting: self.waiting@,
            running: self.running@.map_values(|r: RunningRequest| r@),
            requests: self.requests@.map_values(|m: RequestMetadata| m@),
            next_sequence_id: self.next_sequence_id as nat,
        }
    }
}

impl Scheduler {
    /// The waiting queue follows the configured policy.
    pub closed spec fn consistent(&self) -> bool {
        self.waiting.spec_policy() == self.config.policy
    }

    /// The scheduler's invariant.
    pub open spec fn wf(&self) -> bool {
        self@.wf() && self.consistent() && self@.next_sequence_id <= u64::MAX
    }

    /// Creates a scheduler without requests.
    pub fn new(config: SchedulerConfig) -> (scheduler: Self)
        ensures
            scheduler.wf(),
            scheduler@ == SchedulerView::fresh(config),
    {
        let scheduler = Scheduler {
            config,
            waiting: WaitingQueue::new(config.policy),
            running: Vec::new(),
            requests: Vec::new(),
            next_sequence_id: 0,
        };
        assert(scheduler@ =~= SchedulerView::fresh(config));
        scheduler
    }

    /// Index of a running request.
    fn find_running(&self, request_id: &RequestId) -> (index: Option<usize>)
        ensures
            match index {
                Some(i) => i < self@.running.len() && self@.running_ids()[i as int]
                    == request_id@,
                None => !self@.is_running(request_id@),
            },
    {
        let mut i: usize = 0;
        while i < self.running.len()
            invariant
                i <= self.running@.len(),
                forall|j: int| 0 <= j < i ==> self@.running_ids()[j] != request_id@,
            decreases self.running@.len() - i,
        {
            if self.running[i].request_id == *request_id {
                return Some(i);
            }
            i += 1;
        }
        None
    }

    /// Index of what is kept of a request.
    fn find_request(&self, request_id: &RequestId) -> (index: Option<usize>)
        ensures
            match index {
                Some(i) => i < self@.requests.len() && self@.known_ids()[i as int] == request_id@,
                None => !self@.has_request(request_id@),
            },
    {
        let mut i: usize = 0;
        while i < self.requests.len()
            invariant
                i <= self.requests@.len(),
                forall|j: int| 0 <= j < i ==> self@.known_ids()[j] != request_id@,
            decreases self.requests@.len() - i,
        {
            if self.requests[i].request_id == *request_id {
                return Some(i);
            }
            i += 1;
        }
        None
    }

    /// The sequence number that the next admitted request gets.
    pub fn next_sequence_id(&self) -> (next: SequenceId)
        ensures
            next == self@.next_sequence_id,
    {
        self.next_sequence_id
    }

    /// Admits a request: it gets the next sequence number and joins the
    /// waiting queue.
    pub fn add_request(&mut self, request: &EngineCoreRequest)
        requires
            old(self).wf(),
            old(self)@.next_sequence_id < u64::MAX,
        ensures
            final(self).wf(),
            final(self)@ == old(self)@.add(
                request.id@,
                request.priority,
                request.arrival_time,
                request.prompt_tokens@.len(),
                request.params.max_tokens as nat,
            ),
    {
        proof {
            lemma_add_wf(
                self@,
                request.id@,
                request.priority,
                request.arrival_time,
                request.prompt_tokens@.len(),
                request.params.max_tokens as nat,
            );
        }
        let sequence_id: SequenceId = self.next_sequence_id;
        self.next_sequence_id += 1;
        let metadata = RequestMetadata {
            request_id: request.id.clone(),
            sequence_id,
            priority: request.priority,
            arrival_time: request.arrival_time,
            total_prompt_tokens: request.num_prompt_tokens(),
            max_tokens: request.params.max_tokens,
        };
        match self.find_request(&request.id) {
            Some(at) => {
                proof {
                    lemma_index_of_unique(old(self)@.known_ids(), at as int);
                }
                self.requests[at] = metadata;
            },
            None => {
                self.requests.push(metadata);
            },
        }
        self.waiting.push(
            WaitingRequest {
                request_id: request.id.clone(),
                priority: request.priority,
                arrival_time: request.arrival_time,
            },
        );
        assert(self@.requests =~= old(self)@.add(
            request.id@,
            request.priority,
            request.arrival_time,
            request.prompt_tokens@.len(),
            request.params.max_tokens as nat,
        ).requests);
        assert(self@.running =~= old(self)@.running);
    }

    /// Records the progress that the executor reports for a request after
    /// a step. A request that is not running is ignored.
    pub fn update_after_step(
        &mut self,
        request_id: &RequestId,
        tokens_processed: usize,
        tokens_generated: usize,
        new_block_ids: Vec<BlockId>,
    )
        requires
            old(self).wf(),
            tokens_generated <= tokens_processed,
            old(self)@.is_running(request_id@) ==> old(self)@.progress(
                request_id@,
            ).num_tokens_processed + tokens_processed <= usize::MAX,
        ensures
            final(self).wf(),
            final(self)@ == old(self)@.update(
                request_id@,
                tokens_processed as nat,
                tokens_generated as nat,
                new_block_ids@,
            ),
            old(self)@.is_running(request_id@) ==> (final(self)@.progress(
                request_id@,
            ).prefill_complete <==> final(self)@.progress(request_id@).num_tokens_processed
                >= final(self)@.meta(request_id@).total_prompt_tokens),
    {
        proof {
            lemma_update_wf(
                self@,
                request_id@,
                tokens_processed as nat,
                tokens_generated as nat,
                new_block_ids@,
            );
        }
        match self.find_running(request_id) {
            Some(at) => {
                proof {
                    lemma_index_of_unique(old(self)@.running_ids(), at as int);
                    assert(self@.running[at as int].num_tokens_generated
                        <= self@.running[at as int].num_tokens_processed);
                }
                self.running[at].num_tokens_processed += tokens_processed;
                self.running[at].num_tokens_generated += tokens_generated;
                let mut k: usize = 0;
                while k < new_block_ids.len()
                    invariant
                        k <= new_block_ids@.len(),
                        at < self.running@.len(),
                        self.running@.len() == old(self).running@.len(),
                        self.config == old(self).config,
                        self.waiting == old(self).waiting,
                        self.requests == old(self).requests,
                        self.next_sequence_id == old(self).next_sequence_id,
                        forall|j: int|
                            0 <= j < self.running@.len() && j != at ==> self.running@[j]
                                == old(self).running@[j],
                        self.running@[at as int].request_id == old(self).running@[at as int].request_id,
                        self.running@[at as int].sequence_id == old(self).running@[at as int].sequence_id,
                        self.running@[at as int].prefill_complete == old(self).running@[at as int].prefill_complete,
                        self.running@[at as int].num_tokens_processed == old(self).running@[at as int].num_tokens_processed
                            + tokens_processed,
                        self.running@[at as int].num_tokens_generated == old(self).running@[at as int].num_tokens_generated
                            + tokens_generated,
                        self.running@[at as int].block_ids@ == old(self).running@[at as int].block_ids@
                            + new_block_ids@.take(k as int),
                    decreases new_block_ids@.len() - k,
                {
                    self.running[at].block_ids.push(new_block_ids[k]);
                    k += 1;
                    assert(self.running@[at as int].block_ids@ =~= old(self).running@[at as int].block_ids@
                        + new_block_ids@.take(k as int));
                }
                assert(new_block_ids@.take(k as int) =~= new_block_ids@);
                match self.find_request(request_id) {
                    Some(m) => {
                        proof {
                            lemma_index_of_unique(old(self)@.known_ids(), m as int);
                        }
                        self.running[at].prefill_complete = self.running[at].num_tokens_processed
                            >= self.requests[m].total_prompt_tokens;
                    },
                    None => {},
                }
                assert(self@.running =~= old(self)@.update(
                    request_id@,
                    tokens_processed as nat,
                    tokens_generated as nat,
                    new_block_ids@,
                ).running);
            },
            None => {},
        }
    }

    /// Removes a request that has ended and releases its blocks.
    pub fn finish_request(&mut self, request_id: &RequestId, kv_cache: &mut KVCacheManager)
        requires
            old(self).wf(),
            old(kv_cache).wf(),
        ensures
            final(self).wf(),
            final(kv_cache).wf(),
            final(self)@ == old(self)@.finish(request_id@),
            final(kv_cache)@ == release_request(old(self)@, old(kv_cache)@, request_id@),
    {
        proof {
            lemma_finish_wf(self@, kv_cache@, request_id@);
        }
        self.stop_running(request_id, kv_cache);
        self.forget_request(request_id);
    }

    /// Takes a request out of the running requests and releases its
    /// blocks; tells whether it was running.
    fn stop_running(&mut self, request_id: &RequestId, kv_cache: &mut KVCacheManager) -> (was_running: bool)
        requires
            old(self)@.running_ids().no_duplicates(),
            old(kv_cache).wf(),
        ensures
            was_running == old(self)@.is_running(request_id@),
            final(kv_cache).wf(),
            final(kv_cache)@ == release_request(old(self)@, old(kv_cache)@, request_id@),
            final(self)@ == (SchedulerView {
                running: old(self)@.halt(request_id@),
                ..old(self)@
            }),
            final(self).consistent() == old(self).consistent(),
    {
        match self.find_running(request_id) {
            Some(at) => {
                proof {
                    lemma_index_of_unique(old(self)@.running_ids(), at as int);
                }
                let running = self.running.remove(at);
                kv_cache.free(&running.request_id);
                assert(self@.running =~= old(self)@.running.remove(at as int));
                true
            },
            None => false,
        }
    }

    /// Drops what is kept of a request.
    fn forget_request(&mut self, request_id: &RequestId)
        requires
            old(self)@.known_ids().no_duplicates(),
        ensures
            final(self)@ == (SchedulerView {
                requests: old(self)@.forget(request_id@),
                ..old(self)@
            }),
            final(self).consistent() == old(self).consistent(),
    {
        match self.find_request(request_id) {
            Some(at) => {
                proof {
                    lemma_index_of_unique(old(self)@.known_ids(), at as int);
                }
                self.requests.remove(at);
                assert(self@.requests =~= old(self)@.requests.remove(at as int));
            },
            None => {},
        }
    }

    /// Aborts a request, wherever it stands, and releases its blocks.
    /// Returns whether the request was running; an unknown name is ignored.
    pub fn abort_request(&mut self, request_id: &RequestId, kv_cache: &mut KVCacheManager) -> (was_running: bool)
        requires
            old(self).wf(),
            old(kv_cache).wf(),
        ensures
            final(self).wf(),
            final(kv_cache).wf(),
            was_running == old(self)@.is_running(request_id@),
            final(self)@ == old(self)@.abort(request_id@),
            final(kv_cache)@ == release_request(old(self)@, old(kv_cache)@, request_id@),
    {
        proof {
            lemma_abort_wf(self@, kv_cache@, request_id@);
        }
        self.waiting.remove(request_id);
        let was_running = self.stop_running(request_id, kv_cache);
        self.forget_request(request_id);
        was_running
    }

    /// Whether a request is admitted and has not ended.
    pub fn has_request(&self, request_id: &RequestId) -> (known: bool)
        ensures
            known == self@.has_request(request_id@),
    {
        self.find_request(request_id).is_some()
    }

    /// Where a request stands.
    pub fn get_status(&self, request_id: &RequestId) -> (status: Option<RequestStatus>)
        ensures
            status == self@.status(request_id@),
    {
        if self.find_running(request_id).is_some() {
            Some(RequestStatus::Running)
        } else if self.find_request(request_id).is_some() {
            Some(RequestStatus::Waiting)
        } else {
            None
        }
    }

    /// Number of entries in the waiting queue.
    pub fn waiting_count(&self) -> (n: usize)
        ensures
            n == self@.waiting.len(),
    {
        self.waiting.len()
    }

    /// Number of running requests.
    pub fn running_count(&self) -> (n: usize)
        ensures
            n == self@.running.len(),
    {
        self.running.len()
    }

    /// Whether any request waits or runs.
    pub fn has_pending_work(&self) -> (pending: bool)
        ensures
            pending == (self@.waiting.len() > 0 || self@.running.len() > 0),
    {
        self.waiting_count() > 0 || self.running_count() > 0
    }

    /// The state of a step that is under way.
    spec fn step_view(
        &self,
        kv_cache: &KVCacheManager,
        result: &ScheduleResult,
        batch_left: usize,
        tokens_left: usize,
    ) -> StepView {
        StepView {
            sched: self@,
            cache: kv_cache@,
            plan: result@,
            batch_left: batch_left as nat,
            tokens_left: tokens_left as nat,
        }
    }

    /// Gives running request `i` work of `tokens` tokens and grows its
    /// block table by `extra` blocks.
    fn grant_work(
        &mut self,
        i: usize,
        tokens: usize,
        extra: usize,
        is_prefill: bool,
        kv_cache: &mut KVCacheManager,
        result: &mut ScheduleResult,
        batch_left: &mut usize,
        tokens_left: &mut usize,
        Ghost(free_at_start): Ghost<nat>,
    )
        requires
            old(self).consistent(),
            old(self)@.next_sequence_id <= u64::MAX,
            old(kv_cache).consistent(),
            old(self).step_view(old(kv_cache), old(result), *old(batch_left), *old(tokens_left)).inv(
                free_at_start,
            ),
            free_at_start <= usize::MAX,
            i < old(self)@.running.len(),
            1 <= tokens <= *old(tokens_left),
            *old(batch_left) >= 1,
            old(kv_cache)@.can_allocate(extra as nat),
        ensures
            final(self).consistent(),
            final(kv_cache).consistent(),
            final(self).step_view(
                final(kv_cache),
                final(result),
                *final(batch_left),
                *final(tokens_left),
            ) == old(self).step_view(
                old(kv_cache),
                old(result),
                *old(batch_left),
                *old(tokens_left),
            ).grant(i as int, tokens as nat, extra as nat, is_prefill),
    {
        let ghost before = self.step_view(kv_cache, result, *batch_left, *tokens_left);
        proof {
            lemma_grant(before, i as int, tokens as nat, extra as nat, is_prefill, free_at_start);
        }
        if extra > 0 {
            let granted = kv_cache.extend(&self.running[i].request_id, extra);
            let mut k: usize = 0;
            while k < granted.len()
                invariant
                    k <= granted@.len(),
                    i < self.running@.len(),
                    self.running@.len() == old(self).running@.len(),
                    self.config == old(self).config,
                    self.waiting == old(self).waiting,
                    self.requests == old(self).requests,
                    self.next_sequence_id == old(self).next_sequence_id,
                    forall|j: int|
                        0 <= j < self.running@.len() && j != i ==> self.running@[j] == old(
                            self,
                        ).running@[j],
                    self.running@[i as int].request_id == old(self).running@[i as int].request_id,
                    self.running@[i as int].sequence_id == old(self).running@[i as int].sequence_id,
                    self.running@[i as int].prefill_complete == old(self).running@[i as int].prefill_complete,
                    self.running@[i as int].num_tokens_processed == old(self).running@[i as int].num_tokens_processed,
                    self.running@[i as int].num_tokens_generated == old(self).running@[i as int].num_tokens_generated,
                    self.running@[i as int].block_ids@ == old(self).running@[i as int].block_ids@
                        + granted@.take(k as int),
                decreases granted@.len() - k,
            {
                self.running[i].block_ids.push(granted[k]);
                k += 1;
                assert(self.running@[i as int].block_ids@ =~= old(self).running@[i as int].block_ids@
                    + granted@.take(k as int));
            }
            assert(granted@.take(k as int) =~= granted@);
        }
        let work = ScheduledRequest {
            request_id: self.running[i].request_id.clone(),
            sequence_id: self.running[i].sequence_id,
            num_tokens: tokens,
            is_prefill,
            block_ids: copy_block_ids(&self.running[i].block_ids),
            num_computed_tokens: self.running[i].num_tokens_processed,
        };
        if is_prefill {
            result.prefill_requests.push(work);
        } else {
            result.decode_requests.push(work);
        }
        result.total_tokens += tokens;
        result.blocks_allocated += extra;
        *batch_left -= 1;
        *tokens_left -= tokens;
        proof {
            let after = self.step_view(kv_cache, result, *batch_left, *tokens_left);
            let target = before.grant(i as int, tokens as nat, extra as nat, is_prefill);
            assert(after.sched.running =~= target.sched.running);
            assert(after.plan.decode_requests =~= target.plan.decode_requests);
            assert(after.plan.prefill_requests =~= target.plan.prefill_requests);
            assert(after.plan.preempted_requests =~= target.plan.preempted_requests);
            assert(after.plan =~= target.plan);
            assert(after.sched =~= target.sched);
            assert(after =~= target);
        }
    }

    /// Decode of running request `i`.
    fn decode_at(
        &mut self,
        i: usize,
        kv_cache: &mut KVCacheManager,
        result: &mut ScheduleResult,
        batch_left: &mut usize,
        tokens_left: &mut usize,
        Ghost(free_at_start): Ghost<nat>,
    )
        requires
            old(self).consistent(),
            old(self)@.next_sequence_id <= u64::MAX,
            old(kv_cache).consistent(),
            old(self).step_view(old(kv_cache), old(result), *old(batch_left), *old(tokens_left)).inv(
                free_at_start,
            ),
            free_at_start <= usize::MAX,
            i < old(self)@.running.len(),
            *old(batch_left) > 0,
            *old(tokens_left) > 0,
        ensures
            final(self).consistent(),
            final(kv_cache).consistent(),
            final(self).step_view(
                final(kv_cache),
                final(result),
                *final(batch_left),
                *final(tokens_left),
            ) == old(self).step_view(
                old(kv_cache),
                old(result),
                *old(batch_left),
                *old(tokens_left),
            ).decode_one(i as int),
    {
        if self.running[i].prefill_complete {
            let short = shortfall(
                kv_cache,
                self.running[i].num_tokens_processed,
                1,
                self.running[i].block_ids.len(),
            );
            match short {
                Some(extra) => {
                    self.grant_work(
                        i,
                        1,
                        extra,
                        false,
                        kv_cache,
                        result,
                        batch_left,
                        tokens_left,
                        Ghost(free_at_start),
                    );
                },
                None => {},
            }
        }
    }

    /// Next chunk of the prompt of running request `i`.
    fn continue_at(
        &mut self,
        i: usize,
        kv_cache: &mut KVCacheManager,
        result: &mut ScheduleResult,
        batch_left: &mut usize,
        tokens_left: &mut usize,
        Ghost(free_at_start): Ghost<nat>,
    )
        requires
            old(self).consistent(),
            old(self)@.next_sequence_id <= u64::MAX,
            old(kv_cache).consistent(),
            old(self).step_view(old(kv_cache), old(result), *old(batch_left), *old(tokens_left)).inv(
                free_at_start,
            ),
            free_at_start <= usize::MAX,
            i < old(self)@.running.len(),
            *old(batch_left) > 0,
            *old(tokens_left) > 0,
        ensures
            final(self).consistent(),
            final(kv_cache).consistent(),
            final(self).step_view(
                final(kv_cache),
                final(result),
                *final(batch_left),
                *final(tokens_left),
            ) == old(self).step_view(
                old(kv_cache),
                old(result),
                *old(batch_left),
                *old(tokens_left),
            ).continue_one(i as int),
    {
        if !self.running[i].prefill_complete {
            match self.find_request(&self.running[i].request_id) {
                Some(m) => {
                    proof {
                        lemma_index_of_unique(self@.known_ids(), m as int);
                    }
                    let total: usize = self.requests[m].total_prompt_tokens;
                    let processed: usize = self.running[i].num_tokens_processed;
                    let remaining: usize = if total > processed {
                        total - processed
                    } else {
                        0
                    };
                    let want: usize = chunk_tokens(&self.config, remaining, *tokens_left);
                    if want > 0 {
                        let short = shortfall(
                            kv_cache,
                            processed,
                            want,
                            self.running[i].block_ids.len(),
                        );
                        match short {
                            Some(extra) => {
                                self.grant_work(
                                    i,
                                    want,
                                    extra,
                                    true,
                                    kv_cache,
                                    result,
                                    batch_left,
                                    tokens_left,
                                    Ghost(free_at_start),
                                );
                            },
                            None => {},
                        }
                    }
                },
                None => {},
            }
        }
    }

    /// Serves the head of the waiting queue: drops it if it is stale,
    /// admits it if it fits. Returns whether the admission phase goes on.
    fn admit_next(
        &mut self,
        kv_cache: &mut KVCacheManager,
        result: &mut ScheduleResult,
        batch_left: &mut usize,
        tokens_left: &mut usize,
        Ghost(free_at_start): Ghost<nat>,
    ) -> (go_on: bool)
        requires
            old(self).consistent(),
            old(self)@.next_sequence_id <= u64::MAX,
            old(kv_cache).consistent(),
            old(self).step_view(old(kv_cache), old(result), *old(batch_left), *old(tokens_left)).inv(
                free_at_start,
            ),
            free_at_start <= usize::MAX,
            *old(batch_left) > 0,
            *old(tokens_left) > 0,
        ensures
            final(self).consistent(),
            final(self)@.next_sequence_id <= u64::MAX,
            final(kv_cache).consistent(),
            final(self).step_view(
                final(kv_cache),
                final(result),
                *final(batch_left),
                *final(tokens_left),
            ).inv(free_at_start),
            final(self).step_view(
                final(kv_cache),
                final(result),
                *final(batch_left),
                *final(tokens_left),
            ).admit_from() == old(self).step_view(
                old(kv_cache),
                old(result),
                *old(batch_left),
                *old(tokens_left),
            ).admit_from(),
            go_on ==> final(self)@.waiting.len() < old(self)@.waiting.len(),
            final(self)@.waiting.len() <= old(self)@.waiting.len(),
            !go_on ==> final(self).step_view(
                final(kv_cache),
                final(result),
                *final(batch_left),
                *final(tokens_left),
            ).admit_from() == final(self).step_view(
                final(kv_cache),
                final(result),
                *final(batch_left),
                *final(tokens_left),
            ),
    {
        let ghost before = self.step_view(kv_cache, result, *batch_left, *tokens_left);
        let request_id: RequestId = match self.waiting.peek() {
            Some(head) => head.request_id.clone(),
            None => {
                return false;
            },
        };
        let priority_known = self.find_request(&request_id);
        let m: usize = match priority_known {
            Some(m) => m,
            None => {
                proof {
                    lemma_pop(before, free_at_start);
                }
                self.waiting.pop();
                assert(self.step_view(kv_cache, result, *batch_left, *tokens_left) =~= before.pop());
                return true;
            },
        };
        if self.find_running(&request_id).is_some() {
            proof {
                lemma_pop(before, free_at_start);
            }
            self.waiting.pop();
            assert(self.step_view(kv_cache, result, *batch_left, *tokens_left) =~= before.pop());
            return true;
        }
        proof {
            lemma_index_of_unique(self@.known_ids(), m as int);
            lemma_chunk(
                self@.config,
                self@.meta(request_id@).total_prompt_tokens,
                *tokens_left as nat,
            );
        }
        let total: usize = self.requests[m].total_prompt_tokens;
        let sequence_id: SequenceId = self.requests[m].sequence_id;
        let want: usize = chunk_tokens(&self.config, total, *tokens_left);
        if want == 0 {
            return false;
        }
        let needed: usize = kv_cache.blocks_for_tokens(want);
        if !kv_cache.can_allocate(needed) {
            return false;
        }
        proof {
            lemma_admit_head(before, free_at_start);
        }
        let block_ids = kv_cache.allocate(&request_id, needed);
        result.blocks_allocated += block_ids.len();
        self.running.push(
            RunningRequest {
                request_id: request_id.clone(),
                sequence_id,
                num_tokens_processed: 0,
                num_tokens_generated: 0,
                block_ids: copy_block_ids(&block_ids),
                prefill_complete: want >= total,
            },
        );
        result.prefill_requests.push(
            ScheduledRequest {
                request_id,
                sequence_id,
                num_tokens: want,
                is_prefill: true,
                block_ids,
                num_computed_tokens: 0,
            },
        );
        self.waiting.pop();
        *tokens_left -= want;
        *batch_left -= 1;
        result.total_tokens += want;
        proof {
            let after = self.step_view(kv_cache, result, *batch_left, *tokens_left);
            let target = before.admit_head();
            assert(after.sched.running =~= target.sched.running);
            assert(after.plan.decode_requests =~= target.plan.decode_requests);
            assert(after.plan.prefill_requests =~= target.plan.prefill_requests);
            assert(after.plan.preempted_requests =~= target.plan.preempted_requests);
            assert(after.plan =~= target.plan);
            assert(after.sched =~= target.sched);
            assert(after =~= target);
        }
        true
    }

    /// Plans the next step. Running requests whose prompt is ingested
    /// decode one token each; running requests whose prompt is partly
    /// ingested get their next chunk; requests from the front of the
    /// waiting queue are admitted; all of it while the batch budget and
    /// the token budget last and the cache has the blocks. No request is
    /// evicted: one that cannot get its blocks makes no progress in this
    /// step.
    pub fn schedule(&mut self, kv_cache: &mut KVCacheManager) -> (result: ScheduleResult)
        requires
            old(self).wf(),
            old(kv_cache).wf(),
        ensures
            final(self).wf(),
            final(kv_cache).wf(),
            final(self)@ == StepView::run(old(self)@, old(kv_cache)@).sched,
            final(kv_cache)@ == StepView::run(old(self)@, old(kv_cache)@).cache,
            result@ == StepView::run(old(self)@, old(kv_cache)@).plan,
            result@.total_tokens == tokens_of(result@.work()),
            result@.total_tokens <= old(self)@.config.max_tokens_per_step,
            result@.decode_requests.len() + result@.prefill_requests.len() <= old(
                self,
            )@.config.max_batch_size,
            result@.preempted_requests.len() == 0,
    {
        let mut result = ScheduleResult::empty();
        let mut tokens_left: usize = self.config.max_tokens_per_step;
        let mut batch_left: usize = self.config.max_batch_size;
        let ghost start = StepView::start(self@, kv_cache@);
        let ghost free_at_start = kv_cache@.pool.free_count();
        proof {
            lemma_start_inv(start);
            lemma_run(start);
            crate::engine::pool_model::lemma_free_bounded(kv_cache@.pool);
            assert(self.step_view(kv_cache, &result, batch_left, tokens_left) =~= start);
        }
        let mut i: usize = 0;
        while i < self.running.len() && batch_left > 0 && tokens_left > 0
            invariant
                self.consistent(),
                self@.next_sequence_id <= u64::MAX,
                kv_cache.consistent(),
                free_at_start <= usize::MAX,
                i <= self@.running.len(),
                self.step_view(kv_cache, &result, batch_left, tokens_left).inv(free_at_start),
                self.step_view(kv_cache, &result, batch_left, tokens_left).decode_from(i as int)
                    == start.decode_from(0),
            decreases self@.running.len() - i,
        {
            proof {
                lemma_decode_one(
                    self.step_view(kv_cache, &result, batch_left, tokens_left),
                    i as int,
                    free_at_start,
                );
            }
            self.decode_at(
                i,
                kv_cache,
                &mut result,
                &mut batch_left,
                &mut tokens_left,
                Ghost(free_at_start),
            );
            i += 1;
        }
        let ghost decoded = self.step_view(kv_cache, &result, batch_left, tokens_left);
        assert(decoded == start.decode_from(0));
        let mut j: usize = 0;
        while j < self.running.len() && batch_left > 0 && tokens_left > 0
            invariant
                self.consistent(),
                self@.next_sequence_id <= u64::MAX,
                kv_cache.consistent(),
                free_at_start <= usize::MAX,
                j <= self@.running.len(),
                self.step_view(kv_cache, &result, batch_left, tokens_left).inv(free_at_start),
                self.step_view(kv_cache, &result, batch_left, tokens_left).continue_from(j as int)
                    == decoded.continue_from(0),
            decreases self@.running.len() - j,
        {
            proof {
                lemma_continue_one(
                    self.step_view(kv_cache, &result, batch_left, tokens_left),
                    j as int,
                    free_at_start,
                );
            }
            self.continue_at(
                j,
                kv_cache,
                &mut result,
                &mut batch_left,
                &mut tokens_left,
                Ghost(free_at_start),
            );
            j += 1;
        }
        let ghost continued = self.step_view(kv_cache, &result, batch_left, tokens_left);
        assert(continued == decoded.continue_from(0));
        let mut go_on: bool = true;
        while go_on && batch_left > 0 && tokens_left > 0
            invariant
                self.consistent(),
                self@.next_sequence_id <= u64::MAX,
                kv_cache.consistent(),
                free_at_start <= usize::MAX,
                self.step_view(kv_cache, &result, batch_left, tokens_left).inv(free_at_start),
                self.step_view(kv_cache, &result, batch_left, tokens_left).admit_from()
                    == continued.admit_from(),
                !go_on ==> self.step_view(kv_cache, &result, batch_left, tokens_left).admit_from()
                    == self.step_view(kv_cache, &result, batch_left, tokens_left),
            decreases self@.waiting.len() + if go_on { 1int } else { 0int },
        {
            go_on =
            self.admit_next(
                kv_cache,
                &mut result,
                &mut batch_left,
                &mut tokens_left,
                Ghost(free_at_start),
            );
        }
        result
    }

    /// The tokens processed and the tokens generated of a running request.
    pub fn get_running_info(&self, request_id: &RequestId) -> (info: Option<(usize, usize)>)
        requires
            self.wf(),
        ensures
            match info {
                Some((processed, generated)) => self@.is_running(request_id@) && processed
                    == self@.progress(request_id@).num_tokens_processed && generated
                    == self@.progress(request_id@).num_tokens_generated,
                None => !self@.is_running(request_id@),
            },
    {
        match self.find_running(request_id) {
            Some(at) => {
                proof {
                    lemma_index_of_unique(self@.running_ids(), at as int);
                }
                Some((self.running[at].num_tokens_processed, self.running[at].num_tokens_generated))
            },
            None => None,
        }
    }
}

} // verus!
