//! The queue of requests that wait for their first step, ordered by the
//! active policy: by arrival under first-come-first-served, by priority
//! otherwise.

use crate::engine::scheduler::SchedulingPolicy;
use crate::engine::types::{Priority, RequestId};
use std::collections::VecDeque;
use vstd::prelude::*;
use vstd::string::StringSliceAdditionalSpecFns;
use vstd::utf8::encode_utf8;

verus! {

/// Whether `a` stands before `b` in byte-wise dictionary order, given that
/// the two agree below index `i`.
pub open spec fn bytes_before_from(a: Seq<u8>, b: Seq<u8>, i: int) -> bool
    decreases a.len() - i,
{
    if i < 0 || i >= b.len() {
        false
    } else if i >= a.len() {
        true
    } else if a[i] != b[i] {
        a[i] < b[i]
    } else {
        bytes_before_from(a, b, i + 1)
    }
}

/// Whether the name `a` stands strictly before the name `b`: dictionary
/// order on their UTF-8 bytes.
pub open spec fn id_before(a: Seq<char>, b: Seq<char>) -> bool {
    bytes_before_from(encode_utf8(a), encode_utf8(b), 0)
}

/// A waiting request as the queue sees it.
pub struct WaitingView {
    pub request_id: Seq<char>,
    pub priority: Priority,
    pub arrival_time: u64,
}

/// Whether `a` is served strictly before `b` under the priority policy:
/// higher priority first, earlier arrival next, smaller name last.
pub open spec fn served_before(a: WaitingView, b: WaitingView) -> bool {
    ||| a.priority > b.priority
    ||| a.priority == b.priority && a.arrival_time < b.arrival_time
    ||| a.priority == b.priority && a.arrival_time == b.arrival_time && id_before(
        a.request_id,
        b.request_id,
    )
}

/// Whether no entry of the queue is served before one that stands in front
/// of it.
pub open spec fn in_service_order(queue: Seq<WaitingView>) -> bool {
    forall|i: int, j: int|
        0 <= i < j < queue.len() ==> !served_before(#[trigger] queue[j], #[trigger] queue[i])
}

/// The first index at or behind `i` whose entry is served after `entry`;
/// the length of the queue if there is none.
pub open spec fn position_from(queue: Seq<WaitingView>, entry: WaitingView, i: int) -> int
    decreases queue.len() - i,
{
    if i < 0 || i >= queue.len() || served_before(entry, queue[i]) {
        i
    } else {
        position_from(queue, entry, i + 1)
    }
}

/// The queue after `entry` joined it: at the back under
/// first-come-first-served; under priority in front of the first entry that
/// is served after it, so behind every entry of equal rank.
pub open spec fn enqueue(policy: SchedulingPolicy, queue: Seq<WaitingView>, entry: WaitingView) -> Seq<
    WaitingView,
> {
    match policy {
        SchedulingPolicy::FCFS => queue.push(entry),
        SchedulingPolicy::Priority => queue.insert(position_from(queue, entry, 0), entry),
    }
}

/// The queue without the entries of one request, the others in their order.
pub open spec fn without(queue: Seq<WaitingView>, request_id: Seq<char>) -> Seq<WaitingView>
    decreases queue.len(),
{
    if queue.len() == 0 {
        queue
    } else if queue.last().request_id == request_id {
        without(queue.drop_last(), request_id)
    } else {
        without(queue.drop_last(), request_id).push(queue.last())
    }
}

/// The queue's invariant: under the priority policy it is in service order.
pub open spec fn queue_wf(policy: SchedulingPolicy, queue: Seq<WaitingView>) -> bool {
    policy == SchedulingPolicy::Priority ==> in_service_order(queue)
}

pub proof fn lemma_bytes_before_transitive(a: Seq<u8>, b: Seq<u8>, c: Seq<u8>, i: int)
    requires
        bytes_before_from(a, b, i),
        bytes_before_from(b, c, i),
    ensures
        bytes_before_from(a, c, i),
    decreases a.len() - i,
{
    if i < a.len() && a[i] == b[i] && b[i] == c[i] {
        lemma_bytes_before_transitive(a, b, c, i + 1);
    }
}

pub proof fn lemma_bytes_before_irreflexive(a: Seq<u8>, i: int)
    ensures
        !bytes_before_from(a, a, i),
    decreases a.len() - i,
{
    if 0 <= i < a.len() {
        lemma_bytes_before_irreflexive(a, i + 1);
    }
}

/// The service order is transitive.
pub proof fn lemma_served_before_transitive(a: WaitingView, b: WaitingView, c: WaitingView)
    requires
        served_before(a, b),
        served_before(b, c),
    ensures
        served_before(a, c),
{
    if a.priority == b.priority && b.priority == c.priority && a.arrival_time == b.arrival_time
        && b.arrival_time == c.arrival_time {
        lemma_bytes_before_transitive(
            encode_utf8(a.request_id),
            encode_utf8(b.request_id),
            encode_utf8(c.request_id),
            0,
        );
    }
}

/// No entry is served before itself, nor before one of the same rank and
/// name.
pub proof fn lemma_served_before_irreflexive(a: WaitingView, b: WaitingView)
    requires
        a.priority == b.priority,
        a.arrival_time == b.arrival_time,
        a.request_id == b.request_id,
    ensures
        !served_before(a, b),
{
    lemma_bytes_before_irreflexive(encode_utf8(a.request_id), 0);
}

/// Where an entry joins the queue: behind every entry that is not served
/// after it, in front of one that is.
pub proof fn lemma_position(queue: Seq<WaitingView>, entry: WaitingView, i: int)
    requires
        0 <= i <= queue.len(),
    ensures
        i <= position_from(queue, entry, i) <= queue.len(),
        forall|j: int| i <= j < position_from(queue, entry, i) ==> !served_before(entry, #[trigger] queue[j]),
        position_from(queue, entry, i) < queue.len() ==> served_before(
            entry,
            queue[position_from(queue, entry, i)],
        ),
    decreases queue.len() - i,
{
    if i < queue.len() && !served_before(entry, queue[i]) {
        lemma_position(queue, entry, i + 1);
    }
}

/// Joining the queue keeps it well formed.
pub proof fn lemma_enqueue_wf(policy: SchedulingPolicy, queue: Seq<WaitingView>, entry: WaitingView)
    requires
        queue_wf(policy, queue),
    ensures
        queue_wf(policy, enqueue(policy, queue, entry)),
        enqueue(policy, queue, entry).len() == queue.len() + 1,
{
    if policy == SchedulingPolicy::Priority {
        let at = position_from(queue, entry, 0);
        lemma_position(queue, entry, 0);
        let after = queue.insert(at, entry);
        assert forall|i: int, j: int| 0 <= i < j < after.len() implies !served_before(
            #[trigger] after[j],
            #[trigger] after[i],
        ) by {
            if j == at {
                assert(after[i] == queue[i]);
            } else if i == at {
                assert(after[j] == queue[j - 1]);
                if served_before(queue[j - 1], entry) {
                    lemma_served_before_transitive(queue[j - 1], entry, queue[at]);
                    if j - 1 == at {
                        lemma_served_before_irreflexive(queue[at], queue[at]);
                    }
                }
            } else {
                let i0 = if i < at { i } else { i - 1 };
                let j0 = if j < at { j } else { j - 1 };
                assert(after[i] == queue[i0] && after[j] == queue[j0]);
            }
        }
    }
}

/// What is left after a request was taken out of the queue: only entries of
/// the queue, none of that request, and all entries of other requests.
pub proof fn lemma_without(queue: Seq<WaitingView>, request_id: Seq<char>)
    ensures
        without(queue, request_id).len() <= queue.len(),
        forall|k: int|
            0 <= k < without(queue, request_id).len() ==> queue.contains(
                #[trigger] without(queue, request_id)[k],
            ) && without(queue, request_id)[k].request_id != request_id,
        forall|k: int|
            0 <= k < queue.len() && (#[trigger] queue[k]).request_id != request_id ==> without(
                queue,
                request_id,
            ).contains(queue[k]),
        (forall|k: int| 0 <= k < queue.len() ==> (#[trigger] queue[k]).request_id != request_id)
            ==> without(queue, request_id) == queue,
    decreases queue.len(),
{
    if queue.len() > 0 {
        let front = queue.drop_last();
        let rest = without(front, request_id);
        let after = without(queue, request_id);
        lemma_without(front, request_id);
        assert forall|k: int| 0 <= k < after.len() implies queue.contains(#[trigger] after[k])
            && after[k].request_id != request_id by {
            if k < rest.len() {
                assert(front.contains(rest[k]));
                let i = choose|i: int| 0 <= i < front.len() && front[i] == rest[k];
                assert(queue[i] == rest[k]);
            } else {
                assert(after[k] == queue[queue.len() - 1]);
            }
        }
        assert forall|k: int|
            0 <= k < queue.len() && (#[trigger] queue[k]).request_id != request_id implies after.contains(
            queue[k],
        ) by {
            if k < front.len() {
                assert(front[k] == queue[k]);
                assert(rest.contains(front[k]));
                let i = choose|i: int| 0 <= i < rest.len() && rest[i] == front[k];
                assert(after[i] == queue[k]);
            } else {
                assert(after[after.len() - 1] == queue[k]);
            }
        }
        if forall|k: int| 0 <= k < queue.len() ==> (#[trigger] queue[k]).request_id != request_id {
            assert forall|k: int| 0 <= k < front.len() implies (#[trigger] front[k]).request_id
                != request_id by {
                assert(front[k] == queue[k]);
            }
            assert(queue.last() == queue[queue.len() - 1]);
            assert(after =~= queue);
        }
    }
}

/// Taking a request out keeps the queue well formed, and taking it out
/// again changes nothing.
pub proof fn lemma_without_wf(policy: SchedulingPolicy, queue: Seq<WaitingView>, request_id: Seq<char>)
    requires
        queue_wf(policy, queue),
    ensures
        queue_wf(policy, without(queue, request_id)),
        without(without(queue, request_id), request_id) == without(queue, request_id),
    decreases queue.len(),
{
    lemma_without(queue, request_id);
    lemma_without(without(queue, request_id), request_id);
    if policy == SchedulingPolicy::Priority && queue.len() > 0 {
        let front = queue.drop_last();
        assert(in_service_order(front)) by {
            assert forall|i: int, j: int| 0 <= i < j < front.len() implies !served_before(
                #[trigger] front[j],
                #[trigger] front[i],
            ) by {
                assert(front[i] == queue[i] && front[j] == queue[j]);
            }
        }
        lemma_without_wf(policy, front, request_id);
        lemma_without(front, request_id);
        let rest = without(front, request_id);
        let after = without(queue, request_id);
        assert forall|i: int, j: int| 0 <= i < j < after.len() implies !served_before(
            #[trigger] after[j],
            #[trigger] after[i],
        ) by {
            if j < rest.len() {
                assert(after[i] == rest[i] && after[j] == rest[j]);
            } else {
                assert(after[j] == queue[queue.len() - 1]);
                assert(after[i] == rest[i]);
                assert(front.contains(rest[i]));
                let k = choose|k: int| 0 <= k < front.len() && front[k] == rest[i];
                assert(queue[k] == rest[i]);
            }
        }
    }
}

/// A request in the waiting queue.
#[derive(Debug, Clone)]
pub struct WaitingRequest {
    pub request_id: RequestId,
    pub priority: Priority,
    pub arrival_time: u64,
}

impl View for WaitingRequest {
    type V = WaitingView;

    open spec fn view(&self) -> WaitingView {
        WaitingView {
            request_id: self.request_id@,
            priority: self.priority,
            arrival_time: self.arrival_time,
        }
    }
}

/// Whether the name `a` stands strictly before the name `b`.
pub fn id_less(a: &RequestId, b: &RequestId) -> (less: bool)
    ensures
        less == id_before(a@, b@),
{
    let x = a.as_str().as_bytes();
    let y = b.as_str().as_bytes();
    let mut i: usize = 0;
    loop
        invariant
            i <= x@.len(),
            i <= y@.len(),
            x@ == encode_utf8(a@),
            y@ == encode_utf8(b@),
            bytes_before_from(x@, y@, 0) == bytes_before_from(x@, y@, i as int),
        decreases x@.len() - i,
    {
        if i >= y.len() {
            return false;
        }
        if i >= x.len() {
            return true;
        }
        if x[i] != y[i] {
            return x[i] < y[i];
        }
        i += 1;
    }
}

/// Whether `a` is served strictly before `b` under the priority policy.
pub fn precedes(a: &WaitingRequest, b: &WaitingRequest) -> (first: bool)
    ensures
        first == served_before(a@, b@),
{
    if a.priority != b.priority {
        a.priority > b.priority
    } else if a.arrival_time != b.arrival_time {
        a.arrival_time < b.arrival_time
    } else {
        id_less(&a.request_id, &b.request_id)
    }
}

/// The waiting queue of a scheduler.
pub struct WaitingQueue {
    policy: SchedulingPolicy,
    entries: VecDeque<WaitingRequest>,
}

impl View for WaitingQueue {
    type V = Seq<WaitingView>;

    closed spec fn view(&self) -> Seq<WaitingView> {
        self.entries@.map_values(|w: WaitingRequest| w@)
    }
}

impl WaitingQueue {
    /// The policy that orders the queue.
    pub closed spec fn spec_policy(&self) -> SchedulingPolicy {
        self.policy
    }

    /// The queue's invariant.
    pub open spec fn wf(&self) -> bool {
        queue_wf(self.spec_policy(), self@)
    }

    /// An empty queue.
    pub fn new(policy: SchedulingPolicy) -> (queue: Self)
        ensures
            queue.wf(),
            queue.spec_policy() == policy,
            queue@ == Seq::<WaitingView>::empty(),
    {
        let queue = WaitingQueue { policy, entries: VecDeque::new() };
        assert(queue@ =~= Seq::<WaitingView>::empty());
        queue
    }

    /// Number of entries.
    pub fn len(&self) -> (n: usize)
        ensures
            n == self@.len(),
    {
        self.entries.len()
    }

    /// Whether the queue has no entry.
    pub fn is_empty(&self) -> (empty: bool)
        ensures
            empty == (self@.len() == 0),
    {
        self.entries.len() == 0
    }

    /// Adds an entry at the place the policy gives it.
    pub fn push(&mut self, entry: WaitingRequest)
        requires
            old(self).wf(),
        ensures
            final(self).wf(),
            final(self).spec_policy() == old(self).spec_policy(),
            final(self)@ == enqueue(old(self).spec_policy(), old(self)@, entry@),
    {
        proof {
            lemma_enqueue_wf(self.policy, self@, entry@);
        }
        match self.policy {
            SchedulingPolicy::FCFS => {
                self.entries.push_back(entry);
                assert(self@ =~= old(self)@.push(entry@));
            },
            SchedulingPolicy::Priority => {
                let mut at: usize = 0;
                while at < self.entries.len() && !precedes(&entry, &self.entries[at])
                    invariant
                        at <= self.entries@.len(),
                        self.entries@ == old(self).entries@,
                        position_from(self@, entry@, 0) == position_from(self@, entry@, at as int),
                    decreases self.entries@.len() - at,
                {
                    at += 1;
                }
                self.entries.insert(at, entry);
                assert(self@ =~= old(self)@.insert(at as int, entry@));
            },
        }
    }

    /// The entry that is served next.
    pub fn peek(&self) -> (head: Option<&WaitingRequest>)
        ensures
            head is Some <==> self@.len() > 0,
            head is Some ==> head->0@ == self@[0],
    {
        if self.entries.len() > 0 {
            Some(&self.entries[0])
        } else {
            None
        }
    }

    /// Removes the entry that is served next.
    pub fn pop(&mut self) -> (head: Option<WaitingRequest>)
        requires
            old(self).wf(),
        ensures
            final(self).wf(),
            final(self).spec_policy() == old(self).spec_policy(),
            head is Some <==> old(self)@.len() > 0,
            head is Some ==> head->0@ == old(self)@[0] && final(self)@ == old(self)@.skip(1),
            head is None ==> final(self)@ == old(self)@,
    {
        let head = self.entries.pop_front();
        if head.is_some() {
            assert(self@ =~= old(self)@.skip(1));
            assert forall|i: int, j: int| 0 <= i < j < self@.len() implies !served_before(
                #[trigger] self@[j],
                #[trigger] self@[i],
            ) || self.policy != SchedulingPolicy::Priority by {
                assert(self@[i] == old(self)@[i + 1] && self@[j] == old(self)@[j + 1]);
            }
        }
        head
    }

    /// Removes every entry of a request.
    pub fn remove(&mut self, request_id: &RequestId)
        requires
            old(self).wf(),
        ensures
            final(self).wf(),
            final(self).spec_policy() == old(self).spec_policy(),
            final(self)@ == without(old(self)@, request_id@),
    {
        proof {
            lemma_without_wf(self.policy, self@, request_id@);
        }
        let mut kept: VecDeque<WaitingRequest> = VecDeque::new();
        let ghost before = self@;
        let ghost mut done: int = 0;
        assert(kept@.map_values(|w: WaitingRequest| w@) =~= without(before.take(0), request_id@));
        while self.entries.len() > 0
            invariant
                0 <= done <= before.len(),
                self.policy == old(self).policy,
                self@ == before.skip(done),
                kept@.map_values(|w: WaitingRequest| w@) == without(before.take(done), request_id@),
            decreases self.entries@.len(),
        {
            assert(self@.len() == self.entries@.len());
            assert(self@[0] == before[done]);
            let ghost prev = self@;
            let ghost prev_entries = self.entries@;
            let head = self.entries.pop_front();
            match head {
                Some(entry) => {
                    proof {
                        assert(entry@ == before[done]);
                        assert(before.take(done + 1).drop_last() =~= before.take(done));
                        assert(before.take(done + 1).last() == before[done]);
                    }
                    if entry.request_id != *request_id {
                        kept.push_back(entry);
                    }
                    proof {
                        done = done + 1;
                        assert forall|k: int| 0 <= k < self@.len() implies self@[k] == before.skip(
                            done,
                        )[k] by {
                            assert(self.entries@[k] == prev_entries[k + 1]);
                            assert(prev[k + 1] == before[done + k]);
                        }
                    }
                    assert(self@ =~= before.skip(done));
                    assert(kept@.map_values(|w: WaitingRequest| w@) =~= without(
                        before.take(done),
                        request_id@,
                    ));
                },
                None => {},
            }
        }
        assert(before.take(done) =~= before);
        self.entries = kept;
    }
}

} // verus!
