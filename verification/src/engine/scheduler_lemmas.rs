//! What holds of the scheduler model: every operation of the driver keeps
//! the scheduler well formed, and aborting twice is aborting once.

use crate::engine::cache_model::{lemma_free_wf, lemma_index_of_unique, CacheView};
use crate::engine::scheduler_model::{release_request, MetaView, SchedulerView};
use crate::engine::types::{BlockId, Priority};
use crate::engine::waiting::{lemma_enqueue_wf, lemma_without, lemma_without_wf, WaitingView};
use vstd::prelude::*;

verus! {

/// Taking one item out of a sequence without duplicates leaves a sequence
/// without duplicates that lacks that item and no other.
pub proof fn lemma_remove_distinct<A>(items: Seq<A>, at: int)
    requires
        items.no_duplicates(),
        0 <= at < items.len(),
    ensures
        items.remove(at).no_duplicates(),
        !items.remove(at).contains(items[at]),
        forall|x: A| x != items[at] ==> items.remove(at).contains(x) == items.contains(x),
{
    let rest = items.remove(at);
    assert forall|a: int, b: int| 0 <= a < rest.len() && 0 <= b < rest.len() && a != b implies rest[a]
        != rest[b] by {
        let a0 = if a < at { a } else { a + 1 };
        let b0 = if b < at { b } else { b + 1 };
        assert(rest[a] == items[a0] && rest[b] == items[b0]);
    }
    if rest.contains(items[at]) {
        let k = choose|k: int| 0 <= k < rest.len() && rest[k] == items[at];
        let k0 = if k < at { k } else { k + 1 };
        assert(rest[k] == items[k0]);
    }
    assert forall|x: A| x != items[at] implies rest.contains(x) == items.contains(x) by {
        if items.contains(x) {
            let k = choose|k: int| 0 <= k < items.len() && items[k] == x;
            let k1 = if k < at { k } else { k - 1 };
            assert(rest[k1] == x);
        }
        if rest.contains(x) {
            let k = choose|k: int| 0 <= k < rest.len() && rest[k] == x;
            let k0 = if k < at { k } else { k + 1 };
            assert(items[k0] == x);
        }
    }
}

/// Adding a new item to a sequence without duplicates leaves it without
/// duplicates.
pub proof fn lemma_push_distinct<A>(items: Seq<A>, x: A)
    requires
        items.no_duplicates(),
        !items.contains(x),
    ensures
        items.push(x).no_duplicates(),
        items.push(x).contains(x),
        items.push(x).index_of(x) == items.len(),
        forall|y: A| items.contains(y) ==> items.push(x).contains(y),
{
    let more = items.push(x);
    assert forall|a: int, b: int| 0 <= a < more.len() && 0 <= b < more.len() && a != b implies more[a]
        != more[b] by {
        if a < items.len() {
            assert(items.contains(items[a]));
        }
        if b < items.len() {
            assert(items.contains(items[b]));
        }
    }
    assert(more[items.len() as int] == x);
    lemma_index_of_unique(more, items.len() as int);
    assert forall|y: A| items.contains(y) implies more.contains(y) by {
        let k = choose|k: int| 0 <= k < items.len() && items[k] == y;
        assert(more[k] == y);
    }
}

/// Admission keeps the scheduler well formed. The request is kept under
/// the next sequence number and is not running unless it ran before.
pub proof fn lemma_add_wf(
    s: SchedulerView,
    request_id: Seq<char>,
    priority: Priority,
    arrival_time: u64,
    total_prompt_tokens: nat,
    max_tokens: nat,
)
    requires
        s.wf(),
    ensures
        s.add(request_id, priority, arrival_time, total_prompt_tokens, max_tokens).wf(),
        s.add(request_id, priority, arrival_time, total_prompt_tokens, max_tokens).has_request(
            request_id,
        ),
        s.add(request_id, priority, arrival_time, total_prompt_tokens, max_tokens).meta(
            request_id,
        ) == (MetaView {
            request_id,
            sequence_id: s.next_sequence_id,
            priority,
            arrival_time,
            total_prompt_tokens,
            max_tokens,
        }),
        s.add(request_id, priority, arrival_time, total_prompt_tokens, max_tokens).waiting.len()
            == s.waiting.len() + 1,
        forall|other: Seq<char>|
            other != request_id ==> s.add(
                request_id,
                priority,
                arrival_time,
                total_prompt_tokens,
                max_tokens,
            ).has_request(other) == s.has_request(other),
        forall|other: Seq<char>|
            other != request_id && s.has_request(other) ==> s.add(
                request_id,
                priority,
                arrival_time,
                total_prompt_tokens,
                max_tokens,
            ).meta(other) == s.meta(other),
{
    let after = s.add(request_id, priority, arrival_time, total_prompt_tokens, max_tokens);
    lemma_enqueue_wf(
        s.config.policy,
        s.waiting,
        WaitingView { request_id, priority, arrival_time },
    );
    let at = if s.has_request(request_id) {
        s.meta_index(request_id)
    } else {
        s.requests.len() as int
    };
    if s.has_request(request_id) {
        assert(after.known_ids() =~= s.known_ids());
    } else {
        assert(after.known_ids() =~= s.known_ids().push(request_id));
        lemma_push_distinct(s.known_ids(), request_id);
    }
    assert(after.known_ids()[at] == request_id);
    lemma_index_of_unique(after.known_ids(), at);
    assert forall|i: int| 0 <= i < after.running.len() implies after.has_request(
        (#[trigger] after.running[i]).request_id,
    ) by {
        let id = s.running[i].request_id;
        assert(s.has_request(id));
        let k = choose|k: int| 0 <= k < s.known_ids().len() && s.known_ids()[k] == id;
        assert(after.known_ids()[k] == id);
    }
    assert forall|other: Seq<char>| other != request_id implies after.has_request(other)
        == s.has_request(other) by {
        if s.has_request(other) {
            let k = choose|k: int| 0 <= k < s.known_ids().len() && s.known_ids()[k] == other;
            assert(after.known_ids()[k] == other);
        }
        if after.has_request(other) {
            let k = choose|k: int| 0 <= k < after.known_ids().len() && after.known_ids()[k]
                == other;
            assert(s.known_ids()[k] == other);
        }
    }
    assert forall|other: Seq<char>| other != request_id && s.has_request(other) implies after.meta(
        other,
    ) == s.meta(other) by {
        let k = s.meta_index(other);
        assert(s.known_ids()[k] == other);
        assert(after.known_ids()[k] == other);
        lemma_index_of_unique(after.known_ids(), k);
    }
}

/// A progress report keeps the scheduler well formed, given that it does
/// not report more generated tokens than processed ones. The request's
/// prompt counts as ingested exactly when its processed tokens have
/// reached the length of the prompt.
pub proof fn lemma_update_wf(
    s: SchedulerView,
    request_id: Seq<char>,
    tokens_processed: nat,
    tokens_generated: nat,
    new_block_ids: Seq<BlockId>,
)
    requires
        s.wf(),
        tokens_generated <= tokens_processed,
    ensures
        s.update(request_id, tokens_processed, tokens_generated, new_block_ids).wf(),
        s.update(request_id, tokens_processed, tokens_generated, new_block_ids).running_ids()
            == s.running_ids(),
        s.is_running(request_id) ==> {
            let r = s.update(
                request_id,
                tokens_processed,
                tokens_generated,
                new_block_ids,
            ).progress(request_id);
            &&& r.num_tokens_processed == s.progress(request_id).num_tokens_processed
                + tokens_processed
            &&& r.num_tokens_generated == s.progress(request_id).num_tokens_generated
                + tokens_generated
            &&& r.block_ids == s.progress(request_id).block_ids + new_block_ids
            &&& r.prefill_complete <==> r.num_tokens_processed >= s.meta(
                request_id,
            ).total_prompt_tokens
        },
{
    let after = s.update(request_id, tokens_processed, tokens_generated, new_block_ids);
    if s.is_running(request_id) {
        let at = s.running_index(request_id);
        assert(s.running_ids()[at] == request_id);
        assert(after.running_ids() =~= s.running_ids());
        assert(s.has_request(s.running[at].request_id));
        assert forall|i: int| 0 <= i < after.running.len() implies after.has_request(
            (#[trigger] after.running[i]).request_id,
        ) && after.running[i].num_tokens_generated <= after.running[i].num_tokens_processed by {
            assert(s.has_request(s.running[i].request_id));
        }
    }
}

/// Finishing a request keeps scheduler and cache well formed; afterwards
/// the request is unknown.
pub proof fn lemma_finish_wf(s: SchedulerView, cache: CacheView, request_id: Seq<char>)
    requires
        s.wf(),
        cache.wf(),
    ensures
        s.finish(request_id).wf(),
        release_request(s, cache, request_id).wf(),
        !s.finish(request_id).is_running(request_id),
        !s.finish(request_id).has_request(request_id),
        forall|other: Seq<char>|
            other != request_id ==> s.finish(request_id).is_running(other) == s.is_running(other)
                && s.finish(request_id).has_request(other) == s.has_request(other),
        forall|other: Seq<char>|
            other != request_id && s.has_request(other) ==> s.finish(request_id).meta(other)
                == s.meta(other),
{
    let after = s.finish(request_id);
    lemma_free_wf(cache, request_id);
    if s.is_running(request_id) {
        let at = s.running_index(request_id);
        assert(s.running_ids()[at] == request_id);
        lemma_remove_distinct(s.running_ids(), at);
        assert(after.running_ids() =~= s.running_ids().remove(at));
    }
    if s.has_request(request_id) {
        let at = s.meta_index(request_id);
        assert(s.known_ids()[at] == request_id);
        lemma_remove_distinct(s.known_ids(), at);
        assert(after.known_ids() =~= s.known_ids().remove(at));
        assert forall|i: int| 0 <= i < after.requests.len() implies (#[trigger] after.requests[i]).sequence_id
            < after.next_sequence_id by {
            let i0 = if i < at { i } else { i + 1 };
            assert(after.requests[i] == s.requests[i0]);
        }
    }
    assert forall|i: int| 0 <= i < after.running.len() implies after.has_request(
        (#[trigger] after.running[i]).request_id,
    ) && after.running[i].num_tokens_generated <= after.running[i].num_tokens_processed by {
        assert(after.running_ids()[i] == after.running[i].request_id);
        assert(after.running_ids().contains(after.running[i].request_id));
        let id = after.running[i].request_id;
        if s.is_running(request_id) {
            let at = s.running_index(request_id);
            let i0 = if i < at { i } else { i + 1 };
            assert(after.running[i] == s.running[i0]);
            assert(s.has_request(s.running[i0].request_id));
        } else {
            assert(after.running[i] == s.running[i]);
            assert(s.running_ids()[i] == id);
        }
        assert(id != request_id);
        assert(s.has_request(id));
    }
    assert forall|other: Seq<char>| other != request_id && s.has_request(other) implies after.meta(
        other,
    ) == s.meta(other) by {
        let k = s.meta_index(other);
        assert(s.known_ids()[k] == other);
        if s.has_request(request_id) {
            let at = s.meta_index(request_id);
            let k1 = if k < at { k } else { k - 1 };
            assert(after.known_ids()[k1] == other);
            lemma_index_of_unique(after.known_ids(), k1);
        }
    }
}

/// Aborting a request keeps scheduler and cache well formed; afterwards
/// the request is unknown and does not wait.
pub proof fn lemma_abort_wf(s: SchedulerView, cache: CacheView, request_id: Seq<char>)
    requires
        s.wf(),
        cache.wf(),
    ensures
        s.abort(request_id).wf(),
        release_request(s, cache, request_id).wf(),
        !s.abort(request_id).is_running(request_id),
        !s.abort(request_id).has_request(request_id),
        forall|k: int|
            0 <= k < s.abort(request_id).waiting.len() ==> (#[trigger] s.abort(
                request_id,
            ).waiting[k]).request_id != request_id,
{
    lemma_finish_wf(s, cache, request_id);
    lemma_without_wf(s.config.policy, s.waiting, request_id);
    lemma_without(s.waiting, request_id);
    let after = s.abort(request_id);
    assert(after.running == s.finish(request_id).running);
    assert(after.requests == s.finish(request_id).requests);
    assert(after.running_ids() == s.finish(request_id).running_ids());
    assert(after.known_ids() == s.finish(request_id).known_ids());
    assert forall|i: int| 0 <= i < after.running.len() implies after.has_request(
        (#[trigger] after.running[i]).request_id,
    ) by {
        assert(s.finish(request_id).has_request(s.finish(request_id).running[i].request_id));
    }
}

/// Aborting a request a second time changes neither scheduler nor cache,
/// and finds the request not running.
pub proof fn lemma_abort_idempotent(s: SchedulerView, cache: CacheView, request_id: Seq<char>)
    requires
        s.wf(),
        cache.wf(),
    ensures
        !s.abort(request_id).is_running(request_id),
        s.abort(request_id).abort(request_id) == s.abort(request_id),
        release_request(s.abort(request_id), release_request(s, cache, request_id), request_id)
            == release_request(s, cache, request_id),
{
    lemma_abort_wf(s, cache, request_id);
    lemma_without_wf(s.config.policy, s.waiting, request_id);
}

} // verus!
