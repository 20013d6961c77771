use izwi_core::engine::kv_cache::{KVCacheConfig, KVCacheManager};
use izwi_core::engine::request::{EngineCoreRequest, RequestStatus};
use izwi_core::engine::scheduler::{
    ScheduleResult, ScheduledRequest, Scheduler, SchedulerConfig, SchedulingPolicy,
};
use izwi_core::engine::EngineCoreConfig;

fn request(id: &str, priority: i32, arrival: u64, prompt: usize, max_tokens: usize) -> EngineCoreRequest {
    EngineCoreRequest::new(id.to_string(), priority, arrival, vec![0u32; prompt], max_tokens)
}

fn cache(block_size: usize, max_blocks: usize) -> KVCacheManager {
    KVCacheManager::new(KVCacheConfig {
        block_size,
        max_blocks,
        ..Default::default()
    })
}

fn config(max_batch_size: usize, max_tokens_per_step: usize) -> SchedulerConfig {
    SchedulerConfig {
        max_batch_size,
        max_tokens_per_step,
        policy: SchedulingPolicy::FCFS,
        enable_chunked_prefill: false,
        chunked_prefill_threshold: 256,
        enable_preemption: false,
    }
}

fn ids(work: &[ScheduledRequest]) -> Vec<String> {
    work.iter().map(|w| w.request_id.clone()).collect()
}

#[test]
fn idle_scheduler_plans_nothing() {
    let mut scheduler = Scheduler::new(SchedulerConfig::default());
    let mut kv = cache(16, 8);
    assert!(!scheduler.has_pending_work());
    let result = scheduler.schedule(&mut kv);
    assert!(!result.has_work());
    assert!(result.decode_requests.is_empty());
    assert!(result.prefill_requests.is_empty());
    assert!(result.preempted_requests.is_empty());
    assert_eq!(result.total_tokens, 0);
    assert_eq!(result.blocks_allocated, 0);
    assert_eq!(kv.stats().free_blocks, 8);
}

#[test]
fn single_request_prefill_and_two_decodes() {
    let mut scheduler = Scheduler::new(config(4, 64));
    let mut kv = cache(16, 8);
    let r1 = "R1".to_string();
    scheduler.add_request(&request("R1", 0, 1, 20, 2));
    assert_eq!(scheduler.get_status(&r1), Some(RequestStatus::Waiting));
    assert_eq!(scheduler.waiting_count(), 1);

    let step1 = scheduler.schedule(&mut kv);
    assert!(step1.has_work());
    assert_eq!(step1.decode_requests.len(), 0);
    assert_eq!(step1.prefill_requests.len(), 1);
    let work = &step1.prefill_requests[0];
    assert_eq!(work.request_id, "R1");
    assert_eq!(work.sequence_id, 0);
    assert_eq!(work.num_tokens, 20);
    assert!(work.is_prefill);
    assert_eq!(work.block_ids, vec![0, 1]);
    assert_eq!(work.num_computed_tokens, 0);
    assert_eq!(step1.total_tokens, 20);
    assert_eq!(step1.blocks_allocated, 2);
    assert_eq!(scheduler.get_status(&r1), Some(RequestStatus::Running));
    assert_eq!(scheduler.waiting_count(), 0);
    assert_eq!(scheduler.running_count(), 1);
    assert_eq!(kv.stats().allocated_blocks, 2);

    scheduler.update_after_step(&r1, 20, 0, Vec::new());
    assert_eq!(scheduler.get_running_info(&r1), Some((20, 0)));

    let step2 = scheduler.schedule(&mut kv);
    assert_eq!(step2.prefill_requests.len(), 0);
    assert_eq!(step2.decode_requests.len(), 1);
    let work = &step2.decode_requests[0];
    assert_eq!(work.num_tokens, 1);
    assert!(!work.is_prefill);
    assert_eq!(work.num_computed_tokens, 20);
    assert_eq!(work.block_ids, vec![0, 1]);
    assert_eq!(step2.total_tokens, 1);
    assert_eq!(step2.blocks_allocated, 0);
    scheduler.update_after_step(&r1, 1, 1, Vec::new());

    let step3 = scheduler.schedule(&mut kv);
    assert_eq!(step3.decode_requests.len(), 1);
    assert_eq!(step3.decode_requests[0].num_computed_tokens, 21);
    scheduler.update_after_step(&r1, 1, 1, Vec::new());
    assert_eq!(scheduler.get_running_info(&r1), Some((22, 2)));

    scheduler.finish_request(&r1, &mut kv);
    assert_eq!(kv.stats().free_blocks, 8);
    assert_eq!(kv.stats().allocated_blocks, 0);
    assert!(!scheduler.has_request(&r1));
    assert_eq!(scheduler.get_status(&r1), None);
    assert!(!scheduler.has_pending_work());
}

#[test]
fn chunked_prefill_takes_three_steps() {
    let mut scheduler = Scheduler::new(SchedulerConfig {
        max_batch_size: 4,
        max_tokens_per_step: 8,
        policy: SchedulingPolicy::FCFS,
        enable_chunked_prefill: true,
        chunked_prefill_threshold: 8,
        enable_preemption: false,
    });
    let mut kv = cache(4, 16);
    let r1 = "R1".to_string();
    scheduler.add_request(&request("R1", 0, 1, 20, 4));

    let step1 = scheduler.schedule(&mut kv);
    assert_eq!(step1.prefill_requests.len(), 1);
    assert_eq!(step1.prefill_requests[0].num_tokens, 8);
    assert_eq!(step1.prefill_requests[0].num_computed_tokens, 0);
    assert_eq!(step1.prefill_requests[0].block_ids, vec![0, 1]);
    assert_eq!(step1.blocks_allocated, 2);
    scheduler.update_after_step(&r1, 8, 0, Vec::new());

    let step2 = scheduler.schedule(&mut kv);
    assert_eq!(step2.decode_requests.len(), 0);
    assert_eq!(step2.prefill_requests.len(), 1);
    assert_eq!(step2.prefill_requests[0].num_tokens, 8);
    assert_eq!(step2.prefill_requests[0].num_computed_tokens, 8);
    assert!(step2.prefill_requests[0].is_prefill);
    assert_eq!(step2.prefill_requests[0].block_ids, vec![0, 1, 2, 3]);
    assert_eq!(step2.blocks_allocated, 2);
    scheduler.update_after_step(&r1, 8, 0, Vec::new());

    let step3 = scheduler.schedule(&mut kv);
    assert_eq!(step3.prefill_requests.len(), 1);
    assert_eq!(step3.prefill_requests[0].num_tokens, 4);
    assert_eq!(step3.prefill_requests[0].num_computed_tokens, 16);
    assert_eq!(step3.prefill_requests[0].block_ids, vec![0, 1, 2, 3, 4]);
    assert_eq!(step3.total_tokens, 4);
    scheduler.update_after_step(&r1, 4, 0, Vec::new());
    assert_eq!(scheduler.get_running_info(&r1), Some((20, 0)));

    let step4 = scheduler.schedule(&mut kv);
    assert_eq!(step4.prefill_requests.len(), 0);
    assert_eq!(step4.decode_requests.len(), 1);
    assert_eq!(step4.decode_requests[0].num_tokens, 1);
    assert_eq!(step4.decode_requests[0].num_computed_tokens, 20);
    assert_eq!(step4.decode_requests[0].block_ids, vec![0, 1, 2, 3, 4, 5]);
    assert_eq!(step4.blocks_allocated, 1);
    assert_eq!(kv.get_block_table(&r1), Some(&[0usize, 1, 2, 3, 4, 5][..]));
}

#[test]
fn abort_during_prefill_releases_everything() {
    let mut scheduler = Scheduler::new(SchedulerConfig {
        max_batch_size: 4,
        max_tokens_per_step: 8,
        policy: SchedulingPolicy::FCFS,
        enable_chunked_prefill: true,
        chunked_prefill_threshold: 8,
        enable_preemption: false,
    });
    let mut kv = cache(4, 16);
    let r1 = "R1".to_string();
    scheduler.add_request(&request("R1", 0, 1, 24, 4));
    let _ = scheduler.schedule(&mut kv);
    scheduler.update_after_step(&r1, 8, 0, Vec::new());
    let _ = scheduler.schedule(&mut kv);
    scheduler.update_after_step(&r1, 8, 0, Vec::new());
    assert_eq!(kv.stats().allocated_blocks, 4);

    assert!(scheduler.abort_request(&r1, &mut kv));
    let step3 = scheduler.schedule(&mut kv);
    assert!(!step3.has_work());
    assert_eq!(kv.stats().allocated_blocks, 0);
    assert_eq!(kv.stats().num_sequences, 0);
    assert!(!scheduler.has_request(&r1));
}

#[test]
fn abort_is_idempotent() {
    let mut scheduler = Scheduler::new(config(4, 64));
    let mut kv = cache(16, 8);
    let r1 = "R1".to_string();
    scheduler.add_request(&request("R1", 0, 1, 20, 2));
    scheduler.add_request(&request("R2", 0, 2, 20, 2));
    let _ = scheduler.schedule(&mut kv);
    assert_eq!(scheduler.running_count(), 2);
    assert!(scheduler.abort_request(&r1, &mut kv));
    assert_eq!(scheduler.running_count(), 1);
    assert_eq!(kv.stats().allocated_blocks, 2);
    assert!(!scheduler.abort_request(&r1, &mut kv));
    assert_eq!(scheduler.running_count(), 1);
    assert_eq!(scheduler.waiting_count(), 0);
    assert_eq!(kv.stats().allocated_blocks, 2);
    assert!(!scheduler.abort_request(&"unknown".to_string(), &mut kv));
}

#[test]
fn abort_of_waiting_request_returns_false() {
    let mut scheduler = Scheduler::new(config(4, 64));
    let mut kv = cache(16, 8);
    scheduler.add_request(&request("R1", 0, 1, 20, 2));
    assert!(!scheduler.abort_request(&"R1".to_string(), &mut kv));
    assert_eq!(scheduler.waiting_count(), 0);
    assert!(!scheduler.has_request(&"R1".to_string()));
}

#[test]
fn full_cache_keeps_request_waiting() {
    let mut scheduler = Scheduler::new(config(8, 64));
    let mut kv = cache(16, 2);
    scheduler.add_request(&request("R1", 0, 1, 10, 2));
    scheduler.add_request(&request("R2", 0, 2, 10, 2));
    let first = scheduler.schedule(&mut kv);
    assert_eq!(first.prefill_requests.len(), 2);
    scheduler.update_after_step(&"R1".to_string(), 10, 0, Vec::new());
    scheduler.update_after_step(&"R2".to_string(), 10, 0, Vec::new());
    assert_eq!(kv.stats().free_blocks, 0);

    scheduler.add_request(&request("R3", 0, 3, 10, 2));
    let result = scheduler.schedule(&mut kv);
    assert_eq!(ids(&result.decode_requests), vec!["R1", "R2"]);
    assert!(result.prefill_requests.is_empty());
    assert!(result.preempted_requests.is_empty());
    assert_eq!(result.blocks_allocated, 0);
    assert_eq!(result.total_tokens, 2);
    assert_eq!(scheduler.waiting_count(), 1);
    assert_eq!(scheduler.get_status(&"R3".to_string()), Some(RequestStatus::Waiting));
}

#[test]
fn decode_without_free_block_makes_no_progress() {
    let mut scheduler = Scheduler::new(SchedulerConfig {
        enable_preemption: true,
        ..config(8, 64)
    });
    let mut kv = cache(16, 1);
    scheduler.add_request(&request("R1", 0, 1, 16, 2));
    let _ = scheduler.schedule(&mut kv);
    scheduler.update_after_step(&"R1".to_string(), 16, 0, Vec::new());
    let result = scheduler.schedule(&mut kv);
    assert!(!result.has_work());
    assert!(result.preempted_requests.is_empty());
    assert_eq!(scheduler.running_count(), 1);
    assert_eq!(scheduler.get_running_info(&"R1".to_string()), Some((16, 0)));
}

#[test]
fn high_priority_request_waits_for_blocks() {
    let mut scheduler = Scheduler::new(SchedulerConfig {
        policy: SchedulingPolicy::Priority,
        enable_preemption: true,
        ..config(8, 64)
    });
    let mut kv = cache(16, 2);
    scheduler.add_request(&request("R1", 1, 1, 16, 2));
    let _ = scheduler.schedule(&mut kv);
    scheduler.update_after_step(&"R1".to_string(), 16, 0, Vec::new());
    scheduler.add_request(&request("R2", 5, 2, 32, 2));
    let result = scheduler.schedule(&mut kv);
    assert_eq!(ids(&result.decode_requests), vec!["R1"]);
    assert_eq!(result.decode_requests[0].block_ids, vec![0, 1]);
    assert!(result.prefill_requests.is_empty());
    assert!(result.preempted_requests.is_empty());
    assert_eq!(scheduler.get_status(&"R2".to_string()), Some(RequestStatus::Waiting));
}

#[test]
fn one_block_admits_only_the_first_of_two() {
    let mut scheduler = Scheduler::new(SchedulerConfig::default());
    let mut kv = cache(16, 1);
    scheduler.add_request(&request("R1", 0, 1, 10, 2));
    scheduler.add_request(&request("R2", 0, 2, 20, 2));
    let result = scheduler.schedule(&mut kv);
    assert_eq!(ids(&result.prefill_requests), vec!["R1"]);
    assert_eq!(result.prefill_requests[0].num_tokens, 10);
    assert_eq!(result.blocks_allocated, 1);
    assert_eq!(scheduler.running_count(), 1);
    assert_eq!(scheduler.waiting_count(), 1);
    assert_eq!(scheduler.get_status(&"R2".to_string()), Some(RequestStatus::Waiting));
}

#[test]
fn token_budget_of_one_chunk_admits_one_request() {
    let mut scheduler = Scheduler::new(SchedulerConfig {
        max_batch_size: 4,
        max_tokens_per_step: 8,
        policy: SchedulingPolicy::FCFS,
        enable_chunked_prefill: true,
        chunked_prefill_threshold: 8,
        enable_preemption: false,
    });
    let mut kv = cache(4, 16);
    scheduler.add_request(&request("R1", 0, 1, 20, 2));
    scheduler.add_request(&request("R2", 0, 2, 20, 2));
    let result = scheduler.schedule(&mut kv);
    assert_eq!(ids(&result.prefill_requests), vec!["R1"]);
    assert_eq!(result.prefill_requests[0].num_tokens, 8);
    assert_eq!(result.total_tokens, 8);
    assert_eq!(scheduler.waiting_count(), 1);
    assert_eq!(scheduler.running_count(), 1);
}

#[test]
fn batch_budget_bounds_the_work_units() {
    let mut scheduler = Scheduler::new(config(2, 512));
    let mut kv = cache(16, 64);
    for (i, name) in ["a", "b", "c"].iter().enumerate() {
        scheduler.add_request(&request(name, 0, i as u64, 5, 2));
    }
    let result = scheduler.schedule(&mut kv);
    assert_eq!(ids(&result.prefill_requests), vec!["a", "b"]);
    assert_eq!(result.decode_requests.len() + result.prefill_requests.len(), 2);
    assert_eq!(result.total_tokens, 10);
    assert_eq!(scheduler.waiting_count(), 1);
}

#[test]
fn token_budget_clips_the_last_prefill() {
    let mut scheduler = Scheduler::new(config(8, 12));
    let mut kv = cache(16, 64);
    scheduler.add_request(&request("a", 0, 1, 10, 2));
    scheduler.add_request(&request("b", 0, 2, 10, 2));
    scheduler.add_request(&request("c", 0, 3, 10, 2));
    let result = scheduler.schedule(&mut kv);
    assert_eq!(ids(&result.prefill_requests), vec!["a", "b"]);
    assert_eq!(result.prefill_requests[0].num_tokens, 10);
    assert_eq!(result.prefill_requests[1].num_tokens, 2);
    assert_eq!(result.total_tokens, 12);
    assert_eq!(scheduler.get_status(&"c".to_string()), Some(RequestStatus::Waiting));
}

#[test]
fn first_come_first_served_ignores_priority() {
    let mut scheduler = Scheduler::new(config(8, 512));
    let mut kv = cache(16, 64);
    scheduler.add_request(&request("late_low", 1, 9, 5, 2));
    scheduler.add_request(&request("early_high", 9, 1, 5, 2));
    scheduler.add_request(&request("middle", 5, 5, 5, 2));
    let result = scheduler.schedule(&mut kv);
    assert_eq!(ids(&result.prefill_requests), vec!["late_low", "early_high", "middle"]);
    let sequence: Vec<u64> = result.prefill_requests.iter().map(|w| w.sequence_id).collect();
    assert_eq!(sequence, vec![0, 1, 2]);
}

#[test]
fn earlier_request_is_never_overtaken() {
    let mut scheduler = Scheduler::new(config(1, 512));
    let mut kv = cache(16, 64);
    scheduler.add_request(&request("first", 0, 100, 5, 2));
    scheduler.add_request(&request("second", 0, 101, 5, 2));
    let step1 = scheduler.schedule(&mut kv);
    assert_eq!(ids(&step1.prefill_requests), vec!["first"]);
    scheduler.update_after_step(&"first".to_string(), 5, 0, Vec::new());
    let step2 = scheduler.schedule(&mut kv);
    assert_eq!(ids(&step2.decode_requests), vec!["first"]);
    assert!(step2.prefill_requests.is_empty());
    scheduler.finish_request(&"first".to_string(), &mut kv);
    let step3 = scheduler.schedule(&mut kv);
    assert_eq!(ids(&step3.prefill_requests), vec!["second"]);
}

#[test]
fn priority_policy_orders_by_priority_arrival_and_name() {
    let mut scheduler = Scheduler::new(SchedulerConfig {
        policy: SchedulingPolicy::Priority,
        ..config(8, 512)
    });
    let mut kv = cache(16, 64);
    scheduler.add_request(&request("low", 1, 1, 5, 2));
    scheduler.add_request(&request("high_late", 5, 7, 5, 2));
    scheduler.add_request(&request("high_early_b", 5, 3, 5, 2));
    scheduler.add_request(&request("high_early_a", 5, 3, 5, 2));
    scheduler.add_request(&request("top", 9, 20, 5, 2));
    let result = scheduler.schedule(&mut kv);
    assert_eq!(
        ids(&result.prefill_requests),
        vec!["top", "high_early_a", "high_early_b", "high_late", "low"]
    );
}

#[test]
fn stale_queue_entry_is_dropped() {
    let mut scheduler = Scheduler::new(config(8, 512));
    let mut kv = cache(16, 64);
    scheduler.add_request(&request("gone", 0, 1, 5, 2));
    scheduler.add_request(&request("here", 0, 2, 5, 2));
    scheduler.finish_request(&"gone".to_string(), &mut kv);
    assert_eq!(scheduler.waiting_count(), 2);
    assert!(!scheduler.has_request(&"gone".to_string()));
    let result = scheduler.schedule(&mut kv);
    assert_eq!(ids(&result.prefill_requests), vec!["here"]);
    assert_eq!(scheduler.waiting_count(), 0);
}

#[test]
fn request_without_prompt_stops_admission() {
    let mut scheduler = Scheduler::new(config(8, 512));
    let mut kv = cache(16, 64);
    scheduler.add_request(&request("empty", 0, 1, 0, 2));
    scheduler.add_request(&request("next", 0, 2, 5, 2));
    let result = scheduler.schedule(&mut kv);
    assert!(!result.has_work());
    assert_eq!(scheduler.waiting_count(), 2);
}

#[test]
fn update_evaluates_prefill_completion() {
    let mut scheduler = Scheduler::new(SchedulerConfig {
        enable_chunked_prefill: true,
        chunked_prefill_threshold: 4,
        ..config(8, 512)
    });
    let mut kv = cache(16, 64);
    let id = "R".to_string();
    scheduler.add_request(&request("R", 0, 1, 6, 2));
    let step1 = scheduler.schedule(&mut kv);
    assert_eq!(step1.prefill_requests[0].num_tokens, 4);
    scheduler.update_after_step(&id, 4, 0, vec![]);
    let step2 = scheduler.schedule(&mut kv);
    assert_eq!(step2.decode_requests.len(), 0);
    assert_eq!(step2.prefill_requests[0].num_tokens, 2);
    scheduler.update_after_step(&id, 2, 0, vec![]);
    let step3 = scheduler.schedule(&mut kv);
    assert_eq!(step3.decode_requests.len(), 1);
    assert_eq!(step3.prefill_requests.len(), 0);
}

#[test]
fn update_appends_late_blocks_and_ignores_unknown() {
    let mut scheduler = Scheduler::new(config(8, 512));
    let mut kv = cache(16, 64);
    let id = "R".to_string();
    scheduler.add_request(&request("R", 0, 1, 5, 2));
    let _ = scheduler.schedule(&mut kv);
    let late = kv.extend(&id, 2);
    assert_eq!(late, vec![1, 2]);
    scheduler.update_after_step(&id, 5, 0, late);
    scheduler.update_after_step(&"nobody".to_string(), 3, 1, vec![7]);
    assert_eq!(scheduler.get_running_info(&"nobody".to_string()), None);
    let step = scheduler.schedule(&mut kv);
    assert_eq!(step.decode_requests[0].block_ids, vec![0, 1, 2]);
}

#[test]
fn decodes_come_before_prefill_chunks_and_admissions() {
    let mut scheduler = Scheduler::new(SchedulerConfig {
        enable_chunked_prefill: true,
        chunked_prefill_threshold: 8,
        ..config(8, 512)
    });
    let mut kv = cache(4, 64);
    scheduler.add_request(&request("long", 0, 1, 20, 2));
    scheduler.add_request(&request("short", 0, 2, 3, 2));
    let step1 = scheduler.schedule(&mut kv);
    assert_eq!(ids(&step1.prefill_requests), vec!["long", "short"]);
    scheduler.update_after_step(&"long".to_string(), 8, 0, vec![]);
    scheduler.update_after_step(&"short".to_string(), 3, 0, vec![]);
    scheduler.add_request(&request("new", 0, 3, 2, 2));
    let step2 = scheduler.schedule(&mut kv);
    assert_eq!(ids(&step2.decode_requests), vec!["short"]);
    assert_eq!(ids(&step2.prefill_requests), vec!["long", "new"]);
    assert_eq!(step2.prefill_requests[0].num_computed_tokens, 8);
    assert_eq!(step2.prefill_requests[1].num_computed_tokens, 0);
    assert_eq!(step2.total_tokens, 1 + 8 + 2);
    assert_eq!(
        step2.all_request_ids(),
        vec!["short".to_string(), "long".to_string(), "new".to_string()]
    );
}

#[test]
fn all_request_ids_drops_immediate_repeats() {
    let unit = |id: &str, is_prefill: bool| ScheduledRequest {
        request_id: id.to_string(),
        sequence_id: 0,
        num_tokens: 1,
        is_prefill,
        block_ids: Vec::new(),
        num_computed_tokens: 0,
    };
    let mut result = ScheduleResult::empty();
    assert!(result.all_request_ids().is_empty());
    result.decode_requests.push(unit("a", false));
    result.decode_requests.push(unit("b", false));
    result.prefill_requests.push(unit("b", true));
    result.prefill_requests.push(unit("a", true));
    result.prefill_requests.push(unit("a", true));
    assert!(result.has_work());
    assert_eq!(
        result.all_request_ids(),
        vec!["a".to_string(), "b".to_string(), "a".to_string()]
    );
}

#[test]
fn readmission_replaces_what_was_kept() {
    let mut scheduler = Scheduler::new(config(8, 512));
    let mut kv = cache(16, 64);
    scheduler.add_request(&request("R", 0, 1, 5, 2));
    assert_eq!(scheduler.next_sequence_id(), 1);
    scheduler.add_request(&request("R", 0, 2, 7, 2));
    assert_eq!(scheduler.next_sequence_id(), 2);
    assert_eq!(scheduler.waiting_count(), 2);
    let result = scheduler.schedule(&mut kv);
    assert_eq!(result.prefill_requests.len(), 1);
    assert_eq!(result.prefill_requests[0].num_tokens, 7);
    assert_eq!(result.prefill_requests[0].sequence_id, 1);
    assert_eq!(scheduler.waiting_count(), 0);
}

#[test]
fn scheduler_config_from_engine_core_config() {
    let core = EngineCoreConfig {
        max_batch_size: 3,
        max_tokens_per_step: 77,
        scheduling_policy: SchedulingPolicy::Priority,
        enable_chunked_prefill: false,
        chunked_prefill_threshold: 9,
        enable_preemption: false,
        ..Default::default()
    };
    let config = SchedulerConfig::from(&core);
    assert_eq!(config.max_batch_size, 3);
    assert_eq!(config.max_tokens_per_step, 77);
    assert_eq!(config.policy, SchedulingPolicy::Priority);
    assert!(!config.enable_chunked_prefill);
    assert_eq!(config.chunked_prefill_threshold, 9);
    assert!(!config.enable_preemption);
    let kv = core.kv_cache_config();
    assert_eq!(kv.block_size, 16);
    assert_eq!(kv.max_blocks, 1024);
    let defaults = SchedulerConfig::default();
    assert_eq!(defaults.max_batch_size, 8);
    assert_eq!(defaults.max_tokens_per_step, 512);
    assert_eq!(defaults.policy, SchedulingPolicy::FCFS);
    assert!(defaults.enable_chunked_prefill);
    assert_eq!(defaults.chunked_prefill_threshold, 256);
    assert!(defaults.enable_preemption);
    assert_eq!(SchedulingPolicy::default(), SchedulingPolicy::FCFS);
}

#[test]
fn running_requests_never_share_a_block() {
    let mut scheduler = Scheduler::new(SchedulerConfig {
        enable_chunked_prefill: true,
        chunked_prefill_threshold: 8,
        ..config(8, 64)
    });
    let mut kv = cache(4, 32);
    for (i, name) in ["a", "b", "c", "d"].iter().enumerate() {
        scheduler.add_request(&request(name, 0, i as u64, 5 + 6 * i, 3));
    }
    for _ in 0..6 {
        let plan = scheduler.schedule(&mut kv);
        let mut seen = std::collections::HashSet::new();
        for name in ["a", "b", "c", "d"] {
            if let Some(table) = kv.get_block_table(&name.to_string()) {
                for id in table {
                    assert!(seen.insert(*id), "block {} is held twice", id);
                    assert_eq!(kv.stats().total_blocks, 32);
                }
            }
        }
        assert_eq!(seen.len(), kv.stats().allocated_blocks);
        for work in plan.decode_requests.iter().chain(plan.prefill_requests.iter()) {
            assert_eq!(
                kv.get_block_table(&work.request_id),
                Some(&work.block_ids[..])
            );
            assert!(work.block_ids.len() * 4 >= work.num_computed_tokens + work.num_tokens);
            let generated = if work.is_prefill { 0 } else { work.num_tokens };
            scheduler.update_after_step(&work.request_id, work.num_tokens, generated, vec![]);
            let (processed, _) = scheduler.get_running_info(&work.request_id).unwrap();
            assert!(work.block_ids.len() >= (processed + 3) / 4);
        }
        let total: usize = plan
            .decode_requests
            .iter()
            .chain(plan.prefill_requests.iter())
            .map(|w| w.num_tokens)
            .sum();
        assert_eq!(total, plan.total_tokens);
        assert!(plan.total_tokens <= 64);
        assert!(plan.decode_requests.len() + plan.prefill_requests.len() <= 8);
    }
    assert_eq!(scheduler.running_count(), 4);
}

#[test]
fn zero_budgets_plan_nothing() {
    for (batch, tokens) in [(0usize, 64usize), (4, 0), (0, 0)] {
        let mut scheduler = Scheduler::new(config(batch, tokens));
        let mut kv = cache(16, 8);
        scheduler.add_request(&request("R", 0, 1, 5, 2));
        let plan = scheduler.schedule(&mut kv);
        assert!(!plan.has_work());
        assert_eq!(plan.total_tokens, 0);
        assert_eq!(scheduler.waiting_count(), 1);
        assert!(scheduler.has_pending_work());
        assert_eq!(kv.stats().allocated_blocks, 0);
    }
}

#[test]
fn entry_of_a_running_request_is_dropped() {
    let mut scheduler = Scheduler::new(config(1, 64));
    let mut kv = cache(16, 8);
    scheduler.add_request(&request("R", 0, 1, 5, 2));
    let first = scheduler.schedule(&mut kv);
    assert_eq!(first.prefill_requests.len(), 1);
    scheduler.update_after_step(&"R".to_string(), 5, 0, vec![]);
    scheduler.add_request(&request("R", 0, 2, 5, 2));
    scheduler.add_request(&request("S", 0, 3, 5, 2));
    let mut wide = Scheduler::new(config(8, 64));
    let mut kv2 = cache(16, 8);
    wide.add_request(&request("R", 0, 1, 5, 2));
    let _ = wide.schedule(&mut kv2);
    wide.update_after_step(&"R".to_string(), 5, 0, vec![]);
    wide.add_request(&request("R", 0, 2, 5, 2));
    wide.add_request(&request("S", 0, 3, 5, 2));
    let plan = wide.schedule(&mut kv2);
    assert_eq!(ids(&plan.decode_requests), vec!["R"]);
    assert_eq!(ids(&plan.prefill_requests), vec!["S"]);
    assert_eq!(wide.waiting_count(), 0);
    assert_eq!(wide.running_count(), 2);
    let narrow = scheduler.schedule(&mut kv);
    assert_eq!(ids(&narrow.decode_requests), vec!["R"]);
    assert!(narrow.prefill_requests.is_empty());
    assert_eq!(scheduler.waiting_count(), 2);
}
