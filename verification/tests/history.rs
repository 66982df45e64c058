//! The bounded history of completed requests.

use kv_cache_evidence::history::{CacheHistory, ESTIMATED_BYTES_PER_HISTORY_RECORD};
use kv_cache_evidence::history_request::{CacheHistoryRequest, RouteObservation};
use kv_cache_evidence::tracker::{
    AbortedHistoryError, CacheHistoryTracker, OutputBlockTracker, OutputBlockUpdate,
};

const SECOND: u64 = 1_000_000_000;

/// One hash per complete block, each depending on everything before it.
fn rolling_hashes(tokens: Vec<u32>, block_size: u32, is_eagle: bool) -> Vec<u64> {
    let mut hash = u64::from(is_eagle);
    tokens
        .chunks_exact(block_size as usize)
        .map(|block| {
            for token in block {
                hash = hash.wrapping_mul(31).wrapping_add(u64::from(*token) + 1);
            }
            hash
        })
        .collect()
}

#[test]
fn retains_recent_records_and_expires_the_oldest() {
    let mut history = CacheHistory::new(2 * ESTIMATED_BYTES_PER_HISTORY_RECORD, 16);
    history.record_completed(&[10, 20], 0);
    assert_eq!(history.previously_computed_tokens(&[10, 20]), 32);

    history.record_completed(&[30], 0);
    assert_eq!(history.previously_computed_tokens(&[10, 20]), 0);
    assert_eq!(history.previously_computed_tokens(&[20, 30]), 32);
    assert_eq!(history.stats(0).represented_tokens, 32);
}

#[test]
fn duplicate_records_keep_a_hash_retained_until_all_expire() {
    let mut history = CacheHistory::new(2 * ESTIMATED_BYTES_PER_HISTORY_RECORD, 8);
    history.record_completed(&[7, 7], 0);
    history.record_completed(&[9], 0);

    assert_eq!(history.previously_computed_tokens(&[7]), 8);
    history.record_completed(&[11], 0);
    assert_eq!(history.previously_computed_tokens(&[7]), 0);
}

#[test]
fn generated_history_excludes_the_newest_sampled_token() {
    let mut request = CacheHistoryRequest::new(vec![1, 2, 3, 4], 2, false);
    request.observe_output(0, &[5, 6, 7]);
    let mut history = CacheHistory::new(32 * ESTIMATED_BYTES_PER_HISTORY_RECORD, 2);
    let prompt_hashes = request.prompt_hashes(rolling_hashes);
    let output_hashes = request.output_hashes(rolling_hashes);
    request.finalize(&mut history, &prompt_hashes, &output_hashes, 0);

    // Prompt has two complete blocks; prompt plus the first two generated
    // tokens has three. The final sampled token is deliberately absent.
    assert_eq!(history.stats(0).retained_records, 5);
}

#[test]
fn byte_budget_is_the_only_retention_limit() {
    let mut history = CacheHistory::new(2 * ESTIMATED_BYTES_PER_HISTORY_RECORD, 16);
    history.record_completed(&[10, 20], 0);
    assert_eq!(history.stats(0).retained_records, 2);
    history.record_completed(&[30], 0);
    assert_eq!(history.stats(0).retained_records, 2);
}

#[test]
fn exposes_the_age_of_the_oldest_fifo_chunk() {
    let mut history = CacheHistory::new(8 * ESTIMATED_BYTES_PER_HISTORY_RECORD, 16);
    let now = 1_000 * SECOND;
    history.record_completed(&[10], now - 90 * SECOND);
    history.record_completed(&[20], now - 30 * SECOND);
    let stats = history.stats(now);
    assert_eq!(stats.retained_chunks, 2);
    assert_eq!(stats.oldest_chunk_age_seconds, 90);
}

#[test]
fn chunks_are_a_sixteenth_of_the_budget_and_leave_whole() {
    // 32 records fit, so a chunk takes two of them.
    let mut history = CacheHistory::new(32 * ESTIMATED_BYTES_PER_HISTORY_RECORD, 16);
    let hashes: Vec<u64> = (0..32).collect();
    history.record_completed(&hashes, 5);
    assert_eq!(history.stats(5).retained_chunks, 16);
    assert_eq!(history.stats(5).retained_records, 32);
    history.record_completed(&[100], 6);
    let stats = history.stats(6);
    assert_eq!(stats.retained_records, 31);
    assert_eq!(stats.retained_unique_hashes, 31);
    assert_eq!(stats.retained_chunks, 16);
    assert_eq!(stats.estimated_retained_bytes, 31 * 32);
    assert_eq!(stats.capacity_bytes, 32 * 32);
    assert_eq!(history.previously_computed_tokens(&[1]), 0);
    assert_eq!(history.previously_computed_tokens(&[2, 3, 100, 99]), 48);
}

#[test]
fn a_budget_below_one_record_still_holds_one() {
    let mut history = CacheHistory::new(1, 4);
    history.record_completed(&[1, 2, 3], 0);
    assert_eq!(history.stats(0).retained_records, 1);
    assert_eq!(history.previously_computed_tokens(&[3]), 4);
    assert_eq!(history.stats(0).oldest_chunk_age_seconds, 0);
}

#[test]
fn an_empty_history_knows_nothing() {
    let history = CacheHistory::new(1024, 4);
    assert_eq!(history.previously_computed_tokens(&[3]), 0);
    let stats = history.stats(7 * SECOND);
    assert_eq!(stats.retained_chunks, 0);
    assert_eq!(stats.oldest_chunk_age_seconds, 0);
    assert_eq!(stats.retained_unique_hashes, 0);
}

#[test]
fn a_request_is_recorded_once() {
    let mut request = CacheHistoryRequest::new(vec![1, 2, 3, 4], 2, true);
    request.observe_output(3, &[]);
    let mut history = CacheHistory::new(32 * ESTIMATED_BYTES_PER_HISTORY_RECORD, 2);
    let prompt = request.prompt_hashes(rolling_hashes);
    assert_eq!(prompt.len(), 2);
    assert_eq!(request.previously_computed_tokens(&history, rolling_hashes), 0);
    request.record_prompt(&mut history, &prompt, 0);
    request.record_prompt(&mut history, &prompt, 0);
    assert_eq!(history.stats(0).retained_records, 2);
    assert_eq!(request.previously_computed_tokens(&history, rolling_hashes), 4);
    let outputs = request.output_hashes(rolling_hashes);
    assert!(outputs.is_empty());
    request.finalize(&mut history, &prompt, &outputs, 0);
    request.finalize(&mut history, &prompt, &outputs, 0);
    assert_eq!(history.stats(0).retained_records, 2);
}

#[test]
fn route_counts_never_exceed_the_prompt() {
    let bounded = RouteObservation {
        prompt_tokens: 10,
        previously_computed_tokens: 11,
        best_router_tokens: 9,
        selected_router_tokens: 10,
    }
    .bounded();
    assert_eq!(
        bounded,
        RouteObservation {
            prompt_tokens: 10,
            previously_computed_tokens: 10,
            best_router_tokens: 9,
            selected_router_tokens: 10,
        }
    );
}

fn tracker(outputs: &[(u32, &[u32])]) -> CacheHistoryTracker {
    let mut tracker = CacheHistoryTracker::new(vec![1, 2, 3], 0);
    for (index, tokens) in outputs {
        tracker.observe(*index, tokens);
    }
    tracker
}

#[test]
fn generated_history_keeps_choices_separate_and_excludes_sampled_tail() {
    let tracker = tracker(&[(0, &[4, 5, 6]), (1, &[7, 8])]);

    let mut sequences: Vec<Vec<u32>> = tracker.completed_sequences();
    sequences.sort();
    assert_eq!(sequences, vec![vec![1, 2, 3, 4, 5], vec![1, 2, 3, 7]]);
}

#[test]
fn one_sampled_output_adds_no_generated_kv_history() {
    let tracker = tracker(&[(0, &[4])]);

    assert_eq!(tracker.completed_sequences(), vec![vec![1, 2, 3]]);
}

#[test]
fn an_aborted_request_records_what_its_worker_computed() {
    let single = tracker(&[(2, &[4, 5]), (2, &[6])]);
    assert_eq!(single.aborted_sequence(2, true), Ok(vec![1, 2, 3, 4, 5]));
    assert_eq!(
        single.aborted_sequence(4, true),
        Err(AbortedHistoryError::ComputedOutputExceedsDelivered)
    );
    assert_eq!(
        single.aborted_sequence(0, false),
        Err(AbortedHistoryError::PromptIncomplete)
    );
    assert_eq!(
        tracker(&[(0, &[4]), (1, &[5])]).aborted_sequence(0, true),
        Err(AbortedHistoryError::MultipleOutputBranches)
    );
    assert_eq!(tracker(&[]).aborted_sequence(0, true), Ok(vec![1, 2, 3]));
    assert_eq!(
        tracker(&[]).aborted_sequence(1, true),
        Err(AbortedHistoryError::ComputedOutputExceedsDelivered)
    );
    assert_eq!(
        AbortedHistoryError::ComputedOutputExceedsDelivered.reason(),
        "computed_output_exceeds_delivered_output"
    );
    assert_eq!(AbortedHistoryError::PromptIncomplete.reason(), "prompt_incomplete");
    assert_eq!(
        AbortedHistoryError::MultipleOutputBranches.reason(),
        "multiple_output_branches"
    );
}

#[test]
fn output_blocks_are_reported_as_they_are_reached() {
    let mut blocks = OutputBlockTracker::new(true, 10, 4, Some(8));
    assert_eq!(blocks.current_total_blocks, 3);
    assert_eq!(blocks.observe(2), None);
    assert_eq!(
        blocks.observe(3),
        Some(OutputBlockUpdate {
            cumulative_osl: 3,
            expected_output_tokens: Some(8),
        })
    );
    assert_eq!(blocks.observe(3), None);
    assert_eq!(blocks.observe(6), None);
    assert!(blocks.observe(15).is_some());
    assert_eq!(blocks.current_total_blocks, 7);

    let mut untracked = OutputBlockTracker::new(false, 10, 4, None);
    assert_eq!(untracked.observe(100), None);
}
