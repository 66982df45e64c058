//! Handing terminal prompt-source outcomes to the requests that wait for them.

use std::collections::HashSet;

use kv_cache_evidence::prompt_source::{
    control_result_label, CacheSourceObservation, Delivery, QueueOutcome, RegistrationError,
    TerminalPromptSourceOutcome, TerminalPromptSourceRegistry,
};

fn outcome(origin_router_id: u64, request_id: &str) -> TerminalPromptSourceOutcome {
    TerminalPromptSourceOutcome {
        origin_router_id,
        request_id: request_id.to_string(),
        registration_nonce: 1,
        cache_source: CacheSourceObservation {
            schema_version: 1,
            complete: false,
            prompt_tokens: Some(10),
            gpu_hit_tokens: None,
            cpu_hit_tokens: None,
            cpu_lookup_tokens: None,
            retrieval_failure_tokens: None,
            recomputed_tokens: None,
            incomplete_reason: Some("cancelled_before_prompt_complete".to_string()),
            cache_groups: None,
        },
        num_computed_output_tokens: 0,
        num_unobserved_computed_output_tokens: 0,
        generated_history_incomplete_reason: None,
    }
}

/// A complete account must add up to its prompt.
fn validate(source: CacheSourceObservation) -> CacheSourceObservation {
    let total = source
        .gpu_hit_tokens
        .zip(source.cpu_hit_tokens)
        .zip(source.recomputed_tokens)
        .map(|((gpu, cpu), recomputed)| gpu + cpu + recomputed);
    if source.complete && total != source.prompt_tokens {
        return CacheSourceObservation {
            complete: false,
            incomplete_reason: Some("invalid_cache_source_observation".to_string()),
            ..source
        };
    }
    source
}

fn delivered(delivery: Delivery) -> Option<TerminalPromptSourceOutcome> {
    match delivery {
        Delivery::Matched { outcome, .. } => Some(outcome),
        _ => None,
    }
}

#[test]
fn only_origin_router_delivers_once() {
    let mut registry = TerminalPromptSourceRegistry::new(7, 4);
    let nonce = registry
        .register("request-1".to_string(), &HashSet::new())
        .unwrap();
    assert_eq!(nonce, 1);
    assert_eq!(registry.router_id(), 7);

    let foreign = registry.deliver(outcome(8, "request-1"), validate);
    assert_eq!(foreign.metric_label(true), None);
    assert!(registry.contains("request-1"));

    let first = registry.deliver(outcome(7, "request-1"), validate);
    assert_eq!(first.metric_label(true), Some("delivered"));
    assert_eq!(first.metric_label(false), Some("receiver_closed"));
    assert_eq!(delivered(first).unwrap().request_id, "request-1");
    let second = registry.deliver(outcome(7, "request-1"), validate);
    assert_eq!(second.metric_label(true), Some("orphan"));
}

#[test]
fn delayed_outcome_cannot_satisfy_reused_request_id() {
    let mut registry = TerminalPromptSourceRegistry::new(7, 4);
    let old_nonce = registry
        .register("reused".to_string(), &HashSet::new())
        .unwrap();
    // The first wait times out, which drops its registration.
    registry.remove("reused", old_nonce);

    let current_nonce = registry
        .register("reused".to_string(), &HashSet::new())
        .unwrap();
    assert_ne!(old_nonce, current_nonce);
    let mut legacy = outcome(7, "reused");
    legacy.registration_nonce = 0;
    assert!(delivered(registry.deliver(legacy, validate)).is_none());
    let mut delayed = outcome(7, "reused");
    delayed.registration_nonce = old_nonce;
    assert!(delivered(registry.deliver(delayed, validate)).is_none());
    assert!(registry.contains("reused"));
    // A late drop of the old registration leaves the new one alone.
    registry.remove("reused", old_nonce);
    assert!(registry.contains("reused"));

    let mut matching = outcome(7, "reused");
    matching.registration_nonce = current_nonce;
    let delivered = delivered(registry.deliver(matching, validate)).unwrap();
    assert_eq!(delivered.registration_nonce, current_nonce);
}

#[test]
fn invalid_terminal_cache_source_is_explicitly_incomplete() {
    let mut registry = TerminalPromptSourceRegistry::new(7, 4);
    registry
        .register("request-1".to_string(), &HashSet::new())
        .unwrap();
    let mut invalid = outcome(7, "request-1");
    invalid.cache_source = CacheSourceObservation {
        schema_version: 1,
        complete: true,
        prompt_tokens: Some(10),
        gpu_hit_tokens: Some(4),
        cpu_hit_tokens: Some(4),
        cpu_lookup_tokens: Some(4),
        retrieval_failure_tokens: Some(0),
        recomputed_tokens: Some(4),
        incomplete_reason: None,
        cache_groups: None,
    };

    let delivered = delivered(registry.deliver(invalid, validate)).unwrap();

    assert!(!delivered.cache_source.complete);
    assert_eq!(
        delivered.cache_source.incomplete_reason.as_deref(),
        Some("invalid_cache_source_observation")
    );
}

#[test]
fn registry_rejects_overflow_without_replacing_live_request() {
    let mut registry = TerminalPromptSourceRegistry::new(7, 1);
    registry
        .register("first".to_string(), &HashSet::new())
        .unwrap();
    let refused = registry
        .register("second".to_string(), &HashSet::new())
        .err();
    assert_eq!(refused, Some(RegistrationError::Full));
    assert_eq!(refused.unwrap().metric_label(), Some("registry_full"));
    assert!(registry.contains("first"));
}

#[test]
fn registry_rejects_duplicate_without_replacing_live_request() {
    let mut registry = TerminalPromptSourceRegistry::new(7, 2);
    registry
        .register("same".to_string(), &HashSet::new())
        .unwrap();
    let refused = registry
        .register("same".to_string(), &HashSet::new())
        .err();
    assert_eq!(refused, Some(RegistrationError::Duplicate));
    assert_eq!(refused.unwrap().metric_label(), Some("registry_duplicate"));
    assert!(delivered(registry.deliver(outcome(7, "same"), validate)).is_some());
}

#[test]
fn concurrent_registration_does_not_prune_a_live_request() {
    let mut registry = TerminalPromptSourceRegistry::new(7, 2);
    registry
        .register("long-running".to_string(), &HashSet::new())
        .unwrap();

    let second = registry
        .register("concurrent".to_string(), &HashSet::new())
        .unwrap();
    assert!(delivered(registry.deliver(outcome(7, "long-running"), validate)).is_some());

    registry.remove("concurrent", second);
    assert_eq!(registry.pending(), 0);
}

#[test]
fn registration_prunes_requests_whose_receiver_is_gone() {
    let mut registry = TerminalPromptSourceRegistry::new(7, 2);
    let gone = registry.register("a".to_string(), &HashSet::new()).unwrap();
    let live = registry.register("b".to_string(), &HashSet::new()).unwrap();
    assert_eq!((gone, live), (1, 2));
    assert_eq!(
        registry.register("c".to_string(), &HashSet::new()),
        Err(RegistrationError::Full)
    );
    assert_eq!(registry.register("c".to_string(), &HashSet::from([gone])), Ok(3));
    assert!(!registry.contains("a"));
    assert!(registry.contains("b"));
    assert_eq!(registry.pending(), 2);
    assert_eq!(RegistrationError::Unavailable.metric_label(), None);
}

#[test]
fn publisher_counts_full_and_closed_queue_failures() {
    fn try_publish(
        queue: &tokio::sync::mpsc::Sender<TerminalPromptSourceOutcome>,
        outcome: TerminalPromptSourceOutcome,
    ) -> QueueOutcome {
        match queue.try_send(outcome) {
            Ok(()) => QueueOutcome::Enqueued,
            Err(tokio::sync::mpsc::error::TrySendError::Full(_)) => QueueOutcome::Full,
            Err(tokio::sync::mpsc::error::TrySendError::Closed(_)) => QueueOutcome::Closed,
        }
    }
    let (queue, receiver) = tokio::sync::mpsc::channel(1);
    let first = try_publish(&queue, outcome(7, "first"));
    first.result().unwrap();
    assert_eq!(first.metric_label(), "enqueued");
    let second = try_publish(&queue, outcome(7, "second"));
    assert_eq!(second.result(), Err("full"));
    assert_eq!(second.metric_label(), "queue_full");

    drop(receiver);
    let third = try_publish(&queue, outcome(7, "third"));
    assert_eq!(third.result(), Err("closed"));
    assert_eq!(third.metric_label(), "queue_closed");
}

#[test]
fn only_known_control_results_are_counted_by_name() {
    for result in [
        "origin_active_evicted",
        "origin_pending_expired",
        "origin_pending_full",
        "origin_missing",
    ] {
        assert_eq!(control_result_label(result), result);
    }
    assert_eq!(control_result_label("origin"), "invalid_control_result");
    assert_eq!(control_result_label(""), "invalid_control_result");
}
