//! Route-time cuts and the requests that set them off.

use std::collections::HashSet;

use kv_cache_evidence::barrier::{BarrierCoordinator, BarrierFailure, BarrierOutcome};
use kv_cache_evidence::control::{
    validate_barrier_responses, BarrierControlDisposition, ControlError, ControlPayload,
    ControlReply, ControlResult,
};
use kv_cache_evidence::evidence::{
    CacheEvidenceBatch, CacheEvidenceMutation, CacheEvidenceStoredBlock, CacheOwner, CacheTier,
};
use kv_cache_evidence::ledger::CacheEvidenceLedger;
use kv_cache_evidence::metrics::EvidenceMetric;
use kv_cache_evidence::route::{
    CacheEvidenceQuality, CacheLossRouteObservation, IncompleteReason,
};

fn barrier_owner(worker_id: u64) -> CacheOwner {
    CacheOwner {
        worker_id,
        dp_rank: 0,
    }
}

fn set_owners(coordinator: &mut BarrierCoordinator, owners: &[(CacheOwner, u64)]) {
    coordinator.set_owner_incarnations(owners, owners);
}

fn barrier_coordinator(max_pending: usize) -> BarrierCoordinator {
    let mut coordinator = BarrierCoordinator::new(max_pending);
    set_owners(
        &mut coordinator,
        &[(barrier_owner(7), 70), (barrier_owner(8), 80)],
    );
    coordinator
}

fn outcome(coordinator: &BarrierCoordinator, ticket: u64) -> BarrierOutcome {
    coordinator.outcome(ticket).unwrap()
}

fn reason(outcome: BarrierOutcome) -> Option<&'static str> {
    match outcome {
        BarrierOutcome::Incomplete(failure) => Some(failure.reason()),
        _ => None,
    }
}

fn provisional_route(ticket: u64) -> CacheLossRouteObservation {
    CacheLossRouteObservation {
        quality: CacheEvidenceQuality::BoundedPhysical,
        complete: true,
        barrier: Some(ticket),
        ..Default::default()
    }
}

#[test]
fn exact_choice_loss_waits_for_every_contiguous_owner_marker() {
    let mut coordinator = barrier_coordinator(8);
    let (first, command) = coordinator.begin(HashSet::from([41]), 0);
    let (second, coalesced) = coordinator.begin(HashSet::from([42]), 0);
    let barrier_id = command.unwrap();
    assert_eq!(coalesced, None);
    assert_eq!(coordinator.dispatch(barrier_id).unwrap().1, 2);
    coordinator.controls_succeeded(barrier_id, 0);

    coordinator.marker(barrier_owner(7), barrier_id, 0);
    assert_eq!(outcome(&coordinator, first), BarrierOutcome::Pending);
    coordinator.marker(barrier_owner(8), barrier_id, 0);
    assert_eq!(outcome(&coordinator, first), BarrierOutcome::Exact);
    assert_eq!(outcome(&coordinator, second), BarrierOutcome::Exact);
}

#[test]
fn resolved_exact_is_applied_before_first_streamed_observation() {
    let mut coordinator = barrier_coordinator(8);
    let (ticket, command) = coordinator.begin(HashSet::from([41]), 0);
    let barrier_id = command.unwrap();
    coordinator.dispatch(barrier_id);
    coordinator.controls_succeeded(barrier_id, 0);
    coordinator.marker(barrier_owner(7), barrier_id, 0);
    coordinator.marker(barrier_owner(8), barrier_id, 0);
    let mut route = provisional_route(ticket);

    assert!(route.finalize_barrier_if_ready(&mut coordinator));
    assert_eq!(route.quality, CacheEvidenceQuality::Exact);
    assert!(route.complete);
    assert!(route.barrier.is_none());
}

#[test]
fn resolved_incomplete_is_applied_before_first_streamed_observation() {
    let mut missing = BarrierCoordinator::new(8);
    let (missing_ticket, _) = missing.begin(HashSet::from([41]), 0);

    let mut control = barrier_coordinator(8);
    let (control_ticket, command) = control.begin(HashSet::from([41]), 0);
    control.fail_round(command.unwrap(), BarrierFailure::ControlFailed);

    let mut gap = barrier_coordinator(8);
    let (gap_ticket, _) = gap.begin(HashSet::from([41]), 0);
    gap.fail_owner(barrier_owner(7), BarrierFailure::Gap);

    let mut mutation = barrier_coordinator(8);
    let (mutation_ticket, _) = mutation.begin(HashSet::from([41]), 0);
    mutation.mutation(barrier_owner(7), &HashSet::from([41]), false);

    for (coordinator, ticket, reason) in [
        (&mut missing, missing_ticket, "barrier_missing_capability"),
        (&mut control, control_ticket, "barrier_control_failed"),
        (&mut gap, gap_ticket, "barrier_gap"),
        (&mut mutation, mutation_ticket, "barrier_relevant_mutation"),
    ] {
        let mut route = provisional_route(ticket);
        assert!(route.finalize_barrier_if_ready(coordinator));
        assert_eq!(route.quality, CacheEvidenceQuality::Incomplete);
        assert!(!route.complete);
        assert_eq!(
            route.incomplete_reason.map(IncompleteReason::reason),
            Some(reason)
        );
        assert!(route.barrier.is_none());
    }
}

#[test]
fn a_pending_cut_leaves_the_route_as_it_is() {
    let mut coordinator = barrier_coordinator(8);
    let (ticket, _) = coordinator.begin(HashSet::from([41]), 0);
    let mut route = provisional_route(ticket);
    assert!(!route.finalize_barrier_if_ready(&mut coordinator));
    assert_eq!(route.quality, CacheEvidenceQuality::BoundedPhysical);
    assert_eq!(route.barrier, Some(ticket));
    assert_eq!(coordinator.awaited_outcome(ticket), None);
    // Nobody can tell what became of a cut that is not known; a wait for it
    // is over.
    let other = barrier_coordinator(8);
    assert!(!route.finalize_barrier_if_ready(&other));
    assert_eq!(route.quality, CacheEvidenceQuality::BoundedPhysical);
    assert_eq!(route.barrier, Some(ticket));
    assert_eq!(
        other.awaited_outcome(ticket),
        Some(BarrierOutcome::Incomplete(
            BarrierFailure::CoordinatorClosed
        ))
    );
}

#[test]
fn every_holder_of_a_ticket_reads_the_same_outcome() {
    let mut exact = BarrierCoordinator::with_first_id(4, 3);
    set_owners(&mut exact, &[(barrier_owner(7), 70)]);
    let (exact_ticket, command) = exact.begin(HashSet::from([41]), 0);
    let id = command.unwrap();
    exact.dispatch(id);
    exact.controls_succeeded(id, 0);
    exact.marker(barrier_owner(7), id, 0);
    let mut refused = BarrierCoordinator::new(8);
    let (refused_ticket, _) = refused.begin(HashSet::from([41]), 0);
    for (coordinator, ticket, outcome) in [
        (&exact, exact_ticket, BarrierOutcome::Exact),
        (
            &refused,
            refused_ticket,
            BarrierOutcome::Incomplete(BarrierFailure::MissingCapability),
        ),
    ] {
        let mut first = provisional_route(ticket);
        let mut second = first.clone();
        assert!(first.finalize_barrier_if_ready(coordinator));
        assert!(second.finalize_barrier_if_ready(coordinator));
        assert_eq!(first.quality, second.quality);
        assert_eq!(first.complete, second.complete);
        assert_eq!(first.incomplete_reason, second.incomplete_reason);
        assert_eq!(coordinator.awaited_outcome(ticket), Some(outcome));
    }
}

fn payload(status: Option<&str>, code: Option<&str>, barrier_id: Option<u64>) -> ControlReply {
    ControlReply::Payload(ControlPayload {
        status: status.map(str::to_string),
        code: code.map(str::to_string),
        barrier_id,
        epoch_id: None,
        serving_incarnation: None,
        cleared_media: None,
    })
}

#[test]
fn barrier_control_response_requires_one_matching_success() {
    let success = || payload(Some("success"), None, Some(41));

    assert_eq!(
        validate_barrier_responses(&[success()], 41).unwrap(),
        BarrierControlDisposition::Success
    );

    let permanent = [payload(
        Some("error"),
        Some("barrier_permanently_unavailable"),
        Some(41),
    )];
    assert_eq!(
        validate_barrier_responses(&permanent, 41).unwrap(),
        BarrierControlDisposition::PermanentlyUnavailable
    );

    let invalid_cases = [
        (
            vec![payload(Some("error"), None, None)],
            ControlError::MismatchedBarrierId,
        ),
        (
            vec![payload(Some("success"), None, Some(42))],
            ControlError::MismatchedBarrierId,
        ),
        (
            vec![payload(Some("error"), Some("barrier_timeout"), Some(41))],
            ControlError::ErrorPayload,
        ),
        (
            vec![success(), success()],
            ControlError::MoreThanOneResponse,
        ),
        (
            vec![success(), payload(Some("progress"), None, None)],
            ControlError::MoreThanOneResponse,
        ),
        (Vec::new(), ControlError::NoResponse),
        (vec![ControlReply::Failed], ControlError::Failed),
        (vec![ControlReply::Empty], ControlError::NoPayload),
    ];
    for (responses, error) in invalid_cases {
        assert_eq!(validate_barrier_responses(&responses, 41), Err(error));
    }
}

#[test]
fn eviction_race_fails_only_the_relevant_snapshot_before_its_marker() {
    let mut coordinator = barrier_coordinator(8);
    let (relevant, command) = coordinator.begin(HashSet::from([41]), 0);
    let (unrelated, _) = coordinator.begin(HashSet::from([42]), 0);
    let barrier_id = command.unwrap();
    coordinator.dispatch(barrier_id);
    coordinator.controls_succeeded(barrier_id, 0);

    coordinator.mutation(barrier_owner(7), &HashSet::from([41]), false);
    assert_eq!(
        reason(outcome(&coordinator, relevant)),
        Some("barrier_relevant_mutation")
    );
    assert_eq!(outcome(&coordinator, unrelated), BarrierOutcome::Pending);
    coordinator.marker(barrier_owner(7), barrier_id, 0);
    coordinator.marker(barrier_owner(8), barrier_id, 0);
    assert_eq!(outcome(&coordinator, unrelated), BarrierOutcome::Exact);
}

#[test]
fn mutation_after_owner_marker_does_not_retroactively_invalidate_cut() {
    let mut coordinator = barrier_coordinator(8);
    let (ticket, command) = coordinator.begin(HashSet::from([41]), 0);
    let barrier_id = command.unwrap();
    coordinator.dispatch(barrier_id);
    coordinator.controls_succeeded(barrier_id, 0);

    coordinator.marker(barrier_owner(7), barrier_id, 0);
    coordinator.mutation(barrier_owner(7), &HashSet::from([41]), false);
    assert_eq!(outcome(&coordinator, ticket), BarrierOutcome::Pending);
    coordinator.marker(barrier_owner(8), barrier_id, 0);
    assert_eq!(outcome(&coordinator, ticket), BarrierOutcome::Exact);
}

#[test]
fn clear_before_marker_cannot_become_exact() {
    let mut coordinator = barrier_coordinator(8);
    let (ticket, command) = coordinator.begin(HashSet::from([41]), 0);
    let barrier_id = command.unwrap();
    coordinator.dispatch(barrier_id);
    coordinator.controls_succeeded(barrier_id, 0);

    coordinator.mutation(barrier_owner(7), &HashSet::new(), true);
    coordinator.marker(barrier_owner(7), barrier_id, 0);
    coordinator.marker(barrier_owner(8), barrier_id, 0);

    assert_eq!(reason(outcome(&coordinator, ticket)), Some("barrier_clear"));
}

#[test]
fn marker_before_control_error_cannot_complete_the_cut() {
    let mut coordinator = barrier_coordinator(8);
    let (ticket, command) = coordinator.begin(HashSet::from([41]), 0);
    let barrier_id = command.unwrap();
    coordinator.dispatch(barrier_id);
    coordinator.marker(barrier_owner(7), barrier_id, 0);
    coordinator.marker(barrier_owner(8), barrier_id, 0);
    assert_eq!(outcome(&coordinator, ticket), BarrierOutcome::Pending);

    coordinator.fail_round(barrier_id, BarrierFailure::ControlFailed);
    assert_eq!(
        reason(outcome(&coordinator, ticket)),
        Some("barrier_control_failed")
    );
}

#[test]
fn apply_integrity_failure_invalidates_pending_cut_before_marker() {
    let owner = barrier_owner(7);
    let mut ledger = CacheEvidenceLedger::new(8);
    ledger.record_group_catalog(owner, CacheTier::Gpu, &[0]);
    let initial = CacheEvidenceBatch {
        owner,
        source_cursor: 1,
        source_incarnation_id: Some(70),
        heartbeat: false,
        watermark_source_cursor: None,
        telemetry_complete: true,
        mutations: vec![CacheEvidenceMutation::Store {
            tier: CacheTier::Gpu,
            group_idx: Some(0),
            parent_external_hash: None,
            blocks: vec![CacheEvidenceStoredBlock {
                external_hash: 100,
                tokens_hash: 41,
            }],
        }],
        barrier_id: None,
        epoch_id: None,
    };
    assert!(ledger.apply_evidence_batch(&initial));

    let mut coordinator = barrier_coordinator(8);
    let (ticket, command) = coordinator.begin(HashSet::from([41]), 0);
    let barrier_id = command.unwrap();
    coordinator.dispatch(barrier_id);
    let conflicting = CacheEvidenceBatch {
        source_cursor: 2,
        mutations: vec![CacheEvidenceMutation::Store {
            tier: CacheTier::Gpu,
            group_idx: Some(0),
            parent_external_hash: None,
            blocks: vec![CacheEvidenceStoredBlock {
                external_hash: 100,
                tokens_hash: 42,
            }],
        }],
        ..initial
    };
    assert!(!ledger.apply_evidence_batch(&conflicting));
    coordinator.fail_owner(owner, BarrierFailure::ApplyIntegrityFailure);
    coordinator.controls_succeeded(barrier_id, 0);
    coordinator.marker(barrier_owner(7), barrier_id, 0);
    coordinator.marker(barrier_owner(8), barrier_id, 0);
    assert_eq!(
        reason(outcome(&coordinator, ticket)),
        Some("barrier_apply_integrity_failure")
    );
}

#[test]
fn barrier_fails_closed_for_clear_gap_restart_membership_catalog_and_timeout() {
    for (expected, fail) in [
        ("barrier_clear", 0_u8),
        ("barrier_gap", 1),
        ("barrier_restart", 2),
        ("barrier_membership_changed", 3),
        ("barrier_catalog_changed", 4),
        ("barrier_timeout", 5),
    ] {
        let mut coordinator = barrier_coordinator(8);
        let (ticket, command) = coordinator.begin(HashSet::from([41]), 0);
        let barrier_id = command.unwrap();
        coordinator.dispatch(barrier_id);
        match fail {
            0 => {
                coordinator.mutation(barrier_owner(7), &HashSet::new(), true);
            }
            1 => {
                coordinator.fail_owner(barrier_owner(7), BarrierFailure::Gap);
            }
            2 => {
                coordinator.fail_owner(barrier_owner(7), BarrierFailure::Restart);
            }
            3 => set_owners(&mut coordinator, &[(barrier_owner(7), 71)]),
            4 => {
                coordinator.fail_all(BarrierFailure::CatalogChanged);
            }
            5 => {
                coordinator.fail_round(barrier_id, BarrierFailure::Timeout);
            }
            _ => unreachable!(),
        }
        assert_eq!(reason(outcome(&coordinator, ticket)), Some(expected));
    }
}

#[test]
fn barrier_fails_closed_for_missing_capability_and_journal_overflow() {
    let mut missing = BarrierCoordinator::new(1);
    let (ticket, command) = missing.begin(HashSet::from([41]), 0);
    assert_eq!(command, None);
    assert_eq!(
        reason(outcome(&missing, ticket)),
        Some("barrier_missing_capability")
    );

    let mut full = barrier_coordinator(1);
    let (_first, command) = full.begin(HashSet::from([41]), 0);
    assert!(command.is_some());
    let (overflow, command) = full.begin(HashSet::from([42]), 0);
    assert_eq!(command, None);
    assert_eq!(
        reason(outcome(&full, overflow)),
        Some("barrier_journal_overflow")
    );
}

#[test]
fn barrier_timeout_is_cut_local_and_next_success_can_be_exact() {
    let owner = barrier_owner(7);
    let mut ledger = CacheEvidenceLedger::new(8);
    ledger.set_expected_owners(&[owner]);
    ledger.record_group_catalog(owner, CacheTier::Gpu, &[0]);
    assert!(ledger.stats().physical_telemetry_complete);

    let mut coordinator = barrier_coordinator(8);
    let (timed_out, command) = coordinator.begin(HashSet::from([41]), 0);
    coordinator.fail_round(command.unwrap(), BarrierFailure::Timeout);
    assert_eq!(
        reason(outcome(&coordinator, timed_out)),
        Some("barrier_timeout")
    );
    assert!(ledger.stats().physical_telemetry_complete);

    let (next, command) = coordinator.begin(HashSet::from([41]), 0);
    let barrier_id = command.unwrap();
    coordinator.dispatch(barrier_id);
    coordinator.controls_succeeded(barrier_id, 0);
    coordinator.marker(barrier_owner(7), barrier_id, 0);
    coordinator.marker(barrier_owner(8), barrier_id, 0);
    assert_eq!(outcome(&coordinator, next), BarrierOutcome::Exact);
    assert!(ledger.stats().physical_telemetry_complete);
}

#[test]
fn permanent_unavailability_circuit_breaks_until_new_incarnation() {
    let mut coordinator = barrier_coordinator(8);
    let (failed, command) = coordinator.begin(HashSet::from([41]), 0);
    let barrier_id = command.unwrap();
    coordinator.dispatch(barrier_id);
    coordinator.mark_permanently_unavailable(barrier_owner(7), 70);
    assert_eq!(
        reason(outcome(&coordinator, failed)),
        Some("barrier_permanently_unavailable")
    );

    let (same_incarnation, command) = coordinator.begin(HashSet::from([41]), 0);
    assert_eq!(command, None);
    assert_eq!(
        reason(outcome(&coordinator, same_incarnation)),
        Some("barrier_missing_capability")
    );
    set_owners(
        &mut coordinator,
        &[(barrier_owner(7), 70), (barrier_owner(8), 80)],
    );
    let (_, command) = coordinator.begin(HashSet::from([41]), 0);
    assert_eq!(command, None);

    set_owners(
        &mut coordinator,
        &[(barrier_owner(7), 71), (barrier_owner(8), 80)],
    );
    let (recovered, command) = coordinator.begin(HashSet::from([41]), 0);
    let barrier_id = command.unwrap();
    coordinator.dispatch(barrier_id);
    coordinator.controls_succeeded(barrier_id, 0);
    coordinator.marker(barrier_owner(7), barrier_id, 0);
    coordinator.marker(barrier_owner(8), barrier_id, 0);
    assert_eq!(outcome(&coordinator, recovered), BarrierOutcome::Exact);
}

#[test]
fn selected_owner_requires_the_exact_fenced_serving_incarnation() {
    let mut coordinator = barrier_coordinator(8);
    assert!(coordinator.matches_selected_incarnation(barrier_owner(7), Some(70)));
    assert!(!coordinator.matches_selected_incarnation(barrier_owner(7), Some(71)));
    assert!(!coordinator.matches_selected_incarnation(barrier_owner(9), Some(90)));
    assert!(!coordinator.matches_selected_incarnation(barrier_owner(7), None));

    coordinator.set_owner_incarnations(&[(barrier_owner(7), 700)], &[(barrier_owner(7), 71)]);
    assert!(!coordinator.matches_selected_incarnation(barrier_owner(7), Some(70)));
    assert!(coordinator.matches_selected_incarnation(barrier_owner(7), Some(71)));
    assert!(!coordinator.matches_selected_incarnation(barrier_owner(8), Some(80)));
}

#[test]
fn round_ids_are_never_zero_and_go_on_from_the_first() {
    let mut coordinator = BarrierCoordinator::with_first_id(4, 9);
    set_owners(&mut coordinator, &[(barrier_owner(7), 70)]);
    let (_, command) = coordinator.begin(HashSet::from([1]), 0);
    assert_eq!(command, Some(9));
    coordinator.fail_round(9, BarrierFailure::Timeout);
    let (_, command) = coordinator.begin(HashSet::from([1]), 0);
    assert_eq!(command, Some(10));
    assert!(barrier_coordinator(4).ids_available());
    assert_eq!(coordinator.pending(), 1);
}

#[test]
fn answered_controls_complete_or_void_the_round() {
    let results = |disposition| {
        [ControlResult {
            owner: barrier_owner(7),
            incarnation: 70,
            disposition,
        }]
    };
    let begun = || {
        let mut coordinator = BarrierCoordinator::with_first_id(4, 3);
        set_owners(&mut coordinator, &[(barrier_owner(7), 70)]);
        let (ticket, command) = coordinator.begin(HashSet::from([1]), 100);
        let id = command.unwrap();
        let mut events = Vec::new();
        let owners = coordinator.dispatch_round(id, &mut events).unwrap();
        assert_eq!(owners, vec![(barrier_owner(7), 70)]);
        assert!(events == vec![EvidenceMetric::BarrierCoalesced(1)]);
        (coordinator, ticket, id)
    };

    let (mut early, ticket, id) = begun();
    early.marker(barrier_owner(7), id, 120);
    let mut events = Vec::new();
    assert!(!early.controls_answered(
        id,
        &results(Some(BarrierControlDisposition::Success)),
        150,
        &mut events,
    ));
    assert!(events == vec![EvidenceMetric::BarrierRtt(50)]);
    assert_eq!(outcome(&early, ticket), BarrierOutcome::Exact);

    let (mut waiting, ticket, id) = begun();
    let mut events = Vec::new();
    assert!(waiting.controls_answered(
        id,
        &results(Some(BarrierControlDisposition::Success)),
        150,
        &mut events,
    ));
    assert!(events.is_empty());
    waiting.markers_timed_out(id, &mut events);
    assert_eq!(reason(outcome(&waiting, ticket)), Some("barrier_timeout"));
    assert!(events == vec![EvidenceMetric::BarrierIncomplete(BarrierFailure::Timeout)]);
    waiting.markers_timed_out(id, &mut events);
    assert_eq!(events.len(), 1);

    let (mut refused, ticket, id) = begun();
    let mut events = Vec::new();
    assert!(!refused.controls_answered(id, &results(None), 150, &mut events));
    assert_eq!(
        reason(outcome(&refused, ticket)),
        Some("barrier_control_failed")
    );

    let (mut permanent, ticket, id) = begun();
    assert!(!permanent.controls_answered(
        id,
        &results(Some(BarrierControlDisposition::PermanentlyUnavailable)),
        150,
        &mut Vec::new(),
    ));
    assert_eq!(
        reason(outcome(&permanent, ticket)),
        Some("barrier_permanently_unavailable")
    );
}
