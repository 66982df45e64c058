//! Cold epochs: proving that every cache has started empty.

use kv_cache_evidence::cold_epoch::{
    ColdEpochBeginError, ColdEpochCoordinator, ColdEpochFailure, ColdEpochOutcome,
    ColdEpochOwnerFence, TierSet,
};
use kv_cache_evidence::cold_run::{epoch_id_text, ColdEpochLabel};
use kv_cache_evidence::control::{
    validate_cold_epoch_response, workers_discovered, ControlError, ControlPayload, ControlReply,
};
use kv_cache_evidence::evidence::{
    CacheEvidenceBatch, CacheEvidenceMutation, CacheOwner, CacheTier,
};
use kv_cache_evidence::ledger::CacheEvidenceLedger;
use kv_cache_evidence::membership::{
    cold_epoch_owners, reconcile_history_membership, MembershipView, SourceMember,
};
use kv_cache_evidence::catalog::CacheGroupObservation;
use kv_cache_evidence::sequence::{EvidenceSequenceObservation, EvidenceSequenceTracker};
use kv_cache_evidence::subscription::CacheEvidenceSubscription;

const EPOCH: &str = "0123456789abcdef0123456789abcdef";

fn barrier_owner(worker_id: u64) -> CacheOwner {
    CacheOwner {
        worker_id,
        dp_rank: 0,
    }
}

fn both_tiers() -> TierSet {
    TierSet::of(&[CacheTier::Gpu, CacheTier::Cpu])
}

fn epoch_fence(evidence_incarnation: u64) -> ColdEpochOwnerFence {
    ColdEpochOwnerFence {
        evidence_incarnation,
        serving_incarnation: evidence_incarnation + 1_000,
        expected_tiers: both_tiers(),
    }
}

fn clears(tiers: &[CacheTier]) -> Vec<CacheEvidenceMutation> {
    tiers
        .iter()
        .map(|tier| CacheEvidenceMutation::Clear { tier: Some(*tier) })
        .collect()
}

fn epoch_batch(
    owner: CacheOwner,
    source_incarnation_id: u64,
    barrier_id: Option<u64>,
    mutations: Vec<CacheEvidenceMutation>,
) -> CacheEvidenceBatch {
    CacheEvidenceBatch {
        owner,
        source_cursor: if barrier_id.is_some() { 2 } else { 1 },
        source_incarnation_id: Some(source_incarnation_id),
        heartbeat: false,
        watermark_source_cursor: None,
        telemetry_complete: true,
        mutations,
        barrier_id,
        epoch_id: Some(EPOCH.to_string()),
    }
}

fn begun(owners: &[(CacheOwner, ColdEpochOwnerFence)]) -> ColdEpochCoordinator {
    let mut coordinator = ColdEpochCoordinator::default();
    coordinator.begin(EPOCH.to_string(), 41, owners).unwrap();
    coordinator
}

#[test]
fn validated_cold_epoch_clear_can_baseline_an_unseen_publisher() {
    let owner = barrier_owner(7);
    let mut coordinator = begun(&[(owner, epoch_fence(70))]);
    let mut clear = epoch_batch(owner, 70, None, clears(&[CacheTier::Gpu, CacheTier::Cpu]));
    clear.source_cursor = 50;
    assert!(coordinator.accepts_clear_baseline(&clear));

    let mut tracker = EvidenceSequenceTracker::default();
    assert_eq!(
        tracker.observe_with_initial_baseline(owner, 70, 50, true),
        EvidenceSequenceObservation::Contiguous
    );
    assert!(coordinator.observe_clear_batch(&clear));

    let mut marker = epoch_batch(owner, 70, Some(41), Vec::new());
    marker.source_cursor = 51;
    assert!(!coordinator.accepts_clear_baseline(&marker));
    assert_eq!(
        tracker.observe(owner, 70, 51),
        EvidenceSequenceObservation::Contiguous
    );
    assert!(coordinator.observe_marker(&marker));
    coordinator.controls_succeeded(EPOCH);
    assert_eq!(coordinator.outcome(), ColdEpochOutcome::EvidenceReady);
}

#[test]
fn invalid_epoch_clear_cannot_baseline_an_unseen_publisher() {
    let owner = barrier_owner(7);
    let coordinator = begun(&[(owner, epoch_fence(70))]);
    let mut missing_cpu = epoch_batch(owner, 70, None, clears(&[CacheTier::Gpu]));
    missing_cpu.source_cursor = 50;

    assert!(!coordinator.accepts_clear_baseline(&missing_cpu));
    assert_eq!(
        EvidenceSequenceTracker::default().observe_with_initial_baseline(owner, 70, 50, false),
        EvidenceSequenceObservation::Gap
    );
}

#[test]
fn identical_membership_refresh_preserves_completed_cold_history_epoch() {
    let owner = barrier_owner(7);
    let owners = [owner];
    let membership = Some(vec![(owner, epoch_fence(70))]);
    let mut previous = membership.clone();
    let mut ledger = CacheEvidenceLedger::new(8);
    ledger.set_expected_owners(&owners);
    ledger.record_group_catalog(owner, CacheTier::Gpu, &[0]);
    ledger.record_group_catalog(owner, CacheTier::Cpu, &[0]);
    assert!(ledger.commit_cold_history_epoch(&owners).is_some());

    assert!(!reconcile_history_membership(
        &mut previous,
        membership,
        &mut ledger,
    ));
    assert!(ledger.stats().history_complete);
    assert!(reconcile_history_membership(
        &mut previous,
        Some(vec![(owner, epoch_fence(71))]),
        &mut ledger,
    ));
    assert!(!ledger.stats().history_complete);
}

#[test]
fn cold_epoch_commit_exports_completed_empty_history_state() {
    let owner = barrier_owner(7);
    let owners = [owner];
    let mut ledger = CacheEvidenceLedger::new(8);
    ledger.set_expected_owners(&owners);
    ledger.record_group_catalog(owner, CacheTier::Gpu, &[0]);
    ledger.record_group_catalog(owner, CacheTier::Cpu, &[0]);
    ledger.record_seen_blocks(&[11, 12]);

    assert!(ledger.commit_cold_history_epoch(&owners).is_some());
    let exported = ledger.stats();
    assert!(exported.history_complete);
    assert_eq!(exported.history_blocks, 0);
}

#[test]
fn cold_epoch_control_waits_for_delayed_initial_discovery() {
    assert!(!workers_discovered(&[7], &[]));
    assert!(workers_discovered(&[7], &[7]));
}

#[test]
fn cold_epoch_control_requires_every_owner_in_discovery() {
    assert!(!workers_discovered(&[7, 8], &[7]));
    assert!(workers_discovered(&[7, 8], &[7, 8]));
    assert!(workers_discovered(&[7], &[9, 8, 7]));
    assert!(workers_discovered(&[], &[]));
}

fn reply(status: &str, epoch_id: &str, media: Option<&[&str]>) -> ControlReply {
    ControlReply::Payload(ControlPayload {
        status: Some(status.to_string()),
        code: None,
        barrier_id: Some(41),
        epoch_id: Some(epoch_id.to_string()),
        serving_incarnation: media.map(|_| 1070),
        cleared_media: media.map(|media| {
            media
                .iter()
                .map(|medium| Some(medium.to_string()))
                .collect()
        }),
    })
}

#[test]
fn cold_epoch_control_response_is_strictly_correlated() {
    let success = || reply("success", EPOCH, Some(&["CPU", "GPU"]));
    let validate = |replies: &[ControlReply]| {
        validate_cold_epoch_response(replies, EPOCH, Some(41), Some(1070), Some(both_tiers()))
    };
    assert_eq!(validate(&[success()]), Ok(()));

    for (responses, error) in [
        (Vec::new(), ControlError::NoResponse),
        (
            vec![success(), success()],
            ControlError::MoreThanOneResponse,
        ),
        (
            vec![reply("error", EPOCH, None)],
            ControlError::ErrorPayload,
        ),
        (
            vec![reply(
                "success",
                "1123456789abcdef0123456789abcdef",
                Some(&["CPU", "GPU"]),
            )],
            ControlError::MismatchedToken,
        ),
        (
            vec![reply("success", EPOCH, None)],
            ControlError::MismatchedServingIncarnation,
        ),
        (
            vec![reply("success", EPOCH, Some(&["CPU"]))],
            ControlError::MismatchedClearedMedia,
        ),
        (
            vec![reply("success", EPOCH, Some(&["CPU", "TAPE"]))],
            ControlError::InvalidClearedMedia,
        ),
        (vec![ControlReply::Empty], ControlError::NoPayload),
        (vec![ControlReply::Failed], ControlError::Failed),
    ] {
        assert_eq!(validate(&responses), Err(error));
    }
    assert_eq!(
        validate_cold_epoch_response(
            &[reply("success", EPOCH, None)],
            EPOCH,
            Some(41),
            None,
            Some(both_tiers()),
        ),
        Err(ControlError::OmittedClearedMedia)
    );
    assert_eq!(
        validate_cold_epoch_response(&[success()], EPOCH, Some(42), None, None),
        Err(ControlError::MismatchedBarrierId)
    );
    // Releasing an epoch only has to name it.
    assert_eq!(
        validate_cold_epoch_response(&[reply("success", EPOCH, None)], EPOCH, None, None, None),
        Ok(())
    );
}

#[test]
fn cold_epoch_requires_exact_tier_clears_markers_and_controls_for_every_owner() {
    let mut coordinator = begun(&[
        (barrier_owner(7), epoch_fence(70)),
        (barrier_owner(8), epoch_fence(80)),
    ]);
    for (owner, incarnation) in [(barrier_owner(7), 70), (barrier_owner(8), 80)] {
        assert!(coordinator.observe_clear_batch(&epoch_batch(
            owner,
            incarnation,
            None,
            clears(&[CacheTier::Gpu, CacheTier::Cpu]),
        )));
        assert!(coordinator.observe_marker(&epoch_batch(
            owner,
            incarnation,
            Some(41),
            Vec::new(),
        )));
    }
    assert_eq!(coordinator.outcome(), ColdEpochOutcome::Pending);
    coordinator.controls_succeeded(EPOCH);
    assert_eq!(coordinator.outcome(), ColdEpochOutcome::EvidenceReady);
}

#[test]
fn cold_epoch_fails_closed_on_missing_cpu_duplicate_clear_and_mutation_race() {
    for mutations in [
        clears(&[CacheTier::Gpu]),
        clears(&[CacheTier::Gpu, CacheTier::Gpu]),
    ] {
        let mut coordinator = begun(&[(barrier_owner(7), epoch_fence(70))]);
        coordinator.observe_clear_batch(&epoch_batch(barrier_owner(7), 70, None, mutations));
        assert_eq!(
            coordinator.outcome(),
            ColdEpochOutcome::Incomplete(ColdEpochFailure::InvalidClear)
        );
        assert_eq!(
            ColdEpochFailure::InvalidClear.reason(),
            "cold_epoch_invalid_clear"
        );
    }

    let mut coordinator = begun(&[(barrier_owner(7), epoch_fence(70))]);
    coordinator.observe_clear_batch(&epoch_batch(
        barrier_owner(7),
        70,
        None,
        clears(&[CacheTier::Gpu, CacheTier::Cpu]),
    ));
    coordinator.unexpected_mutation(barrier_owner(7));
    assert_eq!(
        coordinator.outcome(),
        ColdEpochOutcome::Incomplete(ColdEpochFailure::MutationAfterClear)
    );
    assert_eq!(
        ColdEpochFailure::MutationAfterClear.reason(),
        "cold_epoch_mutation_after_clear"
    );
}

#[test]
fn an_epoch_needs_owners_and_the_coordinator_to_itself() {
    let mut coordinator = ColdEpochCoordinator::default();
    assert_eq!(
        coordinator.begin(EPOCH.to_string(), 41, &[]),
        Err(ColdEpochBeginError::NoEligibleOwners)
    );
    let owners = [(barrier_owner(7), epoch_fence(70))];
    assert_eq!(coordinator.begin(EPOCH.to_string(), 41, &owners), Ok(()));
    assert_eq!(
        coordinator.begin(EPOCH.to_string(), 41, &owners),
        Err(ColdEpochBeginError::AlreadyActive)
    );
    coordinator.complete(EPOCH);
    assert_eq!(coordinator.begin(EPOCH.to_string(), 42, &owners), Ok(()));
}

fn catalog() -> Vec<CacheGroupObservation> {
    vec![CacheGroupObservation {
        group_idx: 0,
        kind: "full_attention".to_string(),
        block_size: 16,
        sliding_window: None,
        is_eagle: false,
        alignment_tokens: Some(16),
    }]
}

fn membership(catalog: Option<Vec<CacheGroupObservation>>) -> MembershipView {
    MembershipView {
        endpoint: Some("ns/worker/generate".to_string()),
        sources: vec![SourceMember {
            owner: barrier_owner(7),
            active: true,
            evidence_incarnation: Some(70),
            barrier_enabled: true,
            serving_incarnation: Some(1070),
            epoch_enabled: true,
            epoch_media: Some(vec!["GPU".to_string(), "CPU".to_string()]),
            catalog,
        }],
    }
}

fn subscribed(view: &MembershipView) -> CacheEvidenceSubscription {
    let mut subscription = CacheEvidenceSubscription::new(16, 5_000_000_000, 8);
    subscription.begin_subscription(view);
    subscription
}

#[test]
fn a_cold_epoch_runs_from_fence_to_commit() {
    let view = membership(Some(catalog()));
    let mut subscription = subscribed(&view);
    assert!(subscription.epoch_ready(&view));
    assert!(!subscription.ledger().stats().history_complete);
    let prepared = cold_epoch_owners(&view).unwrap();
    assert_eq!(prepared, vec![(barrier_owner(7), epoch_fence(70))]);

    let mut run = subscription
        .fence_cold_epoch(&view, &prepared, EPOCH.to_string(), 41)
        .ok()
        .unwrap();
    assert_eq!(run.epoch_id(), EPOCH);
    assert_eq!(run.barrier_id(), 41);
    assert_eq!(run.owners(), &prepared);
    assert_eq!(run.controls_answered(&mut subscription, true, false), None);

    let mut clear = epoch_batch(
        barrier_owner(7),
        70,
        None,
        clears(&[CacheTier::Gpu, CacheTier::Cpu]),
    );
    clear.source_cursor = 50;
    subscription.on_batch(&clear, 0);
    let mut marker = epoch_batch(barrier_owner(7), 70, Some(41), Vec::new());
    marker.source_cursor = 51;
    subscription.on_batch(&marker, 0);
    let outcome = subscription.cold_epoch().outcome();
    assert_eq!(outcome, ColdEpochOutcome::EvidenceReady);

    let (committed, label) = run.decide(&mut subscription, &view, Some(outcome));
    assert!(committed);
    assert_eq!(label, None);
    assert_eq!(
        run.release(&mut subscription, true),
        Some(ColdEpochLabel::Success)
    );
    assert!(subscription.ledger().stats().history_complete);
    assert_eq!(subscription.history_epoch(), 1);
}

#[test]
fn a_committed_epoch_that_is_not_released_leaves_history_incomplete() {
    let view = membership(Some(catalog()));
    let mut subscription = subscribed(&view);
    let prepared = cold_epoch_owners(&view).unwrap();
    let mut run = subscription
        .fence_cold_epoch(&view, &prepared, EPOCH.to_string(), 41)
        .ok()
        .unwrap();
    run.controls_answered(&mut subscription, true, false);
    let (committed, _) = run.decide(
        &mut subscription,
        &view,
        Some(ColdEpochOutcome::EvidenceReady),
    );
    assert!(committed);
    assert!(subscription.ledger().stats().history_complete);
    assert_eq!(
        run.release(&mut subscription, false),
        Some(ColdEpochLabel::Release)
    );
    assert!(!subscription.ledger().stats().history_complete);
    assert_eq!(subscription.history_epoch(), 1);
}

#[test]
fn cold_epoch_scope_guard_reopens_dispatch_and_keeps_history_incomplete() {
    let view = membership(Some(catalog()));
    let mut subscription = subscribed(&view);
    let prepared = cold_epoch_owners(&view).unwrap();
    let run = subscription
        .fence_cold_epoch(&view, &prepared, EPOCH.to_string(), 41)
        .ok()
        .unwrap();
    // Uncommitted, but released: another epoch may begin.
    assert_eq!(
        run.release(&mut subscription, true),
        None
    );
    assert!(!subscription.ledger().stats().history_complete);
    assert!(subscription.begin_cold_epoch(&view, &prepared).is_ok());
}

#[test]
fn an_epoch_is_refused_without_membership_or_catalogs() {
    let view = membership(None);
    let mut subscription = subscribed(&view);
    assert!(!subscription.epoch_ready(&view));
    let prepared = cold_epoch_owners(&view).unwrap();
    assert_eq!(
        subscription.begin_cold_epoch(&view, &prepared).err(),
        Some(ColdEpochLabel::Catalog)
    );
    assert_eq!(
        subscription.begin_cold_epoch(&view, &Vec::new()).err(),
        Some(ColdEpochLabel::Membership)
    );
    // A later attempt sees the catalogs that have come in since.
    let ready = membership(Some(catalog()));
    subscription.membership_changed(&ready);
    assert!(subscription.epoch_ready(&ready));
    assert!(subscription.begin_cold_epoch(&ready, &prepared).is_ok());
    assert_eq!(
        subscription.begin_cold_epoch(&ready, &prepared).err(),
        Some(ColdEpochLabel::Init)
    );
}

#[test]
fn random_epoch_ids_differ_and_are_hexadecimal() {
    let id = |subscription: &mut CacheEvidenceSubscription, view: &MembershipView| {
        let prepared = cold_epoch_owners(view).unwrap();
        let run = subscription.begin_cold_epoch(view, &prepared).ok().unwrap();
        (run.epoch_id().to_string(), run.barrier_id())
    };
    let view = membership(Some(catalog()));
    let first = id(&mut subscribed(&view), &view);
    let second = id(&mut subscribed(&view), &view);
    assert_ne!(first, second);
    for (text, barrier_id) in [first, second] {
        assert_eq!(text.len(), 32);
        assert!(text.chars().all(|c| c.is_ascii_digit() || ('a'..='f').contains(&c)));
        assert!(barrier_id >= 1);
    }
    assert_eq!(epoch_id_text(0), "0".repeat(32));
    assert_eq!(
        epoch_id_text(0x0123_4567_89ab_cdef_0123_4567_89ab_cdef),
        EPOCH
    );
}

#[test]
fn failed_or_moved_epochs_commit_nothing() {
    let view = membership(Some(catalog()));
    let mut subscription = subscribed(&view);
    let prepared = cold_epoch_owners(&view).unwrap();
    let mut run = subscription
        .fence_cold_epoch(&view, &prepared, EPOCH.to_string(), 41)
        .ok()
        .unwrap();
    assert_eq!(
        run.controls_answered(&mut subscription, false, false),
        Some(ColdEpochLabel::Control)
    );
    // Nothing is evidence of an epoch that has not begun.
    assert_eq!(
        run.decide(
            &mut subscription,
            &view,
            Some(ColdEpochOutcome::EvidenceReady),
        ),
        (false, None)
    );
    assert_eq!(run.controls_answered(&mut subscription, true, false), None);
    assert_eq!(
        run.decide(
            &mut subscription,
            &view,
            Some(ColdEpochOutcome::Incomplete(ColdEpochFailure::MembershipChanged)),
        ),
        (false, Some(ColdEpochLabel::Membership))
    );
    assert_eq!(run.decide(&mut subscription, &view, None), (false, None));
    let moved = MembershipView {
        endpoint: None,
        sources: Vec::new(),
    };
    assert_eq!(
        run.decide(
            &mut subscription,
            &moved,
            Some(ColdEpochOutcome::EvidenceReady),
        ),
        (false, Some(ColdEpochLabel::Snapshot))
    );
    assert_eq!(
        run.release(&mut subscription, false),
        Some(ColdEpochLabel::Release)
    );

    let mut silent = subscription
        .fence_cold_epoch(&view, &prepared, EPOCH.to_string(), 42)
        .ok()
        .unwrap();
    assert_eq!(
        silent.controls_answered(&mut subscription, true, false),
        None
    );
    assert_eq!(silent.decide(&mut subscription, &view, None), (false, None));
    assert_eq!(
        silent.release(&mut subscription, true),
        Some(ColdEpochLabel::Evidence)
    );
    assert!(!subscription.ledger().stats().history_complete);
}
