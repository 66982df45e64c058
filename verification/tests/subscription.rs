//! Catalogs, sequences, freshness, and the subscription that joins them.

use kv_cache_evidence::barrier::BarrierOutcome;
use kv_cache_evidence::catalog::{cache_group_hashes, CacheGroupObservation};
use kv_cache_evidence::event::{EventMedium, EventOwnership, Locality, RawKvEvent, StorageTier};
use kv_cache_evidence::evidence::{
    CacheEvidenceBatch, CacheEvidenceMutation, CacheEvidenceStoredBlock, CacheOwner, CacheTier,
    KnownBool,
};
use kv_cache_evidence::freshness::{EvidenceFreshness, EvidenceFreshnessStatus};
use kv_cache_evidence::membership::{MembershipView, SourceMember};
use kv_cache_evidence::metrics::{BatchLabel, EvidenceMetric};
use kv_cache_evidence::observer::CacheEvidenceObserver;
use kv_cache_evidence::prefix::CacheGroupKind;
use kv_cache_evidence::protocols::{compute_next_seq_hash, LocalBlockHash};
use kv_cache_evidence::random::{nonzero, random_id};
use kv_cache_evidence::route::{CacheEvidenceQuality, IncompleteReason};
use kv_cache_evidence::sequence::{
    observe_watermark, EvidenceSequenceObservation, EvidenceSequenceTracker,
    EvidenceWatermarkObservation,
};
use kv_cache_evidence::settings::{
    barrier_pending_capacity, barrier_timeout, cold_epoch_readiness_timeout, enabled,
    evidence_freshness, history_bytes, history_capacity, parse_number,
};
use kv_cache_evidence::subscription::CacheEvidenceSubscription;

const SECOND: u64 = 1_000_000_000;

fn worker(worker_id: u64, dp_rank: u32) -> CacheOwner {
    CacheOwner { worker_id, dp_rank }
}

fn catalog_group(group_idx: u32, kind: &str, block_size: u32) -> CacheGroupObservation {
    CacheGroupObservation {
        group_idx,
        kind: kind.to_string(),
        block_size,
        sliding_window: (kind == "sliding_window").then_some(128),
        is_eagle: false,
        alignment_tokens: Some(256),
    }
}

fn catalog_membership_view(catalog: Option<Vec<CacheGroupObservation>>) -> MembershipView {
    MembershipView {
        endpoint: Some("ns/worker/generate".to_string()),
        sources: vec![SourceMember {
            owner: worker(7, 4),
            active: true,
            evidence_incarnation: Some(12),
            barrier_enabled: true,
            serving_incarnation: Some(99),
            epoch_enabled: true,
            epoch_media: Some(vec!["GPU".to_string(), "CPU".to_string()]),
            catalog,
        }],
    }
}

/// A subscription that expects worker 7, rank 4.
fn expecting(catalog: Option<Vec<CacheGroupObservation>>) -> CacheEvidenceSubscription {
    let mut subscription = CacheEvidenceSubscription::new(16, 5 * SECOND, 8);
    subscription.begin_subscription(&catalog_membership_view(catalog));
    subscription
}

#[test]
fn attested_multigroup_catalog_seeds_g0_and_change_fails_closed() {
    let owner = worker(7, 4);
    let mut subscription = expecting(None);
    let catalog = vec![
        catalog_group(1, "sliding_window", 8),
        catalog_group(0, "full_attention", 256),
    ];
    let mut events = Vec::new();

    assert!(subscription.record_group_catalog(owner, &catalog, &mut events));
    assert_eq!(
        subscription.group_catalog(owner).unwrap()[0].group_idx,
        0
    );
    assert_eq!(subscription.ledger().stats().expected_owners, 1);
    assert_eq!(subscription.ledger().stats().cataloged_owners, 1);
    assert!(subscription.record_group_catalog(owner, &catalog, &mut events));

    let changed = vec![catalog_group(0, "full_attention", 128)];
    assert!(!subscription.record_group_catalog(owner, &changed, &mut events));
    let stats = subscription.ledger().stats();
    assert!(!stats.physical_telemetry_complete);
    assert!(!stats.history_complete);
}

#[test]
fn missing_or_changed_attestation_removes_prior_catalog() {
    let owner = worker(7, 4);
    let mut subscription = expecting(None);
    let catalog = vec![catalog_group(0, "full_attention", 256)];
    let mut events = Vec::new();

    subscription
        .sync_attested_group_catalogs(&catalog_membership_view(Some(catalog)), &mut events);
    assert!(subscription.group_catalog(owner).is_some());

    subscription.sync_attested_group_catalogs(
        &catalog_membership_view(Some(vec![catalog_group(0, "full_attention", 128)])),
        &mut events,
    );
    assert!(subscription.group_catalog(owner).is_none());
    assert!(!subscription.ledger().stats().physical_telemetry_complete);

    subscription.sync_attested_group_catalogs(&catalog_membership_view(None), &mut events);
    assert!(subscription.group_catalog(owner).is_none());
}

#[test]
fn unsupported_attested_group_kind_never_counts_as_cataloged() {
    let owner = worker(7, 4);
    let mut subscription = expecting(None);

    assert!(!subscription.record_group_catalog(
        owner,
        &[catalog_group(0, "unknown_attention", 256)],
        &mut Vec::new(),
    ));
    assert_eq!(subscription.ledger().stats().cataloged_owners, 0);
}

fn store(group: u32, medium: &str) -> RawKvEvent {
    assert_eq!(medium, "CPU");
    RawKvEvent::BlockStored {
        block_hashes: vec![42],
        parent_block_hash: None,
        token_count: 2,
        block_size: 2,
        medium: EventMedium::Tier(StorageTier::HostPinned),
        group_idx: Some(group),
        locality: Some(Locality::Local),
        ownership: EventOwnership::Framework,
    }
}

#[test]
fn observer_tracks_all_required_groups_before_declaring_residency() {
    let mut observer = CacheEvidenceObserver::new(16);
    let owner = worker(7, 0);
    {
        let ledger = observer.ledger();
        ledger.record_group_catalog(owner, CacheTier::Cpu, &[0, 1]);
        ledger.seal_physical_scope();
    }

    observer.observe(&store(0, "CPU"), owner);
    assert_eq!(observer.ledger().resident_on(42, owner), KnownBool::No);
    observer.observe(&store(1, "CPU"), owner);
    assert_eq!(observer.ledger().resident_on(42, owner), KnownBool::Yes);
}

#[test]
fn the_observer_forgets_and_doubts_as_events_say() {
    let owner = worker(7, 0);
    let mut observer = CacheEvidenceObserver::new(16);
    observer.ledger().record_group_catalog(owner, CacheTier::Cpu, &[0]);
    observer.ledger().seal_physical_scope();
    observer.observe(&store(0, "CPU"), owner);
    observer.observe(
        &RawKvEvent::BlockRemoved {
            block_hashes: vec![42],
            medium: EventMedium::Tier(StorageTier::HostPinned),
            group_idx: Some(0),
            locality: None,
            ownership: EventOwnership::Framework,
        },
        owner,
    );
    assert_eq!(observer.ledger().resident_on(42, owner), KnownBool::No);
    observer.observe(&store(0, "CPU"), owner);
    observer.observe(
        &RawKvEvent::AllBlocksCleared {
            medium: EventMedium::Unspecified,
            epoch_id: None,
            locality: None,
            ownership: EventOwnership::Framework,
        },
        owner,
    );
    assert_eq!(observer.ledger().resident_on(42, owner), KnownBool::No);
    assert!(observer.ledger().stats().physical_telemetry_complete);
    observer.observe(
        &RawKvEvent::AllBlocksCleared {
            medium: EventMedium::Unrecognized,
            epoch_id: None,
            locality: None,
            ownership: EventOwnership::Framework,
        },
        owner,
    );
    assert!(!observer.ledger().stats().physical_telemetry_complete);
}

#[test]
fn evidence_sequence_tracker_detects_gaps_stale_batches_and_restarts() {
    let owner = worker(7, 0);
    let mut tracker = EvidenceSequenceTracker::default();
    assert_eq!(
        tracker.observe(owner, 11, 0),
        EvidenceSequenceObservation::Contiguous
    );
    assert_eq!(
        tracker.observe(owner, 11, 2),
        EvidenceSequenceObservation::Gap
    );
    assert_eq!(
        tracker.observe(owner, 11, 1),
        EvidenceSequenceObservation::Stale
    );
    assert_eq!(
        tracker.observe(owner, 12, 0),
        EvidenceSequenceObservation::PublisherRestart
    );
    assert_eq!(
        tracker.observe(owner, 12, 1),
        EvidenceSequenceObservation::Contiguous
    );
}

#[test]
fn first_late_evidence_batch_is_a_gap() {
    let mut tracker = EvidenceSequenceTracker::default();
    assert_eq!(
        tracker.observe(worker(7, 0), 11, 3),
        EvidenceSequenceObservation::Gap
    );
}

#[test]
fn interleaved_dp_ranks_share_the_publisher_sequence() {
    let mut tracker = EvidenceSequenceTracker::default();
    let rank_zero = worker(7, 0);
    let rank_one = worker(7, 1);
    assert_eq!(
        tracker.observe(rank_zero, 11, 0),
        EvidenceSequenceObservation::Contiguous
    );
    assert_eq!(
        tracker.observe(rank_one, 11, 1),
        EvidenceSequenceObservation::Contiguous
    );
    assert_eq!(
        tracker.observe(rank_zero, 11, 2),
        EvidenceSequenceObservation::Contiguous
    );
}

#[test]
fn delayed_retired_publisher_cannot_reclaim_an_owner() {
    let owner = worker(7, 0);
    let mut tracker = EvidenceSequenceTracker::default();
    assert_eq!(
        tracker.observe(owner, 11, 0),
        EvidenceSequenceObservation::Contiguous
    );
    assert_eq!(
        tracker.observe(owner, 12, 0),
        EvidenceSequenceObservation::PublisherRestart
    );
    assert_eq!(
        tracker.observe(owner, 11, 1),
        EvidenceSequenceObservation::Stale
    );
    assert_eq!(
        tracker.observe(owner, 12, 1),
        EvidenceSequenceObservation::Contiguous
    );
}

#[test]
fn retiring_an_owner_fences_its_previous_publisher() {
    let owner = worker(7, 0);
    let mut tracker = EvidenceSequenceTracker::default();
    assert_eq!(
        tracker.observe(owner, 11, 0),
        EvidenceSequenceObservation::Contiguous
    );
    tracker.retire(owner);
    assert_eq!(
        tracker.observe(owner, 11, 1),
        EvidenceSequenceObservation::Stale
    );
    assert_eq!(
        tracker.observe(owner, 12, 0),
        EvidenceSequenceObservation::Contiguous
    );
}

#[test]
fn watermark_must_follow_every_applied_source_batch() {
    assert_eq!(
        observe_watermark(Some(3), Some(4)),
        EvidenceWatermarkObservation::Ahead
    );
    assert_eq!(
        observe_watermark(Some(4), Some(3)),
        EvidenceWatermarkObservation::Stale
    );
    assert_eq!(
        observe_watermark(Some(4), Some(4)),
        EvidenceWatermarkObservation::Current
    );
}

#[test]
fn idle_heartbeat_establishes_bounded_freshness() {
    let owner = worker(7, 0);
    let now = 100 * SECOND;
    let mut freshness = EvidenceFreshness::new(5 * SECOND);
    let _ = freshness.set_expected(&[(owner, Some(11))]);
    assert_eq!(
        observe_watermark(None, None),
        EvidenceWatermarkObservation::Current
    );
    assert!(freshness.observe(owner, 11, now));
    assert_eq!(
        freshness.status(now).0,
        EvidenceFreshnessStatus::BoundedFresh
    );
}

#[test]
fn bounded_and_exact_attribution_have_distinct_metric_buckets() {
    assert_eq!(CacheEvidenceQuality::default().metric_label(), "incomplete");
    assert_eq!(
        CacheEvidenceQuality::BoundedPhysical.metric_label(),
        "bounded_physical"
    );
    assert_eq!(CacheEvidenceQuality::Exact.metric_label(), "exact");
}

#[test]
fn old_watermark_becomes_stale() {
    let owner = worker(7, 0);
    let now = 100 * SECOND;
    let mut freshness = EvidenceFreshness::new(5 * SECOND);
    let _ = freshness.set_expected(&[(owner, Some(11))]);
    assert!(freshness.observe(owner, 11, now));
    assert_eq!(
        freshness.status(now + 6 * SECOND).0,
        EvidenceFreshnessStatus::Stale
    );
}

#[test]
fn membership_restart_requires_the_new_incarnation_watermark() {
    let owner = worker(7, 0);
    let now = 100 * SECOND;
    let mut freshness = EvidenceFreshness::new(5 * SECOND);
    let _ = freshness.set_expected(&[(owner, Some(11))]);
    assert!(freshness.observe(owner, 11, now));
    let restarted = freshness.set_expected(&[(owner, Some(12))]);
    assert_eq!(restarted, vec![owner]);
    assert!(!freshness.accepts(owner, 11));
    assert_eq!(freshness.status(now).0, EvidenceFreshnessStatus::Missing);
}

#[test]
fn inactive_owner_cannot_refresh_evidence() {
    let owner = worker(7, 0);
    let mut freshness = EvidenceFreshness::new(5 * SECOND);
    let _ = freshness.set_expected(&[]);
    assert!(!freshness.observe(owner, 11, 100 * SECOND));
}

/// One hash per complete block of 64 tokens in all.
fn hash_request(block_size: u32, _is_eagle: bool) -> Vec<u64> {
    (0..64 / u64::from(block_size)).map(|i| i + 1).collect()
}

#[test]
fn request_hashes_follow_each_cache_groups_real_block_shape() {
    let groups = cache_group_hashes(
        &vec![
            CacheGroupObservation {
                group_idx: 0,
                kind: "full_attention".to_string(),
                block_size: 32,
                sliding_window: None,
                is_eagle: false,
                alignment_tokens: Some(32),
            },
            CacheGroupObservation {
                group_idx: 1,
                kind: "sliding_window".to_string(),
                block_size: 8,
                sliding_window: Some(16),
                is_eagle: false,
                alignment_tokens: Some(32),
            },
        ],
        hash_request,
    )
    .unwrap();

    assert_eq!(groups[0].sequence_hashes.len(), 2);
    assert_eq!(groups[1].sequence_hashes.len(), 8);
    assert_eq!(groups[0].kind, CacheGroupKind::FullAttention);
    assert_eq!(groups[1].kind, CacheGroupKind::SlidingWindow);
    assert!(cache_group_hashes(&vec![catalog_group(0, "other", 8)], hash_request).is_none());
}

fn batch(source_cursor: u64, mutations: Vec<CacheEvidenceMutation>) -> CacheEvidenceBatch {
    CacheEvidenceBatch {
        owner: worker(7, 4),
        source_cursor,
        source_incarnation_id: Some(12),
        heartbeat: false,
        watermark_source_cursor: None,
        telemetry_complete: true,
        mutations,
        barrier_id: None,
        epoch_id: None,
    }
}

fn stored(external_hash: u64, tokens_hash: u64) -> CacheEvidenceMutation {
    CacheEvidenceMutation::Store {
        tier: CacheTier::Gpu,
        group_idx: Some(0),
        parent_external_hash: None,
        blocks: vec![CacheEvidenceStoredBlock {
            external_hash,
            tokens_hash,
        }],
    }
}

fn received(events: &[EvidenceMetric]) -> Vec<BatchLabel> {
    events
        .iter()
        .filter_map(|event| match event {
            EvidenceMetric::Batch(label) => Some(*label),
            _ => None,
        })
        .collect()
}

#[test]
fn batches_are_screened_before_they_count() {
    let mut subscription = expecting(Some(vec![catalog_group(0, "full_attention", 256)]));
    let owner = worker(7, 4);

    let events = subscription.on_batch(&batch(0, vec![stored(100, 41)]), 0);
    assert_eq!(received(&events), vec![BatchLabel::Applied]);
    assert_eq!(subscription.ledger().resident_on(41, owner), KnownBool::Yes);

    let stale = subscription.on_batch(&batch(0, vec![stored(101, 42)]), 0);
    assert_eq!(received(&stale), vec![BatchLabel::Stale]);
    let foreign = CacheEvidenceBatch {
        owner: worker(8, 0),
        ..batch(1, vec![stored(101, 42)])
    };
    assert_eq!(
        received(&subscription.on_batch(&foreign, 0)),
        vec![BatchLabel::InactiveOwner]
    );
    let other = CacheEvidenceBatch {
        source_incarnation_id: Some(13),
        ..batch(1, vec![stored(101, 42)])
    };
    assert_eq!(
        received(&subscription.on_batch(&other, 0)),
        vec![BatchLabel::WrongIncarnation]
    );
    assert_eq!(subscription.ledger().resident_on(42, owner), KnownBool::No);
    assert!(subscription.ledger().stats().physical_telemetry_complete);

    let gap = subscription.on_batch(&batch(5, vec![stored(101, 42)]), 0);
    assert_eq!(received(&gap), vec![BatchLabel::Gap, BatchLabel::Applied]);
    assert!(!subscription.ledger().stats().physical_telemetry_complete);
    assert_eq!(subscription.ledger().resident_on(42, owner), KnownBool::Yes);
    assert_eq!(
        subscription.ledger().resident_on(43, owner),
        KnownBool::Unknown
    );
}

#[test]
fn heartbeats_must_match_what_was_applied() {
    let mut subscription = expecting(Some(vec![catalog_group(0, "full_attention", 256)]));
    subscription.on_batch(&batch(0, Vec::new()), 0);
    let heartbeat = |cursor: Option<u64>| CacheEvidenceBatch {
        heartbeat: true,
        watermark_source_cursor: cursor,
        ..batch(cursor.unwrap_or(0), Vec::new())
    };
    assert_eq!(
        subscription.freshness().status(0).0,
        EvidenceFreshnessStatus::Missing
    );
    let events = subscription.on_batch(&heartbeat(Some(0)), 10);
    assert_eq!(received(&events), vec![BatchLabel::Watermark]);
    assert_eq!(
        subscription.freshness().status(10).0,
        EvidenceFreshnessStatus::BoundedFresh
    );
    let events = subscription.on_batch(&heartbeat(Some(1)), 11);
    assert_eq!(received(&events), vec![BatchLabel::WatermarkAhead]);
    assert!(!subscription.ledger().stats().physical_telemetry_complete);
    let events = subscription.decode_error();
    assert_eq!(received(&events), vec![BatchLabel::DecodeError]);
}

/// A subscription whose history is complete and empty, with fresh evidence.
fn ready(now: u64) -> CacheEvidenceSubscription {
    let view = catalog_membership_view(Some(vec![catalog_group(0, "full_attention", 32)]));
    let mut subscription = expecting(Some(vec![catalog_group(0, "full_attention", 32)]));
    let epoch = "0123456789abcdef0123456789abcdef".to_string();
    let prepared = kv_cache_evidence::membership::cold_epoch_owners(&view).unwrap();
    let mut run = subscription
        .fence_cold_epoch(&view, &prepared, epoch.clone(), 41)
        .ok()
        .unwrap();
    run.controls_answered(&mut subscription, true, false);
    let clears = [CacheTier::Gpu, CacheTier::Cpu]
        .into_iter()
        .map(|tier| CacheEvidenceMutation::Clear { tier: Some(tier) })
        .collect();
    subscription.on_batch(
        &CacheEvidenceBatch {
            epoch_id: Some(epoch.clone()),
            ..batch(0, clears)
        },
        now,
    );
    subscription.on_batch(
        &CacheEvidenceBatch {
            epoch_id: Some(epoch),
            barrier_id: Some(41),
            ..batch(1, Vec::new())
        },
        now,
    );
    let outcome = Some(subscription.cold_epoch().outcome());
    assert!(run.decide(&mut subscription, &view, outcome).0);
    run.release(&mut subscription, true);
    subscription.on_batch(
        &CacheEvidenceBatch {
            heartbeat: true,
            watermark_source_cursor: Some(1),
            ..batch(1, Vec::new())
        },
        now,
    );
    subscription
}

#[test]
fn a_route_is_measured_and_proved_by_its_cut() {
    let now = 100 * SECOND;
    let owner = worker(7, 4);
    let mut subscription = ready(now);
    // The first of the request's two blocks was computed and is resident.
    subscription.record_group_hashes(
        subscription.history_epoch(),
        &cache_group_hashes(&vec![catalog_group(0, "full_attention", 32)], |_, _| vec![1])
            .unwrap(),
    );
    subscription.on_batch(&batch(2, vec![stored(100, 1)]), now);

    let mut events = Vec::new();
    let (mut route, round) = subscription.snapshot_route(
        64,
        false,
        owner,
        Some(99),
        32,
        now,
        |_, _| vec![1, 2],
        &mut events,
    );
    assert_eq!(route.incomplete_reason, None);
    assert!(route.complete);
    assert_eq!(route.quality, CacheEvidenceQuality::BoundedPhysical);
    assert_eq!(route.prompt_tokens, 64);
    assert_eq!(route.router_visible_prefix_tokens, Some(32));
    let ticket = route.barrier.unwrap();
    let round = round.unwrap();

    subscription.barriers().dispatch(round);
    subscription.barriers().controls_succeeded(round, now);
    let marker = CacheEvidenceBatch {
        barrier_id: Some(round),
        ..batch(3, Vec::new())
    };
    let events = subscription.on_batch(&marker, now + 7);
    assert_eq!(received(&events), vec![BatchLabel::Barrier]);
    assert!(events.contains(&EvidenceMetric::BarrierRtt(7)));
    assert_eq!(
        subscription.barriers().outcome(ticket),
        Some(BarrierOutcome::Exact)
    );
    assert!(route.finalize_barrier_if_ready(subscription.barriers()));
    assert_eq!(route.quality, CacheEvidenceQuality::Exact);
}

#[test]
fn routes_say_why_they_are_incomplete() {
    let now = 100 * SECOND;
    let owner = worker(7, 4);
    let mut subscription = ready(now);
    let mut route = |selected, serving, multimodal, at| {
        let (route, round) = subscription.snapshot_route(
            64,
            multimodal,
            selected,
            serving,
            0,
            at,
            |_, _| vec![1, 2],
            &mut Vec::new(),
        );
        assert!(!route.complete);
        assert_eq!(route.quality, CacheEvidenceQuality::Incomplete);
        assert_eq!(round, None);
        route.incomplete_reason.unwrap()
    };
    assert_eq!(
        route(owner, Some(98), false, now),
        IncompleteReason::MembershipMismatch
    );
    assert_eq!(
        route(owner, Some(99), true, now),
        IncompleteReason::MultimodalNotSupported
    );
    assert_eq!(
        route(owner, Some(99), false, now + 6 * SECOND),
        IncompleteReason::StaleWatermark
    );
    assert_eq!(
        IncompleteReason::StaleWatermark.reason(),
        "stale_cache_evidence_watermark"
    );
}

#[test]
fn completed_requests_enter_the_history_of_their_epoch() {
    let now = 100 * SECOND;
    let owner = worker(7, 4);
    let mut subscription = ready(now);
    let epoch = subscription.history_epoch();
    assert!(!subscription.record_completed_token_history(owner, epoch + 1, |_, _| vec![5]));
    assert_eq!(subscription.ledger().reusable(5), KnownBool::No);
    assert!(subscription.record_completed_token_history(owner, epoch, |_, _| vec![5]));
    assert_eq!(subscription.ledger().reusable(5), KnownBool::Yes);
    assert!(!subscription.mark_history_incomplete_for_epoch(epoch + 1));
    assert_eq!(subscription.ledger().reusable(6), KnownBool::No);
    assert!(subscription.mark_history_incomplete_for_epoch(epoch));
    assert_eq!(subscription.ledger().reusable(6), KnownBool::Unknown);
}

#[test]
fn sequence_hashes_chain_by_seeded_xxh3() {
    let mut bytes = 10u64.to_le_bytes().to_vec();
    bytes.extend(20u64.to_le_bytes());
    assert_eq!(
        compute_next_seq_hash(10, LocalBlockHash(20)),
        xxhash_rust::xxh3::xxh3_64_with_seed(&bytes, 1337)
    );
}

#[test]
fn random_ids_are_never_zero() {
    assert_eq!(nonzero(0), 1);
    assert_eq!(nonzero(7), 7);
    let ids: Vec<u64> = (0..8).map(|_| random_id()).collect();
    assert!(ids.iter().all(|id| *id >= 1));
    assert!(ids.iter().any(|id| *id != ids[0]));
}

#[test]
fn settings_fall_back_to_their_defaults() {
    assert_eq!(history_capacity(None), 1_000_000);
    assert_eq!(history_capacity(Some("0")), 1_000_000);
    assert_eq!(history_capacity(Some("-3")), 1_000_000);
    assert_eq!(history_capacity(Some("12")), 12);
    assert_eq!(barrier_pending_capacity(Some("")), 1_024);
    assert_eq!(barrier_pending_capacity(Some("+7")), 7);
    assert_eq!(history_bytes(Some("12 ")), 268_435_456);
    assert_eq!(evidence_freshness(None), 5 * SECOND);
    assert_eq!(evidence_freshness(Some("250")), SECOND / 4);
    assert_eq!(barrier_timeout(Some("x")), SECOND / 4);
    assert_eq!(cold_epoch_readiness_timeout(None), 120 * SECOND);
    assert_eq!(barrier_timeout(Some("18446744073709551615")), u64::MAX);
    assert_eq!(parse_number("18446744073709551615", u64::MAX), Some(u64::MAX));
    assert_eq!(parse_number("18446744073709551616", u64::MAX), None);
    assert_eq!(parse_number("+", 9), None);
    assert_eq!(parse_number("007", 9), Some(7));
    assert_eq!(parse_number("10", 9), None);
    assert!(enabled(Some("TRUE")) && enabled(Some("1")) && enabled(Some("Yes")));
    assert!(!enabled(Some("on")) && !enabled(None) && !enabled(Some("")));
}

#[test]
fn routes_without_catalogs_watermarks_or_history_are_incomplete() {
    let owner = worker(7, 4);
    let catalog = || Some(vec![catalog_group(0, "full_attention", 32)]);
    let reason = |subscription: &mut CacheEvidenceSubscription| {
        let (route, round) = subscription.snapshot_route(
            64,
            false,
            owner,
            Some(99),
            1_000,
            10,
            |_, _| vec![1, 2],
            &mut Vec::new(),
        );
        assert_eq!(round, None);
        (
            route.incomplete_reason.unwrap().reason(),
            route.router_visible_prefix_tokens,
        )
    };
    assert_eq!(
        reason(&mut expecting(None)),
        ("barrier_catalog_membership_mismatch", None)
    );
    let mut unmarked = expecting(catalog());
    assert_eq!(
        reason(&mut unmarked),
        ("missing_cache_evidence_watermark", Some(63))
    );
    unmarked.on_batch(
        &CacheEvidenceBatch {
            heartbeat: true,
            ..batch(0, Vec::new())
        },
        10,
    );
    assert_eq!(
        reason(&mut unmarked),
        ("incomplete_history_or_residency_evidence", Some(63))
    );
    for (other, text) in [
        (
            IncompleteReason::MissingCacheGroupCatalog,
            "missing_cache_group_catalog",
        ),
        (
            IncompleteReason::UnsupportedCacheGroupShape,
            "unsupported_cache_group_shape",
        ),
        (
            IncompleteReason::LedgerMembershipMismatch,
            "barrier_ledger_membership_mismatch",
        ),
        (
            IncompleteReason::MultimodalNotSupported,
            "hybrid_multimodal_hashing_not_supported",
        ),
        (
            IncompleteReason::MembershipMismatch,
            "barrier_membership_mismatch",
        ),
    ] {
        assert_eq!(other.reason(), text);
    }
}

#[test]
fn batches_that_say_too_little_or_too_much_cost_certainty() {
    let telemetry = |batch: CacheEvidenceBatch, label: BatchLabel| {
        let mut subscription = expecting(Some(vec![catalog_group(0, "full_attention", 256)]));
        assert_eq!(received(&subscription.on_batch(&batch, 0)), vec![label]);
        subscription.ledger().stats().physical_telemetry_complete
    };
    assert!(!telemetry(
        CacheEvidenceBatch {
            source_incarnation_id: None,
            ..batch(0, Vec::new())
        },
        BatchLabel::Legacy,
    ));
    assert!(!telemetry(
        CacheEvidenceBatch {
            heartbeat: true,
            ..batch(0, vec![stored(1, 2)])
        },
        BatchLabel::InvalidWatermark,
    ));
    assert!(!telemetry(
        CacheEvidenceBatch {
            telemetry_complete: false,
            ..batch(0, Vec::new())
        },
        BatchLabel::Applied,
    ));
    assert!(telemetry(
        CacheEvidenceBatch {
            barrier_id: Some(1),
            ..batch(0, vec![stored(1, 2)])
        },
        BatchLabel::InvalidBarrier,
    ));
    assert!(telemetry(
        CacheEvidenceBatch {
            barrier_id: Some(1),
            ..batch(0, Vec::new())
        },
        BatchLabel::Barrier,
    ));
}
