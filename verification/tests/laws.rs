//! Promises that span several calls, on concrete values.

use std::collections::HashSet;

use kv_cache_evidence::barrier::{BarrierCoordinator, BarrierFailure, BarrierOutcome};
use kv_cache_evidence::catalog::CacheGroupObservation;
use kv_cache_evidence::cold_epoch::{
    ColdEpochCoordinator, ColdEpochFailure, ColdEpochOutcome, ColdEpochOwnerFence, TierSet,
};
use kv_cache_evidence::control::{BarrierControlDisposition, ControlResult};
use kv_cache_evidence::evidence::{
    CacheEvidenceApplyIntegrityFailure, CacheEvidenceBatch, CacheEvidenceMutation,
    CacheEvidenceStoredBlock, CacheOwner, CacheTier, KnownBool,
};
use kv_cache_evidence::funnel::{CacheLossFunnel, TokenObservation, TokenSource};
use kv_cache_evidence::history::CacheHistory;
use kv_cache_evidence::ledger::CacheEvidenceLedger;
use kv_cache_evidence::membership::{MembershipView, SourceMember};
use kv_cache_evidence::metrics::{BatchLabel, EvidenceMetric};
use kv_cache_evidence::prefix::{
    hybrid_prefix, CacheGroupHashSequence, CacheGroupKind, KnownPrefixLength,
};
use kv_cache_evidence::protocols::{compute_next_seq_hash, LocalBlockHash};
use kv_cache_evidence::subscription::CacheEvidenceSubscription;

const OWNER: CacheOwner = CacheOwner {
    worker_id: 7,
    dp_rank: 0,
};

fn stored(external_hash: u64, tokens_hash: u64, parent: Option<u64>) -> CacheEvidenceMutation {
    CacheEvidenceMutation::Store {
        tier: CacheTier::Gpu,
        group_idx: Some(0),
        parent_external_hash: parent,
        blocks: vec![CacheEvidenceStoredBlock {
            external_hash,
            tokens_hash,
        }],
    }
}

fn batch(
    source_cursor: u64,
    incarnation: u64,
    mutations: Vec<CacheEvidenceMutation>,
) -> CacheEvidenceBatch {
    CacheEvidenceBatch {
        owner: OWNER,
        source_cursor,
        source_incarnation_id: Some(incarnation),
        heartbeat: false,
        watermark_source_cursor: None,
        telemetry_complete: true,
        mutations,
        barrier_id: None,
        epoch_id: None,
    }
}

#[test]
fn outcomes_are_final() {
    let mut coordinator = BarrierCoordinator::with_first_id(4, 1);
    coordinator.set_owner_incarnations(&[(OWNER, 70)], &[(OWNER, 70)]);
    let (ticket, command) = coordinator.begin(HashSet::from([41]), 0);
    let id = command.unwrap();
    coordinator.dispatch(id);
    coordinator.controls_succeeded(id, 0);
    coordinator.marker(OWNER, id, 0);
    assert_eq!(coordinator.outcome(ticket), Some(BarrierOutcome::Exact));
    coordinator.fail_all(BarrierFailure::Gap);
    coordinator.mutation(OWNER, &HashSet::from([41]), true);
    coordinator.set_owner_incarnations(&[], &[]);
    assert_eq!(coordinator.outcome(ticket), Some(BarrierOutcome::Exact));
    coordinator.release(ticket);
    assert_eq!(coordinator.outcome(ticket), None);
}

#[test]
fn a_failed_epoch_stays_failed() {
    let fence = ColdEpochOwnerFence {
        evidence_incarnation: 70,
        serving_incarnation: 71,
        expected_tiers: TierSet::of(&[CacheTier::Gpu]),
    };
    let mut coordinator = ColdEpochCoordinator::default();
    coordinator
        .begin("e".to_string(), 41, &[(OWNER, fence)])
        .unwrap();
    coordinator.fail(ColdEpochFailure::Gap);
    let clear = CacheEvidenceBatch {
        epoch_id: Some("e".to_string()),
        ..batch(
            1,
            70,
            vec![CacheEvidenceMutation::Clear {
                tier: Some(CacheTier::Gpu),
            }],
        )
    };
    coordinator.observe_clear_batch(&clear);
    coordinator.observe_marker(&CacheEvidenceBatch {
        epoch_id: Some("e".to_string()),
        barrier_id: Some(41),
        ..batch(2, 70, Vec::new())
    });
    coordinator.controls_succeeded("e");
    assert_eq!(
        coordinator.outcome(),
        ColdEpochOutcome::Incomplete(ColdEpochFailure::Gap)
    );
}

#[test]
fn stores_of_a_run_may_come_in_any_order() {
    let stores = [
        stored(100, 10, None),
        stored(101, 20, Some(100)),
        stored(102, 30, Some(101)),
    ];
    let child = compute_next_seq_hash(10, LocalBlockHash(20));
    let grandchild = compute_next_seq_hash(child, LocalBlockHash(30));
    for order in [[0, 1, 2], [0, 2, 1], [1, 0, 2], [1, 2, 0], [2, 0, 1], [2, 1, 0]] {
        let mut ledger = CacheEvidenceLedger::new(16);
        ledger.record_group_catalog(OWNER, CacheTier::Gpu, &[0]);
        let mutations = order.iter().map(|i| stores[*i].clone()).collect();
        assert!(ledger.apply_evidence_batch(&batch(0, 1, mutations)));
        for hash in [10, child, grandchild] {
            assert_eq!(ledger.resident_on(hash, OWNER), KnownBool::Yes);
        }
    }
}

#[test]
fn only_a_missing_parent_is_reported_missing() {
    let mut ledger = CacheEvidenceLedger::new(16);
    ledger.record_group_catalog(OWNER, CacheTier::Gpu, &[0]);
    let result = ledger.apply_evidence_batch_with_diagnostics(&batch(
        0,
        1,
        vec![
            stored(102, 30, Some(101)),
            stored(201, 40, Some(200)),
            stored(101, 20, None),
        ],
    ));
    assert_eq!(
        result.failures(),
        vec![CacheEvidenceApplyIntegrityFailure::MissingParent]
    );
    assert_eq!(
        ledger.resident_on(compute_next_seq_hash(20, LocalBlockHash(30)), OWNER),
        KnownBool::Yes
    );
    assert_eq!(ledger.stats().gpu_physical_blocks, 2);
}

fn view(incarnation: u64) -> MembershipView {
    MembershipView {
        endpoint: Some("ns/worker/generate".to_string()),
        sources: vec![SourceMember {
            owner: OWNER,
            active: true,
            evidence_incarnation: Some(incarnation),
            barrier_enabled: true,
            serving_incarnation: Some(1),
            epoch_enabled: false,
            epoch_media: None,
            catalog: Some(vec![CacheGroupObservation {
                group_idx: 0,
                kind: "full_attention".to_string(),
                block_size: 16,
                sliding_window: None,
                is_eagle: false,
                alignment_tokens: Some(16),
            }]),
        }],
    }
}

#[test]
fn a_restarted_publisher_takes_no_copies_along() {
    let mut subscription = CacheEvidenceSubscription::new(16, 1, 4);
    assert!(subscription.begin_subscription(&view(12)).0);
    subscription.on_batch(&batch(0, 12, vec![stored(100, 10, None)]), 0);
    assert_eq!(subscription.ledger().stats().gpu_physical_blocks, 1);

    // The endpoint is subscribed to anew, under another incarnation.
    assert!(subscription.begin_subscription(&view(13)).0);
    let events = subscription.on_batch(&batch(0, 13, Vec::new()), 0);
    assert!(events.contains(&EvidenceMetric::Batch(BatchLabel::PublisherRestart)));
    assert_eq!(subscription.ledger().stats().gpu_physical_blocks, 0);
    assert!(subscription.group_catalog(OWNER).is_none());

    // The old publisher is fenced off for good.
    assert!(subscription.begin_subscription(&view(12)).0);
    let events = subscription.on_batch(&batch(1, 12, vec![stored(101, 11, None)]), 0);
    assert!(events.contains(&EvidenceMetric::Batch(BatchLabel::Stale)));
    assert_eq!(subscription.ledger().stats().gpu_physical_blocks, 0);
}

#[test]
fn a_changed_membership_resets_the_owners_it_concerns() {
    let mut subscription = CacheEvidenceSubscription::new(16, 1, 4);
    subscription.begin_subscription(&view(12));
    subscription.on_batch(&batch(0, 12, vec![stored(100, 10, None)]), 0);
    assert!(subscription.membership_changed(&view(13)).0);
    assert_eq!(subscription.ledger().stats().gpu_physical_blocks, 0);
    let moved = MembershipView {
        endpoint: Some("ns/worker/other".to_string()),
        sources: Vec::new(),
    };
    assert!(!subscription.membership_changed(&moved).0);
    assert!(!subscription.ledger().stats().history_complete);
}

fn group(
    group_idx: u32,
    window: Option<u32>,
    alignment_tokens: u32,
    sequence_hashes: Vec<u64>,
) -> CacheGroupHashSequence {
    CacheGroupHashSequence {
        group_idx,
        kind: if window.is_some() {
            CacheGroupKind::SlidingWindow
        } else {
            CacheGroupKind::FullAttention
        },
        block_size: 4,
        sliding_window: window,
        is_eagle: false,
        alignment_tokens,
        sequence_hashes,
    }
}

#[test]
fn the_common_prefix_is_the_longest_that_every_group_confirms() {
    // Blocks present: 1 to 4 under full attention; 3, 4 and 5 in the window.
    let present = |group: u32, hash: u64| {
        if (group == 0 && hash <= 4) || (group == 1 && hash >= 3) {
            KnownBool::Yes
        } else {
            KnownBool::No
        }
    };
    let groups = [
        group(0, None, 4, vec![1, 2, 3, 4, 5]),
        group(1, Some(9), 8, vec![1, 2, 3, 4, 5]),
    ];
    assert_eq!(
        hybrid_prefix(&groups, 20, present),
        KnownPrefixLength::Known(16)
    );
    // At 8 tokens the window would need blocks 1 and 2.
    assert_eq!(
        hybrid_prefix(&groups, 15, present),
        KnownPrefixLength::Known(0)
    );
    assert_eq!(
        hybrid_prefix(&groups[..1], 15, present),
        KnownPrefixLength::Known(12)
    );
}

#[test]
fn a_prefix_is_unknown_without_usable_groups_or_answers() {
    let yes = |_: u32, _: u64| KnownBool::Yes;
    assert_eq!(hybrid_prefix(&[], 8, yes), KnownPrefixLength::Unknown);
    for broken in [
        group(0, None, 0, vec![1, 2]),
        group(0, None, 6, vec![1, 2]),
        group(0, Some(0), 4, vec![1, 2]),
    ] {
        assert_eq!(
            hybrid_prefix(&[group(1, None, 4, vec![1, 2]), broken], 8, yes),
            KnownPrefixLength::Unknown
        );
    }
    assert_eq!(
        hybrid_prefix(&[group(0, None, 4, vec![1, 2])], 8, |_, _| {
            KnownBool::Unknown
        }),
        KnownPrefixLength::Unknown
    );
}

#[test]
fn the_newest_record_is_always_retained() {
    // The smallest budget holds one record.
    let mut history = CacheHistory::new(1, 4);
    history.record_completed(&[1, 2, 3], 0);
    assert_eq!(history.stats(0).retained_records, 1);
    assert_eq!(history.previously_computed_tokens(&[3]), 4);
    assert_eq!(history.previously_computed_tokens(&[2]), 0);
    history.record_completed(&[], 1);
    assert_eq!(history.previously_computed_tokens(&[3]), 4);
}

#[test]
fn other_orders_of_stores_fail_and_count_alike() {
    let stores = [
        stored(100, 10, None),
        stored(101, 20, Some(100)),
        stored(201, 40, Some(200)),
        stored(202, 50, Some(201)),
    ];
    let child = compute_next_seq_hash(10, LocalBlockHash(20));
    for order in [[0, 1, 2, 3], [3, 2, 1, 0], [1, 3, 0, 2], [2, 0, 3, 1]] {
        let mut ledger = CacheEvidenceLedger::new(16);
        ledger.record_group_catalog(OWNER, CacheTier::Gpu, &[0]);
        let mutations = order.iter().map(|i| stores[*i].clone()).collect();
        let result = ledger.apply_evidence_batch_with_diagnostics(&batch(0, 1, mutations));
        assert_eq!(
            result.failures(),
            vec![CacheEvidenceApplyIntegrityFailure::MissingParent]
        );
        assert_eq!(ledger.stats().gpu_physical_blocks, 2);
        assert_eq!(ledger.stats().cpu_physical_blocks, 0);
        assert_eq!(ledger.resident_on(10, OWNER), KnownBool::Yes);
        assert_eq!(ledger.resident_on(child, OWNER), KnownBool::Yes);
        assert_eq!(ledger.resident_on(40, OWNER), KnownBool::Unknown);
    }
}

#[test]
fn a_mutation_changes_only_the_blocks_it_affects() {
    let other = CacheOwner {
        worker_id: 8,
        dp_rank: 0,
    };
    let mut ledger = CacheEvidenceLedger::new(16);
    for owner in [OWNER, other] {
        ledger.record_group_catalog(owner, CacheTier::Gpu, &[0]);
        ledger.record_group_catalog(owner, CacheTier::Cpu, &[0]);
    }
    ledger.store(other, CacheTier::Gpu, 0, 10);
    ledger.store(OWNER, CacheTier::Cpu, 0, 30);
    assert!(ledger.apply_evidence_batch(&batch(
        0,
        1,
        vec![stored(100, 10, None), stored(101, 20, None)],
    )));
    let remove = CacheEvidenceMutation::Remove {
        tier: CacheTier::Gpu,
        group_idx: Some(0),
        block_hashes: vec![101],
    };
    assert_eq!(
        ledger.affected_sequence_hashes(OWNER, &remove),
        HashSet::from([20])
    );
    assert!(ledger.apply_evidence_batch(&batch(1, 1, vec![remove])));
    assert_eq!(ledger.resident_on(10, OWNER), KnownBool::Yes);
    assert_ne!(ledger.resident_on(20, OWNER), KnownBool::Yes);

    let clear = CacheEvidenceMutation::Clear {
        tier: Some(CacheTier::Gpu),
    };
    assert_eq!(
        ledger.affected_sequence_hashes(OWNER, &clear),
        HashSet::from([10])
    );
    assert!(ledger.apply_evidence_batch(&batch(2, 1, vec![clear])));
    assert_ne!(ledger.resident_on(10, OWNER), KnownBool::Yes);
    assert_eq!(ledger.resident_on(30, OWNER), KnownBool::Yes);
    assert_eq!(ledger.resident_on(10, other), KnownBool::Yes);
    assert_eq!(ledger.stats().cataloged_owners, 2);
    assert_eq!(ledger.history_epoch(), 0);
}

#[test]
fn a_batch_loses_history_only_with_a_failure_or_an_unknown_removal() {
    let complete = || {
        let mut ledger = CacheEvidenceLedger::new(16);
        ledger.advance_history_epoch();
        assert!(ledger.stats().history_complete);
        ledger
    };
    let mut clean = complete();
    let remove = |hash| CacheEvidenceMutation::Remove {
        tier: CacheTier::Gpu,
        group_idx: Some(0),
        block_hashes: vec![hash],
    };
    assert!(clean.apply_evidence_batch(&batch(
        0,
        1,
        vec![stored(100, 10, None), remove(100)],
    )));
    assert!(clean.stats().history_complete);

    let mut failed = complete();
    assert!(!failed.apply_evidence_batch(&batch(0, 1, vec![stored(101, 20, Some(100))])));
    assert!(!failed.stats().history_complete);

    let mut unknown = complete();
    let result = unknown.apply_evidence_batch_with_diagnostics(&batch(0, 1, vec![remove(9)]));
    assert!(result.failures().is_empty());
    assert!(!unknown.stats().history_complete);
}

#[test]
fn a_cut_needs_the_answer_of_every_owner() {
    let second = CacheOwner {
        worker_id: 8,
        dp_rank: 0,
    };
    let answer = |owner, disposition| ControlResult {
        owner,
        incarnation: 70,
        disposition,
    };
    for (disposition, outcome) in [
        (
            Some(BarrierControlDisposition::Success),
            BarrierOutcome::Exact,
        ),
        (
            None,
            BarrierOutcome::Incomplete(BarrierFailure::ControlFailed),
        ),
    ] {
        let mut coordinator = BarrierCoordinator::with_first_id(4, 1);
        let owners = [(OWNER, 70), (second, 70)];
        coordinator.set_owner_incarnations(&owners, &owners);
        let (ticket, command) = coordinator.begin(HashSet::from([41]), 0);
        let id = command.unwrap();
        coordinator.dispatch_round(id, &mut Vec::new());
        coordinator.marker(OWNER, id, 0);
        coordinator.marker(second, id, 0);
        assert_eq!(coordinator.outcome(ticket), Some(BarrierOutcome::Pending));
        coordinator.controls_answered(
            id,
            &[
                answer(OWNER, Some(BarrierControlDisposition::Success)),
                answer(second, disposition),
            ],
            0,
            &mut Vec::new(),
        );
        assert_eq!(coordinator.outcome(ticket), Some(outcome));
    }
}

#[test]
fn every_stage_of_the_funnel_accounts_for_its_loss() {
    let seen = |stages: usize, source| TokenObservation {
        complete: true,
        reusable: stages >= 1,
        physically_resident: stages >= 2,
        router_visible: stages >= 3,
        selected_resident_at_routing: stages >= 4,
        selected_resident_at_lookup: stages >= 5,
        source,
    };
    let mut funnel = CacheLossFunnel::default();
    for stages in 0..=5 {
        funnel.observe_n(seen(stages, TokenSource::Recomputed), 1 << stages);
    }
    funnel.observe_n(seen(5, TokenSource::Gpu), 64);
    funnel.observe_n(seen(5, TokenSource::Cpu), 128);
    funnel.observe_incomplete(256);
    assert_eq!(funnel.f0_backend_prompt_tokens, 511);
    assert_eq!(funnel.incomplete_tokens, 256);
    assert_eq!(
        funnel.f0_backend_prompt_tokens - funnel.incomplete_tokens - funnel.f1_reusable_tokens,
        1
    );
    assert_eq!(funnel.unavoidable_recomputation, 1);
    assert_eq!(
        funnel.f1_reusable_tokens - funnel.f2_physically_resident_tokens,
        funnel.retention_loss
    );
    assert_eq!(
        funnel.f2_physically_resident_tokens - funnel.f3_router_visible_tokens,
        funnel.router_visibility_loss
    );
    assert_eq!(
        funnel.f3_router_visible_tokens - funnel.f4_selected_resident_tokens,
        funnel.routing_choice_loss
    );
    assert_eq!(
        funnel.f4_selected_resident_tokens - funnel.f5_lookup_resident_tokens,
        funnel.eviction_race_loss
    );
    assert_eq!(
        funnel.f5_lookup_resident_tokens - funnel.f6_reused_tokens,
        funnel.retrieval_failure
    );
    assert_eq!(
        (
            funnel.retention_loss,
            funnel.router_visibility_loss,
            funnel.routing_choice_loss,
            funnel.eviction_race_loss,
            funnel.retrieval_failure,
        ),
        (2, 4, 8, 16, 32)
    );
    assert_eq!(funnel.f6_reused_tokens, 64 + 128);
}

#[test]
fn copies_last_as_long_as_their_announcements() {
    let mut ledger = CacheEvidenceLedger::new(16);
    ledger.record_group_catalog(OWNER, CacheTier::Gpu, &[0]);
    let remove = |hash| CacheEvidenceMutation::Remove {
        tier: CacheTier::Gpu,
        group_idx: Some(0),
        block_hashes: vec![hash],
    };
    // Two engine hashes stand for one block, and one of them twice.
    assert!(ledger.apply_evidence_batch(&batch(
        0,
        1,
        vec![
            stored(100, 10, None),
            stored(100, 10, None),
            stored(101, 10, None),
        ],
    )));
    assert_eq!(ledger.stats().gpu_physical_blocks, 2);
    for hash in [100, 101] {
        assert!(ledger.apply_evidence_batch(&batch(1, 1, vec![remove(hash)])));
        assert_eq!(ledger.resident_on(10, OWNER), KnownBool::Yes);
    }
    assert!(ledger.apply_evidence_batch(&batch(2, 1, vec![remove(100)])));
    assert_ne!(ledger.resident_on(10, OWNER), KnownBool::Yes);

    // A retired owner takes its announcements along.
    ledger.store(OWNER, CacheTier::Gpu, 0, 10);
    ledger.set_expected_owners(&[]);
    assert_eq!(ledger.stats().gpu_physical_blocks, 0);
}
