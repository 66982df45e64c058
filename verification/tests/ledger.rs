//! The evidence ledger: what is known of computed and resident blocks.

use std::collections::HashSet;

use kv_cache_evidence::evidence::{
    CacheEvidenceApplyIntegrityFailure, CacheEvidenceBatch, CacheEvidenceMutation,
    CacheEvidenceStoredBlock, CacheGroupBlockQuery, CacheOwner, CacheTier, KnownBool,
};
use kv_cache_evidence::funnel::{CacheLossFunnel, TokenAttribution, TokenObservation, TokenSource};
use kv_cache_evidence::ledger::CacheEvidenceLedger;
use kv_cache_evidence::prefix::{
    hybrid_prefix, CacheGroupHashSequence, CacheGroupKind, KnownPrefixLength,
};
use kv_cache_evidence::protocols::{compute_next_seq_hash, LocalBlockHash};

/// Some copy of worker A's group 0 stands under the engine hash.
fn is_mapped(ledger: &CacheEvidenceLedger, external_hash: u64) -> bool {
    [CacheTier::Gpu, CacheTier::Cpu].into_iter().any(|tier| {
        !ledger
            .affected_sequence_hashes(
                WORKER_A,
                &CacheEvidenceMutation::Remove {
                    tier,
                    group_idx: Some(0),
                    block_hashes: vec![external_hash],
                },
            )
            .is_empty()
    })
}

const WORKER_A: CacheOwner = CacheOwner {
    worker_id: 1,
    dp_rank: 0,
};
const WORKER_B: CacheOwner = CacheOwner {
    worker_id: 2,
    dp_rank: 0,
};

fn recomputed() -> TokenObservation {
    TokenObservation {
        complete: true,
        reusable: true,
        physically_resident: true,
        router_visible: true,
        selected_resident_at_routing: true,
        selected_resident_at_lookup: true,
        source: TokenSource::Recomputed,
    }
}

#[test]
fn controlled_losses_are_mutually_exclusive_and_conserve_tokens() {
    let cases = [
        (
            TokenObservation {
                reusable: false,
                ..recomputed()
            },
            TokenAttribution::UnavoidableRecomputation,
        ),
        (
            TokenObservation {
                physically_resident: false,
                router_visible: false,
                selected_resident_at_routing: false,
                selected_resident_at_lookup: false,
                ..recomputed()
            },
            TokenAttribution::RetentionLoss,
        ),
        (
            TokenObservation {
                router_visible: false,
                selected_resident_at_routing: false,
                selected_resident_at_lookup: false,
                ..recomputed()
            },
            TokenAttribution::RouterVisibilityLoss,
        ),
        (
            TokenObservation {
                selected_resident_at_routing: false,
                selected_resident_at_lookup: false,
                ..recomputed()
            },
            TokenAttribution::RoutingChoiceLoss,
        ),
        (
            TokenObservation {
                selected_resident_at_lookup: false,
                ..recomputed()
            },
            TokenAttribution::EvictionRaceLoss,
        ),
        (recomputed(), TokenAttribution::RetrievalFailure),
        (
            TokenObservation {
                source: TokenSource::Gpu,
                ..recomputed()
            },
            TokenAttribution::GpuHit,
        ),
        (
            TokenObservation {
                source: TokenSource::Cpu,
                ..recomputed()
            },
            TokenAttribution::CpuHit,
        ),
    ];
    let mut funnel = CacheLossFunnel::default();
    for (observation, expected) in cases {
        assert_eq!(funnel.observe(observation), expected);
    }

    assert_eq!(funnel.f0_backend_prompt_tokens, 8);
    assert_eq!(funnel.f6_reused_tokens, 2);
    assert_eq!(funnel.gpu_hits, 1);
    assert_eq!(funnel.cpu_hits, 1);
    assert_eq!(funnel.conservation_error(), 0);
}

#[test]
fn incomplete_tokens_are_explicit_and_excluded_from_conservation() {
    let mut funnel = CacheLossFunnel::default();
    let attribution = funnel.observe(TokenObservation {
        complete: false,
        source: TokenSource::Unknown,
        ..recomputed()
    });

    assert_eq!(attribution, TokenAttribution::Incomplete);
    assert_eq!(funnel.f0_backend_prompt_tokens, 1);
    assert_eq!(funnel.incomplete_tokens, 1);
    assert_eq!(funnel.complete_tokens(), 0);
    assert_eq!(funnel.conservation_error(), 0);
}

#[test]
fn aggregate_prefix_observation_matches_token_level_attribution() {
    let mut funnel = CacheLossFunnel::default();
    funnel.observe_prefix_counts(100, 80, 70, 60, 50, 40, 20, 10);

    assert_eq!(funnel.f0_backend_prompt_tokens, 100);
    assert_eq!(funnel.unavoidable_recomputation, 20);
    assert_eq!(funnel.retention_loss, 10);
    assert_eq!(funnel.router_visibility_loss, 10);
    assert_eq!(funnel.routing_choice_loss, 10);
    assert_eq!(funnel.eviction_race_loss, 10);
    assert_eq!(funnel.retrieval_failure, 10);
    assert_eq!(funnel.gpu_hits, 20);
    assert_eq!(funnel.cpu_hits, 10);
    assert_eq!(funnel.conservation_error(), 0);
}

#[test]
fn actual_hit_wins_over_stale_router_evidence() {
    let mut funnel = CacheLossFunnel::default();
    let attribution = funnel.observe(TokenObservation {
        router_visible: false,
        selected_resident_at_routing: false,
        source: TokenSource::Cpu,
        ..recomputed()
    });

    assert_eq!(attribution, TokenAttribution::CpuHit);
    assert_eq!(funnel.f6_reused_tokens, 1);
    assert_eq!(funnel.router_false_negative_tokens, 1);
    assert_eq!(funnel.conservation_error(), 0);
}

#[test]
fn bounded_history_never_turns_overflow_into_a_cold_miss() {
    let mut ledger = CacheEvidenceLedger::new(2);
    ledger.record_seen_blocks(&[10, 20, 30]);

    assert_eq!(ledger.reusable(10), KnownBool::Yes);
    assert_eq!(ledger.reusable(20), KnownBool::Yes);
    assert_eq!(ledger.reusable(30), KnownBool::Unknown);
    assert_eq!(ledger.reusable(40), KnownBool::Unknown);
}

#[test]
fn incomplete_history_never_turns_missing_observation_into_a_cold_miss() {
    let mut ledger = CacheEvidenceLedger::new(2);
    ledger.record_seen_blocks(&[10]);
    ledger.mark_history_incomplete();

    assert_eq!(ledger.reusable(10), KnownBool::Yes);
    assert_eq!(ledger.reusable(20), KnownBool::Unknown);
    assert!(!ledger.stats().history_complete);
}

#[test]
fn frontend_restart_against_warm_workers_keeps_prior_evictions_unknown() {
    let mut restarted = CacheEvidenceLedger::new(8);
    restarted.set_expected_owners(&[WORKER_A]);
    restarted.record_group_catalog(WORKER_A, CacheTier::Gpu, &[0]);
    restarted.seal_physical_scope();

    assert_eq!(restarted.reusable(41), KnownBool::Unknown);
    assert_eq!(restarted.resident_anywhere(41), KnownBool::No);
    assert!(!restarted.stats().history_complete);
}

#[test]
fn multi_group_residency_requires_every_declared_group() {
    let mut ledger = CacheEvidenceLedger::new(16);
    ledger.record_group_catalog(WORKER_A, CacheTier::Cpu, &[0, 1, 2]);
    ledger.seal_physical_scope();

    ledger.store(WORKER_A, CacheTier::Cpu, 0, 99);
    ledger.store(WORKER_A, CacheTier::Cpu, 1, 99);
    assert_eq!(ledger.resident_on(99, WORKER_A), KnownBool::No);

    ledger.store(WORKER_A, CacheTier::Cpu, 2, 99);
    assert_eq!(ledger.resident_on(99, WORKER_A), KnownBool::Yes);
}

#[test]
fn tier_qualified_clear_preserves_other_tier_residency() {
    let mut ledger = CacheEvidenceLedger::new(16);
    ledger.record_group_catalog(WORKER_A, CacheTier::Gpu, &[0]);
    ledger.record_group_catalog(WORKER_A, CacheTier::Cpu, &[0]);
    ledger.seal_physical_scope();
    ledger.store(WORKER_A, CacheTier::Gpu, 0, 99);
    ledger.store(WORKER_A, CacheTier::Cpu, 0, 99);

    ledger.apply_evidence_batch(&CacheEvidenceBatch {
        owner: WORKER_A,
        source_cursor: 0,
        source_incarnation_id: Some(1),
        heartbeat: false,
        watermark_source_cursor: None,
        telemetry_complete: true,
        mutations: vec![CacheEvidenceMutation::Clear {
            tier: Some(CacheTier::Gpu),
        }],
        barrier_id: None,
        epoch_id: None,
    });

    assert_eq!(ledger.resident_on(99, WORKER_A), KnownBool::Yes);
    assert_eq!(ledger.stats().gpu_physical_blocks, 0);
    assert_eq!(ledger.stats().cpu_physical_blocks, 1);
}

#[test]
fn duplicate_announcements_are_reference_counted() {
    let mut ledger = CacheEvidenceLedger::new(16);
    ledger.record_group_catalog(WORKER_A, CacheTier::Cpu, &[0]);
    ledger.seal_physical_scope();

    ledger.store(WORKER_A, CacheTier::Cpu, 0, 7);
    ledger.store(WORKER_A, CacheTier::Cpu, 0, 7);
    ledger.remove(WORKER_A, CacheTier::Cpu, 0, 7);
    assert_eq!(ledger.resident_on(7, WORKER_A), KnownBool::Yes);

    ledger.remove(WORKER_A, CacheTier::Cpu, 0, 7);
    assert_eq!(ledger.resident_on(7, WORKER_A), KnownBool::No);
}

#[test]
fn physical_block_metrics_do_not_double_count_duplicate_announcements() {
    let mut ledger = CacheEvidenceLedger::new(16);
    ledger.record_group_catalog(WORKER_A, CacheTier::Cpu, &[0]);
    ledger.store(WORKER_A, CacheTier::Cpu, 0, 7);
    ledger.store(WORKER_A, CacheTier::Cpu, 0, 7);
    assert_eq!(ledger.stats().cpu_physical_blocks, 1);
    ledger.remove(WORKER_A, CacheTier::Cpu, 0, 7);
    assert_eq!(ledger.stats().cpu_physical_blocks, 1);
    ledger.remove(WORKER_A, CacheTier::Cpu, 0, 7);
    assert_eq!(ledger.stats().cpu_physical_blocks, 0);
}

#[test]
fn duplicate_copies_across_workers_are_independent() {
    let mut ledger = CacheEvidenceLedger::new(16);
    ledger.record_group_catalog(WORKER_A, CacheTier::Gpu, &[0]);
    ledger.record_group_catalog(WORKER_B, CacheTier::Gpu, &[0]);
    ledger.seal_physical_scope();
    ledger.store(WORKER_A, CacheTier::Gpu, 0, 5);
    ledger.store(WORKER_B, CacheTier::Gpu, 0, 5);

    ledger.remove(WORKER_A, CacheTier::Gpu, 0, 5);
    assert_eq!(ledger.resident_on(5, WORKER_A), KnownBool::No);
    assert_eq!(ledger.resident_on(5, WORKER_B), KnownBool::Yes);
    assert_eq!(ledger.resident_anywhere(5), KnownBool::Yes);
}

#[test]
fn gaps_make_negative_residency_unknown_but_preserve_positive_facts() {
    let mut ledger = CacheEvidenceLedger::new(16);
    ledger.record_group_catalog(WORKER_A, CacheTier::Cpu, &[0]);
    ledger.seal_physical_scope();
    ledger.store(WORKER_A, CacheTier::Cpu, 0, 1);
    ledger.mark_physical_telemetry_incomplete();

    assert_eq!(ledger.resident_on(1, WORKER_A), KnownBool::Yes);
    assert_eq!(ledger.resident_on(2, WORKER_A), KnownBool::Unknown);
}

#[test]
fn evidence_batches_apply_all_groups_and_fail_closed_on_missing_group() {
    let mut ledger = CacheEvidenceLedger::new(16);
    ledger.record_group_catalog(WORKER_A, CacheTier::Cpu, &[0, 1]);
    ledger.seal_physical_scope();
    ledger.apply_evidence_batch(&CacheEvidenceBatch {
        owner: WORKER_A,
        source_cursor: 4,
        source_incarnation_id: None,
        barrier_id: None,
        epoch_id: None,
        heartbeat: false,
        watermark_source_cursor: None,
        telemetry_complete: true,
        mutations: vec![
            CacheEvidenceMutation::Store {
                tier: CacheTier::Cpu,
                group_idx: Some(0),
                parent_external_hash: None,
                blocks: vec![CacheEvidenceStoredBlock {
                    external_hash: 90,
                    tokens_hash: 9,
                }],
            },
            CacheEvidenceMutation::Store {
                tier: CacheTier::Cpu,
                group_idx: Some(1),
                parent_external_hash: None,
                blocks: vec![CacheEvidenceStoredBlock {
                    external_hash: 91,
                    tokens_hash: 9,
                }],
            },
        ],
    });
    assert_eq!(ledger.resident_on(9, WORKER_A), KnownBool::Yes);

    let result = ledger.apply_evidence_batch_with_diagnostics(&CacheEvidenceBatch {
        owner: WORKER_A,
        source_cursor: 5,
        source_incarnation_id: None,
        barrier_id: None,
        epoch_id: None,
        heartbeat: false,
        watermark_source_cursor: None,
        telemetry_complete: true,
        mutations: vec![CacheEvidenceMutation::Remove {
            tier: CacheTier::Cpu,
            group_idx: None,
            block_hashes: vec![9],
        }],
    });
    assert_eq!(
        result.failures().into_iter().collect::<HashSet<_>>(),
        HashSet::from([CacheEvidenceApplyIntegrityFailure::MissingGroup])
    );
    assert_eq!(ledger.resident_on(10, WORKER_A), KnownBool::Unknown);
}

#[test]
fn incomplete_batch_reports_bounded_integrity_reason() {
    let mut ledger = CacheEvidenceLedger::new(16);
    let result = ledger.apply_evidence_batch_with_diagnostics(&CacheEvidenceBatch {
        owner: WORKER_A,
        source_cursor: 1,
        source_incarnation_id: None,
        barrier_id: None,
        epoch_id: None,
        heartbeat: false,
        watermark_source_cursor: None,
        telemetry_complete: false,
        mutations: Vec::new(),
    });

    assert_eq!(
        result.failures().into_iter().collect::<HashSet<_>>(),
        HashSet::from([CacheEvidenceApplyIntegrityFailure::IncompleteBatch])
    );
}

#[test]
fn group_aware_residency_accepts_distinct_hashes_and_mixed_tiers() {
    let mut ledger = CacheEvidenceLedger::new(16);
    ledger.record_group_catalog(WORKER_A, CacheTier::Gpu, &[0, 1]);
    ledger.record_group_catalog(WORKER_A, CacheTier::Cpu, &[0, 1]);
    ledger.seal_physical_scope();
    ledger.store_mapped(WORKER_A, CacheTier::Gpu, 0, 100, 10);
    ledger.store_mapped(WORKER_A, CacheTier::Cpu, 1, 200, 20);
    ledger.store_mapped(WORKER_A, CacheTier::Cpu, 1, 201, 21);

    let queries = [
        CacheGroupBlockQuery {
            group_idx: 0,
            tokens_hash: 10,
        },
        CacheGroupBlockQuery {
            group_idx: 1,
            tokens_hash: 20,
        },
        CacheGroupBlockQuery {
            group_idx: 1,
            tokens_hash: 21,
        },
    ];
    assert_eq!(
        ledger.resident_groups_on(&queries, WORKER_A),
        KnownBool::Yes
    );
    assert_eq!(ledger.resident_groups_anywhere(&queries), KnownBool::Yes);

    ledger.remove_external(WORKER_A, CacheTier::Cpu, 1, 200);
    assert_eq!(ledger.resident_groups_on(&queries, WORKER_A), KnownBool::No);
}

#[test]
fn negative_residency_waits_for_every_active_worker_catalog() {
    let mut ledger = CacheEvidenceLedger::new(16);
    ledger.set_expected_owners(&[WORKER_A, WORKER_B]);
    ledger.record_group_catalog(WORKER_A, CacheTier::Gpu, &[0]);
    assert_eq!(ledger.resident_anywhere(99), KnownBool::Unknown);

    ledger.record_group_catalog(WORKER_B, CacheTier::Gpu, &[0]);
    assert_eq!(ledger.resident_anywhere(99), KnownBool::No);
}

#[test]
fn physical_chain_distinguishes_equal_token_blocks_under_different_parents() {
    let mut ledger = CacheEvidenceLedger::new(16);
    ledger.record_group_catalog(WORKER_A, CacheTier::Gpu, &[0]);
    ledger.seal_physical_scope();
    for (cursor, parent, external, local) in [
        (0, None, 100, 10),
        (1, Some(100), 101, 20),
        (2, None, 200, 11),
        (3, Some(200), 201, 20),
    ] {
        ledger.apply_evidence_batch(&CacheEvidenceBatch {
            owner: WORKER_A,
            source_cursor: cursor,
            source_incarnation_id: None,
            barrier_id: None,
            epoch_id: None,
            heartbeat: false,
            watermark_source_cursor: None,
            telemetry_complete: true,
            mutations: vec![CacheEvidenceMutation::Store {
                tier: CacheTier::Gpu,
                group_idx: Some(0),
                parent_external_hash: parent,
                blocks: vec![CacheEvidenceStoredBlock {
                    external_hash: external,
                    tokens_hash: local,
                }],
            }],
        });
    }

    let first_child = compute_next_seq_hash(10, LocalBlockHash(20));
    let second_child = compute_next_seq_hash(11, LocalBlockHash(20));
    assert_ne!(first_child, second_child);
    assert_eq!(ledger.resident_on(first_child, WORKER_A), KnownBool::Yes);
    assert_eq!(ledger.resident_on(second_child, WORKER_A), KnownBool::Yes);
    assert_eq!(ledger.resident_on(20, WORKER_A), KnownBool::No);
}

#[test]
fn cpu_suffix_store_chains_from_gpu_parent() {
    let mut ledger = CacheEvidenceLedger::new(16);
    ledger.record_group_catalog(WORKER_A, CacheTier::Gpu, &[0]);
    ledger.record_group_catalog(WORKER_A, CacheTier::Cpu, &[0]);
    ledger.seal_physical_scope();
    ledger.store_mapped(WORKER_A, CacheTier::Gpu, 0, 100, 10);

    ledger.apply_evidence_batch(&CacheEvidenceBatch {
        owner: WORKER_A,
        source_cursor: 1,
        source_incarnation_id: None,
        barrier_id: None,
        epoch_id: None,
        heartbeat: false,
        watermark_source_cursor: None,
        telemetry_complete: true,
        mutations: vec![CacheEvidenceMutation::Store {
            tier: CacheTier::Cpu,
            group_idx: Some(0),
            parent_external_hash: Some(100),
            blocks: vec![CacheEvidenceStoredBlock {
                external_hash: 101,
                tokens_hash: 20,
            }],
        }],
    });

    let child = compute_next_seq_hash(10, LocalBlockHash(20));
    assert_eq!(ledger.resident_on(child, WORKER_A), KnownBool::Yes);
    assert!(ledger.stats().physical_telemetry_complete);
    assert_eq!(ledger.stats().gpu_physical_blocks, 1);
    assert_eq!(ledger.stats().cpu_physical_blocks, 1);

    ledger.remove_external(WORKER_A, CacheTier::Cpu, 0, 101);
    assert_eq!(ledger.resident_on(10, WORKER_A), KnownBool::Yes);
    assert_eq!(ledger.resident_on(child, WORKER_A), KnownBool::No);
}

#[test]
fn store_only_batch_resolves_parent_emitted_later() {
    let mut ledger = CacheEvidenceLedger::new(16);
    ledger.record_group_catalog(WORKER_A, CacheTier::Cpu, &[0]);
    ledger.seal_physical_scope();

    ledger.apply_evidence_batch(&CacheEvidenceBatch {
        owner: WORKER_A,
        source_cursor: 1,
        source_incarnation_id: None,
        barrier_id: None,
        epoch_id: None,
        heartbeat: false,
        watermark_source_cursor: None,
        telemetry_complete: true,
        mutations: vec![
            CacheEvidenceMutation::Store {
                tier: CacheTier::Cpu,
                group_idx: Some(0),
                parent_external_hash: Some(100),
                blocks: vec![CacheEvidenceStoredBlock {
                    external_hash: 101,
                    tokens_hash: 20,
                }],
            },
            CacheEvidenceMutation::Store {
                tier: CacheTier::Cpu,
                group_idx: Some(0),
                parent_external_hash: None,
                blocks: vec![CacheEvidenceStoredBlock {
                    external_hash: 100,
                    tokens_hash: 10,
                }],
            },
        ],
    });

    let child = compute_next_seq_hash(10, LocalBlockHash(20));
    assert_eq!(ledger.resident_on(10, WORKER_A), KnownBool::Yes);
    assert_eq!(ledger.resident_on(child, WORKER_A), KnownBool::Yes);
    assert!(ledger.stats().physical_telemetry_complete);
    assert_eq!(ledger.stats().cpu_physical_blocks, 2);
}

#[test]
fn store_only_batch_fails_closed_when_parent_never_arrives() {
    let mut ledger = CacheEvidenceLedger::new(16);
    ledger.record_group_catalog(WORKER_A, CacheTier::Cpu, &[0]);
    ledger.seal_physical_scope();

    let result = ledger.apply_evidence_batch_with_diagnostics(&CacheEvidenceBatch {
        owner: WORKER_A,
        source_cursor: 1,
        source_incarnation_id: None,
        barrier_id: None,
        epoch_id: None,
        heartbeat: false,
        watermark_source_cursor: None,
        telemetry_complete: true,
        mutations: vec![CacheEvidenceMutation::Store {
            tier: CacheTier::Cpu,
            group_idx: Some(0),
            parent_external_hash: Some(100),
            blocks: vec![CacheEvidenceStoredBlock {
                external_hash: 101,
                tokens_hash: 20,
            }],
        }],
    });

    assert_eq!(
        result.failures().into_iter().collect::<HashSet<_>>(),
        HashSet::from([CacheEvidenceApplyIntegrityFailure::MissingParent])
    );
    assert!(!ledger.stats().physical_telemetry_complete);
    assert_eq!(ledger.stats().cpu_physical_blocks, 0);
}

#[test]
fn remove_is_a_barrier_before_an_out_of_order_store_run() {
    let mut ledger = CacheEvidenceLedger::new(16);
    ledger.record_group_catalog(WORKER_A, CacheTier::Cpu, &[0]);
    ledger.seal_physical_scope();
    ledger.store_mapped(WORKER_A, CacheTier::Cpu, 0, 100, 10);

    ledger.apply_evidence_batch(&CacheEvidenceBatch {
        owner: WORKER_A,
        source_cursor: 1,
        source_incarnation_id: None,
        barrier_id: None,
        epoch_id: None,
        heartbeat: false,
        watermark_source_cursor: None,
        telemetry_complete: true,
        mutations: vec![
            CacheEvidenceMutation::Remove {
                tier: CacheTier::Cpu,
                group_idx: Some(0),
                block_hashes: vec![100],
            },
            CacheEvidenceMutation::Store {
                tier: CacheTier::Cpu,
                group_idx: Some(0),
                parent_external_hash: Some(200),
                blocks: vec![CacheEvidenceStoredBlock {
                    external_hash: 201,
                    tokens_hash: 21,
                }],
            },
            CacheEvidenceMutation::Store {
                tier: CacheTier::Cpu,
                group_idx: Some(0),
                parent_external_hash: None,
                blocks: vec![CacheEvidenceStoredBlock {
                    external_hash: 200,
                    tokens_hash: 20,
                }],
            },
        ],
    });

    let child = compute_next_seq_hash(20, LocalBlockHash(21));
    assert_eq!(ledger.resident_on(10, WORKER_A), KnownBool::No);
    assert_eq!(ledger.resident_on(20, WORKER_A), KnownBool::Yes);
    assert_eq!(ledger.resident_on(child, WORKER_A), KnownBool::Yes);
    assert!(ledger.stats().physical_telemetry_complete);
}

#[test]
fn clear_separates_store_dependency_runs() {
    let mut ledger = CacheEvidenceLedger::new(16);
    ledger.record_group_catalog(WORKER_A, CacheTier::Cpu, &[0]);
    ledger.seal_physical_scope();
    ledger.store_mapped(WORKER_A, CacheTier::Cpu, 0, 100, 10);

    ledger.apply_evidence_batch(&CacheEvidenceBatch {
        owner: WORKER_A,
        source_cursor: 1,
        source_incarnation_id: None,
        barrier_id: None,
        epoch_id: None,
        heartbeat: false,
        watermark_source_cursor: None,
        telemetry_complete: true,
        mutations: vec![
            CacheEvidenceMutation::Store {
                tier: CacheTier::Cpu,
                group_idx: Some(0),
                parent_external_hash: Some(100),
                blocks: vec![CacheEvidenceStoredBlock {
                    external_hash: 101,
                    tokens_hash: 11,
                }],
            },
            CacheEvidenceMutation::Clear { tier: None },
            CacheEvidenceMutation::Store {
                tier: CacheTier::Cpu,
                group_idx: Some(0),
                parent_external_hash: Some(200),
                blocks: vec![CacheEvidenceStoredBlock {
                    external_hash: 201,
                    tokens_hash: 21,
                }],
            },
            CacheEvidenceMutation::Store {
                tier: CacheTier::Cpu,
                group_idx: Some(0),
                parent_external_hash: None,
                blocks: vec![CacheEvidenceStoredBlock {
                    external_hash: 200,
                    tokens_hash: 20,
                }],
            },
        ],
    });

    let old_child = compute_next_seq_hash(10, LocalBlockHash(11));
    let new_child = compute_next_seq_hash(20, LocalBlockHash(21));
    assert_eq!(ledger.resident_on(10, WORKER_A), KnownBool::No);
    assert_eq!(ledger.resident_on(old_child, WORKER_A), KnownBool::No);
    assert_eq!(ledger.resident_on(20, WORKER_A), KnownBool::Yes);
    assert_eq!(ledger.resident_on(new_child, WORKER_A), KnownBool::Yes);
    assert!(ledger.stats().physical_telemetry_complete);
}

#[test]
fn store_run_resolves_transitive_dependencies_across_tiers() {
    let mut ledger = CacheEvidenceLedger::new(16);
    ledger.record_group_catalog(WORKER_A, CacheTier::Gpu, &[0]);
    ledger.record_group_catalog(WORKER_A, CacheTier::Cpu, &[0]);
    ledger.seal_physical_scope();

    ledger.apply_evidence_batch(&CacheEvidenceBatch {
        owner: WORKER_A,
        source_cursor: 1,
        source_incarnation_id: None,
        barrier_id: None,
        epoch_id: None,
        heartbeat: false,
        watermark_source_cursor: None,
        telemetry_complete: true,
        mutations: vec![
            CacheEvidenceMutation::Store {
                tier: CacheTier::Gpu,
                group_idx: Some(0),
                parent_external_hash: Some(101),
                blocks: vec![CacheEvidenceStoredBlock {
                    external_hash: 102,
                    tokens_hash: 30,
                }],
            },
            CacheEvidenceMutation::Store {
                tier: CacheTier::Cpu,
                group_idx: Some(0),
                parent_external_hash: Some(100),
                blocks: vec![CacheEvidenceStoredBlock {
                    external_hash: 101,
                    tokens_hash: 20,
                }],
            },
            CacheEvidenceMutation::Store {
                tier: CacheTier::Gpu,
                group_idx: Some(0),
                parent_external_hash: None,
                blocks: vec![CacheEvidenceStoredBlock {
                    external_hash: 100,
                    tokens_hash: 10,
                }],
            },
        ],
    });

    let child = compute_next_seq_hash(10, LocalBlockHash(20));
    let grandchild = compute_next_seq_hash(child, LocalBlockHash(30));
    assert_eq!(ledger.resident_on(10, WORKER_A), KnownBool::Yes);
    assert_eq!(ledger.resident_on(child, WORKER_A), KnownBool::Yes);
    assert_eq!(ledger.resident_on(grandchild, WORKER_A), KnownBool::Yes);
    assert!(ledger.stats().physical_telemetry_complete);
}

#[test]
fn rejected_parent_store_does_not_unlock_dependents() {
    let mut ledger = CacheEvidenceLedger::new(16);
    ledger.record_group_catalog(WORKER_A, CacheTier::Cpu, &[0]);
    ledger.seal_physical_scope();
    ledger.store_mapped(WORKER_A, CacheTier::Cpu, 0, 101, 999);

    let result = ledger.apply_evidence_batch_with_diagnostics(&CacheEvidenceBatch {
        owner: WORKER_A,
        source_cursor: 1,
        source_incarnation_id: None,
        barrier_id: None,
        epoch_id: None,
        heartbeat: false,
        watermark_source_cursor: None,
        telemetry_complete: true,
        mutations: vec![
            CacheEvidenceMutation::Store {
                tier: CacheTier::Cpu,
                group_idx: Some(0),
                parent_external_hash: Some(100),
                blocks: vec![CacheEvidenceStoredBlock {
                    external_hash: 102,
                    tokens_hash: 30,
                }],
            },
            CacheEvidenceMutation::Store {
                tier: CacheTier::Cpu,
                group_idx: Some(0),
                parent_external_hash: None,
                blocks: vec![
                    CacheEvidenceStoredBlock {
                        external_hash: 100,
                        tokens_hash: 10,
                    },
                    CacheEvidenceStoredBlock {
                        external_hash: 101,
                        tokens_hash: 20,
                    },
                ],
            },
        ],
    });

    assert_eq!(
        result.failures().into_iter().collect::<HashSet<_>>(),
        HashSet::from([
            CacheEvidenceApplyIntegrityFailure::ConflictingMapping,
            CacheEvidenceApplyIntegrityFailure::MissingParent,
        ])
    );
    assert!(!ledger.stats().physical_telemetry_complete);
    assert_eq!(ledger.stats().cpu_physical_blocks, 1);
    assert!(!is_mapped(&ledger, 100));
    assert!(!is_mapped(&ledger, 102));
}

#[test]
fn cross_tier_parent_resolution_rejects_inconsistent_mappings() {
    let mut ledger = CacheEvidenceLedger::new(16);
    ledger.record_group_catalog(WORKER_A, CacheTier::Gpu, &[0]);
    ledger.record_group_catalog(WORKER_A, CacheTier::Cpu, &[0]);
    ledger.seal_physical_scope();
    ledger.store_mapped(WORKER_A, CacheTier::Gpu, 0, 100, 10);
    ledger.store_mapped(WORKER_A, CacheTier::Cpu, 0, 100, 11);

    let result = ledger.apply_evidence_batch_with_diagnostics(&CacheEvidenceBatch {
        owner: WORKER_A,
        source_cursor: 1,
        source_incarnation_id: None,
        barrier_id: None,
        epoch_id: None,
        heartbeat: false,
        watermark_source_cursor: None,
        telemetry_complete: true,
        mutations: vec![CacheEvidenceMutation::Store {
            tier: CacheTier::Cpu,
            group_idx: Some(0),
            parent_external_hash: Some(100),
            blocks: vec![CacheEvidenceStoredBlock {
                external_hash: 101,
                tokens_hash: 20,
            }],
        }],
    });

    assert_eq!(
        result.failures().into_iter().collect::<HashSet<_>>(),
        HashSet::from([CacheEvidenceApplyIntegrityFailure::MissingParent])
    );
    assert!(!ledger.stats().physical_telemetry_complete);
    assert_eq!(ledger.stats().gpu_physical_blocks, 1);
    assert_eq!(ledger.stats().cpu_physical_blocks, 1);
    assert!(!is_mapped(&ledger, 101));
}

#[test]
fn cross_tier_parent_resolution_preserves_group_isolation() {
    let mut ledger = CacheEvidenceLedger::new(16);
    ledger.record_group_catalog(WORKER_A, CacheTier::Gpu, &[0]);
    ledger.record_group_catalog(WORKER_A, CacheTier::Cpu, &[1]);
    ledger.store_mapped(WORKER_A, CacheTier::Gpu, 0, 100, 10);

    ledger.apply_evidence_batch(&CacheEvidenceBatch {
        owner: WORKER_A,
        source_cursor: 1,
        source_incarnation_id: None,
        barrier_id: None,
        epoch_id: None,
        heartbeat: false,
        watermark_source_cursor: None,
        telemetry_complete: true,
        mutations: vec![CacheEvidenceMutation::Store {
            tier: CacheTier::Cpu,
            group_idx: Some(1),
            parent_external_hash: Some(100),
            blocks: vec![CacheEvidenceStoredBlock {
                external_hash: 101,
                tokens_hash: 20,
            }],
        }],
    });

    assert!(!ledger.stats().physical_telemetry_complete);
    assert_eq!(ledger.stats().cpu_physical_blocks, 0);
}

#[test]
fn sliding_window_hit_uses_the_latest_aligned_contiguous_window() {
    let group = CacheGroupHashSequence {
        group_idx: 1,
        kind: CacheGroupKind::SlidingWindow,
        block_size: 8,
        sliding_window: Some(16),
        is_eagle: false,
        alignment_tokens: 32,
        sequence_hashes: (1..=12).collect(),
    };
    let resident: HashSet<_> = [7, 8].into_iter().collect();
    assert_eq!(
        hybrid_prefix(&[group], 96, |_, hash| if resident.contains(&hash) {
            KnownBool::Yes
        } else {
            KnownBool::No
        }),
        KnownPrefixLength::Known(64)
    );
}

#[test]
fn hybrid_hit_reconciles_full_and_sliding_groups() {
    let groups = [
        CacheGroupHashSequence {
            group_idx: 0,
            kind: CacheGroupKind::FullAttention,
            block_size: 32,
            sliding_window: None,
            is_eagle: false,
            alignment_tokens: 32,
            sequence_hashes: vec![10, 20, 30],
        },
        CacheGroupHashSequence {
            group_idx: 1,
            kind: CacheGroupKind::SlidingWindow,
            block_size: 8,
            sliding_window: Some(16),
            is_eagle: false,
            alignment_tokens: 32,
            sequence_hashes: (101..=112).collect(),
        },
    ];
    let resident: HashSet<_> = [10, 20, 107, 108, 111, 112].into_iter().collect();
    assert_eq!(
        hybrid_prefix(&groups, 96, |_, hash| if resident.contains(&hash) {
            KnownBool::Yes
        } else {
            KnownBool::No
        }),
        KnownPrefixLength::Known(64)
    );
}

#[test]
fn unknown_hybrid_evidence_never_becomes_a_zero_hit() {
    let group = CacheGroupHashSequence {
        group_idx: 0,
        kind: CacheGroupKind::FullAttention,
        block_size: 32,
        sliding_window: None,
        is_eagle: false,
        alignment_tokens: 32,
        sequence_hashes: vec![1, 2],
    };
    assert_eq!(
        hybrid_prefix(&[group], 64, |_, hash| if hash == 1 {
            KnownBool::Yes
        } else {
            KnownBool::Unknown
        }),
        KnownPrefixLength::Unknown
    );
}

#[test]
fn stream_integrity_loss_invalidates_history_until_atomic_cold_epoch_recovery() {
    let mut ledger = CacheEvidenceLedger::new(8);
    ledger.set_expected_owners(&[WORKER_A]);
    ledger.record_group_catalog(WORKER_A, CacheTier::Gpu, &[0]);
    ledger.advance_history_epoch();
    assert!(ledger.stats().history_complete);
    assert!(ledger.stats().physical_telemetry_complete);

    ledger.mark_physical_telemetry_incomplete();
    assert!(!ledger.stats().history_complete);
    assert!(!ledger.stats().physical_telemetry_complete);
    assert_eq!(ledger.reusable(99), KnownBool::Unknown);

    assert!(ledger.apply_evidence_batch(&CacheEvidenceBatch {
        owner: WORKER_A,
        source_cursor: 1,
        source_incarnation_id: Some(7),
        heartbeat: false,
        watermark_source_cursor: None,
        telemetry_complete: true,
        mutations: vec![CacheEvidenceMutation::Clear {
            tier: Some(CacheTier::Gpu),
        }],
        barrier_id: None,
        epoch_id: Some("0123456789abcdef0123456789abcdef".to_string()),
    }));
    assert!(!ledger.stats().physical_telemetry_complete);

    assert!(
        ledger
            .commit_cold_history_epoch(&[WORKER_A])
            .is_some()
    );
    assert!(ledger.stats().history_complete);
    assert!(ledger.stats().physical_telemetry_complete);
    assert_eq!(ledger.reusable(99), KnownBool::No);
}

#[test]
fn stale_epoch_failures_cannot_poison_new_history_epoch() {
    let mut ledger = CacheEvidenceLedger::new(8);
    let old_epoch = ledger.history_epoch();
    let new_epoch = ledger.advance_history_epoch();

    assert_ne!(old_epoch, new_epoch);
    assert!(!ledger.mark_history_incomplete_for_epoch(old_epoch));
    assert!(ledger.stats().history_complete);
    assert!(ledger.mark_history_incomplete_for_epoch(new_epoch));
    assert!(!ledger.stats().history_complete);
}

#[test]
fn partial_cold_epoch_cannot_clear_cumulative_poison_or_residual_tier() {
    let mut ledger = CacheEvidenceLedger::new(8);
    ledger.set_expected_owners(&[WORKER_A]);
    ledger.record_group_catalog(WORKER_A, CacheTier::Gpu, &[0]);
    ledger.record_group_catalog(WORKER_A, CacheTier::Cpu, &[0]);
    ledger.store(WORKER_A, CacheTier::Cpu, 0, 99);
    ledger.mark_physical_telemetry_incomplete();
    ledger.clear_owner_tier(WORKER_A, CacheTier::Gpu);

    assert_eq!(
        ledger.commit_cold_history_epoch(&[WORKER_A]),
        None
    );
    assert!(!ledger.stats().physical_telemetry_complete);
    assert!(!ledger.stats().history_complete);
    assert_eq!(ledger.stats().cpu_physical_blocks, 1);
}
