//! From engine events to evidence batches.

use std::collections::HashSet;

use kv_cache_evidence::event::{EventMedium, EventOwnership, Locality, RawKvEvent, StorageTier};
use kv_cache_evidence::evidence::{
    CacheEvidenceBatch, CacheEvidenceMutation, CacheEvidenceStoredBlock, CacheOwner, CacheTier,
};
use kv_cache_evidence::ledger::CacheEvidenceLedger;
use kv_cache_evidence::listener::{
    cache_evidence_mutation_with_resolver, decode_zmq_kv_batch,
    filter_preserves_publisher_telemetry, EnvelopeError, EvidenceHeartbeatState, EvidenceSource,
    SourceBatch, SourceSequenceObservation, SourceSequenceTracker, ZmqEventFilterReason,
};
use kv_cache_evidence::prefix::{CacheGroupHashSequence, CacheGroupKind, KnownPrefixLength};
use kv_cache_evidence::protocols::{compute_next_seq_hash, LocalBlockHash, XXH3_SEED};
use kv_cache_evidence::resolver::{
    EvidenceHashResolver, EvidenceMutationError, MAX_EVIDENCE_HASH_MAPPINGS,
};

const TEST_OWNER: CacheOwner = CacheOwner {
    worker_id: 7,
    dp_rank: 0,
};

fn medium(name: Option<&str>) -> EventMedium {
    match name {
        None => EventMedium::Unspecified,
        Some("GPU") => EventMedium::Tier(StorageTier::Device),
        Some("CPU") => EventMedium::Tier(StorageTier::HostPinned),
        Some("DISK") => EventMedium::Tier(StorageTier::Disk),
        Some(_) => EventMedium::Unrecognized,
    }
}

/// The hash of a block's tokens alone.
fn block_hash(tokens: &[u32]) -> u64 {
    let bytes: Vec<u8> = tokens.iter().flat_map(|token| token.to_le_bytes()).collect();
    xxhash_rust::xxh3::xxh3_64_with_seed(&bytes, XXH3_SEED)
}

fn sequence_hashes(tokens: &[u32], block_size: u32) -> Vec<u64> {
    let mut hashes: Vec<u64> = Vec::new();
    for block in tokens.chunks_exact(block_size as usize) {
        let local = block_hash(block);
        hashes.push(match hashes.last() {
            None => local,
            Some(parent) => compute_next_seq_hash(*parent, LocalBlockHash(local)),
        });
    }
    hashes
}

/// An event with the blocks that its tokens make.
#[derive(Clone)]
struct Store {
    event: RawKvEvent,
    hashed: Vec<CacheEvidenceStoredBlock>,
}

fn store(
    name: Option<&str>,
    group_idx: u32,
    external_hashes: &[u64],
    parent_block_hash: Option<u64>,
    token_ids: &[u32],
    block_size: usize,
) -> Store {
    let hashed = if block_size == 0 {
        Vec::new()
    } else {
        external_hashes
            .iter()
            .zip(token_ids.chunks_exact(block_size))
            .map(|(external_hash, block)| CacheEvidenceStoredBlock {
                external_hash: *external_hash,
                tokens_hash: block_hash(block),
            })
            .collect()
    };
    Store {
        event: RawKvEvent::BlockStored {
            block_hashes: external_hashes.to_vec(),
            parent_block_hash,
            token_count: token_ids.len(),
            block_size,
            medium: medium(name),
            group_idx: Some(group_idx),
            locality: Some(Locality::Local),
            ownership: EventOwnership::Framework,
        },
        hashed,
    }
}

fn resolver_store(
    name: &str,
    group_idx: u32,
    external_hash: u64,
    token_ids: Vec<u32>,
    block_size: usize,
) -> Store {
    store(Some(name), group_idx, &[external_hash], None, &token_ids, block_size)
}

fn resolver_store_many(
    name: &str,
    group_idx: u32,
    external_hashes: &[u64],
    token_ids: Vec<u32>,
    block_size: usize,
) -> Store {
    store(Some(name), group_idx, external_hashes, None, &token_ids, block_size)
}

fn plain(event: RawKvEvent) -> Store {
    Store {
        event,
        hashed: Vec::new(),
    }
}

fn resolve_for(
    resolver: &mut EvidenceHashResolver,
    owner: CacheOwner,
    store: &Store,
) -> Result<Option<CacheEvidenceMutation>, EvidenceMutationError> {
    cache_evidence_mutation_with_resolver(&store.event, owner, &store.hashed, resolver)
}

fn resolve_with(
    resolver: &mut EvidenceHashResolver,
    store: &Store,
) -> Result<Option<CacheEvidenceMutation>, EvidenceMutationError> {
    resolve_for(resolver, TEST_OWNER, store)
}

fn cache_evidence_mutation(
    store: &Store,
) -> Result<Option<CacheEvidenceMutation>, EvidenceMutationError> {
    resolve_with(
        &mut EvidenceHashResolver::new(MAX_EVIDENCE_HASH_MAPPINGS),
        store,
    )
}

#[test]
fn hash_only_cpu_store_resolves_only_after_same_source_gpu_store() {
    let gpu = resolver_store("GPU", 0, 41, vec![1; 16], 16);
    let cpu = resolver_store("CPU", 0, 41, vec![], 0);
    let mut resolver = EvidenceHashResolver::new(8);

    assert_eq!(
        resolve_with(&mut resolver, &cpu),
        Err(EvidenceMutationError::UnresolvedHash)
    );
    let gpu_mutation = resolve_with(&mut resolver, &gpu).unwrap().unwrap();
    let cpu_mutation = resolve_with(&mut resolver, &cpu).unwrap().unwrap();
    let CacheEvidenceMutation::Store {
        blocks: gpu_blocks, ..
    } = gpu_mutation
    else {
        panic!("GPU mutation must be a store");
    };
    let CacheEvidenceMutation::Store {
        tier,
        blocks: cpu_blocks,
        ..
    } = cpu_mutation
    else {
        panic!("CPU mutation must be a store");
    };
    assert_eq!(tier, CacheTier::Cpu);
    assert_eq!(cpu_blocks, gpu_blocks);

    let other_owner = CacheOwner {
        worker_id: TEST_OWNER.worker_id,
        dp_rank: 1,
    };
    assert_eq!(
        resolve_for(&mut resolver, other_owner, &cpu),
        Err(EvidenceMutationError::UnresolvedHash)
    );
}

#[test]
fn hash_only_cpu_store_resolves_external_hashes_per_cache_group() {
    let group_zero_gpu = resolver_store("GPU", 0, 41, vec![1; 16], 16);
    let group_one_gpu = resolver_store("GPU", 1, 41, vec![2; 16], 16);
    let group_zero_cpu = resolver_store("CPU", 0, 41, vec![], 0);
    let group_one_cpu = resolver_store("CPU", 1, 41, vec![], 0);
    let mut resolver = EvidenceHashResolver::new(8);

    let group_zero = resolve_with(&mut resolver, &group_zero_gpu)
        .unwrap()
        .unwrap();
    let group_one = resolve_with(&mut resolver, &group_one_gpu)
        .unwrap()
        .unwrap();
    let group_zero_cpu = resolve_with(&mut resolver, &group_zero_cpu)
        .unwrap()
        .unwrap();
    let group_one_cpu = resolve_with(&mut resolver, &group_one_cpu)
        .unwrap()
        .unwrap();

    let blocks = |mutation: CacheEvidenceMutation| match mutation {
        CacheEvidenceMutation::Store { blocks, .. } => blocks,
        _ => panic!("resolver store must remain a store mutation"),
    };
    assert_eq!(blocks(group_zero_cpu), blocks(group_zero));
    assert_eq!(blocks(group_one_cpu), blocks(group_one));
}

#[test]
fn hash_only_cpu_mapping_survives_gpu_eviction() {
    let gpu = resolver_store("GPU", 0, 51, vec![2; 16], 16);
    let cpu = resolver_store("CPU", 0, 51, vec![], 0);
    let remove = plain(RawKvEvent::BlockRemoved {
        block_hashes: vec![51],
        medium: medium(Some("GPU")),
        group_idx: Some(0),
        locality: Some(Locality::Local),
        ownership: EventOwnership::Framework,
    });
    let mut resolver = EvidenceHashResolver::new(8);

    resolve_with(&mut resolver, &gpu).unwrap();
    resolve_with(&mut resolver, &remove).unwrap();
    assert!(resolve_with(&mut resolver, &cpu).unwrap().is_some());
}

#[test]
fn hash_mapping_collision_is_ambiguous_until_source_restart() {
    let first = resolver_store("GPU", 0, 61, vec![3; 16], 16);
    let conflicting = resolver_store("GPU", 0, 61, vec![4; 16], 16);
    let cpu = resolver_store("CPU", 0, 61, vec![], 0);
    let mut resolver = EvidenceHashResolver::new(8);

    resolve_with(&mut resolver, &first).unwrap();
    assert_eq!(
        resolve_with(&mut resolver, &conflicting),
        Err(EvidenceMutationError::AmbiguousHash)
    );
    assert_eq!(
        resolve_with(&mut resolver, &cpu),
        Err(EvidenceMutationError::AmbiguousHash)
    );

    let mut restarted_source = EvidenceHashResolver::new(8);
    assert_eq!(
        resolve_with(&mut restarted_source, &cpu),
        Err(EvidenceMutationError::UnresolvedHash)
    );
}

#[test]
fn hash_mapping_capacity_fails_closed_without_eviction() {
    let first = resolver_store("GPU", 0, 71, vec![5; 16], 16);
    let second = resolver_store("GPU", 0, 72, vec![6; 16], 16);
    let cpu_first = resolver_store("CPU", 0, 71, vec![], 0);
    let mut resolver = EvidenceHashResolver::new(1);

    resolve_with(&mut resolver, &first).unwrap();
    assert_eq!(
        resolve_with(&mut resolver, &second),
        Err(EvidenceMutationError::MappingOverflow)
    );
    assert!(resolve_with(&mut resolver, &cpu_first).unwrap().is_some());
    assert_eq!(resolver.len(), 1);
}

#[test]
fn rejected_multi_block_gpu_store_cannot_partially_seed_on_overflow() {
    let gpu = resolver_store_many("GPU", 0, &[91, 92], vec![8; 32], 16);
    let cpu_first = resolver_store("CPU", 0, 91, vec![], 0);
    let mut resolver = EvidenceHashResolver::new(1);

    assert_eq!(
        resolve_with(&mut resolver, &gpu),
        Err(EvidenceMutationError::MappingOverflow)
    );
    assert!(resolver.is_empty());
    assert_eq!(
        resolve_with(&mut resolver, &cpu_first),
        Err(EvidenceMutationError::UnresolvedHash)
    );
}

#[test]
fn rejected_multi_block_gpu_collision_quarantines_only_conflicting_hash() {
    let seed = resolver_store("GPU", 0, 102, vec![9; 16], 16);
    let conflicting = resolver_store_many("GPU", 0, &[101, 102], vec![10; 32], 16);
    let cpu_new = resolver_store("CPU", 0, 101, vec![], 0);
    let cpu_conflict = resolver_store("CPU", 0, 102, vec![], 0);
    let mut resolver = EvidenceHashResolver::new(8);

    resolve_with(&mut resolver, &seed).unwrap();
    assert_eq!(
        resolve_with(&mut resolver, &conflicting),
        Err(EvidenceMutationError::AmbiguousHash)
    );
    assert_eq!(
        resolve_with(&mut resolver, &cpu_new),
        Err(EvidenceMutationError::UnresolvedHash)
    );
    assert_eq!(
        resolve_with(&mut resolver, &cpu_conflict),
        Err(EvidenceMutationError::AmbiguousHash)
    );
}

#[test]
fn new_ambiguous_tombstone_cannot_exceed_mapping_capacity() {
    // Two different blocks under one engine hash.
    let mut tokens = vec![11; 32];
    tokens[16] = 12;
    for duplicate in [
        resolver_store_many("GPU", 0, &[111, 111], vec![11; 32], 16),
        resolver_store_many("GPU", 0, &[111, 111], tokens, 16),
    ] {
        let mut resolver = EvidenceHashResolver::new(0);

        assert_eq!(
            resolve_with(&mut resolver, &duplicate),
            Err(EvidenceMutationError::MappingOverflow)
        );
        assert!(resolver.is_empty());
    }
}

#[test]
fn cold_epoch_clear_discards_hash_mapping_generation() {
    let gpu = resolver_store("GPU", 0, 81, vec![7; 16], 16);
    let cpu = resolver_store("CPU", 0, 81, vec![], 0);
    let clear = plain(RawKvEvent::AllBlocksCleared {
        medium: medium(Some("GPU")),
        epoch_id: Some("00000000000000000000000000000001".to_string()),
        locality: None,
        ownership: EventOwnership::Framework,
    });
    let mut resolver = EvidenceHashResolver::new(8);

    resolve_with(&mut resolver, &gpu).unwrap();
    resolve_with(&mut resolver, &clear).unwrap();
    assert_eq!(
        resolve_with(&mut resolver, &cpu),
        Err(EvidenceMutationError::UnresolvedHash)
    );
}

#[test]
fn only_expected_non_main_attention_filters_preserve_publisher_telemetry() {
    assert!(filter_preserves_publisher_telemetry(
        ZmqEventFilterReason::NonMainAttentionKind
    ));

    for reason in [
        ZmqEventFilterReason::IgnoredEvent,
        ZmqEventFilterReason::NonLocalLocality,
        ZmqEventFilterReason::UnknownMedium,
        ZmqEventFilterReason::UnsupportedOwnership,
        ZmqEventFilterReason::UnknownOwnership,
        ZmqEventFilterReason::AmbiguousCacheNamespace,
        ZmqEventFilterReason::UnknownKind,
        ZmqEventFilterReason::NonMainAttentionGroup,
        ZmqEventFilterReason::UnlearnedGroupIdx,
    ] {
        assert!(!filter_preserves_publisher_telemetry(reason), "{reason:?}");
    }
}

#[test]
fn source_sequence_tracker_detects_gap_and_drops_stale_batches() {
    let mut tracker = SourceSequenceTracker::default();

    assert_eq!(
        tracker.observe(2),
        SourceSequenceObservation::Gap { missing: 2 }
    );
    assert_eq!(tracker.observe(3), SourceSequenceObservation::Contiguous);
    assert_eq!(tracker.observe(3), SourceSequenceObservation::Stale);
    assert_eq!(tracker.observe(1), SourceSequenceObservation::Stale);
    assert_eq!(
        tracker.observe(6),
        SourceSequenceObservation::Gap { missing: 2 }
    );
    assert_eq!(tracker.last, Some(6));
}

#[test]
fn the_source_sequence_starts_at_zero_and_ends_at_the_largest_cursor() {
    let mut tracker = SourceSequenceTracker::default();
    assert_eq!(tracker.observe(0), SourceSequenceObservation::Contiguous);
    assert_eq!(tracker.observe(0), SourceSequenceObservation::Stale);
    let mut last = SourceSequenceTracker {
        last: Some(u64::MAX - 1),
    };
    assert_eq!(last.observe(u64::MAX), SourceSequenceObservation::Contiguous);
    assert_eq!(last.observe(u64::MAX), SourceSequenceObservation::Contiguous);
    assert_eq!(last.observe(0), SourceSequenceObservation::Stale);
}

#[test]
fn interleaved_dp_owners_share_the_global_heartbeat_cursor() {
    let rank_zero = CacheOwner {
        worker_id: 7,
        dp_rank: 0,
    };
    let rank_one = CacheOwner {
        worker_id: 7,
        dp_rank: 1,
    };
    let mut heartbeat = EvidenceHeartbeatState::new(rank_zero);
    heartbeat.observe(rank_zero, 3);
    heartbeat.observe(rank_one, 4);

    let entries: HashSet<_> = heartbeat.entries().into_iter().collect();
    assert_eq!(
        entries,
        HashSet::from([(rank_zero, Some(4)), (rank_one, Some(4))])
    );
}

#[test]
fn evidence_preserves_filtered_group_and_defaults_missing_medium_to_gpu() {
    let event = store(None, 2, &[42], None, &[1; 8], 8);

    assert_eq!(
        cache_evidence_mutation(&event),
        Ok(Some(CacheEvidenceMutation::Store {
            tier: CacheTier::Gpu,
            group_idx: Some(2),
            parent_external_hash: None,
            blocks: vec![CacheEvidenceStoredBlock {
                external_hash: 42,
                tokens_hash: block_hash(&[1; 8]),
            }],
        }))
    );
}

#[test]
fn constituent_events_preserve_hybrid_prefix_and_duplicate_refcounts() {
    const HBF: usize = 3;
    const FULL_BLOCK_SIZE: usize = 256;
    const SWA_BLOCK_SIZE: usize = 64;
    const PROMPT_TOKENS: usize = HBF * FULL_BLOCK_SIZE;

    let original_tokens: Vec<u32> = (0..PROMPT_TOKENS as u32).collect();
    let full_event = store(
        Some("CPU"),
        0,
        &[101, 102, 103],
        None,
        &original_tokens,
        FULL_BLOCK_SIZE,
    );
    let mut store_mutations = vec![cache_evidence_mutation(&full_event).unwrap().unwrap()];

    let mut swa_external_hashes = Vec::new();
    for chunk_idx in 0..(PROMPT_TOKENS / (HBF * SWA_BLOCK_SIZE)) {
        let first_hash = 201 + chunk_idx as u64 * HBF as u64;
        let hashes: Vec<_> = (first_hash..first_hash + HBF as u64).collect();
        let token_start = chunk_idx * HBF * SWA_BLOCK_SIZE;
        let token_end = token_start + HBF * SWA_BLOCK_SIZE;
        let event = store(
            Some("CPU"),
            1,
            &hashes,
            swa_external_hashes.last().copied(),
            &original_tokens[token_start..token_end],
            SWA_BLOCK_SIZE,
        );
        store_mutations.push(cache_evidence_mutation(&event).unwrap().unwrap());
        swa_external_hashes.extend(hashes);
    }

    let CacheEvidenceMutation::Store { blocks, .. } = &store_mutations[0] else {
        panic!("constituent store must remain a store mutation");
    };
    assert_eq!(blocks.len(), HBF);

    let mut ledger = CacheEvidenceLedger::new(64);
    ledger.record_group_catalog(TEST_OWNER, CacheTier::Cpu, &[0, 1]);
    ledger.seal_physical_scope();
    let stores = CacheEvidenceBatch {
        owner: TEST_OWNER,
        source_cursor: 1,
        source_incarnation_id: None,
        heartbeat: false,
        watermark_source_cursor: None,
        telemetry_complete: true,
        mutations: store_mutations.clone(),
        barrier_id: None,
        epoch_id: None,
    };
    assert!(ledger.apply_evidence_batch(&stores));
    assert!(ledger.apply_evidence_batch(&CacheEvidenceBatch {
        source_cursor: 2,
        ..stores.clone()
    }));
    assert_eq!(ledger.stats().cpu_physical_blocks, 15);

    let mut changed_tail = original_tokens.clone();
    for token in &mut changed_tail[2 * FULL_BLOCK_SIZE..] {
        *token += 10_000;
    }
    let original_full_hashes = sequence_hashes(&original_tokens, FULL_BLOCK_SIZE as u32);
    let changed_full_hashes = sequence_hashes(&changed_tail, FULL_BLOCK_SIZE as u32);
    assert_eq!(original_full_hashes[..2], changed_full_hashes[..2]);
    assert_ne!(original_full_hashes[2], changed_full_hashes[2]);
    let full_group = CacheGroupHashSequence {
        group_idx: 0,
        kind: CacheGroupKind::FullAttention,
        block_size: FULL_BLOCK_SIZE as u32,
        sliding_window: None,
        is_eagle: false,
        alignment_tokens: FULL_BLOCK_SIZE as u32,
        sequence_hashes: changed_full_hashes,
    };
    let original_swa_hashes = sequence_hashes(&original_tokens, SWA_BLOCK_SIZE as u32);
    let changed_swa_hashes = sequence_hashes(&changed_tail, SWA_BLOCK_SIZE as u32);
    assert_eq!(original_swa_hashes[..8], changed_swa_hashes[..8]);
    assert_ne!(original_swa_hashes[8], changed_swa_hashes[8]);
    let swa_group = CacheGroupHashSequence {
        group_idx: 1,
        kind: CacheGroupKind::SlidingWindow,
        block_size: SWA_BLOCK_SIZE as u32,
        sliding_window: Some(128),
        is_eagle: false,
        alignment_tokens: FULL_BLOCK_SIZE as u32,
        sequence_hashes: changed_swa_hashes,
    };

    assert_eq!(
        ledger.resident_prefix_on(
            std::slice::from_ref(&full_group),
            PROMPT_TOKENS as u64,
            TEST_OWNER,
        ),
        KnownPrefixLength::Known(512)
    );
    assert_eq!(
        ledger.resident_prefix_on(
            std::slice::from_ref(&swa_group),
            PROMPT_TOKENS as u64,
            TEST_OWNER,
        ),
        KnownPrefixLength::Known(512)
    );
    assert_eq!(
        ledger.resident_prefix_on(
            &[full_group.clone(), swa_group.clone()],
            PROMPT_TOKENS as u64,
            TEST_OWNER,
        ),
        KnownPrefixLength::Known(512)
    );

    let mut remove_mutations = vec![CacheEvidenceMutation::Remove {
        tier: CacheTier::Cpu,
        group_idx: Some(0),
        block_hashes: vec![101, 102, 103],
    }];
    remove_mutations.extend(swa_external_hashes.chunks(HBF).map(|hashes| {
        CacheEvidenceMutation::Remove {
            tier: CacheTier::Cpu,
            group_idx: Some(1),
            block_hashes: hashes.to_vec(),
        }
    }));
    let removes = CacheEvidenceBatch {
        source_cursor: 3,
        mutations: remove_mutations,
        ..stores
    };
    assert!(ledger.apply_evidence_batch(&removes));
    assert_eq!(ledger.stats().cpu_physical_blocks, 15);
    assert_eq!(
        ledger.resident_prefix_on(
            std::slice::from_ref(&full_group),
            PROMPT_TOKENS as u64,
            TEST_OWNER,
        ),
        KnownPrefixLength::Known(512)
    );

    assert!(ledger.apply_evidence_batch(&CacheEvidenceBatch {
        source_cursor: 4,
        ..removes
    }));
    assert_eq!(ledger.stats().cpu_physical_blocks, 0);
    assert_eq!(
        ledger.resident_prefix_on(&[full_group, swa_group], PROMPT_TOKENS as u64, TEST_OWNER,),
        KnownPrefixLength::Known(0)
    );
}

#[test]
fn evidence_marks_nonlocal_and_unknown_media_incomplete() {
    let removed = |name: &str, locality: Locality| {
        plain(RawKvEvent::BlockRemoved {
            block_hashes: vec![42],
            medium: medium(Some(name)),
            group_idx: Some(0),
            locality: Some(locality),
            ownership: EventOwnership::Framework,
        })
    };
    assert_eq!(
        cache_evidence_mutation(&removed("CPU", Locality::Remote)),
        Err(EvidenceMutationError::Invalid)
    );
    assert_eq!(
        cache_evidence_mutation(&removed("FUTURE_TIER", Locality::Local)),
        Err(EvidenceMutationError::Invalid)
    );
}

#[test]
fn malformed_stores_are_invalid() {
    let mut resolver = EvidenceHashResolver::new(8);
    let mut short = resolver_store_many("GPU", 0, &[1, 2], vec![1; 32], 16);
    short.hashed.pop();
    assert_eq!(
        resolve_with(&mut resolver, &short),
        Err(EvidenceMutationError::Invalid)
    );
    let mut ungrouped = resolver_store("CPU", 0, 1, vec![], 0);
    if let RawKvEvent::BlockStored { group_idx, .. } = &mut ungrouped.event {
        *group_idx = None;
    }
    assert_eq!(
        resolve_with(&mut resolver, &ungrouped),
        Err(EvidenceMutationError::Invalid)
    );
    let disk = resolver_store("DISK", 0, 1, vec![1; 16], 16);
    assert_eq!(
        resolve_with(&mut resolver, &disk),
        Err(EvidenceMutationError::Invalid)
    );
    let mut foreign = resolver_store("GPU", 0, 1, vec![1; 16], 16);
    if let RawKvEvent::BlockStored { ownership, .. } = &mut foreign.event {
        *ownership = EventOwnership::Other;
    }
    assert_eq!(
        resolve_with(&mut resolver, &foreign),
        Err(EvidenceMutationError::Invalid)
    );
    assert_eq!(resolve_with(&mut resolver, &plain(RawKvEvent::Ignored)), Ok(None));
    assert!(resolver.is_empty());
    for (error, reason) in [
        (EvidenceMutationError::Invalid, "evidence_conversion_error"),
        (
            EvidenceMutationError::UnresolvedHash,
            "evidence_hash_unresolved",
        ),
        (
            EvidenceMutationError::AmbiguousHash,
            "evidence_hash_ambiguous",
        ),
        (
            EvidenceMutationError::MappingOverflow,
            "evidence_hash_mapping_overflow",
        ),
    ] {
        assert_eq!(error.metric_reason(), reason);
    }
}

#[test]
fn an_envelope_has_three_frames_and_an_eight_byte_cursor() {
    let frames = |cursor: Vec<u8>| vec![b"topic".to_vec(), cursor, vec![1, 2, 3]];
    let batch = decode_zmq_kv_batch(frames(vec![0, 0, 0, 0, 0, 0, 1, 2])).ok().unwrap();
    assert_eq!(batch.source_cursor, 258);
    assert_eq!(batch.payload, vec![1, 2, 3]);
    let largest = decode_zmq_kv_batch(frames(vec![255; 8])).ok().unwrap();
    assert_eq!(largest.source_cursor, u64::MAX);
    assert_eq!(
        decode_zmq_kv_batch(frames(vec![0; 7])).err(),
        Some(EnvelopeError::SequenceLength(7))
    );
    assert_eq!(
        decode_zmq_kv_batch(vec![vec![], vec![0; 8]]).err(),
        Some(EnvelopeError::FrameCount(2))
    );
}

fn source_batch(source_cursor: u64, stores: Vec<Store>) -> SourceBatch {
    let (events, hashed) = stores
        .into_iter()
        .map(|store| (store.event, store.hashed))
        .unzip();
    SourceBatch {
        source_cursor,
        dp_rank: 1,
        events,
        hashed,
        barrier_id: None,
        epoch_id: None,
    }
}

fn clear(epoch_id: Option<&str>) -> Store {
    plain(RawKvEvent::AllBlocksCleared {
        medium: medium(Some("GPU")),
        epoch_id: epoch_id.map(str::to_string),
        locality: None,
        ownership: EventOwnership::Framework,
    })
}

#[test]
fn a_source_passes_on_what_it_can_convert() {
    let mut source = EvidenceSource::new(7, 0, 70);
    let gpu = resolver_store("GPU", 0, 41, vec![1; 16], 16);
    let cpu = resolver_store("CPU", 0, 41, vec![], 0);
    let unknown = resolver_store("CPU", 0, 42, vec![], 0);

    let first = source.on_batch(source_batch(0, vec![gpu.clone(), cpu.clone()])).unwrap();
    assert_eq!(first.missing, None);
    assert!(first.issues.is_empty());
    assert!(first.batch.telemetry_complete);
    assert_eq!(first.batch.mutations.len(), 2);
    assert_eq!(first.batch.source_incarnation_id, Some(70));
    assert_eq!(first.batch.owner, CacheOwner { worker_id: 7, dp_rank: 1 });

    let second = source.on_batch(source_batch(1, vec![unknown, cpu.clone()])).unwrap();
    assert_eq!(second.issues, vec![(0, EvidenceMutationError::UnresolvedHash)]);
    assert!(!second.batch.telemetry_complete);
    assert_eq!(second.batch.mutations.len(), 1);

    // Replays teach and say nothing.
    assert!(source.on_batch(source_batch(1, vec![gpu.clone()])).is_none());

    // A gap forgets the hashes.
    let third = source.on_batch(source_batch(4, vec![cpu.clone()])).unwrap();
    assert_eq!(third.missing, Some(2));
    assert_eq!(third.issues, vec![(0, EvidenceMutationError::UnresolvedHash)]);

    // So does a batch that cannot be decoded.
    source.on_batch(source_batch(5, vec![gpu])).unwrap();
    source.decode_error();
    let last = source.on_batch(source_batch(6, vec![cpu])).unwrap();
    assert_eq!(last.issues, vec![(0, EvidenceMutationError::UnresolvedHash)]);
}

#[test]
fn epoch_clears_come_alone() {
    let mut source = EvidenceSource::new(7, 0, 70);
    let pure = source
        .on_batch(source_batch(0, vec![clear(Some("a")), clear(Some("a"))]))
        .unwrap();
    assert!(pure.batch.telemetry_complete);
    assert_eq!(pure.batch.epoch_id.as_deref(), Some("a"));
    let mixed = source
        .on_batch(source_batch(1, vec![clear(Some("a")), clear(Some("b"))]))
        .unwrap();
    assert!(!mixed.batch.telemetry_complete);
    assert_eq!(mixed.batch.epoch_id, None);
    let partial = source
        .on_batch(source_batch(2, vec![clear(None), clear(Some("a"))]))
        .unwrap();
    assert!(!partial.batch.telemetry_complete);
    assert_eq!(partial.batch.epoch_id.as_deref(), Some("a"));
    let mut given = source_batch(3, vec![clear(Some("a"))]);
    given.epoch_id = Some("z".to_string());
    given.barrier_id = Some(9);
    let given = source.on_batch(given).unwrap();
    assert_eq!(given.batch.epoch_id.as_deref(), Some("z"));
    assert_eq!(given.batch.barrier_id, Some(9));
    let plain = source.on_batch(source_batch(4, vec![clear(None)])).unwrap();
    assert!(plain.batch.telemetry_complete);
    assert_eq!(plain.batch.epoch_id, None);
}

#[test]
fn heartbeats_carry_the_source_cursor_to_every_owner() {
    let mut source = EvidenceSource::new(7, 0, 70);
    let idle = source.heartbeats();
    assert_eq!(idle.len(), 1);
    assert_eq!(idle[0].watermark_source_cursor, None);
    assert_eq!(idle[0].source_cursor, 0);
    source.on_batch(source_batch(0, vec![])).unwrap();
    source.on_batch(source_batch(1, vec![])).unwrap();
    let beats = source.heartbeats();
    assert_eq!(beats.len(), 2);
    for beat in &beats {
        assert!(beat.heartbeat && beat.telemetry_complete && beat.mutations.is_empty());
        assert_eq!(beat.watermark_source_cursor, Some(1));
        assert_eq!(beat.source_cursor, 1);
    }
}
