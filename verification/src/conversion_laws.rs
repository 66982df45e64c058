//! What becomes of an engine's events, told from the events alone.

use vstd::prelude::*;

use crate::event::{medium_tier, EventMedium, EventOwnership, Locality, RawKvEvent, StorageTier};
use crate::evidence::{
    BlockCopy, CacheEvidenceMutation, CacheEvidenceStoredBlock, CacheOwner, CacheTier,
    PhysicalCopy,
};
use crate::ledger_laws::law_remove_undoes_store;
use crate::listener::{
    change_of, conversion, convert, source_observation, EvidenceChange, SourceBatch,
    SourceSequenceObservation, SourceView,
};
use crate::model::{chain, LedgerView, StoreMutationResult};
use crate::resolver::{EvidenceHashMapping, EvidenceMutationError, HashScope, ResolverView};

verus! {

/// The event speaks of caches that its engine manages itself.
pub open spec fn speaks_of_own_caches(ownership: EventOwnership, locality: Option<Locality>)
    -> bool {
    ownership == EventOwnership::Framework && (locality is None || locality == Some(
        Locality::Local,
    ))
}

/// The medium is GPU memory: the device, or none named.
pub open spec fn is_gpu_medium(medium: EventMedium) -> bool {
    medium == EventMedium::Unspecified || medium == EventMedium::Tier(StorageTier::Device)
}

pub open spec fn is_cpu_medium(medium: EventMedium) -> bool {
    medium == EventMedium::Tier(StorageTier::HostPinned)
}

/// Evidence is kept of GPU and of pinned host memory, and of nothing else.
pub proof fn law_media_name_tiers(medium: EventMedium)
    ensures
        medium_tier(medium) == Some(CacheTier::Gpu) <==> is_gpu_medium(medium),
        medium_tier(medium) == Some(CacheTier::Cpu) <==> is_cpu_medium(medium),
{
}

/// A mutation says what it holds.
pub proof fn law_mutations_say_what_they_hold(mutation: CacheEvidenceMutation)
    ensures
        match mutation {
            CacheEvidenceMutation::Store { tier, group_idx, parent_external_hash, blocks } =>
                change_of(mutation) == (EvidenceChange::Store {
                    tier,
                    group_idx,
                    parent_external_hash,
                    blocks: blocks@,
                }),
            CacheEvidenceMutation::Remove { tier, group_idx, block_hashes } => change_of(mutation)
                == (EvidenceChange::Remove { tier, group_idx, block_hashes: block_hashes@ }),
            CacheEvidenceMutation::Clear { tier } => change_of(mutation) == (
            EvidenceChange::Clear { tier }),
        },
{
}

/// Every place that an event can be about, and every medium, is one of these.
pub(crate) proof fn lemma_cases(locality: Option<Locality>, medium: EventMedium)
    ensures
        locality is None || locality == Some(Locality::Local) || locality == Some(Locality::Remote)
            || locality == Some(Locality::Unknown),
        is_gpu_medium(medium) || is_cpu_medium(medium) || medium == EventMedium::Unrecognized
            || medium == EventMedium::Tier(StorageTier::Disk) || medium == EventMedium::Tier(
            StorageTier::External,
        ),
{
    match locality {
        Some(Locality::Local) => {},
        Some(Locality::Remote) => {},
        Some(Locality::Unknown) => {},
        None => {},
    }
    match medium {
        EventMedium::Unspecified => {},
        EventMedium::Unrecognized => {},
        EventMedium::Tier(tier) => match tier {
            StorageTier::Device => {},
            StorageTier::HostPinned => {},
            StorageTier::Disk => {},
            StorageTier::External => {},
        },
    }
}

/// A removal is passed on for the tier of its own medium, with its group and
/// its hashes; one of other caches or another medium is refused. It teaches
/// nothing.
pub proof fn law_removal_is_passed_on(
    resolver: ResolverView,
    owner: CacheOwner,
    hashed: Seq<CacheEvidenceStoredBlock>,
    block_hashes: Vec<u64>,
    medium: EventMedium,
    group_idx: Option<u32>,
    locality: Option<Locality>,
    ownership: EventOwnership,
)
    ensures
        ({
            let event = RawKvEvent::BlockRemoved {
                block_hashes,
                medium,
                group_idx,
                locality,
                ownership,
            };
            let (after, result) = conversion(resolver, event, owner, hashed);
            let own = speaks_of_own_caches(ownership, locality);
            &&& after == resolver
            &&& own && is_gpu_medium(medium) ==> result == Ok::<_, EvidenceMutationError>(
                Some(
                    EvidenceChange::Remove {
                        tier: CacheTier::Gpu,
                        group_idx,
                        block_hashes: block_hashes@,
                    },
                ),
            )
            &&& own && is_cpu_medium(medium) ==> result == Ok::<_, EvidenceMutationError>(
                Some(
                    EvidenceChange::Remove {
                        tier: CacheTier::Cpu,
                        group_idx,
                        block_hashes: block_hashes@,
                    },
                ),
            )
            &&& !own || !(is_gpu_medium(medium) || is_cpu_medium(medium)) ==> result == Err::<
                Option<EvidenceChange>,
                _,
            >(EvidenceMutationError::Invalid)
        }),
{
    lemma_cases(locality, medium);
}

/// A clear is passed on for the tier of its own medium, or for all tiers where
/// it names none. The owner's hashes are forgotten with all tiers, and in a
/// cold epoch.
pub proof fn law_clear_is_passed_on(
    resolver: ResolverView,
    owner: CacheOwner,
    hashed: Seq<CacheEvidenceStoredBlock>,
    medium: EventMedium,
    epoch_id: Option<String>,
    locality: Option<Locality>,
    ownership: EventOwnership,
    key: HashScope,
)
    ensures
        ({
            let event = RawKvEvent::AllBlocksCleared { medium, epoch_id, locality, ownership };
            let (after, result) = conversion(resolver, event, owner, hashed);
            let own = speaks_of_own_caches(ownership, locality);
            let forgets = own && (medium == EventMedium::Unspecified || epoch_id is Some);
            &&& own && medium == EventMedium::Unspecified ==> result == Ok::<
                _,
                EvidenceMutationError,
            >(Some(EvidenceChange::Clear { tier: None }))
            &&& own && medium == EventMedium::Tier(StorageTier::Device) ==> result == Ok::<
                _,
                EvidenceMutationError,
            >(Some(EvidenceChange::Clear { tier: Some(CacheTier::Gpu) }))
            &&& own && is_cpu_medium(medium) ==> result == Ok::<_, EvidenceMutationError>(
                Some(EvidenceChange::Clear { tier: Some(CacheTier::Cpu) }),
            )
            &&& !own || !(is_gpu_medium(medium) || is_cpu_medium(medium)) ==> result == Err::<
                Option<EvidenceChange>,
                _,
            >(EvidenceMutationError::Invalid)
            &&& after.capacity == resolver.capacity
            &&& after.mappings.contains_key(key) <==> resolver.mappings.contains_key(key) && !(
            forgets && key.owner == owner)
            &&& after.mappings.contains_key(key) ==> after.mappings[key] == resolver.mappings[key]
        }),
{
    lemma_cases(locality, medium);
}

/// What stands for the engine hash is not what the block says.
pub open spec fn stands_for_another(
    resolver: ResolverView,
    owner: CacheOwner,
    group: u32,
    block: CacheEvidenceStoredBlock,
) -> bool {
    let key = HashScope { owner, group, external_hash: block.external_hash };
    resolver.mappings.contains_key(key) && resolver.mappings[key] != EvidenceHashMapping::Known(
        block,
    )
}

/// No engine hash of the blocks has two meanings, here or by what is known.
pub open spec fn unequivocal(
    resolver: ResolverView,
    owner: CacheOwner,
    group: u32,
    blocks: Seq<CacheEvidenceStoredBlock>,
) -> bool {
    &&& forall|i: int|
        0 <= i < blocks.len() ==> !stands_for_another(resolver, owner, group, #[trigger] blocks[i])
    &&& forall|i: int, j: int|
        0 <= i < blocks.len() && 0 <= j < blocks.len() && (#[trigger] blocks[i]).external_hash == (
        #[trigger] blocks[j]).external_hash ==> blocks[i] == blocks[j]
}

/// A store with tokens is passed on for the tier of its own medium, with its
/// group, its parent and the blocks of its tokens, one per engine hash. On GPU
/// it is held back only where some hash would have two meanings or there is no
/// room to remember them.
pub proof fn law_store_is_passed_on(
    resolver: ResolverView,
    owner: CacheOwner,
    hashed: Seq<CacheEvidenceStoredBlock>,
    block_hashes: Vec<u64>,
    parent_block_hash: Option<u64>,
    token_count: usize,
    block_size: usize,
    medium: EventMedium,
    group_idx: Option<u32>,
    locality: Option<Locality>,
    ownership: EventOwnership,
)
    requires
        token_count > 0 || block_size > 0 || is_gpu_medium(medium),
    ensures
        ({
            let event = RawKvEvent::BlockStored {
                block_hashes,
                parent_block_hash,
                token_count,
                block_size,
                medium,
                group_idx,
                locality,
                ownership,
            };
            let (after, result) = conversion(resolver, event, owner, hashed);
            let sound = speaks_of_own_caches(ownership, locality) && block_size <= u32::MAX
                && hashed.len() == block_hashes@.len();
            let learns = is_gpu_medium(medium) && group_idx is Some;
            &&& !sound || !(is_gpu_medium(medium) || is_cpu_medium(medium)) ==> after == resolver
                && result == Err::<Option<EvidenceChange>, _>(EvidenceMutationError::Invalid)
            &&& sound && is_cpu_medium(medium) ==> after == resolver && result == Ok::<
                _,
                EvidenceMutationError,
            >(
                Some(
                    EvidenceChange::Store {
                        tier: CacheTier::Cpu,
                        group_idx,
                        parent_external_hash: parent_block_hash,
                        blocks: hashed,
                    },
                ),
            )
            &&& sound && is_gpu_medium(medium) ==> {
                &&& result is Ok ==> result == Ok::<_, EvidenceMutationError>(
                    Some(
                        EvidenceChange::Store {
                            tier: CacheTier::Gpu,
                            group_idx,
                            parent_external_hash: parent_block_hash,
                            blocks: hashed,
                        },
                    ),
                )
                &&& !learns ==> result is Ok && after == resolver
                &&& learns && !unequivocal(resolver, owner, group_idx->0, hashed) ==> result is Err
                &&& learns && unequivocal(resolver, owner, group_idx->0, hashed)
                    && resolver.mappings.dom().finite() && resolver.mappings.dom().len()
                    + hashed.len() <= resolver.capacity ==> result is Ok
            }
        }),
{
    lemma_cases(locality, medium);
    if is_gpu_medium(medium) && group_idx is Some {
        lemma_learning(resolver, owner, group_idx->0, hashed);
    }
}

/// Blocks are learned if they are unequivocal and there is room for them.
proof fn lemma_learning(
    resolver: ResolverView,
    owner: CacheOwner,
    group: u32,
    blocks: Seq<CacheEvidenceStoredBlock>,
)
    ensures
        !unequivocal(resolver, owner, group, blocks) ==> resolver.learn_gpu(
            owner,
            group,
            blocks,
        ).1 is Err,
        unequivocal(resolver, owner, group, blocks) && resolver.mappings.dom().len() + blocks.len()
            <= resolver.capacity ==> resolver.learn_gpu(owner, group, blocks).1 is Ok,
{
    let ambiguous = resolver.ambiguous_hashes(owner, group, blocks);
    if !unequivocal(resolver, owner, group, blocks) {
        if exists|i: int|
            0 <= i < blocks.len() && stands_for_another(
                resolver,
                owner,
                group,
                #[trigger] blocks[i],
            ) {
            let i = choose|i: int|
                0 <= i < blocks.len() && stands_for_another(
                    resolver,
                    owner,
                    group,
                    #[trigger] blocks[i],
                );
            assert(resolver.refutes(owner, group, blocks, blocks[i].external_hash));
            assert(ambiguous.contains(blocks[i].external_hash));
        } else {
            let (i, j) = choose|i: int, j: int|
                0 <= i < blocks.len() && 0 <= j < blocks.len() && (
                #[trigger] blocks[i]).external_hash == (#[trigger] blocks[j]).external_hash
                    && blocks[i] != blocks[j];
            assert(crate::resolver::contradicts(blocks, blocks[i].external_hash));
            assert(ambiguous.contains(blocks[i].external_hash));
        }
        assert(ambiguous != Set::<u64>::empty());
    } else {
        assert(ambiguous =~= Set::<u64>::empty()) by {
            assert forall|hash: u64| !ambiguous.contains(hash) by {
                if resolver.refutes(owner, group, blocks, hash) {
                    let i = choose|i: int|
                        0 <= i < blocks.len() && (#[trigger] blocks[i]).external_hash == hash
                            && resolver.mappings[crate::resolver::scope(owner, group, hash)]
                            != EvidenceHashMapping::Known(blocks[i]);
                    assert(stands_for_another(resolver, owner, group, blocks[i]));
                }
            }
        }
        let named = ResolverView::named_hashes(blocks);
        let hashes = Seq::new(blocks.len(), |i: int| blocks[i].external_hash);
        let new = named.filter(|hash: u64| resolver.is_new(owner, group, hash));
        assert(new.subset_of(hashes.to_set())) by {
            assert forall|hash: u64| new.contains(hash) implies hashes.to_set().contains(hash) by {
                let i = choose|i: int|
                    0 <= i < blocks.len() && (#[trigger] blocks[i]).external_hash == hash;
                assert(hashes[i] == hash);
            }
        }
        hashes.lemma_cardinality_of_set();
        vstd::seq_lib::seq_to_set_is_finite(hashes);
        vstd::set_lib::lemma_len_subset(new, hashes.to_set());
    }
}

/// A store on CPU that comes without tokens stands for the blocks that the
/// same owner stored under the same hashes of the same group, in its order;
/// it is held back if any of them is unknown or has two meanings.
pub proof fn law_hash_only_store_is_resolved(
    resolver: ResolverView,
    owner: CacheOwner,
    hashed: Seq<CacheEvidenceStoredBlock>,
    block_hashes: Vec<u64>,
    parent_block_hash: Option<u64>,
    group: u32,
    locality: Option<Locality>,
    ownership: EventOwnership,
    blocks: Seq<CacheEvidenceStoredBlock>,
)
    requires
        speaks_of_own_caches(ownership, locality),
        blocks.len() == block_hashes@.len(),
    ensures
        ({
            let event = RawKvEvent::BlockStored {
                block_hashes,
                parent_block_hash,
                token_count: 0,
                block_size: 0,
                medium: EventMedium::Tier(StorageTier::HostPinned),
                group_idx: Some(group),
                locality,
                ownership,
            };
            let (after, result) = conversion(resolver, event, owner, hashed);
            &&& after == resolver
            &&& (forall|i: int|
                0 <= i < blocks.len() ==> is_known_as(
                    resolver,
                    owner,
                    group,
                    block_hashes@[i],
                    #[trigger] blocks[i],
                )) ==> result == Ok::<_, EvidenceMutationError>(
                Some(
                    EvidenceChange::Store {
                        tier: CacheTier::Cpu,
                        group_idx: Some(group),
                        parent_external_hash: parent_block_hash,
                        blocks,
                    },
                ),
            )
            &&& (exists|i: int|
                0 <= i < blocks.len() && !is_known(
                    resolver,
                    owner,
                    group,
                    #[trigger] block_hashes@[i],
                )) ==> result is Err
        }),
{
    let hashes = block_hashes@;
    if forall|i: int|
        0 <= i < blocks.len() ==> is_known_as(
            resolver,
            owner,
            group,
            hashes[i],
            #[trigger] blocks[i],
        ) {
        lemma_no_unknown(resolver, owner, group, hashes, blocks, 0);
        assert(resolver.resolve_cpu(owner, group, hashes)->Ok_0 =~= blocks) by {
            assert forall|i: int| 0 <= i < blocks.len() implies resolver.block_of(
                owner,
                group,
                hashes[i],
            ) == blocks[i] by {
                assert(is_known_as(resolver, owner, group, hashes[i], blocks[i]));
            }
        }
    }
    if exists|i: int|
        0 <= i < blocks.len() && !is_known(resolver, owner, group, #[trigger] hashes[i]) {
        let i = choose|i: int|
            0 <= i < blocks.len() && !is_known(resolver, owner, group, #[trigger] hashes[i]);
        lemma_unknown_is_an_error(resolver, owner, group, hashes, 0, i);
    }
}

pub open spec fn is_known_as(
    resolver: ResolverView,
    owner: CacheOwner,
    group: u32,
    external_hash: u64,
    block: CacheEvidenceStoredBlock,
) -> bool {
    let key = HashScope { owner, group, external_hash };
    resolver.mappings.contains_key(key) && resolver.mappings[key] == EvidenceHashMapping::Known(
        block,
    )
}

pub open spec fn is_known(
    resolver: ResolverView,
    owner: CacheOwner,
    group: u32,
    external_hash: u64,
) -> bool {
    let key = HashScope { owner, group, external_hash };
    resolver.mappings.contains_key(key) && resolver.mappings[key] is Known
}

proof fn lemma_no_unknown(
    resolver: ResolverView,
    owner: CacheOwner,
    group: u32,
    hashes: Seq<u64>,
    blocks: Seq<CacheEvidenceStoredBlock>,
    from: int,
)
    requires
        0 <= from <= hashes.len() == blocks.len(),
        forall|i: int|
            0 <= i < blocks.len() ==> is_known_as(
                resolver,
                owner,
                group,
                hashes[i],
                #[trigger] blocks[i],
            ),
    ensures
        resolver.first_error(owner, group, hashes, from) is None,
    decreases hashes.len() - from,
{
    if from < hashes.len() {
        assert(is_known_as(resolver, owner, group, hashes[from], blocks[from]));
        lemma_no_unknown(resolver, owner, group, hashes, blocks, from + 1);
    }
}

proof fn lemma_unknown_is_an_error(
    resolver: ResolverView,
    owner: CacheOwner,
    group: u32,
    hashes: Seq<u64>,
    from: int,
    i: int,
)
    requires
        0 <= from <= i < hashes.len(),
        !is_known(resolver, owner, group, hashes[i]),
    ensures
        resolver.first_error(owner, group, hashes, from) is Some,
    decreases i - from,
{
    if from < i {
        lemma_unknown_is_an_error(resolver, owner, group, hashes, from + 1, i);
    }
}

/// A store of one block, and then its removal from the same medium and group,
/// leave every copy as it was.
pub proof fn law_removal_takes_back_the_store(
    ledger: LedgerView,
    resolver: ResolverView,
    later: ResolverView,
    owner: CacheOwner,
    block: CacheEvidenceStoredBlock,
    block_hashes: Vec<u64>,
    token_count: usize,
    block_size: usize,
    medium: EventMedium,
    group: u32,
)
    requires
        ledger.inv(),
        block_hashes@ == seq![block.external_hash],
        token_count > 0 || block_size > 0,
        is_gpu_medium(medium) || is_cpu_medium(medium),
        ({
            let tier = if is_gpu_medium(medium) {
                CacheTier::Gpu
            } else {
                CacheTier::Cpu
            };
            let copy = PhysicalCopy { owner, tier, group };
            let stored = BlockCopy { hash: block.tokens_hash, copy };
            let external = BlockCopy { hash: block.external_hash, copy };
            &&& !ledger.external_copies.contains_key(external)
            &&& ledger.copies.contains_key(stored) ==> ledger.copies[stored] < u32::MAX
        }),
    ensures
        ({
            let store = RawKvEvent::BlockStored {
                block_hashes,
                parent_block_hash: None,
                token_count,
                block_size,
                medium,
                group_idx: Some(group),
                locality: None,
                ownership: EventOwnership::Framework,
            };
            let remove = RawKvEvent::BlockRemoved {
                block_hashes,
                medium,
                group_idx: Some(group),
                locality: None,
                ownership: EventOwnership::Framework,
            };
            let added = conversion(resolver, store, owner, seq![block]).1;
            let taken = conversion(later, remove, owner, Seq::empty()).1;
            match (added, taken) {
                (
                    Ok(Some(EvidenceChange::Store { tier, group_idx, parent_external_hash, blocks })),
                    Ok(
                        Some(
                            EvidenceChange::Remove {
                                tier: from,
                                group_idx: Some(group),
                                block_hashes: hashes,
                            },
                        ),
                    ),
                ) => {
                    let (result, after) = ledger.store_mutation(
                        owner,
                        tier,
                        group_idx,
                        parent_external_hash,
                        blocks,
                    );
                    &&& result == StoreMutationResult::Applied
                    &&& after.copies != ledger.copies
                    &&& after.remove_all(owner, from, group, hashes).copies == ledger.copies
                    &&& after.remove_all(owner, from, group, hashes).external_copies
                        == ledger.external_copies
                },
                (_, taken) => added is Err && taken is Ok,
            }
        }),
{
    let tier = if is_gpu_medium(medium) {
        CacheTier::Gpu
    } else {
        CacheTier::Cpu
    };
    let blocks = seq![block];
    let hashes = chain(None, blocks);
    reveal_with_fuel(chain, 2);
    assert(blocks.drop_last() =~= Seq::<CacheEvidenceStoredBlock>::empty());
    assert(hashes =~= seq![block.tokens_hash]);
    let seen = ledger.see_all(hashes);
    reveal_with_fuel(LedgerView::see_all, 2);
    assert(hashes.drop_last() =~= Seq::<u64>::empty());
    assert(seen.inv()) by {
        assert(seen == ledger.see(block.tokens_hash));
    }
    assert forall|i: int| !(#[trigger] ledger.block_conflicts(
        owner,
        tier,
        group,
        blocks,
        hashes,
        i,
    )) by {}
    assert(!ledger.store_conflicts(owner, tier, group, blocks, hashes));
    reveal_with_fuel(LedgerView::store_each, 2);
    let after = seen.store_mapped(owner, tier, group, block.external_hash, block.tokens_hash);
    assert(ledger.store_mutation(owner, tier, Some(group), None, blocks) == (
        StoreMutationResult::Applied,
        after,
    ));
    law_remove_undoes_store(
        seen,
        owner,
        tier,
        group,
        block.external_hash,
        block.tokens_hash,
    );
    reveal_with_fuel(LedgerView::remove_all, 2);
    assert(block_hashes@.drop_last() =~= Seq::<u64>::empty());
    assert(after.remove_all(owner, tier, group, block_hashes@) == after.remove_external(
        owner,
        tier,
        group,
        block.external_hash,
    ));
    let stored = BlockCopy {
        hash: block.tokens_hash,
        copy: PhysicalCopy { owner, tier, group },
    };
    assert(after.copies.contains_key(stored));
    assert(ledger.copies.contains_key(stored) ==> after.copies[stored] == ledger.copies[stored]
        + 1);
}

/// Every event of a batch leaves its trace where it stands in the batch: what
/// it comes to follows what came of the events before it, and an event that
/// cannot be converted is reported under its own position.
pub proof fn law_batch_is_converted_in_order(
    resolver: ResolverView,
    events: Seq<RawKvEvent>,
    hashed: Seq<Vec<CacheEvidenceStoredBlock>>,
    owner: CacheOwner,
    count: int,
    i: int,
)
    requires
        0 <= i < count <= usize::MAX,
    ensures
        ({
            let before = convert(resolver, events, hashed, owner, i);
            let next = convert(resolver, events, hashed, owner, i + 1);
            let end = convert(resolver, events, hashed, owner, count);
            let (after, result) = conversion(before.resolver, events[i], owner, hashed[i]@);
            &&& next.resolver == after
            &&& match result {
                Ok(None) => next.changes == before.changes && next.issues == before.issues,
                Ok(Some(change)) => end.changes.len() > before.changes.len()
                    && end.changes[before.changes.len() as int] == change && next.changes.len()
                    == before.changes.len() + 1 && next.issues == before.issues,
                Err(error) => end.issues.len() > before.issues.len()
                    && end.issues[before.issues.len() as int] == (i as usize, error)
                    && next.issues.len() == before.issues.len() + 1 && next.changes
                    == before.changes,
            }
        }),
        convert(resolver, events, hashed, owner, 0).resolver == resolver,
        convert(resolver, events, hashed, owner, 0).changes.len() == 0,
        convert(resolver, events, hashed, owner, 0).issues.len() == 0,
{
    lemma_converted_stays(resolver, events, hashed, owner, i + 1, count);
    let next = convert(resolver, events, hashed, owner, i + 1);
    let end = convert(resolver, events, hashed, owner, count);
    assert(next.changes =~= end.changes.take(next.changes.len() as int));
    assert(next.issues =~= end.issues.take(next.issues.len() as int));
    if next.changes.len() > 0 {
        assert(end.changes[next.changes.len() - 1] == next.changes.last());
    }
    if next.issues.len() > 0 {
        assert(end.issues[next.issues.len() - 1] == next.issues.last());
    }
}

proof fn lemma_converted_stays(
    resolver: ResolverView,
    events: Seq<RawKvEvent>,
    hashed: Seq<Vec<CacheEvidenceStoredBlock>>,
    owner: CacheOwner,
    from: int,
    count: int,
)
    requires
        0 <= from <= count,
    ensures
        convert(resolver, events, hashed, owner, from).changes.is_prefix_of(
            convert(resolver, events, hashed, owner, count).changes,
        ),
        convert(resolver, events, hashed, owner, from).issues.is_prefix_of(
            convert(resolver, events, hashed, owner, count).issues,
        ),
    decreases count - from,
{
    if from < count {
        lemma_converted_stays(resolver, events, hashed, owner, from, count - 1);
    }
}

/// A source takes a batch in unless it has seen the cursor, moves on to it, and
/// keeps a watermark for the batch's owner. Cursors in between are missing.
pub proof fn law_source_moves_on(source: SourceView, batch: SourceBatch)
    requires
        source.last is Some ==> source.last->0 < u64::MAX,
    ensures
        ({
            let after = source.on_batch(batch);
            let seen = source_observation(source.last, batch.source_cursor);
            let next: int = match source.last {
                Some(last) => last + 1,
                None => 0,
            };
            &&& seen == SourceSequenceObservation::Contiguous <==> batch.source_cursor == next
            &&& seen == SourceSequenceObservation::Stale <==> batch.source_cursor < next
            &&& batch.source_cursor > next ==> seen == (SourceSequenceObservation::Gap {
                missing: (batch.source_cursor - next) as u64,
            })
            &&& batch.source_cursor < next ==> after == source
            &&& batch.source_cursor >= next ==> {
                &&& after.last == Some(batch.source_cursor)
                &&& after.cursor == Some(batch.source_cursor)
                &&& after.worker_id == source.worker_id
                &&& after.incarnation_id == source.incarnation_id
                &&& forall|o: CacheOwner| #[trigger]
                    after.owners.contains(o) <==> source.owners.contains(o) || o == (CacheOwner {
                        worker_id: source.worker_id,
                        dp_rank: batch.dp_rank,
                    })
            }
            &&& batch.events@.len() == 0 && batch.source_cursor == next ==> after.resolver
                == source.resolver
            &&& batch.events@.len() == 0 && batch.source_cursor > next ==> after.resolver.mappings
                == Map::<HashScope, EvidenceHashMapping>::empty()
        }),
{
}

} // verus!
