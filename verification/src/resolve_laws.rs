//! What engine hashes stand for, told from the stores that named them.

use vstd::prelude::*;

use crate::conversion_laws::{is_cpu_medium, is_gpu_medium, speaks_of_own_caches};
use crate::event::{EventMedium, RawKvEvent};
use crate::evidence::{CacheEvidenceStoredBlock, CacheOwner, CacheTier};
use crate::model::LedgerView;
use crate::resolver::{
    last_named, EvidenceHashMapping, EvidenceMutationError, HashScope, ResolverView,
};

verus! {

pub open spec fn key_of(owner: CacheOwner, group: u32, external_hash: u64) -> HashScope {
    HashScope { owner, group, external_hash }
}

/// Two of the blocks have the engine hash and differ, or one of them differs
/// from what the hash stood for.
pub open spec fn is_disputed(
    state: ResolverView,
    owner: CacheOwner,
    group: u32,
    blocks: Seq<CacheEvidenceStoredBlock>,
    external_hash: u64,
) -> bool {
    let key = key_of(owner, group, external_hash);
    ||| exists|i: int, j: int|
        0 <= i < blocks.len() && 0 <= j < blocks.len() && (#[trigger] blocks[i]).external_hash
            == external_hash && (#[trigger] blocks[j]).external_hash == external_hash && blocks[i]
            != blocks[j]
    ||| state.mappings.contains_key(key) && exists|i: int|
        0 <= i < blocks.len() && (#[trigger] blocks[i]).external_hash == external_hash
            && state.mappings[key] != EvidenceHashMapping::Known(blocks[i])
}

pub open spec fn some_disputed(
    state: ResolverView,
    owner: CacheOwner,
    group: u32,
    blocks: Seq<CacheEvidenceStoredBlock>,
) -> bool {
    exists|external_hash: u64| #[trigger]
        is_disputed(state, owner, group, blocks, external_hash)
}

/// The store has the engine hash, which stood for nothing before.
pub open spec fn is_unheard(
    state: ResolverView,
    owner: CacheOwner,
    group: u32,
    blocks: Seq<CacheEvidenceStoredBlock>,
    external_hash: u64,
) -> bool {
    &&& !state.mappings.contains_key(key_of(owner, group, external_hash))
    &&& exists|i: int|
        0 <= i < blocks.len() && (#[trigger] blocks[i]).external_hash == external_hash
}

pub open spec fn unheard(
    state: ResolverView,
    owner: CacheOwner,
    group: u32,
    blocks: Seq<CacheEvidenceStoredBlock>,
) -> Set<u64> {
    Set::new(|external_hash: u64| is_unheard(state, owner, group, blocks, external_hash))
}

/// The disputed engine hashes that stood for nothing before.
pub open spec fn unheard_disputed(
    state: ResolverView,
    owner: CacheOwner,
    group: u32,
    blocks: Seq<CacheEvidenceStoredBlock>,
) -> Set<u64> {
    Set::new(
        |external_hash: u64|
            is_unheard(state, owner, group, blocks, external_hash) && is_disputed(
                state,
                owner,
                group,
                blocks,
                external_hash,
            ),
    )
}

/// A store is learned if no engine hash is disputed and all of them fit. Each
/// of its hashes then stands for its block, and every other hash for what it
/// stood for.
pub proof fn law_store_is_learned_unless_disputed(
    state: ResolverView,
    owner: CacheOwner,
    group: u32,
    blocks: Seq<CacheEvidenceStoredBlock>,
    i: int,
    key: HashScope,
)
    ensures
        ({
            let (after, result) = state.learn_gpu(owner, group, blocks);
            let disputed = some_disputed(state, owner, group, blocks);
            &&& result is Ok <==> !disputed && state.mappings.dom().len() + unheard(
                state,
                owner,
                group,
                blocks,
            ).len() <= state.capacity
            &&& !disputed && result is Err ==> result
                == Err::<(), _>(EvidenceMutationError::MappingOverflow) && after == state
            &&& result is Ok && 0 <= i < blocks.len() ==> {
                let learned = key_of(owner, group, blocks[i].external_hash);
                &&& after.mappings.contains_key(learned)
                &&& after.mappings[learned] == EvidenceHashMapping::Known(blocks[i])
            }
            &&& result is Ok && state.mappings.contains_key(key) ==> after.mappings.contains_key(
                key,
            ) && after.mappings[key] == state.mappings[key]
            &&& result is Ok && !state.mappings.contains_key(key) && after.mappings.contains_key(
                key,
            ) ==> key.owner == owner && key.group == group && exists|j: int|
                0 <= j < blocks.len() && (#[trigger] blocks[j]).external_hash == key.external_hash
            &&& after.capacity == state.capacity
        }),
{
    lemma_disputed(state, owner, group, blocks);
    assert(ResolverView::named_hashes(blocks).filter(
        |external_hash: u64| state.is_new(owner, group, external_hash),
    ) =~= unheard(state, owner, group, blocks));
    if state.learn_gpu(owner, group, blocks).1 is Ok && 0 <= i < blocks.len() {
        let hash = blocks[i].external_hash;
        assert(crate::resolver::names(blocks, hash));
        lemma_last(blocks, hash);
        let j = choose|j: int|
            0 <= j < blocks.len() && (#[trigger] blocks[j]).external_hash == hash && blocks[j]
                == last_named(blocks, hash);
        assert(!is_disputed(state, owner, group, blocks, hash));
        assert(blocks[i] == blocks[j]);
    }
}

/// A disputed store is refused. The disputed hashes are ambiguous from then on,
/// if they fit; if they do not, at least those that stood for something are.
/// No other hash changes.
pub proof fn law_disputed_hashes_become_ambiguous(
    state: ResolverView,
    owner: CacheOwner,
    group: u32,
    blocks: Seq<CacheEvidenceStoredBlock>,
    key: HashScope,
)
    requires
        some_disputed(state, owner, group, blocks),
    ensures
        ({
            let (after, result) = state.learn_gpu(owner, group, blocks);
            let marked = key.owner == owner && key.group == group && is_disputed(
                state,
                owner,
                group,
                blocks,
                key.external_hash,
            );
            &&& result == Err::<(), _>(
                if state.mappings.dom().len() + unheard_disputed(state, owner, group, blocks).len()
                    <= state.capacity {
                    EvidenceMutationError::AmbiguousHash
                } else {
                    EvidenceMutationError::MappingOverflow
                },
            )
            &&& marked && (state.mappings.contains_key(key) || result
                == Err::<(), _>(EvidenceMutationError::AmbiguousHash))
                ==> after.mappings.contains_key(key) && after.mappings[key]
                == EvidenceHashMapping::Ambiguous
            &&& !marked ==> (after.mappings.contains_key(key) <==> state.mappings.contains_key(key))
                && (state.mappings.contains_key(key) ==> after.mappings[key]
                == state.mappings[key])
            &&& result == Err::<(), _>(EvidenceMutationError::MappingOverflow) && marked
                && !state.mappings.contains_key(key) ==> !after.mappings.contains_key(key)
        }),
{
    lemma_disputed(state, owner, group, blocks);
    let set = state.ambiguous_hashes(owner, group, blocks);
    assert forall|hash: u64|
        set.filter(|external_hash: u64| state.is_new(owner, group, external_hash)).contains(hash)
            == unheard_disputed(state, owner, group, blocks).contains(hash) by {
        assert(set.contains(hash) == is_disputed(state, owner, group, blocks, hash));
        if is_disputed(state, owner, group, blocks, hash) {
            let i = choose|i: int|
                0 <= i < blocks.len() && (#[trigger] blocks[i]).external_hash == hash;
            assert(blocks[i].external_hash == hash);
        }
    }
    assert(set.filter(|external_hash: u64| state.is_new(owner, group, external_hash))
        =~= unheard_disputed(state, owner, group, blocks));
}

proof fn lemma_disputed(
    state: ResolverView,
    owner: CacheOwner,
    group: u32,
    blocks: Seq<CacheEvidenceStoredBlock>,
)
    ensures
        forall|hash: u64| #[trigger]
            state.ambiguous_hashes(owner, group, blocks).contains(hash) == is_disputed(
                state,
                owner,
                group,
                blocks,
                hash,
            ),
        state.ambiguous_hashes(owner, group, blocks) != Set::<u64>::empty() <==> some_disputed(
            state,
            owner,
            group,
            blocks,
        ),
{
    let set = state.ambiguous_hashes(owner, group, blocks);
    assert forall|hash: u64| #[trigger] set.contains(hash) == is_disputed(
        state,
        owner,
        group,
        blocks,
        hash,
    ) by {
        let key = key_of(owner, group, hash);
        assert(key == crate::resolver::scope(owner, group, hash));
        if state.refutes(owner, group, blocks, hash) {
            let i = choose|i: int|
                0 <= i < blocks.len() && (#[trigger] blocks[i]).external_hash == hash
                    && state.mappings.contains_key(key) && state.mappings[key]
                    != EvidenceHashMapping::Known(blocks[i]);
            assert(blocks[i].external_hash == hash);
        }
        if is_disputed(state, owner, group, blocks, hash) && !crate::resolver::contradicts(
            blocks,
            hash,
        ) {
            let i = choose|i: int|
                0 <= i < blocks.len() && (#[trigger] blocks[i]).external_hash == hash
                    && state.mappings[key] != EvidenceHashMapping::Known(blocks[i]);
            assert(blocks[i].external_hash == hash);
        }
    }
    if some_disputed(state, owner, group, blocks) {
        let hash = choose|hash: u64| #[trigger]
            is_disputed(state, owner, group, blocks, hash);
        assert(set.contains(hash));
    } else {
        assert(set =~= Set::<u64>::empty()) by {
            assert forall|hash: u64| !set.contains(hash) by {
                assert(!is_disputed(state, owner, group, blocks, hash));
            }
        }
    }
}

proof fn lemma_last(blocks: Seq<CacheEvidenceStoredBlock>, hash: u64)
    requires
        crate::resolver::names(blocks, hash),
    ensures
        exists|j: int|
            0 <= j < blocks.len() && (#[trigger] blocks[j]).external_hash == hash && blocks[j]
                == last_named(blocks, hash),
    decreases blocks.len(),
{
    let front = blocks.drop_last();
    if blocks.last().external_hash == hash {
        assert(blocks[blocks.len() - 1] == last_named(blocks, hash));
    } else {
        let i = choose|i: int|
            0 <= i < blocks.len() && (#[trigger] blocks[i]).external_hash == hash;
        assert(front[i].external_hash == hash);
        lemma_last(front, hash);
        let j = choose|j: int|
            0 <= j < front.len() && (#[trigger] front[j]).external_hash == hash && front[j]
                == last_named(front, hash);
        assert(blocks[j] == front[j]);
    }
}

/// The engine hash stands for exactly one block.
pub open spec fn is_known(
    state: ResolverView,
    owner: CacheOwner,
    group: u32,
    external_hash: u64,
) -> bool {
    let key = key_of(owner, group, external_hash);
    state.mappings.contains_key(key) && state.mappings[key] is Known
}

/// Engine hashes are resolved if each stands for one block, to these blocks in
/// order. Otherwise the first that does not tells why: it is unknown, or
/// ambiguous.
pub proof fn law_hashes_resolve_to_their_blocks(
    state: ResolverView,
    owner: CacheOwner,
    group: u32,
    hashes: Seq<u64>,
    i: int,
)
    ensures
        ({
            let resolved = state.resolve_cpu(owner, group, hashes);
            &&& resolved is Ok <==> forall|j: int|
                0 <= j < hashes.len() ==> is_known(state, owner, group, #[trigger] hashes[j])
            &&& resolved is Ok ==> resolved->Ok_0.len() == hashes.len()
            &&& resolved is Ok && 0 <= i < hashes.len() ==> state.mappings[key_of(
                owner,
                group,
                hashes[i],
            )] == EvidenceHashMapping::Known(resolved->Ok_0[i])
            &&& 0 <= i < hashes.len() && !is_known(state, owner, group, hashes[i]) && (forall|
                j: int,
            |
                0 <= j < i ==> is_known(state, owner, group, #[trigger] hashes[j])) ==> resolved
                == Err::<Seq<CacheEvidenceStoredBlock>, _>(
                if state.mappings.contains_key(key_of(owner, group, hashes[i])) {
                    EvidenceMutationError::AmbiguousHash
                } else {
                    EvidenceMutationError::UnresolvedHash
                },
            )
        }),
{
    lemma_first_error(state, owner, group, hashes, 0);
    if 0 <= i < hashes.len() && !is_known(state, owner, group, hashes[i]) && (forall|j: int|
        0 <= j < i ==> is_known(state, owner, group, #[trigger] hashes[j])) {
        lemma_skips_known(state, owner, group, hashes, 0, i);
    }
    if state.resolve_cpu(owner, group, hashes) is Ok && 0 <= i < hashes.len() {
        assert(is_known(state, owner, group, hashes[i]));
    }
}

proof fn lemma_first_error(
    state: ResolverView,
    owner: CacheOwner,
    group: u32,
    hashes: Seq<u64>,
    from: int,
)
    requires
        0 <= from <= hashes.len(),
    ensures
        state.first_error(owner, group, hashes, from) is None <==> forall|j: int|
            from <= j < hashes.len() ==> is_known(state, owner, group, #[trigger] hashes[j]),
    decreases hashes.len() - from,
{
    if from < hashes.len() {
        lemma_first_error(state, owner, group, hashes, from + 1);
        assert(state.hash_error(owner, group, hashes[from]) is None <==> is_known(
            state,
            owner,
            group,
            hashes[from],
        ));
    }
}

proof fn lemma_skips_known(
    state: ResolverView,
    owner: CacheOwner,
    group: u32,
    hashes: Seq<u64>,
    from: int,
    to: int,
)
    requires
        0 <= from <= to < hashes.len(),
        forall|j: int| from <= j < to ==> is_known(state, owner, group, #[trigger] hashes[j]),
    ensures
        state.first_error(owner, group, hashes, from) == state.first_error(
            owner,
            group,
            hashes,
            to,
        ),
    decreases to - from,
{
    if from < to {
        assert(is_known(state, owner, group, hashes[from]));
        lemma_skips_known(state, owner, group, hashes, from + 1, to);
    }
}

/// Clearing forgets what all hashes stand for, or those of one owner, and no
/// other.
pub proof fn law_clearing_forgets(state: ResolverView, owner: CacheOwner, key: HashScope)
    ensures
        !state.clear().mappings.contains_key(key),
        state.clear_owner(owner).mappings.contains_key(key) <==> state.mappings.contains_key(key)
            && key.owner != owner,
        state.mappings.contains_key(key) && key.owner != owner ==> state.clear_owner(
            owner,
        ).mappings[key] == state.mappings[key],
        state.clear().capacity == state.capacity,
        state.clear_owner(owner).capacity == state.capacity,
{
}

// ---- events as they are observed ----

/// An event of the owner's own caches is observed where it says: stores and
/// removals on the tier and in the group that they name, block by block; a clear
/// on its tier, or on all of them if it names none. Of a medium that no evidence
/// is kept of, or of caches that are not the owner's own, only the certainty is
/// lost.
pub proof fn law_events_are_observed_where_they_say(
    ledger: LedgerView,
    event: RawKvEvent,
    owner: CacheOwner,
)
    ensures
        match event {
            RawKvEvent::Ignored => ledger.observe(event, owner) == ledger,
            RawKvEvent::BlockStored {
                block_hashes,
                medium,
                group_idx,
                locality,
                ownership,
                ..
            } => {
                let own = speaks_of_own_caches(ownership, locality);
                let group = if group_idx is Some {
                    group_idx->0
                } else {
                    0
                };
                let start = if group_idx is Some {
                    ledger
                } else {
                    ledger.mark_telemetry_incomplete()
                };
                &&& !own || (!is_gpu_medium(medium) && !is_cpu_medium(medium)) ==> ledger.observe(
                    event,
                    owner,
                ) == ledger.mark_telemetry_incomplete()
                &&& own && is_gpu_medium(medium) ==> ledger.observe(event, owner)
                    == start.store_hashes(owner, CacheTier::Gpu, group, block_hashes@)
                &&& own && is_cpu_medium(medium) ==> ledger.observe(event, owner)
                    == start.store_hashes(owner, CacheTier::Cpu, group, block_hashes@)
            },
            RawKvEvent::BlockRemoved { block_hashes, medium, group_idx, locality, ownership } => {
                let own = speaks_of_own_caches(ownership, locality);
                let group = if group_idx is Some {
                    group_idx->0
                } else {
                    0
                };
                let start = if group_idx is Some {
                    ledger
                } else {
                    ledger.mark_telemetry_incomplete()
                };
                &&& !own || (!is_gpu_medium(medium) && !is_cpu_medium(medium)) ==> ledger.observe(
                    event,
                    owner,
                ) == ledger.mark_telemetry_incomplete()
                &&& own && is_gpu_medium(medium) ==> ledger.observe(event, owner)
                    == start.remove_all(owner, CacheTier::Gpu, group, block_hashes@)
                &&& own && is_cpu_medium(medium) ==> ledger.observe(event, owner)
                    == start.remove_all(owner, CacheTier::Cpu, group, block_hashes@)
            },
            RawKvEvent::AllBlocksCleared { medium, locality, ownership, .. } => {
                let own = speaks_of_own_caches(ownership, locality);
                &&& !own || (!is_gpu_medium(medium) && !is_cpu_medium(medium)) ==> ledger.observe(
                    event,
                    owner,
                ) == ledger.mark_telemetry_incomplete()
                &&& own && medium == EventMedium::Unspecified ==> ledger.observe(event, owner)
                    == ledger.clear(owner, None)
                &&& own && medium != EventMedium::Unspecified && is_gpu_medium(medium)
                    ==> ledger.observe(event, owner) == ledger.clear(owner, Some(CacheTier::Gpu))
                &&& own && is_cpu_medium(medium) ==> ledger.observe(event, owner) == ledger.clear(
                    owner,
                    Some(CacheTier::Cpu),
                )
            },
        },
{
    match event {
        RawKvEvent::Ignored => {},
        RawKvEvent::BlockStored { medium, locality, .. } => {
            crate::conversion_laws::lemma_cases(locality, medium);
        },
        RawKvEvent::BlockRemoved { medium, locality, .. } => {
            crate::conversion_laws::lemma_cases(locality, medium);
        },
        RawKvEvent::AllBlocksCleared { medium, locality, .. } => {
            crate::conversion_laws::lemma_cases(locality, medium);
        },
    }
}

/// Hashes that are observed are stored one behind the other, each under itself.
pub proof fn law_observed_hashes_stand_for_themselves(
    ledger: LedgerView,
    owner: CacheOwner,
    tier: CacheTier,
    group: u32,
    hashes: Seq<u64>,
    hash: u64,
)
    ensures
        ledger.store_hashes(owner, tier, group, Seq::empty()) == ledger,
        ledger.store_hashes(owner, tier, group, hashes.push(hash)) == ledger.store_hashes(
            owner,
            tier,
            group,
            hashes,
        ).store_mapped(owner, tier, group, hash, hash),
{
    assert(hashes.push(hash).drop_last() =~= hashes);
}

} // verus!
