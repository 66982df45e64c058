//! What stores, removals and whole batches come to.

use vstd::bytes::spec_u64_to_le_bytes;
use vstd::prelude::*;

use crate::evidence::{
    BlockCopy, CacheEvidenceApplyIntegrityFailure, CacheEvidenceMutation,
    CacheEvidenceStoredBlock, CacheOwner, CacheTier,
};
use crate::evidence_laws::place;
use crate::ledger_laws::{law_store_is_all_or_nothing, lemma_chain_len};
use crate::model::{
    admitted, apply_batch, apply_mutations, apply_store_run, chain, is_store, lemma_run_end,
    run_end, Applied, LedgerView, StoreMutationResult,
};
use crate::protocols::xxh3_64;

verus! {

/// The hashes chain: the first block of a root is its own hash; every other
/// one is the digest of the hash before it and its own.
pub proof fn law_sequence_hashes_chain(
    parent: Option<u64>,
    blocks: Seq<CacheEvidenceStoredBlock>,
    j: int,
)
    requires
        0 <= j < blocks.len(),
    ensures
        chain(parent, blocks).len() == blocks.len(),
        j == 0 && parent is None ==> chain(parent, blocks)[0] == blocks[0].tokens_hash,
        j == 0 && parent is Some ==> chain(parent, blocks)[0] == xxh3_64(
            spec_u64_to_le_bytes(parent->0) + spec_u64_to_le_bytes(blocks[0].tokens_hash),
            1337,
        ),
        j > 0 ==> chain(parent, blocks)[j] == xxh3_64(
            spec_u64_to_le_bytes(chain(parent, blocks)[j - 1]) + spec_u64_to_le_bytes(
                blocks[j].tokens_hash,
            ),
            1337,
        ),
    decreases blocks.len(),
{
    lemma_chain_len(parent, blocks);
    let front = blocks.drop_last();
    lemma_chain_len(parent, front);
    if j < front.len() {
        law_sequence_hashes_chain(parent, front, j);
        assert(front[j] == blocks[j]);
    } else {
        assert(blocks.last() == blocks[j]);
    }
}

/// A parent is known by what its engine hash stands for on either tier of the
/// owner; tiers that disagree make it unknown.
pub proof fn law_parent_is_found_on_either_tier(
    ledger: LedgerView,
    owner: CacheOwner,
    group: u32,
    external_hash: u64,
)
    ensures
        ({
            let gpu = place(owner, CacheTier::Gpu, group, external_hash);
            let cpu = place(owner, CacheTier::Cpu, group, external_hash);
            let on_gpu = ledger.external_copies.contains_key(gpu);
            let on_cpu = ledger.external_copies.contains_key(cpu);
            let found = ledger.parent_sequence_hash(owner, group, external_hash);
            &&& !on_gpu && !on_cpu ==> found is None
            &&& on_gpu && !on_cpu ==> found == Some(ledger.external_copies[gpu].0)
            &&& on_cpu && !on_gpu ==> found == Some(ledger.external_copies[cpu].0)
            &&& on_gpu && on_cpu ==> found == if ledger.external_copies[gpu].0
                == ledger.external_copies[cpu].0 {
                Some(ledger.external_copies[gpu].0)
            } else {
                None
            }
        }),
{
}

/// The block's engine hash stands for something else, there already or by an
/// earlier block of the store.
pub open spec fn is_taken(
    ledger: LedgerView,
    owner: CacheOwner,
    tier: CacheTier,
    group: u32,
    blocks: Seq<CacheEvidenceStoredBlock>,
    hashes: Seq<u64>,
    i: int,
) -> bool {
    let key = place(owner, tier, group, blocks[i].external_hash);
    ||| ledger.external_copies.contains_key(key) && ledger.external_copies[key].0 != hashes[i]
    ||| exists|j: int|
        0 <= j < i && (#[trigger] blocks[j]).external_hash == blocks[i].external_hash && hashes[j]
            != hashes[i]
}

pub open spec fn some_taken(
    ledger: LedgerView,
    owner: CacheOwner,
    tier: CacheTier,
    group: u32,
    blocks: Seq<CacheEvidenceStoredBlock>,
    hashes: Seq<u64>,
) -> bool {
    exists|i: int|
        0 <= i < blocks.len() && #[trigger] is_taken(ledger, owner, tier, group, blocks, hashes, i)
}

proof fn lemma_conflicts(
    ledger: LedgerView,
    owner: CacheOwner,
    tier: CacheTier,
    group: u32,
    blocks: Seq<CacheEvidenceStoredBlock>,
    hashes: Seq<u64>,
)
    ensures
        ledger.store_conflicts(owner, tier, group, blocks, hashes) <==> some_taken(
            ledger,
            owner,
            tier,
            group,
            blocks,
            hashes,
        ),
{
    if ledger.store_conflicts(owner, tier, group, blocks, hashes) {
        let i = choose|i: int| #[trigger]
            ledger.block_conflicts(owner, tier, group, blocks, hashes, i);
        assert(is_taken(ledger, owner, tier, group, blocks, hashes, i));
    }
    if some_taken(ledger, owner, tier, group, blocks, hashes) {
        let i = choose|i: int|
            0 <= i < blocks.len() && #[trigger] is_taken(
                ledger,
                owner,
                tier,
                group,
                blocks,
                hashes,
                i,
            );
        assert(ledger.block_conflicts(owner, tier, group, blocks, hashes, i));
    }
}

/// A store is refused for a missing parent exactly if it names one that is not
/// known, and for a conflict exactly if some engine hash would get a second
/// meaning. Otherwise each of its blocks is announced, held and seen.
pub proof fn law_store_is_applied_unless_it_contradicts(
    ledger: LedgerView,
    owner: CacheOwner,
    tier: CacheTier,
    group: u32,
    parent: Option<u64>,
    blocks: Seq<CacheEvidenceStoredBlock>,
)
    ensures
        ({
            let (result, after) = ledger.store_mutation(owner, tier, Some(group), parent, blocks);
            let orphaned = parent is Some && ledger.parent_sequence_hash(
                owner,
                group,
                parent->0,
            ) is None;
            let above = match parent {
                None => None,
                Some(hash) => ledger.parent_sequence_hash(owner, group, hash),
            };
            let hashes = chain(above, blocks);
            let contradicts = some_taken(ledger, owner, tier, group, blocks, hashes);
            &&& result == StoreMutationResult::MissingParent <==> orphaned
            &&& result == StoreMutationResult::RejectedMapping <==> !orphaned && contradicts
            &&& result == StoreMutationResult::Applied <==> !orphaned && !contradicts
            &&& result != StoreMutationResult::Applied ==> after == ledger
            &&& result == StoreMutationResult::Applied ==> forall|j: int|
                #![trigger blocks[j]]
                0 <= j < blocks.len() ==> {
                    let key = place(owner, tier, group, blocks[j].external_hash);
                    &&& after.external_copies.contains_key(key)
                    &&& after.external_copies[key].0 == hashes[j]
                    &&& after.copies.contains_key(place(owner, tier, group, hashes[j]))
                    &&& after.seen_blocks.contains(hashes[j]) || after.history_saturated
                }
        }),
{
    let (result, after) = ledger.store_mutation(owner, tier, Some(group), parent, blocks);
    let above = match parent {
        None => None,
        Some(hash) => ledger.parent_sequence_hash(owner, group, hash),
    };
    let hashes = chain(above, blocks);
    lemma_chain_len(above, blocks);
    law_store_is_all_or_nothing(ledger, owner, tier, group, parent, blocks);
    lemma_conflicts(ledger, owner, tier, group, blocks, hashes);
    if result == StoreMutationResult::Applied {
        let seen = ledger.see_all(hashes);
        let n = blocks.len() as int;
        assert forall|j: int| #![trigger blocks[j]] 0 <= j < blocks.len() implies after.copies.contains_key(
            place(owner, tier, group, hashes[j]),
        ) && (after.seen_blocks.contains(hashes[j]) || after.history_saturated)
            && after.external_copies.contains_key(
            place(owner, tier, group, blocks[j].external_hash),
        ) && after.external_copies[place(owner, tier, group, blocks[j].external_hash)].0
            == hashes[j] by {
            lemma_seen_so_far(ledger, hashes, j);
            lemma_seen_stays(seen, owner, tier, group, blocks, hashes, n, hashes[j]);
            assert(after.mapped(owner, tier, group, blocks[j].external_hash) == Some(hashes[j]));
            lemma_held(ledger, seen, owner, tier, group, blocks, hashes, n, j);
        }
    }
}

proof fn lemma_seen_so_far(ledger: LedgerView, hashes: Seq<u64>, j: int)
    requires
        0 <= j < hashes.len(),
    ensures
        ledger.see_all(hashes).seen_blocks.contains(hashes[j]) || ledger.see_all(
            hashes,
        ).history_saturated,
        ledger.see_all(hashes).external_copies == ledger.external_copies,
    decreases hashes.len(),
{
    let front = hashes.drop_last();
    if j < front.len() {
        lemma_seen_so_far(ledger, front, j);
    } else {
        crate::store_run_laws::lemma_see_all_keeps(ledger, hashes);
    }
}

proof fn lemma_seen_stays(
    ledger: LedgerView,
    owner: CacheOwner,
    tier: CacheTier,
    group: u32,
    blocks: Seq<CacheEvidenceStoredBlock>,
    hashes: Seq<u64>,
    n: int,
    hash: u64,
)
    requires
        ledger.seen_blocks.contains(hash) || ledger.history_saturated,
    ensures
        ({
            let after = ledger.store_each(owner, tier, group, blocks, hashes, n);
            after.seen_blocks.contains(hash) || after.history_saturated
        }),
    decreases n,
{
    if n > 0 {
        lemma_seen_stays(ledger, owner, tier, group, blocks, hashes, n - 1, hash);
    }
}

/// Blocks that do not contradict are held once their turn has come.
proof fn lemma_held(
    first: LedgerView,
    ledger: LedgerView,
    owner: CacheOwner,
    tier: CacheTier,
    group: u32,
    blocks: Seq<CacheEvidenceStoredBlock>,
    hashes: Seq<u64>,
    n: int,
    j: int,
)
    requires
        0 <= j < n <= blocks.len(),
        ledger.external_copies == first.external_copies,
        forall|i: int|
            0 <= i < blocks.len() ==> !(#[trigger] is_taken(
                first,
                owner,
                tier,
                group,
                blocks,
                hashes,
                i,
            )),
    ensures
        ledger.store_each(owner, tier, group, blocks, hashes, n).copies.contains_key(
            place(owner, tier, group, hashes[j]),
        ),
    decreases n,
{
    let before = ledger.store_each(owner, tier, group, blocks, hashes, n - 1);
    if j < n - 1 {
        lemma_held(first, ledger, owner, tier, group, blocks, hashes, n - 1, j);
    } else {
        lemma_means(first, ledger, owner, tier, group, blocks, hashes, n - 1, j);
    }
}

/// What an engine hash stands for after some blocks is what it stood for, or
/// what one of them gave it.
proof fn lemma_means(
    first: LedgerView,
    ledger: LedgerView,
    owner: CacheOwner,
    tier: CacheTier,
    group: u32,
    blocks: Seq<CacheEvidenceStoredBlock>,
    hashes: Seq<u64>,
    n: int,
    j: int,
)
    requires
        0 <= n <= j < blocks.len(),
        ledger.external_copies == first.external_copies,
        forall|i: int|
            0 <= i < blocks.len() ==> !(#[trigger] is_taken(
                first,
                owner,
                tier,
                group,
                blocks,
                hashes,
                i,
            )),
    ensures
        ({
            let after = ledger.store_each(owner, tier, group, blocks, hashes, n);
            let key = place(owner, tier, group, blocks[j].external_hash);
            after.external_copies.contains_key(key) ==> after.external_copies[key].0 == hashes[j]
        }),
    decreases n,
{
    assert(!is_taken(first, owner, tier, group, blocks, hashes, j));
    if n > 0 {
        lemma_means(first, ledger, owner, tier, group, blocks, hashes, n - 1, j);
        if blocks[n - 1].external_hash == blocks[j].external_hash {
            assert(hashes[n - 1] == hashes[j]);
        }
    }
}

/// The blocks that a mutation affects are known beforehand: those that a store
/// whose parent is known will announce, those that the removed engine hashes
/// stand for, and those announced where a clear applies.
pub proof fn law_affected_blocks_are_those_touched(
    ledger: LedgerView,
    owner: CacheOwner,
    mutation: CacheEvidenceMutation,
    hash: u64,
)
    ensures
        ({
            let affected = ledger.affected_sequence_hashes(owner, mutation).contains(hash);
            match mutation {
                CacheEvidenceMutation::Store { group_idx: None, .. } => !affected,
                CacheEvidenceMutation::Store {
                    group_idx: Some(group),
                    parent_external_hash,
                    blocks,
                    ..
                } => {
                    let above = match parent_external_hash {
                        None => None,
                        Some(parent) => ledger.parent_sequence_hash(owner, group, parent),
                    };
                    affected <==> (parent_external_hash is None || above is Some) && chain(
                        above,
                        blocks@,
                    ).contains(hash)
                },
                CacheEvidenceMutation::Remove { group_idx: None, .. } => !affected,
                CacheEvidenceMutation::Remove { tier, group_idx: Some(group), block_hashes } =>
                    affected <==> exists|i: int|
                        0 <= i < block_hashes@.len() && stands_for(
                            ledger,
                            place(owner, tier, group, #[trigger] block_hashes@[i]),
                            hash,
                        ),
                CacheEvidenceMutation::Clear { tier } => affected <==> exists|key: BlockCopy|
                    #[trigger] stands_for(ledger, key, hash) && key.copy.owner == owner && (
                    tier is None || tier == Some(key.copy.tier)),
            }
        }),
{
    match mutation {
        CacheEvidenceMutation::Store {
            group_idx: Some(group),
            parent_external_hash,
            blocks,
            ..
        } => {
            let above = match parent_external_hash {
                None => None,
                Some(parent) => ledger.parent_sequence_hash(owner, group, parent),
            };
            let hashes = chain(above, blocks@);
            lemma_chain_len(above, blocks@);
            assert(hashes.to_set().contains(hash) <==> hashes.contains(hash));
        },
        CacheEvidenceMutation::Remove { tier, group_idx: Some(group), block_hashes } => {
            assert forall|i: int|
                #![trigger block_hashes@[i]]
                ledger.mapped(owner, tier, group, block_hashes@[i]) == Some(hash) <==> stands_for(
                    ledger,
                    place(owner, tier, group, block_hashes@[i]),
                    hash,
                ) by {}
        },
        CacheEvidenceMutation::Clear { tier } => {
            if ledger.affected_sequence_hashes(owner, mutation).contains(hash) {
                let key = choose|key: BlockCopy|
                    #[trigger] ledger.external_copies.contains_key(key) && crate::model::covers(
                        owner,
                        tier,
                        key.copy,
                    ) && ledger.external_copies[key].0 == hash;
                assert(stands_for(ledger, key, hash));
            }
            if exists|key: BlockCopy|
                #[trigger] stands_for(ledger, key, hash) && key.copy.owner == owner && (
                tier is None || tier == Some(key.copy.tier)) {
                let key = choose|key: BlockCopy|
                    #[trigger] stands_for(ledger, key, hash) && key.copy.owner == owner && (
                    tier is None || tier == Some(key.copy.tier));
                assert(ledger.external_copies.contains_key(key));
            }
        },
        _ => {},
    }
}

/// The engine hash at the place stands for the block.
pub open spec fn stands_for(ledger: LedgerView, key: BlockCopy, hash: u64) -> bool {
    ledger.external_copies.contains_key(key) && ledger.external_copies[key].0 == hash
}

// ---- batches ----

proof fn lemma_run_end_pushed(
    mutations: Seq<CacheEvidenceMutation>,
    last: CacheEvidenceMutation,
    from: int,
)
    requires
        !is_store(last),
        0 <= from <= mutations.len(),
    ensures
        run_end(mutations.push(last), from) == run_end(mutations, from),
    decreases mutations.len() - from,
{
    if from < mutations.len() {
        lemma_run_end_pushed(mutations, last, from + 1);
        assert(mutations.push(last)[from] == mutations[from]);
    } else {
        assert(mutations.push(last)[from] == last);
    }
}

proof fn lemma_applied_pushed(
    state: Applied,
    owner: CacheOwner,
    mutations: Seq<CacheEvidenceMutation>,
    last: CacheEvidenceMutation,
    from: int,
)
    requires
        !is_store(last),
        0 <= from <= mutations.len(),
    ensures
        ({
            let before = apply_mutations(state, owner, mutations, from);
            let after = apply_mutations(state, owner, mutations.push(last), from);
            match last {
                CacheEvidenceMutation::Remove { tier, group_idx: Some(group), block_hashes } =>
                    after == (Applied {
                        ledger: before.ledger.remove_all(owner, tier, group, block_hashes@),
                        ..before
                    }),
                CacheEvidenceMutation::Remove { group_idx: None, .. } => after == before.fail(
                    CacheEvidenceApplyIntegrityFailure::MissingGroup,
                ),
                CacheEvidenceMutation::Clear { tier } => after == (Applied {
                    ledger: before.ledger.clear(owner, tier),
                    ..before
                }),
                CacheEvidenceMutation::Store { .. } => true,
            }
        }),
    decreases mutations.len() - from,
{
    let all = mutations.push(last);
    if from < mutations.len() {
        assert(all[from] == mutations[from]);
        match mutations[from] {
            CacheEvidenceMutation::Store { .. } => {
                let end = run_end(mutations, from);
                lemma_run_end(mutations, from);
                lemma_run_end_pushed(mutations, last, from);
                assert(all.subrange(from, end) =~= mutations.subrange(from, end));
                let next = apply_store_run(state, owner, mutations.subrange(from, end));
                lemma_applied_pushed(next, owner, mutations, last, end);
            },
            CacheEvidenceMutation::Remove { tier, group_idx, block_hashes } => {
                let next = match group_idx {
                    None => state.fail(CacheEvidenceApplyIntegrityFailure::MissingGroup),
                    Some(group) => Applied {
                        ledger: state.ledger.remove_all(owner, tier, group, block_hashes@),
                        ..state
                    },
                };
                lemma_applied_pushed(next, owner, mutations, last, from + 1);
            },
            CacheEvidenceMutation::Clear { tier } => {
                let next = Applied { ledger: state.ledger.clear(owner, tier), ..state };
                lemma_applied_pushed(next, owner, mutations, last, from + 1);
            },
        }
    } else {
        assert(all[from] == last);
        match last {
            CacheEvidenceMutation::Remove { tier, group_idx, block_hashes } => {
                let next = match group_idx {
                    None => state.fail(CacheEvidenceApplyIntegrityFailure::MissingGroup),
                    Some(group) => Applied {
                        ledger: state.ledger.remove_all(owner, tier, group, block_hashes@),
                        ..state
                    },
                };
                assert(apply_mutations(next, owner, all, from + 1) == next);
            },
            CacheEvidenceMutation::Clear { tier } => {
                let next = Applied { ledger: state.ledger.clear(owner, tier), ..state };
                assert(apply_mutations(next, owner, all, from + 1) == next);
            },
            _ => {},
        }
    }
}

/// A batch is applied in its order: a removal or a clear at its end acts on
/// what the rest of it has come to. A removal without a group is a failure.
pub proof fn law_last_mutation_acts_on_the_rest(
    ledger: LedgerView,
    owner: CacheOwner,
    telemetry_complete: bool,
    mutations: Seq<CacheEvidenceMutation>,
    last: CacheEvidenceMutation,
)
    requires
        !(last is Store),
    ensures
        ({
            let before = apply_batch(ledger, owner, telemetry_complete, mutations);
            let after = apply_batch(ledger, owner, telemetry_complete, mutations.push(last));
            match last {
                CacheEvidenceMutation::Remove { tier, group_idx: Some(group), block_hashes } => {
                    &&& after.failures == before.failures
                    &&& after.ledger.copies == before.ledger.remove_all(
                        owner,
                        tier,
                        group,
                        block_hashes@,
                    ).copies
                    &&& after.ledger.external_copies == before.ledger.remove_all(
                        owner,
                        tier,
                        group,
                        block_hashes@,
                    ).external_copies
                },
                CacheEvidenceMutation::Remove { group_idx: None, .. } => {
                    &&& after.failures == before.failures.insert(
                        CacheEvidenceApplyIntegrityFailure::MissingGroup,
                    )
                    &&& after.ledger.copies == before.ledger.copies
                    &&& !after.ledger.physical_telemetry_complete
                    &&& !after.ledger.history_complete
                },
                CacheEvidenceMutation::Clear { tier } => {
                    &&& after.failures == before.failures
                    &&& after.ledger == before.ledger.clear(owner, tier)
                },
                CacheEvidenceMutation::Store { .. } => true,
            }
        }),
{
    let start = admitted(ledger, telemetry_complete);
    lemma_applied_pushed(start, owner, mutations, last, 0);
    if let CacheEvidenceMutation::Remove { tier, group_idx: Some(group), block_hashes } = last {
        lemma_removals_ignore_flags(
            apply_mutations(start, owner, mutations, 0).ledger,
            apply_batch(ledger, owner, telemetry_complete, mutations).ledger,
            owner,
            tier,
            group,
            block_hashes@,
        );
    }
}

proof fn lemma_removals_ignore_flags(
    a: LedgerView,
    b: LedgerView,
    owner: CacheOwner,
    tier: CacheTier,
    group: u32,
    hashes: Seq<u64>,
)
    requires
        a.copies == b.copies,
        a.external_copies == b.external_copies,
    ensures
        a.remove_all(owner, tier, group, hashes).copies == b.remove_all(
            owner,
            tier,
            group,
            hashes,
        ).copies,
        a.remove_all(owner, tier, group, hashes).external_copies == b.remove_all(
            owner,
            tier,
            group,
            hashes,
        ).external_copies,
    decreases hashes.len(),
{
    if hashes.len() > 0 {
        lemma_removals_ignore_flags(a, b, owner, tier, group, hashes.drop_last());
    }
}

/// An empty batch changes nothing but, if its source says so, the completeness
/// of the evidence; it fails exactly then.
pub proof fn law_empty_batch_only_reports(
    ledger: LedgerView,
    owner: CacheOwner,
    telemetry_complete: bool,
)
    ensures
        ({
            let after = apply_batch(ledger, owner, telemetry_complete, Seq::empty());
            &&& telemetry_complete ==> after.ledger == ledger && after.failures == Set::<
                CacheEvidenceApplyIntegrityFailure,
            >::empty()
            &&& !telemetry_complete ==> {
                &&& after.failures == set![CacheEvidenceApplyIntegrityFailure::IncompleteBatch]
                &&& after.ledger == (LedgerView {
                    physical_telemetry_complete: false,
                    history_complete: false,
                    ..ledger
                })
            }
        }),
{
    let start = admitted(ledger, telemetry_complete);
    let none = Seq::<CacheEvidenceMutation>::empty();
    assert(apply_mutations(start, owner, none, 0) == start);
    let after = apply_batch(ledger, owner, telemetry_complete, none);
    if telemetry_complete {
        assert(after.ledger =~= ledger);
    } else {
        assert(after.failures =~= set![CacheEvidenceApplyIntegrityFailure::IncompleteBatch]);
    }
}

/// A batch that ends in stores puts them on top of what came before, as one
/// run.
pub proof fn law_trailing_stores_are_one_run(
    state: Applied,
    owner: CacheOwner,
    mutations: Seq<CacheEvidenceMutation>,
    stores: Seq<CacheEvidenceMutation>,
)
    requires
        stores.len() > 0,
        forall|i: int| 0 <= i < stores.len() ==> #[trigger] stores[i] is Store,
        mutations.len() > 0 ==> !(mutations.last() is Store),
    ensures
        apply_mutations(state, owner, mutations + stores, 0) == apply_store_run(
            apply_mutations(state, owner, mutations, 0),
            owner,
            stores,
        ),
{
    lemma_trailing(state, owner, mutations, stores, 0);
}

proof fn lemma_run_end_joined(
    mutations: Seq<CacheEvidenceMutation>,
    stores: Seq<CacheEvidenceMutation>,
    from: int,
)
    requires
        forall|i: int| 0 <= i < stores.len() ==> #[trigger] stores[i] is Store,
        mutations.len() > 0 ==> !(mutations.last() is Store),
        0 <= from <= mutations.len() + stores.len(),
    ensures
        from < mutations.len() ==> run_end(mutations + stores, from) == run_end(mutations, from)
            && run_end(mutations, from) < mutations.len(),
        from >= mutations.len() ==> run_end(mutations + stores, from) == mutations.len()
            + stores.len(),
    decreases mutations.len() + stores.len() - from,
{
    let all = mutations + stores;
    if from < mutations.len() {
        assert(all[from] == mutations[from]);
        if is_store(mutations[from]) {
            if from == mutations.len() - 1 {
                assert(mutations.last() == mutations[from]);
            }
            lemma_run_end_joined(mutations, stores, from + 1);
        }
    } else if from < all.len() {
        assert(all[from] == stores[from - mutations.len()]);
        lemma_run_end_joined(mutations, stores, from + 1);
    }
}

proof fn lemma_trailing(
    state: Applied,
    owner: CacheOwner,
    mutations: Seq<CacheEvidenceMutation>,
    stores: Seq<CacheEvidenceMutation>,
    from: int,
)
    requires
        stores.len() > 0,
        forall|i: int| 0 <= i < stores.len() ==> #[trigger] stores[i] is Store,
        mutations.len() > 0 ==> !(mutations.last() is Store),
        0 <= from <= mutations.len(),
    ensures
        apply_mutations(state, owner, mutations + stores, from) == apply_store_run(
            apply_mutations(state, owner, mutations, from),
            owner,
            stores,
        ),
    decreases mutations.len() - from,
{
    let all = mutations + stores;
    lemma_run_end_joined(mutations, stores, from);
    if from < mutations.len() {
        assert(all[from] == mutations[from]);
        match mutations[from] {
            CacheEvidenceMutation::Store { .. } => {
                let end = run_end(mutations, from);
                lemma_run_end(mutations, from);
                assert(all.subrange(from, end) =~= mutations.subrange(from, end));
                let next = apply_store_run(state, owner, mutations.subrange(from, end));
                lemma_trailing(next, owner, mutations, stores, end);
            },
            CacheEvidenceMutation::Remove { tier, group_idx, block_hashes } => {
                let next = match group_idx {
                    None => state.fail(CacheEvidenceApplyIntegrityFailure::MissingGroup),
                    Some(group) => Applied {
                        ledger: state.ledger.remove_all(owner, tier, group, block_hashes@),
                        ..state
                    },
                };
                lemma_trailing(next, owner, mutations, stores, from + 1);
            },
            CacheEvidenceMutation::Clear { tier } => {
                let next = Applied { ledger: state.ledger.clear(owner, tier), ..state };
                lemma_trailing(next, owner, mutations, stores, from + 1);
            },
        }
    } else {
        assert(all[from] == stores[0]);
        assert(is_store(all[from]));
        let end = all.len() as int;
        assert(all.subrange(from, end) =~= stores);
        let ran = apply_store_run(state, owner, stores);
        assert(apply_mutations(ran, owner, all, end) == ran);
    }
}

/// A store on its own is recorded if it names its group, its parent is known or
/// not named, and it gives no engine hash another meaning. Otherwise nothing is
/// recorded, the certainty is lost, and the failure says which of these it was.
pub proof fn law_single_store_is_recorded_or_told(
    state: Applied,
    owner: CacheOwner,
    tier: CacheTier,
    group_idx: Option<u32>,
    parent_external_hash: Option<u64>,
    blocks: Vec<CacheEvidenceStoredBlock>,
)
    ensures
        ({
            let store = CacheEvidenceMutation::Store {
                tier,
                group_idx,
                parent_external_hash,
                blocks,
            };
            let after = apply_store_run(state, owner, seq![store]);
            let parent = match parent_external_hash {
                None => None,
                Some(hash) => state.ledger.parent_sequence_hash(owner, group_idx->0, hash),
            };
            let orphan = parent_external_hash is Some && parent is None;
            let hashes = chain(parent, blocks@);
            let taken = some_taken(state.ledger, owner, tier, group_idx->0, blocks@, hashes);
            let lost = LedgerView {
                physical_telemetry_complete: false,
                history_complete: false,
                ..state.ledger
            };
            &&& group_idx is None ==> after.ledger == lost && after.failures
                == state.failures.insert(CacheEvidenceApplyIntegrityFailure::MissingGroup)
            &&& group_idx is Some && orphan ==> after.ledger == lost && after.failures
                == state.failures.insert(CacheEvidenceApplyIntegrityFailure::MissingParent)
            &&& group_idx is Some && !orphan && taken ==> after.ledger == lost && after.failures
                == state.failures.insert(CacheEvidenceApplyIntegrityFailure::ConflictingMapping)
            &&& group_idx is Some && !orphan && !taken ==> {
                &&& after.failures == state.failures
                &&& after.ledger == state.ledger.store_mutation(
                    owner,
                    tier,
                    group_idx,
                    parent_external_hash,
                    blocks@,
                ).1
            }
        }),
{
    let store = CacheEvidenceMutation::Store { tier, group_idx, parent_external_hash, blocks };
    let run = seq![store];
    reveal_with_fuel(crate::model::positions, 2);
    reveal_with_fuel(crate::model::drain, 3);
    let ready = crate::model::positions(state.ledger, owner, run, true, 1);
    let waiting = crate::model::positions(state.ledger, owner, run, false, 1);
    if group_idx is None {
        assert(crate::model::lacks_group(run[0]));
    } else {
        assert(!crate::model::lacks_group(run[0]));
    }
    if let Some(group) = group_idx {
        law_store_is_applied_unless_it_contradicts(
            state.ledger,
            owner,
            tier,
            group,
            parent_external_hash,
            blocks@,
        );
        if ready.len() > 0 {
            assert(ready =~= seq![0usize]);
            assert(waiting =~= Seq::empty());
            let rest = ready.drop_first();
            assert(rest =~= Seq::empty());
            crate::model::lemma_unlock_len(
                run,
                group,
                blocks@,
                blocks@.len() as int,
                rest,
                waiting,
            );
        }
    }
}

/// A longer store does what the shorter one does, and then announces the last
/// block.
pub proof fn law_longer_store_announces_one_more_block(
    ledger: LedgerView,
    owner: CacheOwner,
    tier: CacheTier,
    group: u32,
    parent: Option<u64>,
    blocks: Seq<CacheEvidenceStoredBlock>,
    last: CacheEvidenceStoredBlock,
)
    requires
        ledger.store_mutation(owner, tier, Some(group), parent, blocks).0
            == StoreMutationResult::Applied,
        ledger.store_mutation(owner, tier, Some(group), parent, blocks.push(last)).0
            == StoreMutationResult::Applied,
    ensures
        ({
            let shorter = ledger.store_mutation(owner, tier, Some(group), parent, blocks).1;
            let longer = ledger.store_mutation(
                owner,
                tier,
                Some(group),
                parent,
                blocks.push(last),
            ).1;
            let above = match parent {
                None => None,
                Some(hash) => ledger.parent_sequence_hash(owner, group, hash),
            };
            let next = shorter.store_mapped(
                owner,
                tier,
                group,
                last.external_hash,
                chain(above, blocks.push(last)).last(),
            );
            &&& longer.copies == next.copies
            &&& longer.external_copies == next.external_copies
        }),
        ({
            let nothing = ledger.store_mutation(owner, tier, Some(group), None, Seq::empty()).1;
            nothing.copies == ledger.copies && nothing.external_copies == ledger.external_copies
        }),
{
    let above = match parent {
        None => None,
        Some(hash) => ledger.parent_sequence_hash(owner, group, hash),
    };
    let all = blocks.push(last);
    let n = blocks.len() as int;
    let short = chain(above, blocks);
    let long = chain(above, all);
    assert(all.drop_last() =~= blocks);
    lemma_chain_len(above, blocks);
    lemma_chain_len(above, all);
    assert(long =~= short.push(long.last()));
    lemma_sees_no_copies(ledger, short);
    lemma_sees_no_copies(ledger, long);
    lemma_sees_no_copies(ledger, chain(None, Seq::empty()));
    lemma_stored_alike(
        ledger.see_all(short),
        ledger.see_all(long),
        owner,
        tier,
        group,
        blocks,
        all,
        short,
        long,
        n,
    );
}

proof fn lemma_sees_no_copies(ledger: LedgerView, hashes: Seq<u64>)
    ensures
        ledger.see_all(hashes).copies == ledger.copies,
        ledger.see_all(hashes).external_copies == ledger.external_copies,
    decreases hashes.len(),
{
    if hashes.len() > 0 {
        lemma_sees_no_copies(ledger, hashes.drop_last());
    }
}

proof fn lemma_stored_alike(
    a: LedgerView,
    b: LedgerView,
    owner: CacheOwner,
    tier: CacheTier,
    group: u32,
    blocks: Seq<CacheEvidenceStoredBlock>,
    all: Seq<CacheEvidenceStoredBlock>,
    short: Seq<u64>,
    long: Seq<u64>,
    count: int,
)
    requires
        a.copies == b.copies,
        a.external_copies == b.external_copies,
        0 <= count <= blocks.len() <= all.len(),
        short.len() == blocks.len(),
        long.len() == all.len(),
        forall|i: int| 0 <= i < blocks.len() ==> #[trigger] blocks[i] == all[i],
        forall|i: int| 0 <= i < short.len() ==> #[trigger] short[i] == long[i],
    ensures
        a.store_each(owner, tier, group, blocks, short, count).copies == b.store_each(
            owner,
            tier,
            group,
            all,
            long,
            count,
        ).copies,
        a.store_each(owner, tier, group, blocks, short, count).external_copies == b.store_each(
            owner,
            tier,
            group,
            all,
            long,
            count,
        ).external_copies,
    decreases count,
{
    if count > 0 {
        lemma_stored_alike(a, b, owner, tier, group, blocks, all, short, long, count - 1);
        assert(blocks[count - 1] == all[count - 1]);
        assert(short[count - 1] == long[count - 1]);
    }
}

} // verus!
