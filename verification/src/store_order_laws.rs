//! A run of stores comes to the same whatever the order of its events, as long
//! as no engine hash is given two meanings.

use vstd::prelude::*;

use crate::count_laws::lemma_see_all_copies;
use crate::evidence::{
    BlockCopy, CacheEvidenceApplyIntegrityFailure, CacheEvidenceMutation,
    CacheEvidenceStoredBlock, CacheOwner, CacheTier, OwnerTier, PhysicalCopy,
};
use crate::ledger_laws::{
    law_batch_is_confined_to_its_owner, law_store_is_all_or_nothing, lemma_chain_len,
};
use crate::model::{
    admitted, apply_batch, apply_mutations, apply_store_run, chain, depends_on, drain, is_store,
    lacks_group, lemma_unlock_len, positions, run_end, unlock, Applied, LedgerView,
    StoreMutationResult,
};
use crate::store_run_laws::{
    adds_only, is_orphaned, is_stored, keeps_meanings, lemma_first, lemma_mapped_kept,
    lemma_positions, lemma_see_all_keeps, lemma_still_orphaned, lemma_still_stored,
    lemma_store_mutation_keeps, lemma_unlock_members,
};

verus! {

// ---- stores and their blocks ----

pub open spec fn is_grouped(mutation: CacheEvidenceMutation) -> bool {
    mutation matches CacheEvidenceMutation::Store { group_idx: Some(_), .. }
}

pub open spec fn blocks_of(mutation: CacheEvidenceMutation) -> Seq<CacheEvidenceStoredBlock> {
    match mutation {
        CacheEvidenceMutation::Store { blocks, .. } => blocks@,
        _ => Seq::empty(),
    }
}

/// Where a store with a group puts its blocks.
pub open spec fn place_of(owner: CacheOwner, mutation: CacheEvidenceMutation) -> PhysicalCopy {
    match mutation {
        CacheEvidenceMutation::Store { tier, group_idx: Some(group), .. } => PhysicalCopy {
            owner,
            tier,
            group,
        },
        _ => PhysicalCopy { owner, tier: CacheTier::Gpu, group: 0 },
    }
}

pub open spec fn parent_of(mutation: CacheEvidenceMutation) -> Option<u64> {
    match mutation {
        CacheEvidenceMutation::Store { parent_external_hash, .. } => parent_external_hash,
        _ => None,
    }
}

/// The store announces this engine hash in this group, as its `j`-th block.
pub open spec fn names_block(mutation: CacheEvidenceMutation, j: int, group: u32, hash: u64)
    -> bool {
    mutation matches CacheEvidenceMutation::Store { group_idx: Some(g), blocks, .. } && g == group
        && 0 <= j < blocks@.len() && blocks@[j].external_hash == hash
}

/// No engine hash of a group is announced by two different blocks.
pub open spec fn unambiguous(run: Seq<CacheEvidenceMutation>) -> bool {
    forall|
        a: CacheEvidenceMutation,
        j: int,
        b: CacheEvidenceMutation,
        k: int,
        group: u32,
        hash: u64,
    |
        run.contains(a) && run.contains(b) && #[trigger] names_block(a, j, group, hash)
            && #[trigger] names_block(b, k, group, hash) ==> a == b && j == k
}

/// No engine hash that is announced is already stored for the owner.
pub open spec fn unseen(
    ledger: LedgerView,
    owner: CacheOwner,
    run: Seq<CacheEvidenceMutation>,
) -> bool {
    forall|mutation: CacheEvidenceMutation, j: int, group: u32, hash: u64|
        run.contains(mutation) && #[trigger] names_block(mutation, j, group, hash)
            ==> ledger.mapped(owner, CacheTier::Gpu, group, hash) is None && ledger.mapped(
            owner,
            CacheTier::Cpu,
            group,
            hash,
        ) is None
}

/// The same stores, in whatever order and however often.
pub open spec fn same_stores(a: Seq<CacheEvidenceMutation>, b: Seq<CacheEvidenceMutation>) -> bool {
    forall|mutation: CacheEvidenceMutation| #[trigger]
        a.contains(mutation) <==> b.contains(mutation)
}

// ---- what a run adds ----

pub open spec fn from_run(
    owner: CacheOwner,
    run: Seq<CacheEvidenceMutation>,
    key: BlockCopy,
) -> bool {
    exists|mutation: CacheEvidenceMutation, j: int|
        run.contains(mutation) && #[trigger] names_block(mutation, j, key.copy.group, key.hash)
            && place_of(owner, mutation) == key.copy
}

/// The ledger has kept its meanings, and new ones are those of the run.
spec fn grown(
    first: LedgerView,
    ledger: LedgerView,
    owner: CacheOwner,
    run: Seq<CacheEvidenceMutation>,
) -> bool {
    &&& keeps_meanings(first, ledger)
    &&& forall|key: BlockCopy| #[trigger]
        ledger.external_copies.contains_key(key) && !first.external_copies.contains_key(key)
            ==> from_run(owner, run, key)
}

spec fn resolves(ledger: LedgerView, owner: CacheOwner, mutation: CacheEvidenceMutation) -> bool {
    is_grouped(mutation) && !is_orphaned(ledger, owner, mutation)
}

/// What the store's first block chains from.
spec fn above(ledger: LedgerView, owner: CacheOwner, mutation: CacheEvidenceMutation) -> Option<
    u64,
> {
    match parent_of(mutation) {
        None => None,
        Some(parent) => ledger.parent_sequence_hash(
            owner,
            place_of(owner, mutation).group,
            parent,
        ),
    }
}

spec fn block_key(owner: CacheOwner, mutation: CacheEvidenceMutation, j: int) -> BlockCopy {
    BlockCopy { hash: blocks_of(mutation)[j].external_hash, copy: place_of(owner, mutation) }
}

/// A stored block of the run stands for its place in the chain.
spec fn valued(ledger: LedgerView, owner: CacheOwner, run: Seq<CacheEvidenceMutation>) -> bool {
    forall|mutation: CacheEvidenceMutation, j: int|
        run.contains(mutation) && is_grouped(mutation) && 0 <= j < blocks_of(mutation).len()
            && ledger.external_copies.contains_key(#[trigger] block_key(owner, mutation, j)) ==> {
            &&& resolves(ledger, owner, mutation)
            &&& ledger.external_copies[block_key(owner, mutation, j)].0 == chain(
                above(ledger, owner, mutation),
                blocks_of(mutation),
            )[j]
        }
}

/// Every store whose parent is known has stored its blocks.
spec fn settled(ledger: LedgerView, owner: CacheOwner, run: Seq<CacheEvidenceMutation>) -> bool {
    forall|mutation: CacheEvidenceMutation, j: int|
        run.contains(mutation) && resolves(ledger, owner, mutation) && 0 <= j < blocks_of(
            mutation,
        ).len() ==> ledger.external_copies.contains_key(#[trigger] block_key(owner, mutation, j))
}

spec fn some_orphan(
    ledger: LedgerView,
    owner: CacheOwner,
    run: Seq<CacheEvidenceMutation>,
) -> bool {
    exists|mutation: CacheEvidenceMutation|
        run.contains(mutation) && #[trigger] is_orphaned(ledger, owner, mutation)
}

/// An engine hash that stands for something on both tiers did so at first.
proof fn lemma_one_tier(
    first: LedgerView,
    ledger: LedgerView,
    owner: CacheOwner,
    run: Seq<CacheEvidenceMutation>,
    group: u32,
    hash: u64,
)
    requires
        unambiguous(run),
        unseen(first, owner, run),
        grown(first, ledger, owner, run),
        ledger.mapped(owner, CacheTier::Gpu, group, hash) is Some,
        ledger.mapped(owner, CacheTier::Cpu, group, hash) is Some,
    ensures
        first.mapped(owner, CacheTier::Gpu, group, hash) is Some,
        first.mapped(owner, CacheTier::Cpu, group, hash) is Some,
{
    let gpu = BlockCopy { hash, copy: PhysicalCopy { owner, tier: CacheTier::Gpu, group } };
    let cpu = BlockCopy { hash, copy: PhysicalCopy { owner, tier: CacheTier::Cpu, group } };
    assert(ledger.external_copies.contains_key(gpu));
    assert(ledger.external_copies.contains_key(cpu));
    if !first.external_copies.contains_key(gpu) {
        assert(from_run(owner, run, gpu));
        let (a, j) = choose|mutation: CacheEvidenceMutation, j: int|
            run.contains(mutation) && #[trigger] names_block(mutation, j, group, hash) && place_of(
                owner,
                mutation,
            ) == gpu.copy;
        assert(names_block(a, j, group, hash));
        if !first.external_copies.contains_key(cpu) {
            assert(from_run(owner, run, cpu));
            let (b, k) = choose|mutation: CacheEvidenceMutation, j: int|
                run.contains(mutation) && #[trigger] names_block(mutation, j, group, hash)
                    && place_of(owner, mutation) == cpu.copy;
            assert(names_block(b, k, group, hash));
            assert(a == b);
        }
    } else if !first.external_copies.contains_key(cpu) {
        assert(from_run(owner, run, cpu));
        let (b, k) = choose|mutation: CacheEvidenceMutation, j: int|
            run.contains(mutation) && #[trigger] names_block(mutation, j, group, hash) && place_of(
                owner,
                mutation,
            ) == cpu.copy;
        assert(names_block(b, k, group, hash));
    }
}

/// What a parent stands for never changes while the run is applied.
proof fn lemma_lookup_stable(
    first: LedgerView,
    before: LedgerView,
    after: LedgerView,
    owner: CacheOwner,
    run: Seq<CacheEvidenceMutation>,
    group: u32,
    parent: u64,
)
    requires
        unambiguous(run),
        unseen(first, owner, run),
        grown(first, before, owner, run),
        grown(first, after, owner, run),
        keeps_meanings(before, after),
        before.parent_sequence_hash(owner, group, parent) is Some,
    ensures
        after.parent_sequence_hash(owner, group, parent) == before.parent_sequence_hash(
            owner,
            group,
            parent,
        ),
{
    lemma_mapped_kept(before, after, owner, CacheTier::Gpu, group, parent);
    lemma_mapped_kept(before, after, owner, CacheTier::Cpu, group, parent);
    lemma_mapped_kept(first, before, owner, CacheTier::Gpu, group, parent);
    lemma_mapped_kept(first, before, owner, CacheTier::Cpu, group, parent);
    if after.mapped(owner, CacheTier::Gpu, group, parent) is Some && after.mapped(
        owner,
        CacheTier::Cpu,
        group,
        parent,
    ) is Some {
        lemma_one_tier(first, after, owner, run, group, parent);
    }
}

proof fn lemma_resolution_stable(
    first: LedgerView,
    before: LedgerView,
    after: LedgerView,
    owner: CacheOwner,
    run: Seq<CacheEvidenceMutation>,
    mutation: CacheEvidenceMutation,
)
    requires
        unambiguous(run),
        unseen(first, owner, run),
        grown(first, before, owner, run),
        grown(first, after, owner, run),
        keeps_meanings(before, after),
        resolves(before, owner, mutation),
    ensures
        resolves(after, owner, mutation),
        above(after, owner, mutation) == above(before, owner, mutation),
{
    if let Some(parent) = parent_of(mutation) {
        lemma_lookup_stable(
            first,
            before,
            after,
            owner,
            run,
            place_of(owner, mutation).group,
            parent,
        );
    }
}

/// A store of the run whose parent is known is applied, and its blocks take
/// their places in the chain.
proof fn lemma_apply(
    first: LedgerView,
    before: LedgerView,
    owner: CacheOwner,
    run: Seq<CacheEvidenceMutation>,
    tier: CacheTier,
    group: u32,
    parent: Option<u64>,
    blocks: Vec<CacheEvidenceStoredBlock>,
)
    requires
        unambiguous(run),
        unseen(first, owner, run),
        grown(first, before, owner, run),
        valued(before, owner, run),
        ({
            let store = CacheEvidenceMutation::Store {
                tier,
                group_idx: Some(group),
                parent_external_hash: parent,
                blocks,
            };
            run.contains(store) && resolves(before, owner, store)
        }),
    ensures
        ({
            let store = CacheEvidenceMutation::Store {
                tier,
                group_idx: Some(group),
                parent_external_hash: parent,
                blocks,
            };
            let (result, after) = before.store_mutation(owner, tier, Some(group), parent, blocks@);
            &&& result == StoreMutationResult::Applied
            &&& keeps_meanings(before, after)
            &&& adds_only(before, after, PhysicalCopy { owner, tier, group }, blocks@)
            &&& grown(first, after, owner, run)
            &&& valued(after, owner, run)
            &&& resolves(after, owner, store)
            &&& is_stored(after, owner, store)
            &&& after.physical_telemetry_complete == before.physical_telemetry_complete
        }),
{
    let store = CacheEvidenceMutation::Store {
        tier,
        group_idx: Some(group),
        parent_external_hash: parent,
        blocks,
    };
    let root = above(before, owner, store);
    let hashes = chain(root, blocks@);
    let (result, after) = before.store_mutation(owner, tier, Some(group), parent, blocks@);
    let copy = PhysicalCopy { owner, tier, group };
    lemma_chain_len(root, blocks@);
    assert forall|i: int| !(#[trigger] before.block_conflicts(
        owner,
        tier,
        group,
        blocks@,
        hashes,
        i,
    )) by {
        if 0 <= i < blocks@.len() {
            let hash = blocks@[i].external_hash;
            assert(block_key(owner, store, i) == (BlockCopy { hash, copy }));
            assert(names_block(store, i, group, hash));
            assert forall|j: int| 0 <= j < i implies (#[trigger] blocks@[j]).external_hash
                != hash by {
                assert(blocks@[j].external_hash == hash ==> names_block(store, j, group, hash));
            }
        }
    }
    assert(!before.store_conflicts(owner, tier, group, blocks@, hashes));
    assert(result == StoreMutationResult::Applied);
    lemma_store_mutation_keeps(before, owner, tier, group, parent, blocks@);
    law_store_is_all_or_nothing(before, owner, tier, group, parent, blocks@);
    assert forall|key: BlockCopy| #[trigger]
        after.external_copies.contains_key(key) && !first.external_copies.contains_key(
            key,
        ) implies from_run(owner, run, key) by {
        if !before.external_copies.contains_key(key) {
            let j = choose|j: int|
                0 <= j < blocks@.len() && (#[trigger] blocks@[j]).external_hash == key.hash;
            assert(names_block(store, j, key.copy.group, key.hash));
        }
    }
    assert(keeps_meanings(first, after)) by {
        assert forall|key: BlockCopy|
            #![trigger first.external_copies.contains_key(key)]
            #![trigger after.external_copies.contains_key(key)]
            first.external_copies.contains_key(key) implies after.external_copies.contains_key(key)
            && after.external_copies[key].0 == first.external_copies[key].0 by {
            assert(before.external_copies.contains_key(key));
        }
    }
    assert(grown(first, after, owner, run));
    lemma_resolution_stable(first, before, after, owner, run, store);
    assert forall|mutation: CacheEvidenceMutation, j: int|
        run.contains(mutation) && is_grouped(mutation) && 0 <= j < blocks_of(mutation).len()
            && after.external_copies.contains_key(
            #[trigger] block_key(owner, mutation, j),
        ) implies resolves(after, owner, mutation) && after.external_copies[block_key(
        owner,
        mutation,
        j,
    )].0 == chain(above(after, owner, mutation), blocks_of(mutation))[j] by {
        let key = block_key(owner, mutation, j);
        if before.external_copies.contains_key(key) {
            lemma_resolution_stable(first, before, after, owner, run, mutation);
        } else {
            let k = choose|k: int|
                0 <= k < blocks@.len() && (#[trigger] blocks@[k]).external_hash == key.hash;
            assert(names_block(store, k, group, key.hash));
            assert(names_block(mutation, j, group, key.hash));
            assert(mutation == store && j == k);
            assert(after.mapped(owner, tier, group, blocks@[k].external_hash) == Some(hashes[k]));
        }
    }
    assert(is_stored(after, owner, store));
}

/// If `goal` has everything that the ledger means and that the store would
/// add, it has what the ledger means once the store is applied.
proof fn lemma_apply_within(
    first: LedgerView,
    before: LedgerView,
    goal: LedgerView,
    owner: CacheOwner,
    run: Seq<CacheEvidenceMutation>,
    tier: CacheTier,
    group: u32,
    parent: Option<u64>,
    blocks: Vec<CacheEvidenceStoredBlock>,
)
    requires
        unambiguous(run),
        unseen(first, owner, run),
        grown(first, before, owner, run),
        valued(before, owner, run),
        grown(first, goal, owner, run),
        valued(goal, owner, run),
        settled(goal, owner, run),
        keeps_meanings(before, goal),
        ({
            let store = CacheEvidenceMutation::Store {
                tier,
                group_idx: Some(group),
                parent_external_hash: parent,
                blocks,
            };
            run.contains(store) && resolves(before, owner, store)
        }),
    ensures
        keeps_meanings(
            before.store_mutation(owner, tier, Some(group), parent, blocks@).1,
            goal,
        ),
{
    let store = CacheEvidenceMutation::Store {
        tier,
        group_idx: Some(group),
        parent_external_hash: parent,
        blocks,
    };
    let (result, after) = before.store_mutation(owner, tier, Some(group), parent, blocks@);
    let root = above(before, owner, store);
    lemma_apply(first, before, owner, run, tier, group, parent, blocks);
    law_store_is_all_or_nothing(before, owner, tier, group, parent, blocks@);
    lemma_resolution_stable(first, before, goal, owner, run, store);
    assert forall|key: BlockCopy|
        #![trigger after.external_copies.contains_key(key)]
        #![trigger goal.external_copies.contains_key(key)]
        after.external_copies.contains_key(key) implies goal.external_copies.contains_key(key)
        && goal.external_copies[key].0 == after.external_copies[key].0 by {
        if before.external_copies.contains_key(key) {
            assert(goal.external_copies.contains_key(key));
        } else {
            let k = choose|k: int|
                0 <= k < blocks@.len() && (#[trigger] blocks@[k]).external_hash == key.hash;
            assert(block_key(owner, store, k) == key);
            assert(goal.external_copies.contains_key(block_key(owner, store, k)));
            assert(after.mapped(owner, tier, group, blocks@[k].external_hash) == Some(
                chain(root, blocks@)[k],
            ));
        }
    }
}

// ---- working off a run ----

/// What is known while a run is worked off: ready stores have a known parent,
/// waiting ones do not, and all others are done.
spec fn in_progress(
    ledger: LedgerView,
    owner: CacheOwner,
    run: Seq<CacheEvidenceMutation>,
    ready: Seq<usize>,
    waiting: Seq<usize>,
) -> bool {
    &&& forall|p: usize| #[trigger]
        ready.contains(p) ==> p < run.len() && resolves(ledger, owner, run[p as int])
    &&& forall|p: usize| #[trigger]
        waiting.contains(p) ==> p < run.len() && is_orphaned(ledger, owner, run[p as int])
    &&& forall|p: usize|
        #![trigger ready.contains(p)]
        #![trigger waiting.contains(p)]
        #![trigger run[p as int]]
        p < run.len() && is_grouped(run[p as int]) && !ready.contains(p) && !waiting.contains(p)
            ==> resolves(ledger, owner, run[p as int]) && is_stored(ledger, owner, run[p as int])
}

proof fn lemma_progress(
    first: LedgerView,
    before: LedgerView,
    owner: CacheOwner,
    run: Seq<CacheEvidenceMutation>,
    ready: Seq<usize>,
    waiting: Seq<usize>,
    tier: CacheTier,
    group: u32,
    parent: Option<u64>,
    blocks: Vec<CacheEvidenceStoredBlock>,
)
    requires
        unambiguous(run),
        unseen(first, owner, run),
        grown(first, before, owner, run),
        valued(before, owner, run),
        in_progress(before, owner, run, ready, waiting),
        ready.len() > 0,
        run[ready[0] as int] == (CacheEvidenceMutation::Store {
            tier,
            group_idx: Some(group),
            parent_external_hash: parent,
            blocks,
        }),
    ensures
        ({
            let after = before.store_mutation(owner, tier, Some(group), parent, blocks@).1;
            let n = blocks@.len() as int;
            let (r, w) = unlock(run, group, blocks@, n, ready.drop_first(), waiting);
            in_progress(after, owner, run, r, w)
        }),
{
    let after = before.store_mutation(owner, tier, Some(group), parent, blocks@).1;
    let n = blocks@.len() as int;
    let rest = ready.drop_first();
    let (r, w) = unlock(run, group, blocks@, n, rest, waiting);
    let store = run[ready[0] as int];
    lemma_first(ready, ready[0]);
    assert(run.contains(store));
    lemma_apply(first, before, owner, run, tier, group, parent, blocks);
    assert forall|p: usize| #[trigger] r.contains(p) implies p < run.len() && resolves(
        after,
        owner,
        run[p as int],
    ) by {
        lemma_unlock_members(run, group, blocks@, n, rest, waiting, p);
        lemma_first(ready, p);
        let mutation = run[p as int];
        if rest.contains(p) {
            lemma_resolution_stable(first, before, after, owner, run, mutation);
        } else {
            let j = choose|j: int|
                0 <= j < n && depends_on(mutation, group, (#[trigger] blocks@[j]).external_hash);
            let hash = blocks@[j].external_hash;
            assert(names_block(store, j, group, hash));
            assert(after.mapped(owner, tier, group, hash) is Some);
            if after.mapped(owner, CacheTier::Gpu, group, hash) is Some && after.mapped(
                owner,
                CacheTier::Cpu,
                group,
                hash,
            ) is Some {
                lemma_one_tier(first, after, owner, run, group, hash);
            }
            match tier {
                CacheTier::Gpu => {},
                CacheTier::Cpu => {},
            }
        }
    }
    assert forall|p: usize| #[trigger] w.contains(p) implies p < run.len() && is_orphaned(
        after,
        owner,
        run[p as int],
    ) by {
        lemma_unlock_members(run, group, blocks@, n, rest, waiting, p);
        lemma_still_orphaned(before, after, owner, tier, group, blocks@, run[p as int]);
    }
    assert forall|p: usize|
        #![trigger r.contains(p)]
        #![trigger w.contains(p)]
        #![trigger run[p as int]]
        p < run.len() && is_grouped(run[p as int]) && !r.contains(p) && !w.contains(
            p,
        ) implies resolves(after, owner, run[p as int]) && is_stored(
        after,
        owner,
        run[p as int],
    ) by {
        lemma_unlock_members(run, group, blocks@, n, rest, waiting, p);
        lemma_first(ready, p);
        if p != ready[0] {
            assert(!ready.contains(p) && !waiting.contains(p));
            lemma_resolution_stable(first, before, after, owner, run, run[p as int]);
            lemma_still_stored(before, after, owner, run[p as int]);
        }
    }
}

/// What a run comes to: its stores have settled, failures are those of its
/// orphans, and it has added no meaning that `goal` does not have.
proof fn lemma_drain_settles(
    state: Applied,
    owner: CacheOwner,
    run: Seq<CacheEvidenceMutation>,
    ready: Seq<usize>,
    waiting: Seq<usize>,
    first: LedgerView,
    goal: LedgerView,
)
    requires
        run.len() <= usize::MAX,
        unambiguous(run),
        unseen(first, owner, run),
        grown(first, state.ledger, owner, run),
        valued(state.ledger, owner, run),
        in_progress(state.ledger, owner, run, ready, waiting),
    ensures
        ({
            let end = drain(state, owner, run, ready, waiting);
            let orphaned = some_orphan(end.ledger, owner, run);
            &&& grown(first, end.ledger, owner, run)
            &&& valued(end.ledger, owner, run)
            &&& settled(end.ledger, owner, run)
            &&& end.failures == if orphaned {
                state.failures.insert(CacheEvidenceApplyIntegrityFailure::MissingParent)
            } else {
                state.failures
            }
            &&& end.ledger.physical_telemetry_complete == (
            state.ledger.physical_telemetry_complete && !orphaned)
            &&& grown(first, goal, owner, run) && valued(goal, owner, run) && settled(
                goal,
                owner,
                run,
            ) && keeps_meanings(state.ledger, goal) ==> keeps_meanings(end.ledger, goal)
        }),
    decreases ready.len() + waiting.len(),
{
    let end = drain(state, owner, run, ready, waiting);
    if ready.len() == 0 {
        assert(end.ledger.external_copies == state.ledger.external_copies);
        assert forall|mutation: CacheEvidenceMutation|
            is_orphaned(end.ledger, owner, mutation) == is_orphaned(
                state.ledger,
                owner,
                mutation,
            ) by {}
        assert forall|mutation: CacheEvidenceMutation, j: int|
            run.contains(mutation) && resolves(end.ledger, owner, mutation) && 0 <= j < blocks_of(
                mutation,
            ).len() implies end.ledger.external_copies.contains_key(
            #[trigger] block_key(owner, mutation, j),
        ) by {
            let i = choose|i: int| 0 <= i < run.len() && run[i] == mutation;
            let p = i as usize;
            assert(run[p as int] == mutation);
            assert(is_stored(state.ledger, owner, mutation));
            assert(blocks_of(mutation)[j] == blocks_of(mutation)[j]);
        }
        if waiting.len() > 0 {
            let p = waiting[0];
            assert(waiting.contains(p));
            assert(run.contains(run[p as int]));
            assert(is_orphaned(end.ledger, owner, run[p as int]));
        } else if some_orphan(end.ledger, owner, run) {
            let mutation = choose|mutation: CacheEvidenceMutation|
                run.contains(mutation) && #[trigger] is_orphaned(end.ledger, owner, mutation);
            let i = choose|i: int| 0 <= i < run.len() && run[i] == mutation;
            let p = i as usize;
            assert(run[p as int] == mutation);
            assert(!waiting.contains(p) && !ready.contains(p));
            assert(resolves(state.ledger, owner, mutation));
        }
        lemma_flags(first, state.ledger, end.ledger, owner, run);
        lemma_flags_within(state.ledger, end.ledger, goal);
    } else {
        let rest = ready.drop_first();
        lemma_first(ready, ready[0]);
        match run[ready[0] as int] {
            CacheEvidenceMutation::Store {
                tier,
                group_idx: Some(group),
                parent_external_hash,
                blocks,
            } => {
                let (result, ledger) = state.ledger.store_mutation(
                    owner,
                    tier,
                    Some(group),
                    parent_external_hash,
                    blocks@,
                );
                assert(run.contains(run[ready[0] as int]));
                lemma_apply(
                    first,
                    state.ledger,
                    owner,
                    run,
                    tier,
                    group,
                    parent_external_hash,
                    blocks,
                );
                lemma_progress(
                    first,
                    state.ledger,
                    owner,
                    run,
                    ready,
                    waiting,
                    tier,
                    group,
                    parent_external_hash,
                    blocks,
                );
                if grown(first, goal, owner, run) && valued(goal, owner, run) && settled(
                    goal,
                    owner,
                    run,
                ) && keeps_meanings(state.ledger, goal) {
                    lemma_apply_within(
                        first,
                        state.ledger,
                        goal,
                        owner,
                        run,
                        tier,
                        group,
                        parent_external_hash,
                        blocks,
                    );
                }
                let n = blocks@.len() as int;
                lemma_unlock_len(run, group, blocks@, n, rest, waiting);
                let (r, w) = unlock(run, group, blocks@, n, rest, waiting);
                let next = Applied { ledger, ..state };
                lemma_drain_settles(next, owner, run, r, w, first, goal);
            },
            _ => {},
        }
    }
}

/// Only the meanings matter.
proof fn lemma_flags(
    first: LedgerView,
    before: LedgerView,
    after: LedgerView,
    owner: CacheOwner,
    run: Seq<CacheEvidenceMutation>,
)
    requires
        before.external_copies == after.external_copies,
        grown(first, before, owner, run),
        valued(before, owner, run),
    ensures
        grown(first, after, owner, run),
        valued(after, owner, run),
{
    assert forall|key: BlockCopy| #[trigger]
        after.external_copies.contains_key(key) && !first.external_copies.contains_key(
            key,
        ) implies from_run(owner, run, key) by {
        assert(before.external_copies.contains_key(key));
    }
    assert forall|key: BlockCopy|
        #![trigger first.external_copies.contains_key(key)]
        #![trigger after.external_copies.contains_key(key)]
        first.external_copies.contains_key(key) implies after.external_copies.contains_key(key)
        && after.external_copies[key].0 == first.external_copies[key].0 by {
        assert(before.external_copies.contains_key(key));
    }
    assert forall|group: u32, hash: u64| #[trigger]
        after.parent_sequence_hash(owner, group, hash) == before.parent_sequence_hash(
            owner,
            group,
            hash,
        ) by {}
    assert forall|mutation: CacheEvidenceMutation, j: int|
        run.contains(mutation) && is_grouped(mutation) && 0 <= j < blocks_of(mutation).len()
            && after.external_copies.contains_key(
            #[trigger] block_key(owner, mutation, j),
        ) implies resolves(after, owner, mutation) && after.external_copies[block_key(
        owner,
        mutation,
        j,
    )].0 == chain(above(after, owner, mutation), blocks_of(mutation))[j] by {
        assert(before.external_copies.contains_key(block_key(owner, mutation, j)));
    }
}

proof fn lemma_flags_within(before: LedgerView, after: LedgerView, goal: LedgerView)
    requires
        before.external_copies == after.external_copies,
    ensures
        keeps_meanings(before, goal) ==> keeps_meanings(after, goal),
{
    if keeps_meanings(before, goal) {
        assert forall|key: BlockCopy|
            #![trigger after.external_copies.contains_key(key)]
            #![trigger goal.external_copies.contains_key(key)]
            after.external_copies.contains_key(key) implies goal.external_copies.contains_key(key)
            && goal.external_copies[key].0 == after.external_copies[key].0 by {
            assert(before.external_copies.contains_key(key));
        }
    }
}

// ---- copies follow announcements ----

/// An engine hash that is new since `first` announces the block.
spec fn newly_announced(first: LedgerView, ledger: LedgerView, key: BlockCopy) -> bool {
    exists|external: BlockCopy|
        #[trigger] ledger.external_copies.contains_key(external)
            && !first.external_copies.contains_key(external) && external.copy == key.copy
            && ledger.external_copies[external].0 == key.hash
}

/// Copies are those of the first ledger and those announced since.
spec fn follows(first: LedgerView, ledger: LedgerView) -> bool {
    forall|key: BlockCopy| #[trigger]
        ledger.copies.contains_key(key) <==> first.copies.contains_key(key) || newly_announced(
            first,
            ledger,
            key,
        )
}

proof fn lemma_store_mapped_follows(
    first: LedgerView,
    before: LedgerView,
    owner: CacheOwner,
    tier: CacheTier,
    group: u32,
    external_hash: u64,
    sequence_hash: u64,
)
    requires
        follows(first, before),
        first.mapped(owner, tier, group, external_hash) is None,
    ensures
        follows(first, before.store_mapped(owner, tier, group, external_hash, sequence_hash)),
{
    let after = before.store_mapped(owner, tier, group, external_hash, sequence_hash);
    let copy = PhysicalCopy { owner, tier, group };
    let external = BlockCopy { hash: external_hash, copy };
    let stored = BlockCopy { hash: sequence_hash, copy };
    let mapped = before.mapped(owner, tier, group, external_hash);
    if mapped is Some && mapped != Some(sequence_hash) {
        lemma_same_follows(first, before, after);
    } else {
        assert(after.external_copies.contains_key(external));
        assert forall|key: BlockCopy| #[trigger]
            after.copies.contains_key(key) <==> first.copies.contains_key(key) || newly_announced(
                first,
                after,
                key,
            ) by {
            assert(before.copies.contains_key(key) <==> first.copies.contains_key(key)
                || newly_announced(first, before, key));
            if newly_announced(first, before, key) {
                let e = choose|e: BlockCopy|
                    #[trigger] before.external_copies.contains_key(e)
                        && !first.external_copies.contains_key(e) && e.copy == key.copy
                        && before.external_copies[e].0 == key.hash;
                assert(after.external_copies.contains_key(e));
                assert(after.external_copies[e].0 == key.hash);
            }
            if newly_announced(first, after, key) {
                let e = choose|e: BlockCopy|
                    #[trigger] after.external_copies.contains_key(e)
                        && !first.external_copies.contains_key(e) && e.copy == key.copy
                        && after.external_copies[e].0 == key.hash;
                if e != external {
                    assert(before.external_copies.contains_key(e));
                    assert(newly_announced(first, before, key));
                } else {
                    assert(key == stored);
                }
            }
            if key == stored {
                assert(newly_announced(first, after, key));
            }
        }
    }
}

/// Only copies and announcements matter.
proof fn lemma_same_follows(first: LedgerView, before: LedgerView, after: LedgerView)
    requires
        follows(first, before),
        before.copies == after.copies,
        before.external_copies == after.external_copies,
    ensures
        follows(first, after),
{
    assert forall|key: BlockCopy| #[trigger]
        after.copies.contains_key(key) <==> first.copies.contains_key(key) || newly_announced(
            first,
            after,
            key,
        ) by {
        assert(before.copies.contains_key(key) <==> first.copies.contains_key(key)
            || newly_announced(first, before, key));
        if newly_announced(first, before, key) {
            let e = choose|e: BlockCopy|
                #[trigger] before.external_copies.contains_key(e)
                    && !first.external_copies.contains_key(e) && e.copy == key.copy
                    && before.external_copies[e].0 == key.hash;
            assert(after.external_copies.contains_key(e));
        }
        if newly_announced(first, after, key) {
            let e = choose|e: BlockCopy|
                #[trigger] after.external_copies.contains_key(e)
                    && !first.external_copies.contains_key(e) && e.copy == key.copy
                    && after.external_copies[e].0 == key.hash;
            assert(before.external_copies.contains_key(e));
        }
    }
}

proof fn lemma_store_each_follows(
    first: LedgerView,
    before: LedgerView,
    owner: CacheOwner,
    tier: CacheTier,
    group: u32,
    blocks: Seq<CacheEvidenceStoredBlock>,
    hashes: Seq<u64>,
    count: int,
)
    requires
        follows(first, before),
        0 <= count <= blocks.len(),
        forall|j: int|
            #![trigger blocks[j]]
            0 <= j < blocks.len() ==> first.mapped(owner, tier, group, blocks[j].external_hash)
                is None,
    ensures
        follows(first, before.store_each(owner, tier, group, blocks, hashes, count)),
    decreases count,
{
    if count > 0 {
        lemma_store_each_follows(first, before, owner, tier, group, blocks, hashes, count - 1);
        lemma_store_mapped_follows(
            first,
            before.store_each(owner, tier, group, blocks, hashes, count - 1),
            owner,
            tier,
            group,
            blocks[count - 1].external_hash,
            hashes[count - 1],
        );
    }
}

proof fn lemma_drain_follows(
    state: Applied,
    owner: CacheOwner,
    run: Seq<CacheEvidenceMutation>,
    ready: Seq<usize>,
    waiting: Seq<usize>,
    first: LedgerView,
)
    requires
        unseen(first, owner, run),
        follows(first, state.ledger),
        forall|p: usize| #[trigger] ready.contains(p) ==> p < run.len(),
        forall|p: usize| #[trigger] waiting.contains(p) ==> p < run.len(),
    ensures
        follows(first, drain(state, owner, run, ready, waiting).ledger),
    decreases ready.len() + waiting.len(),
{
    if ready.len() == 0 {
        lemma_same_follows(
            first,
            state.ledger,
            drain(state, owner, run, ready, waiting).ledger,
        );
    } else {
        let rest = ready.drop_first();
        lemma_first(ready, ready[0]);
        assert forall|p: usize| #[trigger] rest.contains(p) implies p < run.len() by {
            lemma_first(ready, p);
        }
        let store = run[ready[0] as int];
        assert(run.contains(store));
        match store {
            CacheEvidenceMutation::Store {
                tier,
                group_idx: Some(group),
                parent_external_hash,
                blocks,
            } => {
                let (result, ledger) = state.ledger.store_mutation(
                    owner,
                    tier,
                    Some(group),
                    parent_external_hash,
                    blocks@,
                );
                let next = match result {
                    StoreMutationResult::Applied => Applied { ledger, ..state },
                    StoreMutationResult::MissingParent => state.fail(
                        CacheEvidenceApplyIntegrityFailure::MissingParent,
                    ),
                    StoreMutationResult::RejectedMapping => state.fail(
                        CacheEvidenceApplyIntegrityFailure::ConflictingMapping,
                    ),
                    StoreMutationResult::Invalid => state.fail(
                        CacheEvidenceApplyIntegrityFailure::MissingGroup,
                    ),
                };
                if result == StoreMutationResult::Applied {
                    let root = above(state.ledger, owner, store);
                    let hashes = chain(root, blocks@);
                    let n = blocks@.len() as int;
                    assert forall|j: int| #![trigger blocks@[j]] 0 <= j < n implies first.mapped(
                        owner,
                        tier,
                        group,
                        blocks@[j].external_hash,
                    ) is None by {
                        assert(names_block(store, j, group, blocks@[j].external_hash));
                        match tier {
                            CacheTier::Gpu => {},
                            CacheTier::Cpu => {},
                        }
                    }
                    let seen = state.ledger.see_all(hashes);
                    lemma_see_all_keeps(state.ledger, hashes);
                    lemma_see_all_copies(state.ledger, hashes);
                    lemma_same_follows(first, state.ledger, seen);
                    lemma_store_each_follows(first, seen, owner, tier, group, blocks@, hashes, n);
                    lemma_unlock_len(run, group, blocks@, n, rest, waiting);
                    let (r, w) = unlock(run, group, blocks@, n, rest, waiting);
                    assert forall|p: usize| #[trigger] r.contains(p) implies p < run.len() by {
                        lemma_unlock_members(run, group, blocks@, n, rest, waiting, p);
                    }
                    assert forall|p: usize| #[trigger] w.contains(p) implies p < run.len() by {
                        lemma_unlock_members(run, group, blocks@, n, rest, waiting, p);
                    }
                    lemma_drain_follows(next, owner, run, r, w, first);
                } else {
                    lemma_same_follows(first, state.ledger, next.ledger);
                    lemma_drain_follows(next, owner, run, rest, waiting, first);
                }
            },
            _ => {
                lemma_drain_follows(state, owner, run, rest, waiting, first);
            },
        }
    }
}

// ---- a whole run ----

spec fn screened(state: Applied, run: Seq<CacheEvidenceMutation>) -> Applied {
    if exists|i: int| 0 <= i < run.len() && lacks_group(#[trigger] run[i]) {
        state.fail(CacheEvidenceApplyIntegrityFailure::MissingGroup)
    } else {
        state
    }
}

proof fn lemma_run_settles(
    state: Applied,
    owner: CacheOwner,
    run: Seq<CacheEvidenceMutation>,
    goal: LedgerView,
)
    requires
        run.len() <= usize::MAX,
        unambiguous(run),
        unseen(state.ledger, owner, run),
    ensures
        ({
            let first = state.ledger;
            let end = apply_store_run(state, owner, run);
            let orphaned = some_orphan(end.ledger, owner, run);
            &&& grown(first, end.ledger, owner, run)
            &&& valued(end.ledger, owner, run)
            &&& settled(end.ledger, owner, run)
            &&& follows(first, end.ledger)
            &&& end.failures == if orphaned {
                screened(state, run).failures.insert(
                    CacheEvidenceApplyIntegrityFailure::MissingParent,
                )
            } else {
                screened(state, run).failures
            }
            &&& end.ledger.physical_telemetry_complete == (screened(
                state,
                run,
            ).ledger.physical_telemetry_complete && !orphaned)
            &&& grown(first, goal, owner, run) && valued(goal, owner, run) && settled(
                goal,
                owner,
                run,
            ) ==> keeps_meanings(end.ledger, goal)
        }),
{
    let first = state.ledger;
    let start = screened(state, run);
    let n = run.len() as int;
    let ready = positions(first, owner, run, true, n);
    let waiting = positions(first, owner, run, false, n);
    assert(start.ledger.external_copies == first.external_copies);
    assert(start.ledger.copies == first.copies);
    assert forall|group: u32, hash: u64| #[trigger]
        start.ledger.parent_sequence_hash(owner, group, hash) == first.parent_sequence_hash(
            owner,
            group,
            hash,
        ) by {}
    assert(keeps_meanings(first, start.ledger));
    assert(grown(first, start.ledger, owner, run));
    assert forall|mutation: CacheEvidenceMutation, j: int|
        run.contains(mutation) && is_grouped(mutation) && 0 <= j < blocks_of(
            mutation,
        ).len() implies !start.ledger.external_copies.contains_key(
        #[trigger] block_key(owner, mutation, j),
    ) by {
        let key = block_key(owner, mutation, j);
        assert(names_block(mutation, j, key.copy.group, key.hash));
        match key.copy.tier {
            CacheTier::Gpu => {
                assert(first.mapped(owner, CacheTier::Gpu, key.copy.group, key.hash) is None);
            },
            CacheTier::Cpu => {
                assert(first.mapped(owner, CacheTier::Cpu, key.copy.group, key.hash) is None);
            },
        }
    }
    assert(valued(start.ledger, owner, run));
    assert forall|p: usize| #[trigger] ready.contains(p) implies p < run.len() && resolves(
        start.ledger,
        owner,
        run[p as int],
    ) by {
        lemma_positions(first, owner, run, true, n, p);
    }
    assert forall|p: usize| #[trigger] waiting.contains(p) implies p < run.len() && is_orphaned(
        start.ledger,
        owner,
        run[p as int],
    ) by {
        lemma_positions(first, owner, run, false, n, p);
    }
    assert forall|p: usize|
        #![trigger ready.contains(p)]
        #![trigger waiting.contains(p)]
        #![trigger run[p as int]]
        p < run.len() && is_grouped(run[p as int]) && !ready.contains(p) && !waiting.contains(
            p,
        ) implies resolves(start.ledger, owner, run[p as int]) && is_stored(
        start.ledger,
        owner,
        run[p as int],
    ) by {
        lemma_positions(first, owner, run, true, n, p);
        lemma_positions(first, owner, run, false, n, p);
    }
    lemma_drain_settles(start, owner, run, ready, waiting, first, goal);
    assert(follows(first, first)) by {
        assert forall|key: BlockCopy| #[trigger]
            first.copies.contains_key(key) <==> first.copies.contains_key(key) || newly_announced(
                first,
                first,
                key,
            ) by {}
    }
    lemma_same_follows(first, first, start.ledger);
    lemma_drain_follows(start, owner, run, ready, waiting, first);
    if grown(first, goal, owner, run) {
        lemma_flags_within(first, start.ledger, goal);
    }
}

/// Two orders of a run agree on what every engine hash stands for, on the
/// copies, the failures and the telemetry.
proof fn lemma_runs_agree(
    state: Applied,
    owner: CacheOwner,
    run: Seq<CacheEvidenceMutation>,
    other: Seq<CacheEvidenceMutation>,
)
    requires
        run.len() <= usize::MAX,
        other.len() <= usize::MAX,
        same_stores(run, other),
        unambiguous(run),
        unseen(state.ledger, owner, run),
    ensures
        ({
            let a = apply_store_run(state, owner, run);
            let b = apply_store_run(state, owner, other);
            &&& a.failures == b.failures
            &&& a.ledger.physical_telemetry_complete == b.ledger.physical_telemetry_complete
            &&& a.ledger.external_copies.dom() == b.ledger.external_copies.dom()
            &&& a.ledger.copies.dom() == b.ledger.copies.dom()
        }),
{
    let first = state.ledger;
    let a = apply_store_run(state, owner, run);
    let b = apply_store_run(state, owner, other);
    lemma_carried(first, first, owner, run, other);
    lemma_run_settles(state, owner, run, first);
    lemma_run_settles(state, owner, other, first);
    lemma_carried(first, a.ledger, owner, run, other);
    lemma_carried(first, b.ledger, owner, other, run);
    lemma_run_settles(state, owner, run, b.ledger);
    lemma_run_settles(state, owner, other, a.ledger);
    assert forall|key: BlockCopy| a.ledger.external_copies.contains_key(key)
        == b.ledger.external_copies.contains_key(key) by {}
    assert(a.ledger.external_copies.dom() =~= b.ledger.external_copies.dom());
    assert forall|key: BlockCopy| #[trigger]
        a.ledger.copies.contains_key(key) == b.ledger.copies.contains_key(key) by {
        if newly_announced(first, a.ledger, key) {
            lemma_newly_announced(first, a.ledger, b.ledger, key);
        }
        if newly_announced(first, b.ledger, key) {
            lemma_newly_announced(first, b.ledger, a.ledger, key);
        }
        assert(b.ledger.copies.contains_key(key) <==> first.copies.contains_key(key)
            || newly_announced(first, b.ledger, key));
    }
    assert(a.ledger.copies.dom() =~= b.ledger.copies.dom());
    assert forall|tier: CacheTier, group: u32, hash: u64| #[trigger]
        a.ledger.mapped(owner, tier, group, hash) == b.ledger.mapped(owner, tier, group, hash) by {
        let key = BlockCopy { hash, copy: PhysicalCopy { owner, tier, group } };
        assert(a.ledger.external_copies.contains_key(key)
            == b.ledger.external_copies.contains_key(key));
    }
    assert forall|mutation: CacheEvidenceMutation| #[trigger]
        is_orphaned(a.ledger, owner, mutation) == is_orphaned(b.ledger, owner, mutation) by {}
    if some_orphan(a.ledger, owner, run) {
        let mutation = choose|mutation: CacheEvidenceMutation|
            run.contains(mutation) && #[trigger] is_orphaned(a.ledger, owner, mutation);
        assert(other.contains(mutation) && is_orphaned(b.ledger, owner, mutation));
    }
    if some_orphan(b.ledger, owner, other) {
        let mutation = choose|mutation: CacheEvidenceMutation|
            other.contains(mutation) && #[trigger] is_orphaned(b.ledger, owner, mutation);
        assert(run.contains(mutation) && is_orphaned(a.ledger, owner, mutation));
    }
    if exists|i: int| 0 <= i < run.len() && lacks_group(#[trigger] run[i]) {
        lemma_same_screen(run, other);
    }
    if exists|i: int| 0 <= i < other.len() && lacks_group(#[trigger] other[i]) {
        lemma_same_screen(other, run);
    }
}

proof fn lemma_same_screen(run: Seq<CacheEvidenceMutation>, other: Seq<CacheEvidenceMutation>)
    requires
        same_stores(run, other),
        exists|i: int| 0 <= i < run.len() && lacks_group(#[trigger] run[i]),
    ensures
        exists|i: int| 0 <= i < other.len() && lacks_group(#[trigger] other[i]),
{
    let i = choose|i: int| 0 <= i < run.len() && lacks_group(#[trigger] run[i]);
    assert(run.contains(run[i]));
    assert(other.contains(run[i]));
    let k = choose|k: int| 0 <= k < other.len() && other[k] == run[i];
    assert(lacks_group(other[k]));
}

/// What is said of a run is said of its stores, not of their order.
proof fn lemma_carried(
    first: LedgerView,
    ledger: LedgerView,
    owner: CacheOwner,
    run: Seq<CacheEvidenceMutation>,
    other: Seq<CacheEvidenceMutation>,
)
    requires
        same_stores(run, other),
    ensures
        unambiguous(run) ==> unambiguous(other),
        unseen(first, owner, run) ==> unseen(first, owner, other),
        grown(first, ledger, owner, run) ==> grown(first, ledger, owner, other),
        valued(ledger, owner, run) ==> valued(ledger, owner, other),
        settled(ledger, owner, run) ==> settled(ledger, owner, other),
{
    if grown(first, ledger, owner, run) {
        assert forall|key: BlockCopy| #[trigger]
            ledger.external_copies.contains_key(key) && !first.external_copies.contains_key(
                key,
            ) implies from_run(owner, other, key) by {
            assert(from_run(owner, run, key));
            let (m, j) = choose|m: CacheEvidenceMutation, j: int|
                run.contains(m) && #[trigger] names_block(m, j, key.copy.group, key.hash)
                    && place_of(owner, m) == key.copy;
            assert(other.contains(m) && names_block(m, j, key.copy.group, key.hash));
        }
    }
}

proof fn lemma_newly_announced(
    first: LedgerView,
    ledger: LedgerView,
    other: LedgerView,
    key: BlockCopy,
)
    requires
        keeps_meanings(ledger, other),
        newly_announced(first, ledger, key),
    ensures
        newly_announced(first, other, key),
{
    let e = choose|e: BlockCopy|
        #[trigger] ledger.external_copies.contains_key(e) && !first.external_copies.contains_key(e)
            && e.copy == key.copy && ledger.external_copies[e].0 == key.hash;
    assert(other.external_copies.contains_key(e));
}

proof fn lemma_all_stores(mutations: Seq<CacheEvidenceMutation>, from: int)
    requires
        0 <= from <= mutations.len(),
        forall|i: int| 0 <= i < mutations.len() ==> is_store(#[trigger] mutations[i]),
    ensures
        run_end(mutations, from) == mutations.len(),
    decreases mutations.len() - from,
{
    if from < mutations.len() {
        lemma_all_stores(mutations, from + 1);
    }
}

/// A batch of stores is one run.
proof fn lemma_store_batch(
    ledger: LedgerView,
    owner: CacheOwner,
    telemetry_complete: bool,
    mutations: Seq<CacheEvidenceMutation>,
)
    requires
        forall|i: int| 0 <= i < mutations.len() ==> is_store(#[trigger] mutations[i]),
    ensures
        ({
            let start = admitted(ledger, telemetry_complete);
            let end = apply_store_run(start, owner, mutations);
            let applied = apply_batch(ledger, owner, telemetry_complete, mutations);
            &&& applied.failures == end.failures
            &&& applied.ledger.copies == end.ledger.copies
            &&& applied.ledger.external_copies == end.ledger.external_copies
            &&& applied.ledger.physical_telemetry_complete == (ledger.physical_telemetry_complete
                && end.ledger.physical_telemetry_complete)
        }),
{
    let start = admitted(ledger, telemetry_complete);
    let n = mutations.len() as int;
    if n == 0 {
        reveal_with_fuel(drain, 1);
        reveal_with_fuel(positions, 1);
        assert(apply_store_run(start, owner, mutations) == start);
    } else {
        lemma_all_stores(mutations, 0);
        assert(is_store(mutations[0]));
        assert(mutations.subrange(0, n) =~= mutations);
        let end = apply_store_run(start, owner, mutations);
        assert(apply_mutations(end, owner, mutations, n) == end);
        assert(apply_mutations(start, owner, mutations, 0) == end);
    }
}

/// The order of a batch of stores does not matter, as long as no engine hash
/// of a group is announced by two different blocks or is already stored for
/// the owner: in any other order the same failures are reported, the same
/// blocks are counted on each tier, and the same is known of every block's
/// residency.
pub proof fn law_order_of_stores_does_not_matter(
    ledger: LedgerView,
    owner: CacheOwner,
    telemetry_complete: bool,
    mutations: Seq<CacheEvidenceMutation>,
    reordered: Seq<CacheEvidenceMutation>,
)
    requires
        mutations.len() <= usize::MAX,
        reordered.len() <= usize::MAX,
        forall|i: int| 0 <= i < mutations.len() ==> is_store(#[trigger] mutations[i]),
        same_stores(mutations, reordered),
        unambiguous(mutations),
        unseen(ledger, owner, mutations),
    ensures
        ({
            let a = apply_batch(ledger, owner, telemetry_complete, mutations);
            let b = apply_batch(ledger, owner, telemetry_complete, reordered);
            &&& a.failures == b.failures
            &&& forall|tier: CacheTier| #[trigger]
                a.ledger.physical_blocks(tier) == b.ledger.physical_blocks(tier)
            &&& forall|hash: u64, at: CacheOwner| #[trigger]
                a.ledger.resident_on(hash, at) == b.ledger.resident_on(hash, at)
            &&& forall|hash: u64| #[trigger]
                a.ledger.resident_anywhere(hash) == b.ledger.resident_anywhere(hash)
        }),
{
    let a = apply_batch(ledger, owner, telemetry_complete, mutations);
    let b = apply_batch(ledger, owner, telemetry_complete, reordered);
    let start = admitted(ledger, telemetry_complete);
    assert forall|i: int| 0 <= i < reordered.len() implies is_store(#[trigger] reordered[i]) by {
        assert(reordered.contains(reordered[i]));
        assert(mutations.contains(reordered[i]));
    }
    assert(unseen(start.ledger, owner, mutations)) by {
        assert forall|tier: CacheTier, group: u32, hash: u64| #[trigger]
            start.ledger.mapped(owner, tier, group, hash) == ledger.mapped(
                owner,
                tier,
                group,
                hash,
            ) by {}
    }
    lemma_store_batch(ledger, owner, telemetry_complete, mutations);
    lemma_store_batch(ledger, owner, telemetry_complete, reordered);
    lemma_runs_agree(start, owner, mutations, reordered);
    law_batch_is_confined_to_its_owner(ledger, owner, telemetry_complete, mutations);
    law_batch_is_confined_to_its_owner(ledger, owner, telemetry_complete, reordered);
    assert forall|tier: CacheTier| #[trigger]
        a.ledger.physical_blocks(tier) == b.ledger.physical_blocks(tier) by {
        assert(a.ledger.physical_blocks(tier) =~= b.ledger.physical_blocks(tier));
    }
    assert forall|hash: u64, at: CacheOwner, tier: CacheTier| #[trigger]
        a.ledger.resident_in_declared_cache(hash, at, tier)
            == b.ledger.resident_in_declared_cache(hash, at, tier) by {
        if a.ledger.resident_in_declared_cache(hash, at, tier) {
            lemma_same_residency(a.ledger, b.ledger, hash, at, tier);
        }
        if b.ledger.resident_in_declared_cache(hash, at, tier) {
            lemma_same_residency(b.ledger, a.ledger, hash, at, tier);
        }
    }
    assert forall|at: CacheOwner| #[trigger]
        a.ledger.cataloged(at) == b.ledger.cataloged(at) by {}
    assert forall|hash: u64| #[trigger]
        a.ledger.resident_anywhere(hash) == b.ledger.resident_anywhere(hash) by {
        if exists|key: OwnerTier| #[trigger]
            a.ledger.resident_in_declared_cache(hash, key.owner, key.tier) {
            let key = choose|key: OwnerTier| #[trigger]
                a.ledger.resident_in_declared_cache(hash, key.owner, key.tier);
            assert(b.ledger.resident_in_declared_cache(hash, key.owner, key.tier));
        }
        if exists|key: OwnerTier| #[trigger]
            b.ledger.resident_in_declared_cache(hash, key.owner, key.tier) {
            let key = choose|key: OwnerTier| #[trigger]
                b.ledger.resident_in_declared_cache(hash, key.owner, key.tier);
            assert(a.ledger.resident_in_declared_cache(hash, key.owner, key.tier));
        }
    }
}

proof fn lemma_same_residency(
    a: LedgerView,
    b: LedgerView,
    hash: u64,
    at: CacheOwner,
    tier: CacheTier,
)
    requires
        a.copies.dom() == b.copies.dom(),
        a.required_groups == b.required_groups,
        a.resident_in_declared_cache(hash, at, tier),
    ensures
        b.resident_in_declared_cache(hash, at, tier),
{
    let key = OwnerTier { owner: at, tier };
    assert forall|group: u32| #[trigger]
        b.required_groups[key].contains(group) implies b.holds_copy(hash, at, tier, group) by {
        assert(a.holds_copy(hash, at, tier, group));
        let block = BlockCopy { hash, copy: PhysicalCopy { owner: at, tier, group } };
        assert(a.copies.dom().contains(block));
    }
}

} // verus!
