//! Reference counting: copies are exactly what was announced and not withdrawn.

use vstd::prelude::*;

use crate::announcements::{
    announced, by_place, count, lemma_announced_changed, lemma_backed_copy_is_announced,
    lemma_kept_announcements, lemma_weight_is_announced,
};
use crate::evidence::{
    BlockCopy, CacheEvidenceApplyIntegrityFailure, CacheEvidenceMutation,
    CacheEvidenceStoredBlock, CacheOwner, CacheTier, KnownBool, OwnerTier, PhysicalCopy,
};
use crate::ledger_laws::{
    law_batch_is_confined_to_its_owner, law_store_is_all_or_nothing, lemma_chain_len,
};
use crate::model::{
    admitted, apply_batch, apply_mutations, apply_store_run, chain, covers, drain, lacks_group,
    lemma_run_end, lemma_unlock_len, positions, run_end, unlock, Applied, LedgerView,
    StoreMutationResult,
};

verus! {

/// Every block is counted exactly as often as it is announced.
pub open spec fn counted(ledger: LedgerView) -> bool {
    &&& ledger.external_copies.dom().finite()
    &&& forall|key: BlockCopy| #[trigger]
        count(ledger.copies, key) == announced(ledger.external_copies, key)
}

/// Nothing is counted in an empty ledger.
pub proof fn law_empty_ledger_is_counted(history_capacity: nat)
    ensures
        counted(LedgerView::empty(history_capacity)),
{
}

/// An accepted announcement is counted once, as long as no count is at its
/// limit.
pub proof fn law_store_is_counted(
    ledger: LedgerView,
    owner: CacheOwner,
    tier: CacheTier,
    group: u32,
    external_hash: u64,
    sequence_hash: u64,
)
    requires
        counted(ledger),
        ({
            let copy = PhysicalCopy { owner, tier, group };
            let external = BlockCopy { hash: external_hash, copy };
            &&& ledger.external_copies.contains_key(external)
                ==> ledger.external_copies[external].1 < u32::MAX
            &&& count(ledger.copies, BlockCopy { hash: sequence_hash, copy }) < u32::MAX
        }),
    ensures
        counted(ledger.store_mapped(owner, tier, group, external_hash, sequence_hash)),
{
    let copy = PhysicalCopy { owner, tier, group };
    let external = BlockCopy { hash: external_hash, copy };
    let after = ledger.store_mapped(owner, tier, group, external_hash, sequence_hash);
    assert forall|key: BlockCopy| #[trigger]
        count(after.copies, key) == announced(after.external_copies, key) by {
        assert(count(ledger.copies, key) == announced(ledger.external_copies, key));
        lemma_announced_changed(ledger.external_copies, after.external_copies, external, key);
    }
}

/// A withdrawn announcement is no longer counted, and withdrawing one that
/// was made loses no telemetry.
pub proof fn law_remove_is_counted(
    ledger: LedgerView,
    owner: CacheOwner,
    tier: CacheTier,
    group: u32,
    external_hash: u64,
)
    requires
        counted(ledger),
        ledger.inv(),
    ensures
        counted(ledger.remove_external(owner, tier, group, external_hash)),
        ledger.mapped(owner, tier, group, external_hash) is Some ==> ledger.remove_external(
            owner,
            tier,
            group,
            external_hash,
        ).physical_telemetry_complete == ledger.physical_telemetry_complete,
{
    let copy = PhysicalCopy { owner, tier, group };
    let external = BlockCopy { hash: external_hash, copy };
    let after = ledger.remove_external(owner, tier, group, external_hash);
    if ledger.external_copies.contains_key(external) {
        let stored = BlockCopy { hash: ledger.external_copies[external].0, copy };
        assert(count(ledger.copies, stored) >= 1) by {
            assert(count(ledger.copies, stored) == announced(ledger.external_copies, stored));
            lemma_weight_is_announced(ledger.external_copies, stored, external);
        }
        assert forall|key: BlockCopy| #[trigger]
            count(after.copies, key) == announced(after.external_copies, key) by {
            assert(count(ledger.copies, key) == announced(ledger.external_copies, key));
            lemma_announced_changed(ledger.external_copies, after.external_copies, external, key);
        }
    } else {
        assert forall|key: BlockCopy| #[trigger]
            count(after.copies, key) == announced(after.external_copies, key) by {
            assert(count(ledger.copies, key) == announced(ledger.external_copies, key));
        }
    }
}

/// Dropping whole places drops announcements and copies alike.
proof fn lemma_kept_is_counted(
    ledger: LedgerView,
    after: LedgerView,
    kept: spec_fn(BlockCopy) -> bool,
)
    requires
        counted(ledger),
        by_place(kept),
        after.copies == ledger.copies.restrict(Set::new(kept)),
        after.external_copies == ledger.external_copies.restrict(Set::new(kept)),
    ensures
        counted(after),
{
    assert forall|key: BlockCopy| #[trigger]
        count(after.copies, key) == announced(after.external_copies, key) by {
        assert(count(ledger.copies, key) == announced(ledger.external_copies, key));
        lemma_kept_announcements(ledger.external_copies, kept, key);
    }
    vstd::set_lib::lemma_set_subset_finite(
        ledger.external_copies.dom(),
        after.external_copies.dom(),
    );
}

/// A clear withdraws announcements and copies alike.
pub proof fn law_clear_is_counted(ledger: LedgerView, owner: CacheOwner, tier: Option<CacheTier>)
    requires
        counted(ledger),
    ensures
        counted(ledger.clear(owner, tier)),
{
    let kept = |key: BlockCopy| !covers(owner, tier, key.copy);
    lemma_kept_is_counted(ledger, ledger.clear(owner, tier), kept);
}

/// A change of membership withdraws announcements and copies alike.
pub proof fn law_membership_is_counted(
    ledger: LedgerView,
    owner: CacheOwner,
    owners: Set<CacheOwner>,
)
    requires
        counted(ledger),
    ensures
        counted(ledger.retire_owner(owner)),
        counted(ledger.set_expected_owners(owners)),
{
    law_clear_is_counted(ledger, owner, None);
    let cleared = ledger.clear(owner, None);
    let retired = ledger.retire_owner(owner);
    assert(retired.copies == cleared.copies);
    assert(retired.external_copies == cleared.external_copies);
    let kept = |key: BlockCopy|
        owners.contains(key.copy.owner) || !ledger.cataloged(key.copy.owner);
    lemma_kept_is_counted(ledger, ledger.set_expected_owners(owners), kept);
}

// ---- what a mutation can change ----

/// No copy of a block with this rolling hash differs.
pub open spec fn same_copies(before: LedgerView, after: LedgerView, hash: u64) -> bool {
    forall|copy: PhysicalCopy|
        #![trigger after.copies.contains_key(BlockCopy { hash, copy })]
        before.copies.contains_key(BlockCopy { hash, copy }) == after.copies.contains_key(
            BlockCopy { hash, copy },
        ) && (before.copies.contains_key(BlockCopy { hash, copy }) ==> before.copies[BlockCopy {
            hash,
            copy,
        }] == after.copies[BlockCopy { hash, copy }])
}

pub(crate) proof fn lemma_see_all_copies(ledger: LedgerView, hashes: Seq<u64>)
    ensures
        ledger.see_all(hashes).copies == ledger.copies,
    decreases hashes.len(),
{
    if hashes.len() > 0 {
        lemma_see_all_copies(ledger, hashes.drop_last());
    }
}

proof fn lemma_store_each_copies(
    ledger: LedgerView,
    owner: CacheOwner,
    tier: CacheTier,
    group: u32,
    blocks: Seq<CacheEvidenceStoredBlock>,
    hashes: Seq<u64>,
    n: int,
    hash: u64,
)
    requires
        0 <= n <= hashes.len(),
        !hashes.contains(hash),
    ensures
        same_copies(ledger, ledger.store_each(owner, tier, group, blocks, hashes, n), hash),
    decreases n,
{
    if n > 0 {
        lemma_store_each_copies(ledger, owner, tier, group, blocks, hashes, n - 1, hash);
        assert(hashes.contains(hashes[n - 1]));
        let before = ledger.store_each(owner, tier, group, blocks, hashes, n - 1);
        let after = before.store_mapped(
            owner,
            tier,
            group,
            blocks[n - 1].external_hash,
            hashes[n - 1],
        );
        assert(hashes[n - 1] != hash);
        assert(after == ledger.store_each(owner, tier, group, blocks, hashes, n));
        assert forall|copy: PhysicalCopy|
            #![trigger after.copies.contains_key(BlockCopy { hash, copy })]
            ledger.copies.contains_key(BlockCopy { hash, copy }) == after.copies.contains_key(
                BlockCopy { hash, copy },
            ) && (ledger.copies.contains_key(BlockCopy { hash, copy })
                ==> ledger.copies[BlockCopy { hash, copy }] == after.copies[BlockCopy {
                hash,
                copy,
            }]) by {
            let key = BlockCopy { hash, copy };
            assert(before.copies.contains_key(BlockCopy { hash, copy })
                == ledger.copies.contains_key(key));
            assert(after.copies.contains_key(key) == before.copies.contains_key(key));
        }
        assert(same_copies(ledger, after, hash));
    } else {
        assert(ledger.store_each(owner, tier, group, blocks, hashes, n) == ledger);
        assert(same_copies(ledger, ledger, hash));
    }
}

/// A store changes only copies of the blocks that are announced beforehand.
pub proof fn law_store_changes_only_affected_blocks(
    ledger: LedgerView,
    owner: CacheOwner,
    tier: CacheTier,
    group_idx: Option<u32>,
    parent_external_hash: Option<u64>,
    blocks: Vec<CacheEvidenceStoredBlock>,
    hash: u64,
)
    requires
        !ledger.affected_sequence_hashes(
            owner,
            CacheEvidenceMutation::Store { tier, group_idx, parent_external_hash, blocks },
        ).contains(hash),
    ensures
        same_copies(
            ledger,
            ledger.store_mutation(owner, tier, group_idx, parent_external_hash, blocks@).1,
            hash,
        ),
{
    if let Some(group) = group_idx {
        let parent = match parent_external_hash {
            None => None,
            Some(external_hash) => ledger.parent_sequence_hash(owner, group, external_hash),
        };
        if parent_external_hash is None || parent is Some {
            let hashes = chain(parent, blocks@);
            lemma_chain_len(parent, blocks@);
            assert(!hashes.contains(hash));
            lemma_see_all_copies(ledger, hashes);
            lemma_store_each_copies(
                ledger.see_all(hashes),
                owner,
                tier,
                group,
                blocks@,
                hashes,
                blocks@.len() as int,
                hash,
            );
        }
    }
}

proof fn lemma_remove_all_copies(
    ledger: LedgerView,
    owner: CacheOwner,
    tier: CacheTier,
    group: u32,
    external_hashes: Seq<u64>,
    hash: u64,
)
    requires
        forall|i: int|
            0 <= i < external_hashes.len() ==> ledger.mapped(
                owner,
                tier,
                group,
                #[trigger] external_hashes[i],
            ) != Some(hash),
    ensures
        same_copies(ledger, ledger.remove_all(owner, tier, group, external_hashes), hash),
        forall|e: u64| #[trigger]
            ledger.remove_all(owner, tier, group, external_hashes).mapped(owner, tier, group, e)
                is None || ledger.remove_all(owner, tier, group, external_hashes).mapped(
                owner,
                tier,
                group,
                e,
            ) == ledger.mapped(owner, tier, group, e),
    decreases external_hashes.len(),
{
    if external_hashes.len() > 0 {
        let front = external_hashes.drop_last();
        assert forall|i: int| 0 <= i < front.len() implies ledger.mapped(
            owner,
            tier,
            group,
            #[trigger] front[i],
        ) != Some(hash) by {
            assert(front[i] == external_hashes[i]);
        }
        lemma_remove_all_copies(ledger, owner, tier, group, front, hash);
        let before = ledger.remove_all(owner, tier, group, front);
        let last = external_hashes.last();
        let after = before.remove_external(owner, tier, group, last);
        assert(external_hashes[external_hashes.len() - 1] == last);
        assert(before.mapped(owner, tier, group, last) != Some(hash));
        assert forall|copy: PhysicalCopy|
            #![trigger after.copies.contains_key(BlockCopy { hash, copy })]
            before.copies.contains_key(BlockCopy { hash, copy }) == after.copies.contains_key(
                BlockCopy { hash, copy },
            ) && (before.copies.contains_key(BlockCopy { hash, copy })
                ==> before.copies[BlockCopy { hash, copy }] == after.copies[BlockCopy {
                hash,
                copy,
            }]) by {}
        assert forall|e: u64| #[trigger]
            after.mapped(owner, tier, group, e) is None || after.mapped(owner, tier, group, e)
                == before.mapped(owner, tier, group, e) by {}
    }
}

/// Removals change only copies of the blocks that are announced beforehand.
pub proof fn law_remove_changes_only_affected_blocks(
    ledger: LedgerView,
    owner: CacheOwner,
    tier: CacheTier,
    group: u32,
    block_hashes: Vec<u64>,
    hash: u64,
)
    requires
        !ledger.affected_sequence_hashes(
            owner,
            CacheEvidenceMutation::Remove { tier, group_idx: Some(group), block_hashes },
        ).contains(hash),
    ensures
        same_copies(ledger, ledger.remove_all(owner, tier, group, block_hashes@), hash),
{
    assert forall|i: int| 0 <= i < block_hashes@.len() implies ledger.mapped(
        owner,
        tier,
        group,
        #[trigger] block_hashes@[i],
    ) != Some(hash) by {}
    lemma_remove_all_copies(ledger, owner, tier, group, block_hashes@, hash);
}

/// A clear changes only copies of the blocks that are announced beforehand.
pub proof fn law_clear_changes_only_affected_blocks(
    ledger: LedgerView,
    owner: CacheOwner,
    tier: Option<CacheTier>,
    hash: u64,
)
    requires
        ledger.inv(),
        !ledger.affected_sequence_hashes(owner, CacheEvidenceMutation::Clear { tier }).contains(
            hash,
        ),
    ensures
        same_copies(ledger, ledger.clear(owner, tier), hash),
{
    let after = ledger.clear(owner, tier);
    assert forall|copy: PhysicalCopy|
        #![trigger after.copies.contains_key(BlockCopy { hash, copy })]
        ledger.copies.contains_key(BlockCopy { hash, copy }) == after.copies.contains_key(
            BlockCopy { hash, copy },
        ) && (ledger.copies.contains_key(BlockCopy { hash, copy }) ==> ledger.copies[BlockCopy {
            hash,
            copy,
        }] == after.copies[BlockCopy { hash, copy }]) by {
        let key = BlockCopy { hash, copy };
        if ledger.copies.contains_key(key) && covers(owner, tier, copy) {
            let external = lemma_backed_copy_is_announced(
                ledger.copies,
                ledger.external_copies,
                key,
            );
            assert(ledger.external_copies.contains_key(external));
            assert(ledger.affected_sequence_hashes(
                owner,
                CacheEvidenceMutation::Clear { tier },
            ).contains(hash));
        }
    }
}

/// Only the copies matter.
proof fn lemma_same_copies(
    before: LedgerView,
    after: LedgerView,
    first: LedgerView,
    last: LedgerView,
    hash: u64,
)
    requires
        same_copies(before, after, hash),
        before.copies == first.copies,
        after.copies == last.copies,
    ensures
        same_copies(first, last, hash),
{
    assert forall|copy: PhysicalCopy|
        #![trigger last.copies.contains_key(BlockCopy { hash, copy })]
        first.copies.contains_key(BlockCopy { hash, copy }) == last.copies.contains_key(
            BlockCopy { hash, copy },
        ) && (first.copies.contains_key(BlockCopy { hash, copy }) ==> first.copies[BlockCopy {
            hash,
            copy,
        }] == last.copies[BlockCopy { hash, copy }]) by {
        let key = BlockCopy { hash, copy };
        assert(before.copies.contains_key(key) == after.copies.contains_key(key));
        assert(before.copies.contains_key(key) ==> before.copies[key] == after.copies[key]);
        assert(first.copies.contains_key(key) == last.copies.contains_key(key));
        assert(first.copies.contains_key(key) ==> first.copies[key] == last.copies[key]);
    }
}

proof fn lemma_single_store_run(
    state: Applied,
    owner: CacheOwner,
    tier: CacheTier,
    group_idx: Option<u32>,
    parent_external_hash: Option<u64>,
    blocks: Vec<CacheEvidenceStoredBlock>,
    hash: u64,
)
    requires
        !state.ledger.affected_sequence_hashes(
            owner,
            CacheEvidenceMutation::Store { tier, group_idx, parent_external_hash, blocks },
        ).contains(hash),
    ensures
        ({
            let store = CacheEvidenceMutation::Store {
                tier,
                group_idx,
                parent_external_hash,
                blocks,
            };
            same_copies(
                state.ledger,
                apply_store_run(state, owner, seq![store]).ledger,
                hash,
            )
        }),
{
    let store = CacheEvidenceMutation::Store { tier, group_idx, parent_external_hash, blocks };
    let run = seq![store];
    let ready = positions(state.ledger, owner, run, true, 1);
    let waiting = positions(state.ledger, owner, run, false, 1);
    reveal_with_fuel(positions, 2);
    assert(run[0] == store);
    let screened = if exists|i: int| 0 <= i < run.len() && lacks_group(#[trigger] run[i]) {
        state.fail(CacheEvidenceApplyIntegrityFailure::MissingGroup)
    } else {
        state
    };
    if ready.len() > 0 {
        assert(ready =~= seq![0usize]);
        assert(waiting =~= Seq::<usize>::empty());
        law_store_changes_only_affected_blocks(
            screened.ledger,
            owner,
            tier,
            group_idx,
            parent_external_hash,
            blocks,
            hash,
        );
        let group = group_idx->0;
        let rest = ready.drop_first();
        let (r, w) = unlock(run, group, blocks@, blocks@.len() as int, rest, waiting);
        lemma_unlock_len(run, group, blocks@, blocks@.len() as int, rest, waiting);
        reveal_with_fuel(drain, 2);
    }
}

/// A batch of one mutation changes residency only of the blocks that are
/// announced beforehand, and only on its own owner. The catalogs, the expected
/// owners and the history epoch stay as they are.
pub proof fn law_single_mutation_changes_only_affected_blocks(
    ledger: LedgerView,
    owner: CacheOwner,
    telemetry_complete: bool,
    mutation: CacheEvidenceMutation,
    hash: u64,
    other: CacheOwner,
)
    requires
        ledger.inv(),
        other == owner ==> !ledger.affected_sequence_hashes(owner, mutation).contains(hash),
    ensures
        ({
            let after = apply_batch(ledger, owner, telemetry_complete, seq![mutation]).ledger;
            &&& after.resident_on(hash, other) == KnownBool::Yes <==> ledger.resident_on(
                hash,
                other,
            ) == KnownBool::Yes
            &&& after.required_groups == ledger.required_groups
            &&& after.expected_owners == ledger.expected_owners
            &&& after.history_epoch == ledger.history_epoch
        }),
{
    let mutations = seq![mutation];
    let after = apply_batch(ledger, owner, telemetry_complete, mutations).ledger;
    law_batch_is_confined_to_its_owner(ledger, owner, telemetry_complete, mutations);
    if other == owner {
        lemma_single_mutation(ledger, owner, telemetry_complete, mutation, hash);
    }
    assert forall|tier: CacheTier, group: u32| #[trigger]
        after.holds_copy(hash, other, tier, group) == ledger.holds_copy(
            hash,
            other,
            tier,
            group,
        ) by {
        let copy = PhysicalCopy { owner: other, tier, group };
        assert(after.copies.contains_key(BlockCopy { hash, copy }) == ledger.copies.contains_key(
            BlockCopy { hash, copy },
        ));
    }
    assert forall|tier: CacheTier| #[trigger]
        after.resident_in_declared_cache(hash, other, tier)
            == ledger.resident_in_declared_cache(hash, other, tier) by {
        let key = OwnerTier { owner: other, tier };
        assert forall|group: u32| #[trigger]
            ledger.required_groups[key].contains(group) implies after.holds_copy(
            hash,
            other,
            tier,
            group,
        ) == ledger.holds_copy(hash, other, tier, group) by {}
    }
}

proof fn lemma_single_mutation(
    ledger: LedgerView,
    owner: CacheOwner,
    telemetry_complete: bool,
    mutation: CacheEvidenceMutation,
    hash: u64,
)
    requires
        ledger.inv(),
        !ledger.affected_sequence_hashes(owner, mutation).contains(hash),
    ensures
        same_copies(
            ledger,
            apply_batch(ledger, owner, telemetry_complete, seq![mutation]).ledger,
            hash,
        ),
{
    let mutations = seq![mutation];
    let start = admitted(ledger, telemetry_complete);
    let end = apply_batch(ledger, owner, telemetry_complete, mutations).ledger;
    reveal_with_fuel(apply_mutations, 2);
    assert(mutations[0] == mutation);
    assert(start.ledger.affected_sequence_hashes(owner, mutation)
        =~= ledger.affected_sequence_hashes(owner, mutation)) by {
        assert(start.ledger.external_copies == ledger.external_copies);
        assert forall|g: u32, e: u64| #[trigger]
            start.ledger.parent_sequence_hash(owner, g, e) == ledger.parent_sequence_hash(
                owner,
                g,
                e,
            ) by {}
        assert forall|t: CacheTier, g: u32, e: u64| #[trigger]
            start.ledger.mapped(owner, t, g, e) == ledger.mapped(owner, t, g, e) by {}
    }
    match mutation {
        CacheEvidenceMutation::Store { tier, group_idx, parent_external_hash, blocks } => {
            reveal_with_fuel(run_end, 2);
            assert(run_end(mutations, 0) == 1);
            assert(mutations.subrange(0, 1) =~= mutations);
            lemma_single_store_run(
                start,
                owner,
                tier,
                group_idx,
                parent_external_hash,
                blocks,
                hash,
            );
            let ran = apply_store_run(start, owner, mutations);
            assert(apply_mutations(ran, owner, mutations, 1) == ran);
            assert(apply_mutations(start, owner, mutations, 0) == ran);
            let store = CacheEvidenceMutation::Store {
                tier,
                group_idx,
                parent_external_hash,
                blocks,
            };
            assert(mutations =~= seq![store]);
            assert(same_copies(start.ledger, ran.ledger, hash));
            lemma_same_copies(start.ledger, ran.ledger, ledger, end, hash);
        },
        CacheEvidenceMutation::Remove { tier, group_idx: Some(group), block_hashes } => {
            law_remove_changes_only_affected_blocks(
                start.ledger,
                owner,
                tier,
                group,
                block_hashes,
                hash,
            );
            let removed = start.ledger.remove_all(owner, tier, group, block_hashes@);
            lemma_same_copies(start.ledger, removed, ledger, end, hash);
        },
        CacheEvidenceMutation::Remove { group_idx: None, .. } => {},
        CacheEvidenceMutation::Clear { tier } => {
            law_clear_changes_only_affected_blocks(start.ledger, owner, tier, hash);
            let cleared = start.ledger.clear(owner, tier);
            lemma_same_copies(start.ledger, cleared, ledger, end, hash);
        },
    }
}

// ---- a batch and its failures ----

/// Failures were met exactly if the telemetry is incomplete, and the history
/// is as complete as it was at first, unless the telemetry is not.
spec fn reported(state: Applied, history_complete: bool) -> bool {
    &&& state.failures == Set::<CacheEvidenceApplyIntegrityFailure>::empty()
        <==> state.ledger.physical_telemetry_complete
    &&& state.ledger.history_complete == (history_complete
        && state.ledger.physical_telemetry_complete)
}

proof fn lemma_fail_reported(
    state: Applied,
    failure: CacheEvidenceApplyIntegrityFailure,
    history_complete: bool,
)
    ensures
        reported(state.fail(failure), history_complete),
{
    assert(state.fail(failure).failures.contains(failure));
}

proof fn lemma_drain_reported(
    state: Applied,
    owner: CacheOwner,
    run: Seq<CacheEvidenceMutation>,
    ready: Seq<usize>,
    waiting: Seq<usize>,
    complete: bool,
)
    requires
        reported(state, complete),
    ensures
        reported(drain(state, owner, run, ready, waiting), complete),
    decreases ready.len() + waiting.len(),
{
    lemma_fail_reported(state, CacheEvidenceApplyIntegrityFailure::MissingParent, complete);
    lemma_fail_reported(state, CacheEvidenceApplyIntegrityFailure::ConflictingMapping, complete);
    lemma_fail_reported(state, CacheEvidenceApplyIntegrityFailure::MissingGroup, complete);
    if ready.len() > 0 {
        let rest = ready.drop_first();
        match run[ready[0] as int] {
            CacheEvidenceMutation::Store {
                tier,
                group_idx: Some(group),
                parent_external_hash,
                blocks,
            } => {
                let (result, ledger) = state.ledger.store_mutation(
                    owner,
                    tier,
                    Some(group),
                    parent_external_hash,
                    blocks@,
                );
                law_store_is_all_or_nothing(
                    state.ledger,
                    owner,
                    tier,
                    group,
                    parent_external_hash,
                    blocks@,
                );
                match result {
                    StoreMutationResult::Applied => {
                        let (r, w) = unlock(
                            run,
                            group,
                            blocks@,
                            blocks@.len() as int,
                            rest,
                            waiting,
                        );
                        lemma_unlock_len(run, group, blocks@, blocks@.len() as int, rest, waiting);
                        let next = Applied { ledger, ..state };
                        lemma_drain_reported(next, owner, run, r, w, complete);
                    },
                    StoreMutationResult::MissingParent => {
                        lemma_drain_reported(
                            state.fail(CacheEvidenceApplyIntegrityFailure::MissingParent),
                            owner,
                            run,
                            rest,
                            waiting,
                            complete,
                        );
                    },
                    StoreMutationResult::RejectedMapping => {
                        lemma_drain_reported(
                            state.fail(CacheEvidenceApplyIntegrityFailure::ConflictingMapping),
                            owner,
                            run,
                            rest,
                            waiting,
                            complete,
                        );
                    },
                    StoreMutationResult::Invalid => {},
                }
            },
            _ => {
                lemma_drain_reported(state, owner, run, rest, waiting, complete);
            },
        }
    }
}

/// Every removal from `from` on names a block that is announced when its turn
/// comes.
pub open spec fn removals_known(
    state: Applied,
    owner: CacheOwner,
    mutations: Seq<CacheEvidenceMutation>,
    from: int,
) -> bool
    decreases mutations.len() - from,
    when 0 <= from <= mutations.len()
    via removals_known_terminates
{
    if from >= mutations.len() {
        true
    } else {
        match mutations[from] {
            CacheEvidenceMutation::Store { .. } => {
                let end = run_end(mutations, from);
                removals_known(
                    apply_store_run(state, owner, mutations.subrange(from, end)),
                    owner,
                    mutations,
                    end,
                )
            },
            CacheEvidenceMutation::Remove { tier, group_idx: Some(group), block_hashes } => {
                let ledger = state.ledger.remove_all(owner, tier, group, block_hashes@);
                ledger.physical_telemetry_complete == state.ledger.physical_telemetry_complete
                    && removals_known(Applied { ledger, ..state }, owner, mutations, from + 1)
            },
            CacheEvidenceMutation::Remove { group_idx: None, .. } => removals_known(
                state.fail(CacheEvidenceApplyIntegrityFailure::MissingGroup),
                owner,
                mutations,
                from + 1,
            ),
            CacheEvidenceMutation::Clear { tier } => removals_known(
                Applied { ledger: state.ledger.clear(owner, tier), ..state },
                owner,
                mutations,
                from + 1,
            ),
        }
    }
}

#[via_fn]
proof fn removals_known_terminates(
    state: Applied,
    owner: CacheOwner,
    mutations: Seq<CacheEvidenceMutation>,
    from: int,
) {
    lemma_run_end(mutations, from);
}

proof fn lemma_mutations_reported(
    state: Applied,
    owner: CacheOwner,
    mutations: Seq<CacheEvidenceMutation>,
    from: int,
    complete: bool,
)
    requires
        0 <= from <= mutations.len(),
        reported(state, complete),
        removals_known(state, owner, mutations, from),
    ensures
        reported(apply_mutations(state, owner, mutations, from), complete),
    decreases mutations.len() - from,
{
    if from < mutations.len() {
        match mutations[from] {
            CacheEvidenceMutation::Store { .. } => {
                let end = run_end(mutations, from);
                lemma_run_end(mutations, from);
                let run = mutations.subrange(from, end);
                let failed = state.fail(CacheEvidenceApplyIntegrityFailure::MissingGroup);
                lemma_fail_reported(
                    state,
                    CacheEvidenceApplyIntegrityFailure::MissingGroup,
                    complete,
                );
                let ready = positions(state.ledger, owner, run, true, run.len() as int);
                let waiting = positions(state.ledger, owner, run, false, run.len() as int);
                lemma_drain_reported(state, owner, run, ready, waiting, complete);
                lemma_drain_reported(failed, owner, run, ready, waiting, complete);
                lemma_mutations_reported(
                    apply_store_run(state, owner, run),
                    owner,
                    mutations,
                    end,
                    complete,
                );
            },
            CacheEvidenceMutation::Remove { tier, group_idx: Some(group), block_hashes } => {
                let ledger = state.ledger.remove_all(owner, tier, group, block_hashes@);
                lemma_remove_all_complete(state.ledger, owner, tier, group, block_hashes@);
                lemma_mutations_reported(
                    Applied { ledger, ..state },
                    owner,
                    mutations,
                    from + 1,
                    complete,
                );
            },
            CacheEvidenceMutation::Remove { group_idx: None, .. } => {
                lemma_fail_reported(
                    state,
                    CacheEvidenceApplyIntegrityFailure::MissingGroup,
                    complete,
                );
                lemma_mutations_reported(
                    state.fail(CacheEvidenceApplyIntegrityFailure::MissingGroup),
                    owner,
                    mutations,
                    from + 1,
                    complete,
                );
            },
            CacheEvidenceMutation::Clear { tier } => {
                lemma_mutations_reported(
                    Applied { ledger: state.ledger.clear(owner, tier), ..state },
                    owner,
                    mutations,
                    from + 1,
                    complete,
                );
            },
        }
    }
}

/// What history is like after removals: as before, unless telemetry got lost.
proof fn lemma_remove_all_complete(
    ledger: LedgerView,
    owner: CacheOwner,
    tier: CacheTier,
    group: u32,
    hashes: Seq<u64>,
)
    ensures
        ({
            let after = ledger.remove_all(owner, tier, group, hashes);
            &&& after.physical_telemetry_complete ==> ledger.physical_telemetry_complete
                && after.history_complete == ledger.history_complete
            &&& after.history_complete ==> ledger.history_complete
        }),
    decreases hashes.len(),
{
    if hashes.len() > 0 {
        lemma_remove_all_complete(ledger, owner, tier, group, hashes.drop_last());
    }
}

/// A batch whose removals all name announced blocks reports a failure exactly
/// if it loses telemetry, and exactly then the history is no longer complete.
/// A removal of a block that was never announced loses both without being
/// reported.
pub proof fn law_batch_reports_every_loss(
    ledger: LedgerView,
    owner: CacheOwner,
    telemetry_complete: bool,
    mutations: Seq<CacheEvidenceMutation>,
)
    requires
        removals_known(admitted(ledger, telemetry_complete), owner, mutations, 0),
    ensures
        ({
            let applied = apply_batch(ledger, owner, telemetry_complete, mutations);
            let clean = applied.failures == Set::<CacheEvidenceApplyIntegrityFailure>::empty();
            &&& applied.ledger.physical_telemetry_complete <==> clean
                && ledger.physical_telemetry_complete
            &&& applied.ledger.history_complete <==> clean && ledger.history_complete
        }),
{
    let start = Applied {
        ledger: LedgerView { physical_telemetry_complete: true, ..ledger },
        failures: Set::empty(),
    };
    let complete = ledger.history_complete;
    lemma_fail_reported(start, CacheEvidenceApplyIntegrityFailure::IncompleteBatch, complete);
    lemma_mutations_reported(
        admitted(ledger, telemetry_complete),
        owner,
        mutations,
        0,
        complete,
    );
}

} // verus!
