//! What holds of every evidence ledger, whatever is done to it.

use vstd::prelude::*;

use crate::announcements::{lemma_kept_is_backed, lemma_remove_is_backed, lemma_store_is_backed};
use crate::evidence::{
    BlockCopy, CacheEvidenceApplyIntegrityFailure, CacheEvidenceMutation,
    CacheEvidenceStoredBlock, CacheOwner, CacheTier, KnownBool, OwnerTier, PhysicalCopy,
};
use crate::model::{
    apply_batch, apply_mutations, apply_store_run, chain, covers, drain, lemma_run_end,
    lemma_unlock_len, positions, run_end, unlock, Applied, LedgerView, StoreMutationResult,
};

verus! {

// ---- one owner's evidence ----

/// `after` extends the history of `before` and differs from it in physical
/// copies on `owner` alone.
pub open spec fn confined(before: LedgerView, after: LedgerView, owner: CacheOwner) -> bool {
    &&& before.history_capacity == after.history_capacity
    &&& before.history_epoch == after.history_epoch
    &&& before.seen_blocks.subset_of(after.seen_blocks)
    &&& before.history_saturated ==> after.history_saturated
    &&& after.history_complete ==> before.history_complete
    &&& before.required_groups == after.required_groups
    &&& before.expected_owners == after.expected_owners
    &&& before.physical_scope_complete == after.physical_scope_complete
    &&& before.inv() ==> after.inv()
    &&& forall|key: BlockCopy|
        #![trigger after.copies.contains_key(key)]
        #![trigger before.copies.contains_key(key)]
        key.copy.owner != owner ==> before.copies.contains_key(key) == after.copies.contains_key(
            key,
        ) && (before.copies.contains_key(key) ==> before.copies[key] == after.copies[key])
    &&& forall|key: BlockCopy|
        #![trigger after.external_copies.contains_key(key)]
        #![trigger before.external_copies.contains_key(key)]
        key.copy.owner != owner ==> before.external_copies.contains_key(key)
            == after.external_copies.contains_key(key) && (before.external_copies.contains_key(key)
            ==> before.external_copies[key] == after.external_copies[key])
}

/// Telemetry that was incomplete stays so.
pub open spec fn poisoned(before: LedgerView, after: LedgerView) -> bool {
    after.physical_telemetry_complete ==> before.physical_telemetry_complete
}

proof fn lemma_see(ledger: LedgerView, hash: u64, owner: CacheOwner)
    ensures
        confined(ledger, ledger.see(hash), owner),
        ledger.see(hash).physical_telemetry_complete == ledger.physical_telemetry_complete,
        ledger.see(hash).copies == ledger.copies,
        ledger.see(hash).external_copies == ledger.external_copies,
{
}

proof fn lemma_see_all(ledger: LedgerView, hashes: Seq<u64>, owner: CacheOwner)
    ensures
        confined(ledger, ledger.see_all(hashes), owner),
        ledger.see_all(hashes).physical_telemetry_complete == ledger.physical_telemetry_complete,
        ledger.see_all(hashes).copies == ledger.copies,
        ledger.see_all(hashes).external_copies == ledger.external_copies,
    decreases hashes.len(),
{
    if hashes.len() > 0 {
        lemma_see_all(ledger, hashes.drop_last(), owner);
        lemma_see(ledger.see_all(hashes.drop_last()), hashes.last(), owner);
    }
}

proof fn lemma_store_mapped(
    ledger: LedgerView,
    owner: CacheOwner,
    tier: CacheTier,
    group: u32,
    external_hash: u64,
    sequence_hash: u64,
)
    ensures
        confined(
            ledger,
            ledger.store_mapped(owner, tier, group, external_hash, sequence_hash),
            owner,
        ),
        poisoned(ledger, ledger.store_mapped(owner, tier, group, external_hash, sequence_hash)),
{
    let copy = PhysicalCopy { owner, tier, group };
    let external = BlockCopy { hash: external_hash, copy };
    let stored = BlockCopy { hash: sequence_hash, copy };
    let mapped = ledger.mapped(owner, tier, group, external_hash);
    if ledger.inv() && (mapped is None || mapped == Some(sequence_hash)) {
        let heard: u32 = if mapped is Some {
            ledger.external_copies[external].1
        } else {
            0
        };
        let counted: u32 = if ledger.copies.contains_key(stored) {
            ledger.copies[stored]
        } else {
            0
        };
        lemma_store_is_backed(
            ledger.copies,
            ledger.external_copies,
            external,
            stored,
            counted,
            heard,
        );
    }
}

proof fn lemma_store_each(
    ledger: LedgerView,
    owner: CacheOwner,
    tier: CacheTier,
    group: u32,
    blocks: Seq<CacheEvidenceStoredBlock>,
    hashes: Seq<u64>,
    count: int,
)
    ensures
        confined(ledger, ledger.store_each(owner, tier, group, blocks, hashes, count), owner),
        poisoned(ledger, ledger.store_each(owner, tier, group, blocks, hashes, count)),
    decreases count,
{
    if count > 0 {
        lemma_store_each(ledger, owner, tier, group, blocks, hashes, count - 1);
        lemma_store_mapped(
            ledger.store_each(owner, tier, group, blocks, hashes, count - 1),
            owner,
            tier,
            group,
            blocks[count - 1].external_hash,
            hashes[count - 1],
        );
    }
}

pub(crate) proof fn lemma_store_mutation(
    ledger: LedgerView,
    owner: CacheOwner,
    tier: CacheTier,
    group: Option<u32>,
    parent: Option<u64>,
    blocks: Seq<CacheEvidenceStoredBlock>,
)
    ensures
        confined(ledger, ledger.store_mutation(owner, tier, group, parent, blocks).1, owner),
        poisoned(ledger, ledger.store_mutation(owner, tier, group, parent, blocks).1),
{
    if let Some(group) = group {
        let above = match parent {
            None => None,
            Some(external_hash) => ledger.parent_sequence_hash(owner, group, external_hash),
        };
        let hashes = chain(above, blocks);
        lemma_see_all(ledger, hashes, owner);
        lemma_store_each(
            ledger.see_all(hashes),
            owner,
            tier,
            group,
            blocks,
            hashes,
            blocks.len() as int,
        );
    }
}

pub(crate) proof fn lemma_remove_all(
    ledger: LedgerView,
    owner: CacheOwner,
    tier: CacheTier,
    group: u32,
    hashes: Seq<u64>,
)
    ensures
        confined(ledger, ledger.remove_all(owner, tier, group, hashes), owner),
        poisoned(ledger, ledger.remove_all(owner, tier, group, hashes)),
    decreases hashes.len(),
{
    if hashes.len() > 0 {
        lemma_remove_all(ledger, owner, tier, group, hashes.drop_last());
        let before = ledger.remove_all(owner, tier, group, hashes.drop_last());
        let after = before.remove_external(owner, tier, group, hashes.last());
        let copy = PhysicalCopy { owner, tier, group };
        let external = BlockCopy { hash: hashes.last(), copy };
        if before.inv() && before.external_copies.contains_key(external) {
            let stored = BlockCopy { hash: before.external_copies[external].0, copy };
            lemma_remove_is_backed(
                before.copies,
                before.external_copies,
                external,
                stored,
            );
        }
        assert(confined(before, after, owner));
    }
}

/// Failures are only ever added, and each of them voids the telemetry.
spec fn honest(state: Applied) -> bool {
    state.failures != Set::<CacheEvidenceApplyIntegrityFailure>::empty()
        ==> !state.ledger.physical_telemetry_complete && !state.ledger.history_complete
}

spec fn stepped(before: Applied, after: Applied, owner: CacheOwner) -> bool {
    &&& confined(before.ledger, after.ledger, owner)
    &&& poisoned(before.ledger, after.ledger)
    &&& before.failures.subset_of(after.failures)
    &&& honest(before) ==> honest(after)
}

proof fn lemma_fail(
    state: Applied,
    failure: CacheEvidenceApplyIntegrityFailure,
    owner: CacheOwner,
)
    ensures
        stepped(state, state.fail(failure), owner),
{
}

proof fn lemma_drain(
    state: Applied,
    owner: CacheOwner,
    run: Seq<CacheEvidenceMutation>,
    ready: Seq<usize>,
    waiting: Seq<usize>,
)
    ensures
        stepped(state, drain(state, owner, run, ready, waiting), owner),
    decreases ready.len() + waiting.len(),
{
    if ready.len() == 0 {
        lemma_fail(state, CacheEvidenceApplyIntegrityFailure::MissingParent, owner);
    } else {
        let rest = ready.drop_first();
        match run[ready[0] as int] {
            CacheEvidenceMutation::Store {
                tier,
                group_idx: Some(group),
                parent_external_hash,
                blocks,
            } => {
                let (result, ledger) = state.ledger.store_mutation(
                    owner,
                    tier,
                    Some(group),
                    parent_external_hash,
                    blocks@,
                );
                lemma_store_mutation(
                    state.ledger,
                    owner,
                    tier,
                    Some(group),
                    parent_external_hash,
                    blocks@,
                );
                let next = match result {
                    StoreMutationResult::Applied => Applied { ledger, ..state },
                    StoreMutationResult::MissingParent => state.fail(
                        CacheEvidenceApplyIntegrityFailure::MissingParent,
                    ),
                    StoreMutationResult::RejectedMapping => state.fail(
                        CacheEvidenceApplyIntegrityFailure::ConflictingMapping,
                    ),
                    StoreMutationResult::Invalid => state.fail(
                        CacheEvidenceApplyIntegrityFailure::MissingGroup,
                    ),
                };
                assert(stepped(state, next, owner));
                if result == StoreMutationResult::Applied {
                    lemma_unlock_len(run, group, blocks@, blocks@.len() as int, rest, waiting);
                    let (r, w) = unlock(run, group, blocks@, blocks@.len() as int, rest, waiting);
                    lemma_drain(next, owner, run, r, w);
                } else {
                    lemma_drain(next, owner, run, rest, waiting);
                }
            },
            _ => {
                lemma_drain(state, owner, run, rest, waiting);
            },
        }
    }
}

proof fn lemma_store_run(state: Applied, owner: CacheOwner, run: Seq<CacheEvidenceMutation>)
    ensures
        stepped(state, apply_store_run(state, owner, run), owner),
{
    let failed = state.fail(CacheEvidenceApplyIntegrityFailure::MissingGroup);
    lemma_fail(state, CacheEvidenceApplyIntegrityFailure::MissingGroup, owner);
    let ready = positions(state.ledger, owner, run, true, run.len() as int);
    let waiting = positions(state.ledger, owner, run, false, run.len() as int);
    lemma_drain(state, owner, run, ready, waiting);
    lemma_drain(failed, owner, run, ready, waiting);
}

proof fn lemma_mutations(
    state: Applied,
    owner: CacheOwner,
    mutations: Seq<CacheEvidenceMutation>,
    from: int,
)
    requires
        0 <= from <= mutations.len(),
    ensures
        stepped(state, apply_mutations(state, owner, mutations, from), owner),
    decreases mutations.len() - from,
{
    if from < mutations.len() {
        match mutations[from] {
            CacheEvidenceMutation::Store { .. } => {
                let end = run_end(mutations, from);
                lemma_run_end(mutations, from);
                let next = apply_store_run(state, owner, mutations.subrange(from, end));
                lemma_store_run(state, owner, mutations.subrange(from, end));
                lemma_mutations(next, owner, mutations, end);
            },
            CacheEvidenceMutation::Remove { tier, group_idx, block_hashes } => {
                match group_idx {
                    None => {
                        let next = state.fail(CacheEvidenceApplyIntegrityFailure::MissingGroup);
                        lemma_fail(state, CacheEvidenceApplyIntegrityFailure::MissingGroup, owner);
                        lemma_mutations(next, owner, mutations, from + 1);
                    },
                    Some(group) => {
                        let next = Applied {
                            ledger: state.ledger.remove_all(owner, tier, group, block_hashes@),
                            ..state
                        };
                        lemma_remove_all(state.ledger, owner, tier, group, block_hashes@);
                        assert(stepped(state, next, owner));
                        lemma_mutations(next, owner, mutations, from + 1);
                    },
                }
            },
            CacheEvidenceMutation::Clear { tier } => {
                let next = Applied { ledger: state.ledger.clear(owner, tier), ..state };
                if state.ledger.inv() {
                    lemma_kept_is_backed(
                        state.ledger.copies,
                        state.ledger.external_copies,
                        |key: BlockCopy| !covers(owner, tier, key.copy),
                    );
                }
                assert(stepped(state, next, owner));
                lemma_mutations(next, owner, mutations, from + 1);
            },
        }
    }
}

/// A batch only ever extends the history, keeps the declared scope, and
/// touches no copy of another owner. Whatever it reports as a failure leaves
/// both the telemetry and the history incomplete.
pub proof fn law_batch_is_confined_to_its_owner(
    ledger: LedgerView,
    owner: CacheOwner,
    telemetry_complete: bool,
    mutations: Seq<CacheEvidenceMutation>,
)
    ensures
        ({
            let applied = apply_batch(ledger, owner, telemetry_complete, mutations);
            &&& confined(ledger, applied.ledger, owner)
            &&& applied.ledger.physical_telemetry_complete ==> ledger.physical_telemetry_complete
            &&& applied.failures != Set::<CacheEvidenceApplyIntegrityFailure>::empty()
                ==> !applied.ledger.physical_telemetry_complete && !applied.ledger.history_complete
        }),
{
    let start = Applied {
        ledger: LedgerView { physical_telemetry_complete: true, ..ledger },
        failures: Set::empty(),
    };
    let admitted = if telemetry_complete {
        start
    } else {
        start.fail(CacheEvidenceApplyIntegrityFailure::IncompleteBatch)
    };
    lemma_fail(start, CacheEvidenceApplyIntegrityFailure::IncompleteBatch, owner);
    lemma_mutations(admitted, owner, mutations, 0);
}

/// Evidence about one owner neither adds nor removes residency of another.
pub proof fn law_owners_are_independent(
    before: LedgerView,
    after: LedgerView,
    owner: CacheOwner,
    other: CacheOwner,
    hash: u64,
)
    requires
        confined(before, after, owner),
        owner != other,
    ensures
        before.resident_on(hash, other) == KnownBool::Yes <==> after.resident_on(hash, other)
            == KnownBool::Yes,
        forall|tier: CacheTier, group: u32| #[trigger]
            before.holds_copy(hash, other, tier, group) == after.holds_copy(
                hash,
                other,
                tier,
                group,
            ),
{
    assert forall|tier: CacheTier, group: u32| #[trigger]
        before.holds_copy(hash, other, tier, group) == after.holds_copy(
            hash,
            other,
            tier,
            group,
        ) by {
        let key = BlockCopy { hash, copy: PhysicalCopy { owner: other, tier, group } };
        assert(before.copies.contains_key(key) == after.copies.contains_key(key));
    }
    assert(before.resident_in_declared_cache(hash, other, CacheTier::Gpu)
        == after.resident_in_declared_cache(hash, other, CacheTier::Gpu));
    assert(before.resident_in_declared_cache(hash, other, CacheTier::Cpu)
        == after.resident_in_declared_cache(hash, other, CacheTier::Cpu));
}

/// What the history retains stays a positive fact under any evidence.
pub proof fn law_retained_hashes_stay_reusable(
    before: LedgerView,
    after: LedgerView,
    owner: CacheOwner,
    hash: u64,
)
    requires
        confined(before, after, owner),
        before.reusable(hash) == KnownBool::Yes,
    ensures
        after.reusable(hash) == KnownBool::Yes,
{
}

// ---- history ----

/// A hash that was offered to the history is never reported as never seen:
/// it is retained, or the history is saturated.
pub proof fn law_overflow_is_never_a_cold_miss(ledger: LedgerView, hashes: Seq<u64>, i: int)
    requires
        0 <= i < hashes.len(),
    ensures
        ledger.see_all(hashes).reusable(hashes[i]) != KnownBool::No,
    decreases hashes.len(),
{
    let front = hashes.drop_last();
    let before = ledger.see_all(front);
    if i < front.len() {
        law_overflow_is_never_a_cold_miss(ledger, front, i);
        assert(front[i] == hashes[i]);
    }
}

/// A miss is claimed only of a complete history with room to spare.
pub proof fn law_cold_miss_needs_a_complete_history(ledger: LedgerView, hash: u64)
    ensures
        ledger.reusable(hash) == KnownBool::No <==> ledger.history_complete
            && !ledger.history_saturated && !ledger.seen_blocks.contains(hash),
        ledger.mark_history_incomplete().reusable(hash) != KnownBool::No,
{
}

/// A new epoch differs from the current one and is never zero, so that
/// reports for the current epoch can no longer reach the new history.
pub proof fn law_epochs_advance(ledger: LedgerView)
    ensures
        ledger.advance_history_epoch().history_epoch != ledger.history_epoch,
        ledger.advance_history_epoch().history_epoch >= 1,
{
}

/// A cold epoch is committed only while exactly the expected owners are cold.
/// It starts an empty, complete history; a refused commit leaves the history
/// incomplete and the telemetry as it was.
pub proof fn law_cold_epoch_is_all_or_nothing(
    ledger: LedgerView,
    owners: Set<CacheOwner>,
    hash: u64,
)
    ensures
        ({
            let after = ledger.commit_cold_history_epoch(owners);
            if ledger.is_cold(owners) {
                &&& after.reusable(hash) == KnownBool::No
                &&& after.physical_telemetry_complete
                &&& forall|owner: CacheOwner, tier: CacheTier, group: u32|
                    owners.contains(owner) ==> !#[trigger] after.holds_copy(
                        hash,
                        owner,
                        tier,
                        group,
                    )
            } else {
                &&& !after.history_complete
                &&& after.history_epoch == ledger.history_epoch
                &&& after.physical_telemetry_complete == ledger.physical_telemetry_complete
                &&& after.copies == ledger.copies
            }
        }),
{
}

// ---- residency ----

/// Lost telemetry turns "not resident" into "unknown" and leaves "resident".
pub proof fn law_gaps_preserve_positive_facts(ledger: LedgerView, hash: u64, owner: CacheOwner)
    ensures
        ledger.resident_on(hash, owner) == KnownBool::Yes
            ==> ledger.mark_telemetry_incomplete().resident_on(hash, owner) == KnownBool::Yes,
        ledger.resident_on(hash, owner) != KnownBool::Yes
            ==> ledger.mark_telemetry_incomplete().resident_on(hash, owner) == KnownBool::Unknown,
        ledger.resident_anywhere(hash) == KnownBool::Yes
            ==> ledger.mark_telemetry_incomplete().resident_anywhere(hash) == KnownBool::Yes,
        ledger.resident_anywhere(hash) != KnownBool::Yes
            ==> ledger.mark_telemetry_incomplete().resident_anywhere(hash) == KnownBool::Unknown,
{
    let after = ledger.mark_telemetry_incomplete();
    assert forall|key: OwnerTier| #[trigger]
        ledger.resident_in_declared_cache(hash, key.owner, key.tier)
            == after.resident_in_declared_cache(hash, key.owner, key.tier) by {}
    assert(ledger.resident_in_declared_cache(hash, owner, CacheTier::Gpu)
        == after.resident_in_declared_cache(hash, owner, CacheTier::Gpu));
    assert(ledger.resident_in_declared_cache(hash, owner, CacheTier::Cpu)
        == after.resident_in_declared_cache(hash, owner, CacheTier::Cpu));
    if exists|key: OwnerTier| #[trigger]
        ledger.resident_in_declared_cache(hash, key.owner, key.tier) {
        let key = choose|key: OwnerTier| #[trigger]
            ledger.resident_in_declared_cache(hash, key.owner, key.tier);
        assert(after.resident_in_declared_cache(hash, key.owner, key.tier));
    } else if exists|key: OwnerTier| #[trigger]
        after.resident_in_declared_cache(hash, key.owner, key.tier) {
        let key = choose|key: OwnerTier| #[trigger]
            after.resident_in_declared_cache(hash, key.owner, key.tier);
        assert(ledger.resident_in_declared_cache(hash, key.owner, key.tier));
    }
}

/// While an expected owner has declared no cache group, nothing is claimed to
/// be absent.
pub proof fn law_absence_waits_for_every_catalog(
    ledger: LedgerView,
    owners: Set<CacheOwner>,
    owner: CacheOwner,
)
    requires
        ledger.expected_owners == Some(owners),
        owners.contains(owner),
        !ledger.declares_groups(owner),
    ensures
        ledger.refresh_scope().negative_physical_fact() == KnownBool::Unknown,
{
}

/// Withdrawing an announcement that was just accepted restores every copy:
/// announcements are counted, so duplicates must be withdrawn as often as
/// they were made.
pub proof fn law_remove_undoes_store(
    ledger: LedgerView,
    owner: CacheOwner,
    tier: CacheTier,
    group: u32,
    external_hash: u64,
    sequence_hash: u64,
)
    requires
        ledger.inv(),
        ledger.mapped(owner, tier, group, external_hash) is None || ledger.mapped(
            owner,
            tier,
            group,
            external_hash,
        ) == Some(sequence_hash),
        ({
            let copy = PhysicalCopy { owner, tier, group };
            let external_key = BlockCopy { hash: external_hash, copy };
            let key = BlockCopy { hash: sequence_hash, copy };
            &&& ledger.external_copies.contains_key(external_key)
                ==> ledger.external_copies[external_key].1 < u32::MAX
            &&& ledger.copies.contains_key(key) ==> ledger.copies[key] < u32::MAX
        }),
    ensures
        ({
            let after = ledger.store_mapped(
                owner,
                tier,
                group,
                external_hash,
                sequence_hash,
            ).remove_external(owner, tier, group, external_hash);
            &&& after.copies == ledger.copies
            &&& after.external_copies == ledger.external_copies
            &&& after.physical_telemetry_complete == ledger.physical_telemetry_complete
        }),
{
    let after = ledger.store_mapped(
        owner,
        tier,
        group,
        external_hash,
        sequence_hash,
    ).remove_external(owner, tier, group, external_hash);
    assert(after.copies =~= ledger.copies);
    assert(after.external_copies =~= ledger.external_copies);
}

/// Clearing drops exactly the copies it covers.
pub proof fn law_clear_is_exact(
    ledger: LedgerView,
    owner: CacheOwner,
    tier: Option<CacheTier>,
    key: BlockCopy,
)
    ensures
        ({
            let after = ledger.clear(owner, tier);
            &&& after.copies.contains_key(key) <==> ledger.copies.contains_key(key) && !covers(
                owner,
                tier,
                key.copy,
            )
            &&& after.copies.contains_key(key) ==> after.copies[key] == ledger.copies[key]
            &&& after.external_copies.contains_key(key) <==> ledger.external_copies.contains_key(
                key,
            ) && !covers(owner, tier, key.copy)
            &&& after.history_complete == ledger.history_complete
            &&& after.seen_blocks == ledger.seen_blocks
        }),
{
}

// ---- stores ----

pub(crate) proof fn lemma_chain_len(parent: Option<u64>, blocks: Seq<CacheEvidenceStoredBlock>)
    ensures
        chain(parent, blocks).len() == blocks.len(),
    decreases blocks.len(),
{
    if blocks.len() > 0 {
        lemma_chain_len(parent, blocks.drop_last());
    }
}

/// Stores validated against the ledger go through without a conflict.
proof fn lemma_validated_stores(
    ledger: LedgerView,
    owner: CacheOwner,
    tier: CacheTier,
    group: u32,
    blocks: Seq<CacheEvidenceStoredBlock>,
    hashes: Seq<u64>,
    count: int,
)
    requires
        0 <= count <= blocks.len(),
        hashes.len() == blocks.len(),
        !ledger.store_conflicts(owner, tier, group, blocks, hashes),
    ensures
        ({
            let after = ledger.store_each(owner, tier, group, blocks, hashes, count);
            &&& after.physical_telemetry_complete == ledger.physical_telemetry_complete
            &&& after.history_complete == ledger.history_complete
            &&& forall|external_hash: u64| #[trigger]
                after.mapped(owner, tier, group, external_hash) != ledger.mapped(
                    owner,
                    tier,
                    group,
                    external_hash,
                ) ==> exists|j: int|
                    0 <= j < count && (#[trigger] blocks[j]).external_hash == external_hash
                        && after.mapped(owner, tier, group, external_hash) == Some(hashes[j])
            &&& forall|j: int|
                0 <= j < count ==> after.mapped(
                    owner,
                    tier,
                    group,
                    (#[trigger] blocks[j]).external_hash,
                ) == Some(hashes[j])
        }),
    decreases count,
{
    if count > 0 {
        lemma_validated_stores(ledger, owner, tier, group, blocks, hashes, count - 1);
        let i = count - 1;
        let before = ledger.store_each(owner, tier, group, blocks, hashes, i);
        let external_hash = blocks[i].external_hash;
        let after = before.store_mapped(owner, tier, group, external_hash, hashes[i]);
        assert(!ledger.block_conflicts(owner, tier, group, blocks, hashes, i));
        let mapped = before.mapped(owner, tier, group, external_hash);
        assert(mapped is None || mapped == Some(hashes[i])) by {
            if mapped != ledger.mapped(owner, tier, group, external_hash) {
                let j = choose|j: int|
                    0 <= j < i && (#[trigger] blocks[j]).external_hash == external_hash
                        && mapped == Some(hashes[j]);
                assert(blocks[j].external_hash == blocks[i].external_hash);
            }
        }
        assert forall|e: u64| e != external_hash implies #[trigger] after.mapped(
            owner,
            tier,
            group,
            e,
        ) == before.mapped(owner, tier, group, e) by {}
        assert(after.mapped(owner, tier, group, external_hash) == Some(hashes[i]));
        assert forall|j: int| 0 <= j < count implies after.mapped(
            owner,
            tier,
            group,
            (#[trigger] blocks[j]).external_hash,
        ) == Some(hashes[j]) by {
            if j < i && blocks[j].external_hash == external_hash {
                assert(hashes[j] == hashes[i]);
            }
        }
        assert forall|e: u64| #[trigger]
            after.mapped(owner, tier, group, e) != ledger.mapped(
                owner,
                tier,
                group,
                e,
            ) implies exists|j: int|
            0 <= j < count && (#[trigger] blocks[j]).external_hash == e && after.mapped(
                owner,
                tier,
                group,
                e,
            ) == Some(hashes[j]) by {
            if e == external_hash {
                assert(blocks[i].external_hash == e);
            } else {
                assert(before.mapped(owner, tier, group, e) != ledger.mapped(
                    owner,
                    tier,
                    group,
                    e,
                ));
            }
        }
    }
}

/// A store event is all or nothing. Applied, every one of its blocks stands
/// for its rolling hash and no telemetry is lost; refused, nothing changes.
pub proof fn law_store_is_all_or_nothing(
    ledger: LedgerView,
    owner: CacheOwner,
    tier: CacheTier,
    group: u32,
    parent: Option<u64>,
    blocks: Seq<CacheEvidenceStoredBlock>,
)
    ensures
        ({
            let (result, after) = ledger.store_mutation(owner, tier, Some(group), parent, blocks);
            let above = match parent {
                None => None,
                Some(external_hash) => ledger.parent_sequence_hash(owner, group, external_hash),
            };
            if result == StoreMutationResult::Applied {
                &&& after.physical_telemetry_complete == ledger.physical_telemetry_complete
                &&& after.history_complete == ledger.history_complete
                &&& chain(above, blocks).len() == blocks.len()
                &&& forall|j: int|
                    0 <= j < blocks.len() ==> after.mapped(
                        owner,
                        tier,
                        group,
                        (#[trigger] blocks[j]).external_hash,
                    ) == Some(chain(above, blocks)[j])
            } else {
                after == ledger
            }
        }),
{
    let above = match parent {
        None => None,
        Some(external_hash) => ledger.parent_sequence_hash(owner, group, external_hash),
    };
    let hashes = chain(above, blocks);
    lemma_chain_len(above, blocks);
    lemma_see_all(ledger, hashes, owner);
    lemma_see_all_complete(ledger, hashes);
    let seen = ledger.see_all(hashes);
    if !ledger.store_conflicts(owner, tier, group, blocks, hashes) {
        assert forall|i: int| !#[trigger] seen.block_conflicts(
            owner,
            tier,
            group,
            blocks,
            hashes,
            i,
        ) by {
            assert(!ledger.block_conflicts(owner, tier, group, blocks, hashes, i));
        }
        lemma_validated_stores(
            seen,
            owner,
            tier,
            group,
            blocks,
            hashes,
            blocks.len() as int,
        );
    }
}

proof fn lemma_see_all_complete(ledger: LedgerView, hashes: Seq<u64>)
    ensures
        ledger.see_all(hashes).history_complete == ledger.history_complete,
    decreases hashes.len(),
{
    if hashes.len() > 0 {
        lemma_see_all_complete(ledger, hashes.drop_last());
    }
}

} // verus!
