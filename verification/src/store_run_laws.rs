//! What holds of a run of stores, whatever the order of its events.

use vstd::prelude::*;

use crate::evidence::{
    BlockCopy, CacheEvidenceApplyIntegrityFailure, CacheEvidenceMutation,
    CacheEvidenceStoredBlock, CacheOwner, CacheTier, PhysicalCopy,
};
use crate::ledger_laws::law_store_is_all_or_nothing;
use crate::model::{
    apply_store_run, chain, dependents, depends_on, drain, is_ready, is_store, is_waiting,
    lacks_group, lemma_unlock_len, positions, unlock, Applied, LedgerView, StoreMutationResult,
};

verus! {

/// Every block of the store stands for something on its tier.
pub open spec fn is_stored(
    ledger: LedgerView,
    owner: CacheOwner,
    mutation: CacheEvidenceMutation,
) -> bool {
    match mutation {
        CacheEvidenceMutation::Store { tier, group_idx: Some(group), blocks, .. } => forall|j: int|
            #![trigger blocks@[j]]
            0 <= j < blocks@.len() ==> ledger.mapped(owner, tier, group, blocks@[j].external_hash)
                is Some,
        _ => false,
    }
}

/// The store names a parent that the ledger cannot make sense of.
pub open spec fn is_orphaned(
    ledger: LedgerView,
    owner: CacheOwner,
    mutation: CacheEvidenceMutation,
) -> bool {
    match mutation {
        CacheEvidenceMutation::Store {
            group_idx: Some(group),
            parent_external_hash: Some(parent),
            ..
        } => ledger.parent_sequence_hash(owner, group, parent) is None,
        _ => false,
    }
}

/// Whatever an engine hash stood for, it still stands for.
pub open spec fn keeps_meanings(before: LedgerView, after: LedgerView) -> bool {
    forall|key: BlockCopy|
        #![trigger before.external_copies.contains_key(key)]
        #![trigger after.external_copies.contains_key(key)]
        before.external_copies.contains_key(key) ==> after.external_copies.contains_key(key)
            && after.external_copies[key].0 == before.external_copies[key].0
}

/// New meanings are those of the stored blocks, on their tier and group.
pub open spec fn adds_only(
    before: LedgerView,
    after: LedgerView,
    copy: PhysicalCopy,
    blocks: Seq<CacheEvidenceStoredBlock>,
) -> bool {
    forall|key: BlockCopy| #[trigger]
        after.external_copies.contains_key(key) ==> before.external_copies.contains_key(key) || (
        key.copy == copy && names(blocks, key.hash))
}

pub open spec fn names(blocks: Seq<CacheEvidenceStoredBlock>, external_hash: u64) -> bool {
    exists|j: int| 0 <= j < blocks.len() && (#[trigger] blocks[j]).external_hash == external_hash
}

pub(crate) proof fn lemma_see_all_keeps(ledger: LedgerView, hashes: Seq<u64>)
    ensures
        ledger.see_all(hashes).external_copies == ledger.external_copies,
    decreases hashes.len(),
{
    if hashes.len() > 0 {
        lemma_see_all_keeps(ledger, hashes.drop_last());
    }
}

proof fn lemma_store_each_keeps(
    ledger: LedgerView,
    owner: CacheOwner,
    tier: CacheTier,
    group: u32,
    blocks: Seq<CacheEvidenceStoredBlock>,
    hashes: Seq<u64>,
    count: int,
)
    requires
        0 <= count <= blocks.len(),
    ensures
        keeps_meanings(ledger, ledger.store_each(owner, tier, group, blocks, hashes, count)),
        adds_only(
            ledger,
            ledger.store_each(owner, tier, group, blocks, hashes, count),
            PhysicalCopy { owner, tier, group },
            blocks,
        ),
    decreases count,
{
    if count > 0 {
        lemma_store_each_keeps(ledger, owner, tier, group, blocks, hashes, count - 1);
        let before = ledger.store_each(owner, tier, group, blocks, hashes, count - 1);
        let hash = blocks[count - 1].external_hash;
        let after = before.store_mapped(owner, tier, group, hash, hashes[count - 1]);
        assert(names(blocks, hash));
        assert(keeps_meanings(before, after));
        assert(adds_only(before, after, PhysicalCopy { owner, tier, group }, blocks));
    }
}

pub(crate) proof fn lemma_store_mutation_keeps(
    ledger: LedgerView,
    owner: CacheOwner,
    tier: CacheTier,
    group: u32,
    parent: Option<u64>,
    blocks: Seq<CacheEvidenceStoredBlock>,
)
    ensures
        ({
            let after = ledger.store_mutation(owner, tier, Some(group), parent, blocks).1;
            &&& keeps_meanings(ledger, after)
            &&& adds_only(ledger, after, PhysicalCopy { owner, tier, group }, blocks)
        }),
{
    let above = match parent {
        None => None,
        Some(external_hash) => ledger.parent_sequence_hash(owner, group, external_hash),
    };
    let hashes = chain(above, blocks);
    lemma_see_all_keeps(ledger, hashes);
    lemma_store_each_keeps(
        ledger.see_all(hashes),
        owner,
        tier,
        group,
        blocks,
        hashes,
        blocks.len() as int,
    );
}

proof fn lemma_dependents_members(
    run: Seq<CacheEvidenceMutation>,
    waiting: Seq<usize>,
    group: u32,
    external_hash: u64,
    dependent: bool,
    p: usize,
)
    ensures
        dependents(run, waiting, group, external_hash, dependent).contains(p) <==> (
        waiting.contains(p) && depends_on(run[p as int], group, external_hash) == dependent),
    decreases waiting.len(),
{
    if waiting.len() > 0 {
        let shorter = waiting.drop_last();
        lemma_dependents_members(run, shorter, group, external_hash, dependent, p);
        let before = dependents(run, shorter, group, external_hash, dependent);
        lemma_last_member(waiting, p);
        if depends_on(run[waiting.last() as int], group, external_hash) == dependent {
            let all = before.push(waiting.last());
            lemma_last_member(all, p);
            assert(all.drop_last() =~= before);
        }
    }
}

proof fn lemma_last_member(list: Seq<usize>, p: usize)
    requires
        list.len() > 0,
    ensures
        list.contains(p) <==> list.drop_last().contains(p) || list.last() == p,
{
    if list.contains(p) && list.last() != p {
        let i = choose|i: int| 0 <= i < list.len() && list[i] == p;
        assert(list.drop_last()[i] == p);
    }
    if list.drop_last().contains(p) {
        let i = choose|i: int| 0 <= i < list.drop_last().len() && list.drop_last()[i] == p;
        assert(list[i] == p);
    }
    if list.last() == p {
        assert(list[list.len() - 1] == p);
    }
}

proof fn lemma_joined_member(left: Seq<usize>, right: Seq<usize>, p: usize)
    ensures
        (left + right).contains(p) <==> left.contains(p) || right.contains(p),
{
    let all = left + right;
    if all.contains(p) {
        let i = choose|i: int| 0 <= i < all.len() && all[i] == p;
        if i < left.len() {
            assert(left[i] == p);
        } else {
            assert(right[i - left.len()] == p);
        }
    }
    if left.contains(p) {
        let i = choose|i: int| 0 <= i < left.len() && left[i] == p;
        assert(all[i] == p);
    }
    if right.contains(p) {
        let i = choose|i: int| 0 <= i < right.len() && right[i] == p;
        assert(all[i + left.len()] == p);
    }
}

/// Some of the first blocks is the parent of the store.
pub open spec fn released_by(
    mutation: CacheEvidenceMutation,
    group: u32,
    blocks: Seq<CacheEvidenceStoredBlock>,
    count: int,
) -> bool {
    exists|j: int|
        0 <= j < count && depends_on(mutation, group, (#[trigger] blocks[j]).external_hash)
}

/// A waiting store becomes ready exactly if one of the blocks is its parent;
/// a ready one stays so.
pub(crate) proof fn lemma_unlock_members(
    run: Seq<CacheEvidenceMutation>,
    group: u32,
    blocks: Seq<CacheEvidenceStoredBlock>,
    count: int,
    ready: Seq<usize>,
    waiting: Seq<usize>,
    p: usize,
)
    requires
        0 <= count <= blocks.len(),
    ensures
        ({
            let (r, w) = unlock(run, group, blocks, count, ready, waiting);
            let released = released_by(run[p as int], group, blocks, count);
            &&& r.contains(p) <==> ready.contains(p) || (waiting.contains(p) && released)
            &&& w.contains(p) <==> waiting.contains(p) && !released
        }),
    decreases count,
{
    if count > 0 {
        lemma_unlock_members(run, group, blocks, count - 1, ready, waiting, p);
        let (r, w) = unlock(run, group, blocks, count - 1, ready, waiting);
        let hash = blocks[count - 1].external_hash;
        lemma_dependents_members(run, w, group, hash, true, p);
        lemma_dependents_members(run, w, group, hash, false, p);
        lemma_joined_member(r, dependents(run, w, group, hash, true), p);
        let mutation = run[p as int];
        if released_by(mutation, group, blocks, count) {
            let j = choose|j: int|
                0 <= j < count && depends_on(mutation, group, (#[trigger] blocks[j]).external_hash);
            if j < count - 1 {
                assert(released_by(mutation, group, blocks, count - 1));
            }
        }
        if released_by(mutation, group, blocks, count - 1) {
            let j = choose|j: int|
                0 <= j < count - 1 && depends_on(
                    mutation,
                    group,
                    (#[trigger] blocks[j]).external_hash,
                );
            assert(depends_on(mutation, group, blocks[j].external_hash));
        }
        if depends_on(mutation, group, hash) {
            assert(blocks[count - 1].external_hash == hash);
        }
    }
}

/// The positions are those of stores with a group.
spec fn grouped(run: Seq<CacheEvidenceMutation>, list: Seq<usize>) -> bool {
    forall|p: usize| #[trigger]
        list.contains(p) ==> run[p as int] matches CacheEvidenceMutation::Store {
            group_idx: Some(_),
            ..
        }
}

pub(crate) proof fn lemma_first(list: Seq<usize>, p: usize)
    requires
        list.len() > 0,
    ensures
        list.contains(list[0]),
        list.drop_first().contains(p) ==> list.contains(p),
        list.contains(p) ==> list[0] == p || list.drop_first().contains(p),
{
    if list.drop_first().contains(p) {
        let i = choose|i: int| 0 <= i < list.drop_first().len() && list.drop_first()[i] == p;
        assert(list[i + 1] == p);
    }
    if list.contains(p) && list[0] != p {
        let i = choose|i: int| 0 <= i < list.len() && list[i] == p;
        assert(list.drop_first()[i - 1] == p);
    }
}

pub(crate) proof fn lemma_still_stored(
    before: LedgerView,
    after: LedgerView,
    owner: CacheOwner,
    mutation: CacheEvidenceMutation,
)
    requires
        keeps_meanings(before, after),
        is_stored(before, owner, mutation),
    ensures
        is_stored(after, owner, mutation),
{
    if let CacheEvidenceMutation::Store { tier, group_idx: Some(group), blocks, .. } = mutation {
        assert forall|j: int| #![trigger blocks@[j]] 0 <= j < blocks@.len() implies after.mapped(
            owner,
            tier,
            group,
            blocks@[j].external_hash,
        ) is Some by {
            let key = BlockCopy {
                hash: blocks@[j].external_hash,
                copy: PhysicalCopy { owner, tier, group },
            };
            assert(before.external_copies.contains_key(key));
        }
    }
}

proof fn lemma_drain_stores(
    state: Applied,
    owner: CacheOwner,
    run: Seq<CacheEvidenceMutation>,
    ready: Seq<usize>,
    waiting: Seq<usize>,
)
    requires
        grouped(run, ready),
        grouped(run, waiting),
    ensures
        ({
            let end = drain(state, owner, run, ready, waiting);
            &&& keeps_meanings(state.ledger, end.ledger)
            &&& state.failures.subset_of(end.failures)
            &&& end.failures == Set::<CacheEvidenceApplyIntegrityFailure>::empty() ==> forall|
                p: usize,
            |
                ready.contains(p) || waiting.contains(p) ==> #[trigger] is_stored(
                    end.ledger,
                    owner,
                    run[p as int],
                )
        }),
    decreases ready.len() + waiting.len(),
{
    let none = Set::<CacheEvidenceApplyIntegrityFailure>::empty();
    let end = drain(state, owner, run, ready, waiting);
    if ready.len() == 0 {
        if waiting.len() > 0 {
            assert(end.failures.contains(CacheEvidenceApplyIntegrityFailure::MissingParent));
        }
    } else {
        let rest = ready.drop_first();
        lemma_first(ready, ready[0]);
        assert forall|p: usize| #[trigger]
            rest.contains(p) implies run[p as int] matches CacheEvidenceMutation::Store {
            group_idx: Some(_),
            ..
        } by {
            lemma_first(ready, p);
        }
        match run[ready[0] as int] {
            CacheEvidenceMutation::Store {
                tier,
                group_idx: Some(group),
                parent_external_hash,
                blocks,
            } => {
                let (result, ledger) = state.ledger.store_mutation(
                    owner,
                    tier,
                    Some(group),
                    parent_external_hash,
                    blocks@,
                );
                lemma_store_mutation_keeps(
                    state.ledger,
                    owner,
                    tier,
                    group,
                    parent_external_hash,
                    blocks@,
                );
                law_store_is_all_or_nothing(
                    state.ledger,
                    owner,
                    tier,
                    group,
                    parent_external_hash,
                    blocks@,
                );
                if result == StoreMutationResult::Applied {
                    let next = Applied { ledger, ..state };
                    let n = blocks@.len() as int;
                    lemma_unlock_len(run, group, blocks@, n, rest, waiting);
                    let (r, w) = unlock(run, group, blocks@, n, rest, waiting);
                    assert forall|p: usize|
                        (r.contains(p) || w.contains(p)) == (rest.contains(p) || waiting.contains(
                            p,
                        )) by {
                        lemma_unlock_members(run, group, blocks@, n, rest, waiting, p);
                    }
                    lemma_drain_stores(next, owner, run, r, w);
                    assert(is_stored(ledger, owner, run[ready[0] as int]));
                    lemma_still_stored(ledger, end.ledger, owner, run[ready[0] as int]);
                    if end.failures == none {
                        assert forall|p: usize|
                            ready.contains(p) || waiting.contains(p) implies #[trigger] is_stored(
                            end.ledger,
                            owner,
                            run[p as int],
                        ) by {
                            lemma_first(ready, p);
                            if p != ready[0] {
                                assert(r.contains(p) || w.contains(p));
                            }
                        }
                    }
                } else {
                    let failure = match result {
                        StoreMutationResult::MissingParent =>
                            CacheEvidenceApplyIntegrityFailure::MissingParent,
                        StoreMutationResult::RejectedMapping =>
                            CacheEvidenceApplyIntegrityFailure::ConflictingMapping,
                        _ => CacheEvidenceApplyIntegrityFailure::MissingGroup,
                    };
                    let next = state.fail(failure);
                    lemma_drain_stores(next, owner, run, rest, waiting);
                    assert(end.failures.contains(failure));
                }
            },
            _ => {},
        }
    }
}

pub(crate) proof fn lemma_positions(
    ledger: LedgerView,
    owner: CacheOwner,
    run: Seq<CacheEvidenceMutation>,
    ready: bool,
    count: int,
    p: usize,
)
    requires
        0 <= count <= run.len() <= usize::MAX,
    ensures
        positions(ledger, owner, run, ready, count).contains(p) <==> p < count && if ready {
            is_ready(ledger, owner, run[p as int])
        } else {
            is_waiting(ledger, owner, run[p as int])
        },
    decreases count,
{
    if count > 0 {
        lemma_positions(ledger, owner, run, ready, count - 1, p);
        let before = positions(ledger, owner, run, ready, count - 1);
        let all = before.push((count - 1) as usize);
        lemma_last_member(all, p);
        assert(all.drop_last() =~= before);
    }
}

/// A run of stores that reports no failure has stored every block of every
/// one of them, in whatever order parents and children came.
pub proof fn law_complete_run_stores_everything(
    state: Applied,
    owner: CacheOwner,
    run: Seq<CacheEvidenceMutation>,
)
    requires
        run.len() <= usize::MAX,
        forall|i: int| 0 <= i < run.len() ==> is_store(#[trigger] run[i]),
        apply_store_run(state, owner, run).failures == Set::<
            CacheEvidenceApplyIntegrityFailure,
        >::empty(),
    ensures
        forall|i: int|
            0 <= i < run.len() ==> is_stored(
                apply_store_run(state, owner, run).ledger,
                owner,
                #[trigger] run[i],
            ),
{
    let n = run.len() as int;
    let ready = positions(state.ledger, owner, run, true, n);
    let waiting = positions(state.ledger, owner, run, false, n);
    assert forall|p: usize| #[trigger]
        ready.contains(p) implies run[p as int] matches CacheEvidenceMutation::Store {
        group_idx: Some(_),
        ..
    } by {
        lemma_positions(state.ledger, owner, run, true, n, p);
    }
    assert forall|p: usize| #[trigger]
        waiting.contains(p) implies run[p as int] matches CacheEvidenceMutation::Store {
        group_idx: Some(_),
        ..
    } by {
        lemma_positions(state.ledger, owner, run, false, n, p);
    }
    let failed = state.fail(CacheEvidenceApplyIntegrityFailure::MissingGroup);
    lemma_drain_stores(state, owner, run, ready, waiting);
    lemma_drain_stores(failed, owner, run, ready, waiting);
    let end = apply_store_run(state, owner, run);
    if exists|i: int| 0 <= i < run.len() && lacks_group(#[trigger] run[i]) {
        assert(end.failures.contains(CacheEvidenceApplyIntegrityFailure::MissingGroup));
    }
    assert forall|i: int| 0 <= i < run.len() implies is_stored(
        end.ledger,
        owner,
        #[trigger] run[i],
    ) by {
        let p = i as usize;
        lemma_positions(state.ledger, owner, run, true, n, p);
        lemma_positions(state.ledger, owner, run, false, n, p);
        assert(!lacks_group(run[i]));
        assert(ready.contains(p) || waiting.contains(p));
        assert(is_stored(end.ledger, owner, run[p as int]));
    }
}

/// The parent of the store, if it names one, is known on some tier.
spec fn parent_known(
    ledger: LedgerView,
    owner: CacheOwner,
    mutation: CacheEvidenceMutation,
) -> bool {
    match mutation {
        CacheEvidenceMutation::Store {
            group_idx: Some(group),
            parent_external_hash: Some(parent),
            ..
        } => ledger.mapped(owner, CacheTier::Gpu, group, parent) is Some || ledger.mapped(
            owner,
            CacheTier::Cpu,
            group,
            parent,
        ) is Some,
        _ => true,
    }
}

pub(crate) proof fn lemma_mapped_kept(
    before: LedgerView,
    after: LedgerView,
    owner: CacheOwner,
    tier: CacheTier,
    group: u32,
    hash: u64,
)
    requires
        keeps_meanings(before, after),
    ensures
        before.mapped(owner, tier, group, hash) is Some ==> after.mapped(owner, tier, group, hash)
            == before.mapped(owner, tier, group, hash),
{
    let key = BlockCopy { hash, copy: PhysicalCopy { owner, tier, group } };
    if before.external_copies.contains_key(key) {
        assert(after.external_copies.contains_key(key));
    }
}

/// A parent on which the tiers disagree can never be made sense of again.
proof fn lemma_orphan_stays(
    before: LedgerView,
    after: LedgerView,
    owner: CacheOwner,
    mutation: CacheEvidenceMutation,
)
    requires
        keeps_meanings(before, after),
        is_orphaned(before, owner, mutation),
        parent_known(before, owner, mutation),
    ensures
        is_orphaned(after, owner, mutation),
{
    if let CacheEvidenceMutation::Store {
        group_idx: Some(group),
        parent_external_hash: Some(parent),
        ..
    } = mutation {
        lemma_mapped_kept(before, after, owner, CacheTier::Gpu, group, parent);
        lemma_mapped_kept(before, after, owner, CacheTier::Cpu, group, parent);
    }
}

proof fn lemma_drain_orphans(
    state: Applied,
    owner: CacheOwner,
    run: Seq<CacheEvidenceMutation>,
    ready: Seq<usize>,
    waiting: Seq<usize>,
)
    requires
        grouped(run, ready),
        grouped(run, waiting),
        forall|p: usize| #[trigger]
            ready.contains(p) ==> p < run.len() && parent_known(
                state.ledger,
                owner,
                run[p as int],
            ),
        forall|p: usize| #[trigger]
            waiting.contains(p) ==> p < run.len() && is_orphaned(
                state.ledger,
                owner,
                run[p as int],
            ),
        !state.failures.contains(CacheEvidenceApplyIntegrityFailure::MissingParent),
        drain(state, owner, run, ready, waiting).failures.contains(
            CacheEvidenceApplyIntegrityFailure::MissingParent,
        ),
    ensures
        exists|i: int|
            0 <= i < run.len() && is_orphaned(
                drain(state, owner, run, ready, waiting).ledger,
                owner,
                #[trigger] run[i],
            ),
    decreases ready.len() + waiting.len(),
{
    let end = drain(state, owner, run, ready, waiting);
    lemma_drain_stores(state, owner, run, ready, waiting);
    if ready.len() == 0 {
        let p = waiting[0];
        assert(waiting.contains(p));
        assert(is_orphaned(end.ledger, owner, run[p as int]));
    } else {
        let rest = ready.drop_first();
        lemma_first(ready, ready[0]);
        assert forall|p: usize| #[trigger] rest.contains(p) implies ready.contains(p) by {
            lemma_first(ready, p);
        }
        let at = ready[0] as int;
        match run[at] {
            CacheEvidenceMutation::Store {
                tier,
                group_idx: Some(group),
                parent_external_hash,
                blocks,
            } => {
                let (result, ledger) = state.ledger.store_mutation(
                    owner,
                    tier,
                    Some(group),
                    parent_external_hash,
                    blocks@,
                );
                lemma_store_mutation_keeps(
                    state.ledger,
                    owner,
                    tier,
                    group,
                    parent_external_hash,
                    blocks@,
                );
                law_store_is_all_or_nothing(
                    state.ledger,
                    owner,
                    tier,
                    group,
                    parent_external_hash,
                    blocks@,
                );
                match result {
                    StoreMutationResult::MissingParent => {
                        lemma_orphan_stays(state.ledger, end.ledger, owner, run[at]);
                    },
                    StoreMutationResult::Applied => {
                        let n = blocks@.len() as int;
                        lemma_unlock_len(run, group, blocks@, n, rest, waiting);
                        let (r, w) = unlock(run, group, blocks@, n, rest, waiting);
                        let next = Applied { ledger, ..state };
                        assert forall|p: usize| #[trigger] r.contains(p) implies p < run.len()
                            && parent_known(ledger, owner, run[p as int]) && (run[p as int] matches
                            CacheEvidenceMutation::Store { group_idx: Some(_), .. }) by {
                            lemma_unlock_members(run, group, blocks@, n, rest, waiting, p);
                            lemma_parent_known(
                                state.ledger,
                                ledger,
                                owner,
                                tier,
                                group,
                                blocks@,
                                run[p as int],
                                rest.contains(p),
                            );
                        }
                        assert forall|p: usize| #[trigger] w.contains(p) implies p < run.len()
                            && is_orphaned(ledger, owner, run[p as int]) && (run[p as int] matches
                            CacheEvidenceMutation::Store { group_idx: Some(_), .. }) by {
                            lemma_unlock_members(run, group, blocks@, n, rest, waiting, p);
                            lemma_still_orphaned(
                                state.ledger,
                                ledger,
                                owner,
                                tier,
                                group,
                                blocks@,
                                run[p as int],
                            );
                        }
                        lemma_drain_orphans(next, owner, run, r, w);
                    },
                    StoreMutationResult::RejectedMapping => {
                        lemma_drain_orphans(
                            state.fail(CacheEvidenceApplyIntegrityFailure::ConflictingMapping),
                            owner,
                            run,
                            rest,
                            waiting,
                        );
                    },
                    StoreMutationResult::Invalid => {
                        lemma_drain_orphans(
                            state.fail(CacheEvidenceApplyIntegrityFailure::MissingGroup),
                            owner,
                            run,
                            rest,
                            waiting,
                        );
                    },
                }
            },
            _ => {},
        }
    }
}

/// A store that is ready after another was applied has a known parent: it had
/// one before, or one of the stored blocks is its parent.
proof fn lemma_parent_known(
    before: LedgerView,
    after: LedgerView,
    owner: CacheOwner,
    tier: CacheTier,
    group: u32,
    blocks: Seq<CacheEvidenceStoredBlock>,
    mutation: CacheEvidenceMutation,
    known: bool,
)
    requires
        keeps_meanings(before, after),
        known ==> parent_known(before, owner, mutation),
        !known ==> released_by(mutation, group, blocks, blocks.len() as int),
        forall|j: int|
            #![trigger blocks[j]]
            0 <= j < blocks.len() ==> after.mapped(owner, tier, group, blocks[j].external_hash)
                is Some,
    ensures
        parent_known(after, owner, mutation),
{
    if let CacheEvidenceMutation::Store {
        group_idx: Some(g),
        parent_external_hash: Some(parent),
        ..
    } = mutation {
        lemma_mapped_kept(before, after, owner, CacheTier::Gpu, g, parent);
        lemma_mapped_kept(before, after, owner, CacheTier::Cpu, g, parent);
        if !known {
            let j = choose|j: int|
                0 <= j < blocks.len() && depends_on(
                    mutation,
                    group,
                    (#[trigger] blocks[j]).external_hash,
                );
            assert(after.mapped(owner, tier, group, blocks[j].external_hash) is Some);
            match tier {
                CacheTier::Gpu => {},
                CacheTier::Cpu => {},
            }
        }
    }
}

/// A store whose parent is none of the stored blocks stays orphaned.
pub(crate) proof fn lemma_still_orphaned(
    before: LedgerView,
    after: LedgerView,
    owner: CacheOwner,
    tier: CacheTier,
    group: u32,
    blocks: Seq<CacheEvidenceStoredBlock>,
    mutation: CacheEvidenceMutation,
)
    requires
        keeps_meanings(before, after),
        adds_only(before, after, PhysicalCopy { owner, tier, group }, blocks),
        is_orphaned(before, owner, mutation),
        !released_by(mutation, group, blocks, blocks.len() as int),
    ensures
        is_orphaned(after, owner, mutation),
{
    if parent_known(before, owner, mutation) {
        lemma_orphan_stays(before, after, owner, mutation);
    } else if let CacheEvidenceMutation::Store {
        group_idx: Some(g),
        parent_external_hash: Some(parent),
        ..
    } = mutation {
        assert forall|t: CacheTier| (#[trigger] after.mapped(owner, t, g, parent)) is None by {
            let key = BlockCopy { hash: parent, copy: PhysicalCopy { owner, tier: t, group: g } };
            match t {
                CacheTier::Gpu => {},
                CacheTier::Cpu => {},
            }
            assert(before.mapped(owner, t, g, parent) is None);
            if after.external_copies.contains_key(key) {
                let j = choose|j: int|
                    0 <= j < blocks.len() && (#[trigger] blocks[j]).external_hash == parent;
                assert(depends_on(mutation, group, blocks[j].external_hash));
            }
        }
        assert(after.mapped(owner, CacheTier::Gpu, g, parent) is None);
        assert(after.mapped(owner, CacheTier::Cpu, g, parent) is None);
    }
}

/// A run of stores complains of a missing parent only if one is missing: in
/// the end some store names a parent that is unknown, or on which the tiers
/// disagree. That the parent came later in the run is no reason.
pub proof fn law_missing_parent_is_missing(
    state: Applied,
    owner: CacheOwner,
    run: Seq<CacheEvidenceMutation>,
)
    requires
        run.len() <= usize::MAX,
        !state.failures.contains(CacheEvidenceApplyIntegrityFailure::MissingParent),
        apply_store_run(state, owner, run).failures.contains(
            CacheEvidenceApplyIntegrityFailure::MissingParent,
        ),
    ensures
        exists|i: int|
            0 <= i < run.len() && is_orphaned(
                apply_store_run(state, owner, run).ledger,
                owner,
                #[trigger] run[i],
            ),
{
    let n = run.len() as int;
    let ready = positions(state.ledger, owner, run, true, n);
    let waiting = positions(state.ledger, owner, run, false, n);
    let screened = if exists|i: int| 0 <= i < run.len() && lacks_group(#[trigger] run[i]) {
        state.fail(CacheEvidenceApplyIntegrityFailure::MissingGroup)
    } else {
        state
    };
    assert forall|p: usize| #[trigger] ready.contains(p) implies p < run.len() && parent_known(
        screened.ledger,
        owner,
        run[p as int],
    ) && (run[p as int] matches CacheEvidenceMutation::Store { group_idx: Some(_), .. }) by {
        lemma_positions(state.ledger, owner, run, true, n, p);
    }
    assert forall|p: usize| #[trigger] waiting.contains(p) implies p < run.len() && is_orphaned(
        screened.ledger,
        owner,
        run[p as int],
    ) && (run[p as int] matches CacheEvidenceMutation::Store { group_idx: Some(_), .. }) by {
        lemma_positions(state.ledger, owner, run, false, n, p);
    }
    lemma_drain_orphans(screened, owner, run, ready, waiting);
}

} // verus!
