//! Reference counting over whole batches.

use vstd::prelude::*;

use crate::announcements::{announced, count, lemma_kept_is_backed, lemma_weight_is_announced};
use crate::count_laws::{
    counted, law_clear_is_counted, law_remove_is_counted, law_store_is_counted,
    lemma_see_all_copies,
};
use crate::evidence::{
    BlockCopy, CacheEvidenceApplyIntegrityFailure, CacheEvidenceMutation,
    CacheEvidenceStoredBlock, CacheOwner, CacheTier, PhysicalCopy,
};
use crate::ledger_laws::{lemma_remove_all, lemma_store_mutation};
use crate::model::{
    admitted, apply_batch, apply_mutations, apply_store_run, chain, covers, dependents,
    drain, lemma_run_end, lemma_unlock_len, positions, run_end, unlock, Applied,
    LedgerView, StoreMutationResult,
};
use crate::store_order_laws::blocks_of;
use crate::store_run_laws::lemma_see_all_keeps;

verus! {

/// No count reaches its limit within `more` announcements.
pub open spec fn has_room(ledger: LedgerView, more: nat) -> bool {
    forall|key: BlockCopy| #[trigger] count(ledger.copies, key) + more <= u32::MAX
}

/// The blocks that the mutations from `from` on announce.
pub open spec fn announcements_from(mutations: Seq<CacheEvidenceMutation>, from: int) -> nat
    decreases mutations.len() - from,
{
    if 0 <= from < mutations.len() {
        blocks_of(mutations[from]).len() + announcements_from(mutations, from + 1)
    } else {
        0
    }
}

/// The blocks that the listed stores announce.
spec fn load(run: Seq<CacheEvidenceMutation>, list: Seq<usize>) -> nat
    decreases list.len(),
{
    if list.len() == 0 {
        0
    } else {
        load(run, list.drop_last()) + blocks_of(run[list.last() as int]).len()
    }
}

proof fn lemma_load_push(run: Seq<CacheEvidenceMutation>, list: Seq<usize>, p: usize)
    ensures
        load(run, list.push(p)) == load(run, list) + blocks_of(run[p as int]).len(),
{
    assert(list.push(p).drop_last() =~= list);
}

proof fn lemma_load_joined(run: Seq<CacheEvidenceMutation>, left: Seq<usize>, right: Seq<usize>)
    ensures
        load(run, left + right) == load(run, left) + load(run, right),
    decreases right.len(),
{
    if right.len() == 0 {
        assert(left + right =~= left);
    } else {
        lemma_load_joined(run, left, right.drop_last());
        assert((left + right).drop_last() =~= left + right.drop_last());
    }
}

proof fn lemma_load_first(run: Seq<CacheEvidenceMutation>, list: Seq<usize>)
    requires
        list.len() > 0,
    ensures
        load(run, list) == blocks_of(run[list[0] as int]).len() + load(run, list.drop_first()),
{
    assert(list =~= seq![list[0]] + list.drop_first());
    lemma_load_joined(run, seq![list[0]], list.drop_first());
    assert(seq![list[0]] =~= Seq::<usize>::empty().push(list[0]));
    lemma_load_push(run, Seq::empty(), list[0]);
}

proof fn lemma_load_dependents(
    run: Seq<CacheEvidenceMutation>,
    waiting: Seq<usize>,
    group: u32,
    hash: u64,
)
    ensures
        load(run, dependents(run, waiting, group, hash, true)) + load(
            run,
            dependents(run, waiting, group, hash, false),
        ) == load(run, waiting),
    decreases waiting.len(),
{
    if waiting.len() > 0 {
        let front = waiting.drop_last();
        lemma_load_dependents(run, front, group, hash);
        lemma_load_push(run, dependents(run, front, group, hash, true), waiting.last());
        lemma_load_push(run, dependents(run, front, group, hash, false), waiting.last());
    }
}

proof fn lemma_load_unlock(
    run: Seq<CacheEvidenceMutation>,
    group: u32,
    blocks: Seq<CacheEvidenceStoredBlock>,
    n: int,
    ready: Seq<usize>,
    waiting: Seq<usize>,
)
    ensures
        ({
            let (r, w) = unlock(run, group, blocks, n, ready, waiting);
            load(run, r) + load(run, w) == load(run, ready) + load(run, waiting)
        }),
    decreases n,
{
    if n > 0 {
        lemma_load_unlock(run, group, blocks, n - 1, ready, waiting);
        let (r, w) = unlock(run, group, blocks, n - 1, ready, waiting);
        let hash = blocks[n - 1].external_hash;
        lemma_load_dependents(run, w, group, hash);
        lemma_load_joined(run, r, dependents(run, w, group, hash, true));
    }
}

proof fn lemma_load_positions(
    ledger: LedgerView,
    owner: CacheOwner,
    run: Seq<CacheEvidenceMutation>,
    n: int,
)
    requires
        0 <= n <= run.len() <= usize::MAX,
    ensures
        load(run, positions(ledger, owner, run, true, n)) + load(
            run,
            positions(ledger, owner, run, false, n),
        ) + announcements_from(run, n) <= announcements_from(run, 0),
    decreases n,
{
    if n > 0 {
        lemma_load_positions(ledger, owner, run, n - 1);
        lemma_load_push(
            run,
            positions(ledger, owner, run, true, n - 1),
            (n - 1) as usize,
        );
        lemma_load_push(
            run,
            positions(ledger, owner, run, false, n - 1),
            (n - 1) as usize,
        );
    }
}

proof fn lemma_announcements_split(mutations: Seq<CacheEvidenceMutation>, from: int, end: int)
    requires
        0 <= from <= end <= mutations.len(),
    ensures
        announcements_from(mutations, from) == announcements_from(
            mutations.subrange(from, end),
            0,
        ) + announcements_from(mutations, end),
    decreases end - from,
{
    lemma_announcements_shifted(mutations, from, end, from);
}

proof fn lemma_announcements_shifted(
    mutations: Seq<CacheEvidenceMutation>,
    from: int,
    end: int,
    at: int,
)
    requires
        0 <= from <= at <= end <= mutations.len(),
    ensures
        announcements_from(mutations, at) == announcements_from(
            mutations.subrange(from, end),
            at - from,
        ) + announcements_from(mutations, end),
    decreases end - at,
{
    if at < end {
        lemma_announcements_shifted(mutations, from, end, at + 1);
        assert(mutations.subrange(from, end)[at - from] == mutations[at]);
    }
}

/// The ledger counts exactly, and has room for so many announcements.
spec fn ready_for(ledger: LedgerView, more: nat) -> bool {
    ledger.inv() && counted(ledger) && has_room(ledger, more)
}

proof fn lemma_same_counts(before: LedgerView, after: LedgerView, more: nat)
    requires
        counted(before),
        has_room(before, more),
        before.copies == after.copies,
        before.external_copies == after.external_copies,
    ensures
        counted(after),
        has_room(after, more),
{
    assert forall|key: BlockCopy| #[trigger] count(after.copies, key) + more <= u32::MAX by {
        assert(count(before.copies, key) + more <= u32::MAX);
    }
    assert forall|key: BlockCopy| #[trigger]
        count(after.copies, key) == announced(
            after.external_copies,
            key,
        ) by {
        assert(count(before.copies, key) == announced(
            before.external_copies,
            key,
        ));
    }
}

proof fn lemma_store_each_counted(
    ledger: LedgerView,
    owner: CacheOwner,
    tier: CacheTier,
    group: u32,
    blocks: Seq<CacheEvidenceStoredBlock>,
    hashes: Seq<u64>,
    n: int,
    more: nat,
)
    requires
        0 <= n,
        counted(ledger),
        has_room(ledger, (n + more) as nat),
    ensures
        counted(ledger.store_each(owner, tier, group, blocks, hashes, n)),
        has_room(ledger.store_each(owner, tier, group, blocks, hashes, n), more),
    decreases n,
{
    if n > 0 {
        lemma_store_each_counted(
            ledger,
            owner,
            tier,
            group,
            blocks,
            hashes,
            n - 1,
            more + 1,
        );
        let before = ledger.store_each(owner, tier, group, blocks, hashes, n - 1);
        let external_hash = blocks[n - 1].external_hash;
        let sequence_hash = hashes[n - 1];
        let after = before.store_mapped(owner, tier, group, external_hash, sequence_hash);
        let copy = PhysicalCopy { owner, tier, group };
        let external = BlockCopy { hash: external_hash, copy };
        let stored = BlockCopy { hash: sequence_hash, copy };
        let mapped = before.mapped(owner, tier, group, external_hash);
        assert(count(before.copies, stored) + (more + 1) <= u32::MAX);
        if mapped is Some && mapped != Some(sequence_hash) {
            lemma_same_counts(before, after, more + 1);
        } else {
            lemma_weight_is_announced(before.external_copies, stored, external);
            assert(count(before.copies, stored) == announced(
                before.external_copies,
                stored,
            ));
            law_store_is_counted(before, owner, tier, group, external_hash, sequence_hash);
        }
        assert forall|key: BlockCopy| #[trigger] count(after.copies, key) + more <= u32::MAX by {
            assert(count(before.copies, key) + (more + 1) <= u32::MAX);
            if mapped is Some && mapped != Some(sequence_hash) {
                assert(count(after.copies, key) + (more + 1) <= u32::MAX);
            }
        }
    } else {
        assert(ledger.store_each(owner, tier, group, blocks, hashes, n) == ledger);
    }
}

proof fn lemma_store_counted(
    ledger: LedgerView,
    owner: CacheOwner,
    tier: CacheTier,
    group: u32,
    parent: Option<u64>,
    blocks: Seq<CacheEvidenceStoredBlock>,
    more: nat,
)
    requires
        ready_for(ledger, blocks.len() + more),
    ensures
        ready_for(ledger.store_mutation(owner, tier, Some(group), parent, blocks).1, more),
{
    lemma_store_mutation(ledger, owner, tier, Some(group), parent, blocks);
    let above = match parent {
        None => None,
        Some(external_hash) => ledger.parent_sequence_hash(owner, group, external_hash),
    };
    let hashes = chain(above, blocks);
    let seen = ledger.see_all(hashes);
    let n = blocks.len() as int;
    lemma_see_all_copies(ledger, hashes);
    lemma_see_all_keeps(ledger, hashes);
    lemma_same_counts(ledger, seen, blocks.len() + more);
    lemma_store_each_counted(seen, owner, tier, group, blocks, hashes, n, more);
    assert(has_room(ledger, more)) by {
        assert forall|key: BlockCopy| #[trigger] count(ledger.copies, key) + more <= u32::MAX by {
            assert(count(ledger.copies, key) + (blocks.len() + more) <= u32::MAX);
        }
    }
}

proof fn lemma_drain_counted(
    state: Applied,
    owner: CacheOwner,
    run: Seq<CacheEvidenceMutation>,
    ready: Seq<usize>,
    waiting: Seq<usize>,
    more: nat,
)
    requires
        ready_for(state.ledger, load(run, ready) + load(run, waiting) + more),
    ensures
        ready_for(drain(state, owner, run, ready, waiting).ledger, more),
    decreases ready.len() + waiting.len(),
{
    let end = drain(state, owner, run, ready, waiting);
    if ready.len() == 0 {
        let budget = load(run, ready) + load(run, waiting) + more;
        lemma_same_counts(state.ledger, end.ledger, budget);
        lemma_less_room(end.ledger, budget, more);
    } else {
        let rest = ready.drop_first();
        lemma_load_first(run, ready);
        match run[ready[0] as int] {
            CacheEvidenceMutation::Store {
                tier,
                group_idx: Some(group),
                parent_external_hash,
                blocks,
            } => {
                let (result, ledger) = state.ledger.store_mutation(
                    owner,
                    tier,
                    Some(group),
                    parent_external_hash,
                    blocks@,
                );
                let left = load(run, rest) + load(run, waiting) + more;
                lemma_store_counted(
                    state.ledger,
                    owner,
                    tier,
                    group,
                    parent_external_hash,
                    blocks@,
                    left,
                );
                if result == StoreMutationResult::Applied {
                    let n = blocks@.len() as int;
                    lemma_unlock_len(run, group, blocks@, n, rest, waiting);
                    lemma_load_unlock(run, group, blocks@, n, rest, waiting);
                    let (r, w) = unlock(run, group, blocks@, n, rest, waiting);
                    lemma_drain_counted(Applied { ledger, ..state }, owner, run, r, w, more);
                } else {
                    let next = match result {
                        StoreMutationResult::MissingParent => state.fail(
                            CacheEvidenceApplyIntegrityFailure::MissingParent,
                        ),
                        StoreMutationResult::RejectedMapping => state.fail(
                            CacheEvidenceApplyIntegrityFailure::ConflictingMapping,
                        ),
                        _ => state.fail(CacheEvidenceApplyIntegrityFailure::MissingGroup),
                    };
                    lemma_same_counts(ledger, next.ledger, left);
                    lemma_drain_counted(next, owner, run, rest, waiting, more);
                }
            },
            _ => {
                lemma_less_room(
                    state.ledger,
                    load(run, ready) + load(run, waiting) + more,
                    load(run, rest) + load(run, waiting) + more,
                );
                lemma_drain_counted(state, owner, run, rest, waiting, more);
            },
        }
    }
}

proof fn lemma_less_room(ledger: LedgerView, more: nat, less: nat)
    requires
        has_room(ledger, more),
        less <= more,
    ensures
        has_room(ledger, less),
{
    assert forall|key: BlockCopy| #[trigger] count(ledger.copies, key) + less <= u32::MAX by {
        assert(count(ledger.copies, key) + more <= u32::MAX);
    }
}

proof fn lemma_remove_all_counted(
    ledger: LedgerView,
    owner: CacheOwner,
    tier: CacheTier,
    group: u32,
    hashes: Seq<u64>,
    more: nat,
)
    requires
        ready_for(ledger, more),
    ensures
        ready_for(ledger.remove_all(owner, tier, group, hashes), more),
    decreases hashes.len(),
{
    lemma_remove_all(ledger, owner, tier, group, hashes);
    if hashes.len() > 0 {
        let front = hashes.drop_last();
        lemma_remove_all_counted(ledger, owner, tier, group, front, more);
        let before = ledger.remove_all(owner, tier, group, front);
        let after = before.remove_external(owner, tier, group, hashes.last());
        law_remove_is_counted(before, owner, tier, group, hashes.last());
        assert forall|key: BlockCopy| #[trigger] count(after.copies, key) + more <= u32::MAX by {
            assert(count(before.copies, key) + more <= u32::MAX);
        }
    }
}

proof fn lemma_mutations_counted(
    state: Applied,
    owner: CacheOwner,
    mutations: Seq<CacheEvidenceMutation>,
    from: int,
)
    requires
        0 <= from <= mutations.len() <= usize::MAX,
        ready_for(state.ledger, announcements_from(mutations, from)),
    ensures
        counted(apply_mutations(state, owner, mutations, from).ledger),
    decreases mutations.len() - from,
{
    if from < mutations.len() {
        let budget = announcements_from(mutations, from);
        let left = announcements_from(mutations, from + 1);
        lemma_less_room(state.ledger, budget, left);
        match mutations[from] {
            CacheEvidenceMutation::Store { .. } => {
                let end = run_end(mutations, from);
                lemma_run_end(mutations, from);
                let run = mutations.subrange(from, end);
                let after = announcements_from(mutations, end);
                lemma_announcements_split(mutations, from, end);
                lemma_load_positions(state.ledger, owner, run, run.len() as int);
                let ready = positions(state.ledger, owner, run, true, run.len() as int);
                let waiting = positions(state.ledger, owner, run, false, run.len() as int);
                let wanted = load(run, ready) + load(run, waiting) + after;
                let failed = state.fail(CacheEvidenceApplyIntegrityFailure::MissingGroup);
                lemma_less_room(state.ledger, budget, wanted);
                lemma_same_counts(state.ledger, failed.ledger, wanted);
                lemma_drain_counted(state, owner, run, ready, waiting, after);
                lemma_drain_counted(failed, owner, run, ready, waiting, after);
                lemma_mutations_counted(
                    apply_store_run(state, owner, run),
                    owner,
                    mutations,
                    end,
                );
            },
            CacheEvidenceMutation::Remove { tier, group_idx, block_hashes } => {
                match group_idx {
                    None => {
                        let next = state.fail(CacheEvidenceApplyIntegrityFailure::MissingGroup);
                        lemma_same_counts(state.ledger, next.ledger, left);
                        lemma_mutations_counted(next, owner, mutations, from + 1);
                    },
                    Some(group) => {
                        let ledger = state.ledger.remove_all(owner, tier, group, block_hashes@);
                        lemma_remove_all_counted(
                            state.ledger,
                            owner,
                            tier,
                            group,
                            block_hashes@,
                            left,
                        );
                        lemma_mutations_counted(
                            Applied { ledger, ..state },
                            owner,
                            mutations,
                            from + 1,
                        );
                    },
                }
            },
            CacheEvidenceMutation::Clear { tier } => {
                let ledger = state.ledger.clear(owner, tier);
                law_clear_is_counted(state.ledger, owner, tier);
                lemma_kept_is_backed(
                    state.ledger.copies,
                    state.ledger.external_copies,
                    |key: BlockCopy| !covers(owner, tier, key.copy),
                );
                assert forall|key: BlockCopy| #[trigger]
                    count(ledger.copies, key) + left <= u32::MAX by {
                    assert(count(state.ledger.copies, key) + left <= u32::MAX);
                }
                lemma_mutations_counted(Applied { ledger, ..state }, owner, mutations, from + 1);
            },
        }
    }
}

/// A batch keeps counting exactly: whatever it stores, removes and clears,
/// every block is counted as often as it is announced, as long as no count can
/// reach its limit within the batch.
pub proof fn law_batch_is_counted(
    ledger: LedgerView,
    owner: CacheOwner,
    telemetry_complete: bool,
    mutations: Seq<CacheEvidenceMutation>,
)
    requires
        mutations.len() <= usize::MAX,
        ledger.inv(),
        counted(ledger),
        has_room(ledger, announcements_from(mutations, 0)),
    ensures
        counted(apply_batch(ledger, owner, telemetry_complete, mutations).ledger),
{
    let start = admitted(ledger, telemetry_complete);
    let budget = announcements_from(mutations, 0);
    lemma_same_counts(ledger, start.ledger, budget);
    lemma_mutations_counted(start, owner, mutations, 0);
    let end = apply_mutations(start, owner, mutations, 0).ledger;
    let after = apply_batch(ledger, owner, telemetry_complete, mutations).ledger;
    assert forall|key: BlockCopy| #[trigger]
        count(after.copies, key) == announced(
            after.external_copies,
            key,
        ) by {
        assert(count(end.copies, key) == announced(
            end.external_copies,
            key,
        ));
    }
}

} // verus!
