//! What a cold epoch takes for evidence, told from the batches.

use vstd::prelude::*;

use crate::cold_epoch::{
    ColdEpochFailure, ColdEpochOutcome, ColdEpochOwnerFence, ColdEpochOwnerProgress, ColdEpochView,
    ColdRoundView,
};
use crate::evidence::{CacheEvidenceBatch, CacheEvidenceMutation, CacheOwner, CacheTier};

verus! {

/// The batch clears the tier and nothing else.
pub open spec fn is_clear_of(mutation: CacheEvidenceMutation, tier: CacheTier) -> bool {
    mutation == (CacheEvidenceMutation::Clear { tier: Some(tier) })
}

/// The batch clears exactly the tiers of the fence, each once.
pub open spec fn clears_the_fenced_tiers(
    batch: CacheEvidenceBatch,
    fence: ColdEpochOwnerFence,
) -> bool {
    let mutations = batch.mutations@;
    let gpu = fence.expected_tiers.gpu;
    let cpu = fence.expected_tiers.cpu;
    ||| gpu && cpu && mutations.len() == 2 && (is_clear_of(mutations[0], CacheTier::Gpu)
        && is_clear_of(mutations[1], CacheTier::Cpu) || is_clear_of(mutations[0], CacheTier::Cpu)
        && is_clear_of(mutations[1], CacheTier::Gpu))
    ||| gpu && !cpu && mutations.len() == 1 && is_clear_of(mutations[0], CacheTier::Gpu)
    ||| !gpu && cpu && mutations.len() == 1 && is_clear_of(mutations[0], CacheTier::Cpu)
    ||| !gpu && !cpu && mutations.len() == 0
}

/// The batch is of the epoch that is under way.
pub open spec fn is_of_epoch(batch: CacheEvidenceBatch, round: ColdRoundView) -> bool {
    batch.epoch_id is Some && batch.epoch_id->0@ == round.epoch_id
}

/// The batch is the clear that the epoch asked the owner for: complete, of the
/// epoch and the fenced incarnation, the first one, and of exactly the fenced
/// tiers.
pub open spec fn is_the_clear(batch: CacheEvidenceBatch, round: ColdRoundView) -> bool {
    &&& is_of_epoch(batch, round)
    &&& batch.barrier_id is None
    &&& batch.telemetry_complete
    &&& round.owners.contains_key(batch.owner)
    &&& batch.source_incarnation_id == Some(
        round.owners[batch.owner].fence.evidence_incarnation,
    )
    &&& round.owners[batch.owner].clear_cursor is None
    &&& clears_the_fenced_tiers(batch, round.owners[batch.owner].fence)
}

/// The batch is the owner's marker: complete, of the epoch, its barrier and the
/// fenced incarnation, the first one, empty, and right behind the clear.
pub open spec fn is_the_marker(batch: CacheEvidenceBatch, round: ColdRoundView) -> bool {
    &&& is_of_epoch(batch, round)
    &&& batch.barrier_id == Some(round.barrier_id)
    &&& batch.telemetry_complete
    &&& batch.mutations@.len() == 0
    &&& round.owners.contains_key(batch.owner)
    &&& batch.source_incarnation_id == Some(
        round.owners[batch.owner].fence.evidence_incarnation,
    )
    &&& round.owners[batch.owner].clear_cursor matches Some(cursor) && cursor + 1
        == batch.source_cursor
    &&& !round.owners[batch.owner].marker_seen
}

/// Every owner has cleared and marked, and all have accepted the request.
pub open spec fn has_everything(round: ColdRoundView) -> bool {
    &&& round.controls_succeeded
    &&& forall|owner: CacheOwner| #[trigger]
        round.owners.contains_key(owner) ==> round.owners[owner].clear_cursor is Some
            && round.owners[owner].marker_seen
}

proof fn lemma_clears(batch: CacheEvidenceBatch, fence: ColdEpochOwnerFence)
    ensures
        crate::cold_epoch::clears_exactly(batch.mutations@, fence.expected_tiers)
            <==> clears_the_fenced_tiers(batch, fence),
{
    let mutations = batch.mutations@;
    let tiers = fence.expected_tiers;
    assert forall|m: CacheEvidenceMutation, tier: CacheTier|
        crate::cold_epoch::clears(m, tier) <==> #[trigger] is_clear_of(m, tier) by {}
    if crate::cold_epoch::clears_exactly(mutations, tiers) {
        if tiers.gpu {
            let i = choose|i: int|
                0 <= i < mutations.len() && crate::cold_epoch::clears(
                    #[trigger] mutations[i],
                    CacheTier::Gpu,
                );
            assert(is_clear_of(mutations[i], CacheTier::Gpu));
            if tiers.cpu {
                let j = choose|j: int|
                    0 <= j < mutations.len() && crate::cold_epoch::clears(
                        #[trigger] mutations[j],
                        CacheTier::Cpu,
                    );
                assert(is_clear_of(mutations[j], CacheTier::Cpu));
                assert(i != j);
                assert((i == 0 && j == 1) || (i == 1 && j == 0));
            } else {
                assert(i == 0);
            }
        } else if tiers.cpu {
            let j = choose|j: int|
                0 <= j < mutations.len() && crate::cold_epoch::clears(
                    #[trigger] mutations[j],
                    CacheTier::Cpu,
                );
            assert(is_clear_of(mutations[j], CacheTier::Cpu));
            assert(j == 0);
        }
    }
    if clears_the_fenced_tiers(batch, fence) {
        if mutations.len() >= 1 {
            assert(crate::cold_epoch::clears(mutations[0], CacheTier::Gpu)
                <==> is_clear_of(mutations[0], CacheTier::Gpu));
            assert(crate::cold_epoch::clears(mutations[0], CacheTier::Cpu)
                <==> is_clear_of(mutations[0], CacheTier::Cpu));
        }
        if mutations.len() >= 2 {
            assert(crate::cold_epoch::clears(mutations[1], CacheTier::Gpu)
                <==> is_clear_of(mutations[1], CacheTier::Gpu));
            assert(crate::cold_epoch::clears(mutations[1], CacheTier::Cpu)
                <==> is_clear_of(mutations[1], CacheTier::Cpu));
        }
        assert(crate::cold_epoch::clears_tier(mutations, CacheTier::Gpu) == tiers.gpu);
        assert(crate::cold_epoch::clears_tier(mutations, CacheTier::Cpu) == tiers.cpu);
    }
}

/// An epoch begins with its owners as they are fenced, none of them cleared or
/// marked, and no answer in.
pub proof fn law_epoch_begins_with_nothing_shown(
    state: ColdEpochView,
    epoch_id: Seq<char>,
    barrier_id: u64,
    owners: Map<CacheOwner, ColdEpochOwnerFence>,
)
    ensures
        ({
            let begun = state.begin(epoch_id, barrier_id, owners);
            &&& begun.outcome == ColdEpochOutcome::Pending
            &&& begun.active matches Some(round) && {
                &&& round.epoch_id == epoch_id
                &&& round.barrier_id == barrier_id
                &&& !round.controls_succeeded
                &&& forall|owner: CacheOwner|
                    (#[trigger] round.owners.contains_key(owner)) <==> owners.contains_key(owner)
                &&& forall|owner: CacheOwner|
                    (#[trigger] round.owners.contains_key(owner)) ==> round.owners[owner] == (
                    ColdEpochOwnerProgress {
                        fence: owners[owner],
                        clear_cursor: None,
                        marker_seen: false,
                    })
            }
        }),
{
}

/// The clear of the epoch is noted for its owner, with its cursor, and decides
/// nothing yet. Any other batch under an epoch id fails the epoch: one of a
/// foreign owner as a change of membership, all others as an invalid clear.
pub proof fn law_only_the_clear_is_noted(state: ColdEpochView, batch: CacheEvidenceBatch)
    ensures
        ({
            let after = state.observe_clear_batch(batch);
            let next = ColdEpochOwnerProgress {
                clear_cursor: Some(batch.source_cursor),
                ..state.active->0.owners[batch.owner]
            };
            &&& state.active is None || batch.epoch_id is None ==> after == state
            &&& state.active is Some && batch.epoch_id is Some && is_the_clear(
                batch,
                state.active->0,
            ) ==> {
                &&& after.outcome == state.outcome
                &&& after.active == Some(
                    ColdRoundView {
                        owners: state.active->0.owners.insert(batch.owner, next),
                        ..state.active->0
                    },
                )
            }
            &&& state.active is Some && batch.epoch_id is Some && !is_the_clear(
                batch,
                state.active->0,
            ) ==> {
                &&& after.active is None
                &&& after.outcome == ColdEpochOutcome::Incomplete(
                    if is_of_epoch(batch, state.active->0) && batch.barrier_id is None
                        && batch.telemetry_complete && !state.active->0.owners.contains_key(
                        batch.owner,
                    ) {
                        ColdEpochFailure::MembershipChanged
                    } else {
                        ColdEpochFailure::InvalidClear
                    },
                )
            }
            &&& state.accepts_clear_baseline(batch) <==> state.active is Some && is_the_clear(
                batch,
                state.active->0,
            )
        }),
{
    if let Some(round) = state.active {
        if round.owners.contains_key(batch.owner) {
            lemma_clears(batch, round.owners[batch.owner].fence);
        }
    }
}

/// The marker of an owner is noted, and makes the evidence ready once nothing
/// else is missing. Any other batch under an epoch id fails the epoch.
pub proof fn law_only_the_marker_is_noted(state: ColdEpochView, batch: CacheEvidenceBatch)
    ensures
        ({
            let after = state.observe_marker(batch);
            let next = ColdEpochOwnerProgress {
                marker_seen: true,
                ..state.active->0.owners[batch.owner]
            };
            let round = ColdRoundView {
                owners: state.active->0.owners.insert(batch.owner, next),
                ..state.active->0
            };
            &&& state.active is None || batch.epoch_id is None ==> after == state
            &&& state.active is Some && batch.epoch_id is Some && is_the_marker(
                batch,
                state.active->0,
            ) ==> {
                &&& after.active == Some(round)
                &&& after.outcome == if has_everything(round) {
                    ColdEpochOutcome::EvidenceReady
                } else {
                    state.outcome
                }
            }
            &&& state.active is Some && batch.epoch_id is Some && !is_the_marker(
                batch,
                state.active->0,
            ) ==> {
                &&& after.active is None
                &&& after.outcome == ColdEpochOutcome::Incomplete(
                    if is_of_epoch(batch, state.active->0) && batch.barrier_id == Some(
                        state.active->0.barrier_id,
                    ) && batch.mutations@.len() == 0 && batch.telemetry_complete
                        && !state.active->0.owners.contains_key(batch.owner) {
                        ColdEpochFailure::MembershipChanged
                    } else {
                        ColdEpochFailure::InvalidMarker
                    },
                )
            }
        }),
{
    if let Some(round) = state.active {
        let next = ColdEpochOwnerProgress { marker_seen: true, ..round.owners[batch.owner] };
        let marked = ColdRoundView { owners: round.owners.insert(batch.owner, next), ..round };
        lemma_ready(marked);
    }
}

proof fn lemma_ready(round: ColdRoundView)
    ensures
        round.is_ready() <==> has_everything(round),
{
    if has_everything(round) {
        assert forall|owner: CacheOwner| #[trigger]
            round.owners.contains_key(owner) implies round.owners[owner].is_done() by {}
    }
    if round.is_ready() {
        assert forall|owner: CacheOwner| #[trigger]
            round.owners.contains_key(owner) implies round.owners[owner].clear_cursor is Some
            && round.owners[owner].marker_seen by {
            assert(round.owners[owner].is_done());
        }
    }
}

/// The owners' answers count for the epoch that they name, and make the
/// evidence ready once nothing else is missing.
pub proof fn law_answers_count_for_their_epoch(state: ColdEpochView, epoch_id: Seq<char>)
    ensures
        ({
            let after = state.controls_succeeded(epoch_id);
            let round = ColdRoundView { controls_succeeded: true, ..state.active->0 };
            let named = state.active is Some && state.active->0.epoch_id == epoch_id;
            &&& !named ==> after == state
            &&& named ==> {
                &&& after.active == Some(round)
                &&& after.outcome == if has_everything(round) {
                    ColdEpochOutcome::EvidenceReady
                } else {
                    state.outcome
                }
            }
        }),
{
    if let Some(round) = state.active {
        lemma_ready(ColdRoundView { controls_succeeded: true, ..round });
    }
}

/// An ordinary event between an owner's clear and its marker fails the epoch;
/// any other leaves it alone. A failure ends an epoch under way, and nothing
/// else does but its completion.
pub proof fn law_events_after_the_clear_fail_the_epoch(
    state: ColdEpochView,
    owner: CacheOwner,
    failure: ColdEpochFailure,
    epoch_id: Seq<char>,
)
    ensures
        ({
            let between = state.active is Some && state.active->0.owners.contains_key(owner)
                && state.active->0.owners[owner].clear_cursor is Some
                && !state.active->0.owners[owner].marker_seen;
            &&& between ==> state.unexpected_mutation(owner) == (ColdEpochView {
                active: None,
                outcome: ColdEpochOutcome::Incomplete(ColdEpochFailure::MutationAfterClear),
            })
            &&& !between ==> state.unexpected_mutation(owner) == state
        }),
        state.fail(failure) == if state.active is None {
            state
        } else {
            ColdEpochView { active: None, outcome: ColdEpochOutcome::Incomplete(failure) }
        },
        state.complete(epoch_id) == if state.active is Some && state.active->0.epoch_id
            == epoch_id {
            ColdEpochView { active: None, outcome: state.outcome }
        } else {
            state
        },
{
}

} // verus!
