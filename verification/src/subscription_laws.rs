//! What holds of a subscription, whatever evidence arrives.

use vstd::prelude::*;

use crate::evidence::{BlockCopy, CacheEvidenceBatch, CacheEvidenceMutation, CacheOwner};
use crate::ledger_laws::law_batch_is_confined_to_its_owner;
use crate::model::{apply_batch, LedgerView};
use crate::sequence::EvidenceSequenceObservation;
use crate::subscription_model::{Step, SubscriptionView};

verus! {

/// The ledger has lost or gained copies of the owner alone, has forgotten
/// nothing that was computed, and is certain of nothing that it was not
/// certain of before.
pub open spec fn concerns_only(before: LedgerView, after: LedgerView, owner: CacheOwner) -> bool {
    &&& after.history_epoch == before.history_epoch
    &&& before.seen_blocks.subset_of(after.seen_blocks)
    &&& before.history_saturated ==> after.history_saturated
    &&& after.history_complete ==> before.history_complete
    &&& after.physical_telemetry_complete ==> before.physical_telemetry_complete
    &&& forall|key: BlockCopy|
        #![trigger after.copies.contains_key(key)]
        #![trigger before.copies.contains_key(key)]
        key.copy.owner != owner ==> before.copies.contains_key(key) == after.copies.contains_key(
            key,
        ) && (before.copies.contains_key(key) ==> before.copies[key] == after.copies[key])
    &&& forall|key: BlockCopy|
        #![trigger after.external_copies.contains_key(key)]
        #![trigger before.external_copies.contains_key(key)]
        key.copy.owner != owner ==> before.external_copies.contains_key(key)
            == after.external_copies.contains_key(key) && (before.external_copies.contains_key(key)
            ==> before.external_copies[key] == after.external_copies[key])
}

proof fn lemma_sequenced(state: SubscriptionView, batch: CacheEvidenceBatch, incarnation: u64)
    ensures
        concerns_only(
            state.ledger,
            state.sequenced(batch, incarnation).state.ledger,
            batch.owner,
        ),
        state.continuity(batch, incarnation) == EvidenceSequenceObservation::Gap
            ==> !state.sequenced(batch, incarnation).state.ledger.physical_telemetry_complete,
        state.continuity(batch, incarnation) == EvidenceSequenceObservation::Stale
            ==> state.sequenced(batch, incarnation).state == state,
{
}

proof fn lemma_fence(
    step: Step,
    owner: CacheOwner,
    mutations: Seq<CacheEvidenceMutation>,
    count: int,
)
    ensures
        ({
            let after = step.fence_mutations(owner, mutations, count).state.ledger;
            &&& after.copies == step.state.ledger.copies
            &&& after.external_copies == step.state.ledger.external_copies
            &&& after.history_epoch == step.state.ledger.history_epoch
            &&& after.seen_blocks == step.state.ledger.seen_blocks
            &&& after.history_saturated == step.state.ledger.history_saturated
            &&& after.history_complete ==> step.state.ledger.history_complete
            &&& after.physical_telemetry_complete == step.state.ledger.physical_telemetry_complete
        }),
    decreases count,
{
    if count > 0 {
        lemma_fence(step, owner, mutations, count - 1);
    }
}

proof fn lemma_admitted(step: Step, batch: CacheEvidenceBatch, now: u64)
    ensures
        concerns_only(
            step.state.ledger,
            step.on_admitted(batch, now).state.ledger,
            batch.owner,
        ),
{
    let owner = batch.owner;
    let mutations = batch.mutations@;
    if batch.epoch_id is Some {
        law_batch_is_confined_to_its_owner(
            step.state.ledger,
            owner,
            batch.telemetry_complete,
            mutations,
        );
    } else if batch.barrier_id is None {
        let screened = if batch.telemetry_complete {
            step
        } else {
            let voided = step.void_cuts(owner, crate::barrier::BarrierFailure::IncompleteBatch);
            if step.state.barriers.awaiting(owner).len() > 0 {
                Step {
                    state: voided.state.fail_epoch(
                        crate::cold_epoch::ColdEpochFailure::IncompleteBatch,
                    ),
                    ..voided
                }
            } else {
                voided
            }
        };
        lemma_fence(screened, owner, mutations, mutations.len() as int);
        let fenced = screened.fence_mutations(owner, mutations, mutations.len() as int);
        law_batch_is_confined_to_its_owner(
            fenced.state.ledger,
            owner,
            batch.telemetry_complete,
            mutations,
        );
        let applied = apply_batch(
            fenced.state.ledger,
            owner,
            batch.telemetry_complete,
            mutations,
        );
        assert(step.on_admitted(batch, now).state.ledger == applied.ledger);
    }
}

/// A batch speaks of its owner alone: the copies of every other owner stay as
/// they are. It never takes back what was computed, and never restores a
/// certainty that was lost.
pub proof fn law_batch_concerns_its_owner_alone(
    state: SubscriptionView,
    batch: CacheEvidenceBatch,
    now: u64,
)
    ensures
        concerns_only(state.ledger, state.on_batch(batch, now).state.ledger, batch.owner),
{
    if state.active.contains(batch.owner) && batch.source_incarnation_id is Some {
        let incarnation = batch.source_incarnation_id->0;
        if state.freshness.accepts(batch.owner, incarnation) && !batch.heartbeat {
            lemma_sequenced(state, batch, incarnation);
            if state.continuity(batch, incarnation) != EvidenceSequenceObservation::Stale {
                lemma_admitted(state.sequenced(batch, incarnation), batch, now);
            }
        }
    }
}

/// Batches of owners outside the membership, of other incarnations than the
/// expected one, and batches that are out of order leave the state as it is.
pub proof fn law_unwanted_batches_change_nothing(
    state: SubscriptionView,
    batch: CacheEvidenceBatch,
    now: u64,
)
    requires
        !state.active.contains(batch.owner) || (batch.source_incarnation_id is Some && (
        !state.freshness.accepts(batch.owner, batch.source_incarnation_id->0) || (!batch.heartbeat
            && state.continuity(batch, batch.source_incarnation_id->0)
            == EvidenceSequenceObservation::Stale))),
    ensures
        state.on_batch(batch, now).state == state,
{
    if state.active.contains(batch.owner) {
        lemma_sequenced(state, batch, batch.source_incarnation_id->0);
    }
}

/// After a gap, absence is no longer known, whatever the batch itself says.
pub proof fn law_gap_costs_certainty(
    state: SubscriptionView,
    batch: CacheEvidenceBatch,
    now: u64,
)
    requires
        state.active.contains(batch.owner),
        batch.source_incarnation_id is Some,
        state.freshness.accepts(batch.owner, batch.source_incarnation_id->0),
        !batch.heartbeat,
        state.continuity(batch, batch.source_incarnation_id->0) == EvidenceSequenceObservation::Gap,
    ensures
        !state.on_batch(batch, now).state.ledger.physical_telemetry_complete,
        !state.on_batch(batch, now).state.ledger.history_complete,
{
    let incarnation = batch.source_incarnation_id->0;
    lemma_sequenced(state, batch, incarnation);
    lemma_admitted(state.sequenced(batch, incarnation), batch, now);
}

/// Heartbeats and route-time markers change no copy of any owner.
pub proof fn law_markers_move_no_blocks(
    state: SubscriptionView,
    batch: CacheEvidenceBatch,
    now: u64,
)
    requires
        batch.heartbeat || (batch.epoch_id is None && batch.barrier_id is Some
            && batch.source_incarnation_id is Some && state.continuity(
            batch,
            batch.source_incarnation_id->0,
        ) != EvidenceSequenceObservation::PublisherRestart),
    ensures
        state.on_batch(batch, now).state.ledger.copies == state.ledger.copies,
        state.on_batch(batch, now).state.ledger.external_copies == state.ledger.external_copies,
        state.on_batch(batch, now).state.ledger.seen_blocks == state.ledger.seen_blocks,
{
}

/// A restarted publisher takes none of the owner's copies along.
pub proof fn law_restart_withdraws_the_owners_copies(
    state: SubscriptionView,
    batch: CacheEvidenceBatch,
    incarnation: u64,
    key: BlockCopy,
)
    requires
        state.continuity(batch, incarnation) == EvidenceSequenceObservation::PublisherRestart,
        key.copy.owner == batch.owner,
    ensures
        !state.sequenced(batch, incarnation).state.ledger.copies.contains_key(key),
        !state.sequenced(batch, incarnation).state.ledger.external_copies.contains_key(key),
        !state.sequenced(batch, incarnation).state.ledger.history_complete,
        !state.sequenced(batch, incarnation).state.catalogs.contains_key(batch.owner),
{
}

} // verus!
