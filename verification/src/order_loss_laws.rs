//! What batches out of order, or incomplete ones, cost.

use vstd::prelude::*;

use crate::barrier::BarrierFailure;
use crate::catalog::{is_valid_catalog, normalized, shapes};
use crate::cold_epoch::{ColdEpochFailure, ColdEpochOutcome};
use crate::cut_laws::{
    law_failures_void_whom_they_concern, law_marker_is_passed_in_its_round, waits,
};
use crate::evidence::{CacheEvidenceBatch, CacheEvidenceMutation, CacheOwner};
use crate::membership::SourceMember;
use crate::metrics::{mutation_label, BatchLabel, EvidenceMetric};
use crate::model::apply_batch;
use crate::sequence::{EvidenceSequenceObservation, OwnerPublisher};
use crate::stream_laws::{
    fails_epoch, is_awaited_batch, is_next, is_voided, lemma_affected, lemma_fenced, lemma_next,
    names_unknown_blocks, same_cut,
};
use crate::subscription_model::{Step, SubscriptionView};

verus! {

/// The batch is of the publisher that speaks for the owner, or the first to,
/// and not retired; but batches are missing before it.
pub open spec fn comes_late(state: SubscriptionView, batch: CacheEvidenceBatch) -> bool {
    let incarnation = batch.source_incarnation_id->0;
    &&& is_awaited_batch(state, batch)
    &&& !batch.heartbeat
    &&& !state.sequences.retired.contains(
        OwnerPublisher { owner: batch.owner, publisher_id: incarnation },
    )
    &&& state.sequences.owner_publishers.contains_key(batch.owner)
        ==> state.sequences.owner_publishers[batch.owner] == incarnation
    &&& if state.sequences.publishers.contains_key(incarnation) {
        batch.source_cursor > state.sequences.publishers[incarnation] + 1
    } else {
        batch.source_cursor > 0 && state.cold_epoch.active is None
    }
}

/// Another publisher spoke for the owner, and this one is new to it.
pub open spec fn starts_anew(state: SubscriptionView, batch: CacheEvidenceBatch) -> bool {
    let incarnation = batch.source_incarnation_id->0;
    &&& is_awaited_batch(state, batch)
    &&& !batch.heartbeat
    &&& !state.sequences.retired.contains(
        OwnerPublisher { owner: batch.owner, publisher_id: incarnation },
    )
    &&& state.sequences.owner_publishers.contains_key(batch.owner)
    &&& state.sequences.owner_publishers[batch.owner] != incarnation
    &&& state.sequences.publishers.contains_key(incarnation) ==> batch.source_cursor
        > state.sequences.publishers[incarnation]
}

/// A ticket that does not wait is left alone, and an epoch that is over.
proof fn lemma_left_alone(step: Step, batch: CacheEvidenceBatch, now: u64, ticket: u64)
    requires
        !waits(step.state.barriers, ticket),
    ensures
        same_cut(step.state.barriers, step.on_admitted(batch, now).state.barriers, ticket),
        step.state.cold_epoch.active is None ==> step.on_admitted(batch, now).state.cold_epoch
            == step.state.cold_epoch,
        step.events.is_prefix_of(step.on_admitted(batch, now).events),
{
    let owner = batch.owner;
    let mutations = batch.mutations@;
    let count = mutations.len() as int;
    lemma_voided_stays(step, owner, ticket);
    if batch.epoch_id is None && batch.barrier_id is Some {
        law_marker_is_passed_in_its_round(
            step.state.barriers,
            owner,
            batch.barrier_id->0,
            ticket,
        );
    } else if batch.epoch_id is None {
        let screened = if batch.telemetry_complete {
            step
        } else {
            let voided = step.void_cuts(owner, BarrierFailure::IncompleteBatch);
            if step.state.barriers.awaiting(owner).len() > 0 {
                Step {
                    state: voided.state.fail_epoch(ColdEpochFailure::IncompleteBatch),
                    ..voided
                }
            } else {
                voided
            }
        };
        lemma_fenced(screened, owner, mutations, count, ticket);
        lemma_fence_events(screened, owner, mutations, count);
        let fenced = screened.fence_mutations(owner, mutations, count);
        let counted = fenced.received(BatchLabel::Applied).count_mutations(mutations);
        lemma_apply_events(counted, batch);
        lemma_voided_stays(counted, owner, ticket);
        let applied = apply_batch(
            counted.state.ledger,
            owner,
            batch.telemetry_complete,
            mutations,
        );
        let taken = Step {
            state: SubscriptionView { ledger: applied.ledger, ..counted.state },
            ..counted
        };
        lemma_voided_stays(taken.count_failures(applied.failures), owner, ticket);
        lemma_voided_stays(taken, owner, ticket);
        assert(step.events.is_prefix_of(screened.events));
        assert(screened.events.is_prefix_of(fenced.events));
        assert(fenced.events.is_prefix_of(counted.events));
        assert(counted.events.is_prefix_of(counted.apply(batch).events));
    }
}

proof fn lemma_voided_stays(step: Step, owner: CacheOwner, ticket: u64)
    requires
        !waits(step.state.barriers, ticket),
    ensures
        forall|failure: BarrierFailure|
            same_cut(
                step.state.barriers,
                #[trigger] step.state.barriers.fail_owner(owner, failure),
                ticket,
            ),
{
    assert forall|failure: BarrierFailure|
        same_cut(
            step.state.barriers,
            #[trigger] step.state.barriers.fail_owner(owner, failure),
            ticket,
        ) by {
        law_failures_void_whom_they_concern(step.state.barriers, owner, 0, failure, ticket);
    }
}

proof fn lemma_fence_events(
    step: Step,
    owner: CacheOwner,
    mutations: Seq<CacheEvidenceMutation>,
    count: int,
)
    requires
        0 <= count <= mutations.len(),
    ensures
        step.events.is_prefix_of(step.fence_mutations(owner, mutations, count).events),
        step.state.cold_epoch.active is None ==> step.fence_mutations(
            owner,
            mutations,
            count,
        ).state.cold_epoch == step.state.cold_epoch,
    decreases count,
{
    if count > 0 {
        lemma_fence_events(step, owner, mutations, count - 1);
    }
}

proof fn lemma_apply_events(step: Step, batch: CacheEvidenceBatch)
    ensures
        step.events.is_prefix_of(step.apply(batch).events),
{
}

/// A batch before which others are missing voids the cuts that wait for its
/// owner, and fails an epoch under way; that is counted.
pub proof fn law_late_batch_voids_the_owners_cuts(
    state: SubscriptionView,
    batch: CacheEvidenceBatch,
    now: u64,
    ticket: u64,
)
    requires
        comes_late(state, batch),
        waits(state.barriers, ticket),
        state.barriers.cuts[ticket].unmarked_owners.contains(batch.owner),
    ensures
        ({
            let step = state.on_batch(batch, now);
            &&& is_voided(state.barriers, step.state.barriers, ticket)
            &&& fails_epoch(state.cold_epoch, step.state.cold_epoch, ColdEpochFailure::Gap)
            &&& step.events.contains(EvidenceMetric::Batch(BatchLabel::Gap))
            &&& !step.state.ledger.physical_telemetry_complete
            &&& !step.state.ledger.history_complete
        }),
{
    let incarnation = batch.source_incarnation_id->0;
    let sequenced = state.sequenced(batch, incarnation);
    assert(state.continuity(batch, incarnation) == EvidenceSequenceObservation::Gap);
    law_failures_void_whom_they_concern(
        state.barriers,
        batch.owner,
        0,
        BarrierFailure::Gap,
        ticket,
    );
    assert(sequenced.events.last() == EvidenceMetric::Batch(BatchLabel::Gap));
    lemma_left_alone(sequenced, batch, now, ticket);
    let after = state.on_batch(batch, now);
    assert(after == sequenced.on_admitted(batch, now));
    assert(after.events[sequenced.events.len() - 1] == sequenced.events.last());
    crate::subscription_laws::law_gap_costs_certainty(state, batch, now);
}

/// A new publisher of an owner voids the cuts that wait for the owner, and fails
/// an epoch under way; that is counted.
pub proof fn law_new_publisher_voids_the_owners_cuts(
    state: SubscriptionView,
    batch: CacheEvidenceBatch,
    now: u64,
    ticket: u64,
)
    requires
        starts_anew(state, batch),
        waits(state.barriers, ticket),
        state.barriers.cuts[ticket].unmarked_owners.contains(batch.owner),
    ensures
        ({
            let step = state.on_batch(batch, now);
            &&& is_voided(state.barriers, step.state.barriers, ticket)
            &&& fails_epoch(state.cold_epoch, step.state.cold_epoch, ColdEpochFailure::Restart)
            &&& step.events.contains(EvidenceMetric::Batch(BatchLabel::PublisherRestart))
        }),
{
    let incarnation = batch.source_incarnation_id->0;
    let sequenced = state.sequenced(batch, incarnation);
    assert(state.continuity(batch, incarnation)
        == EvidenceSequenceObservation::PublisherRestart);
    law_failures_void_whom_they_concern(
        state.barriers,
        batch.owner,
        0,
        BarrierFailure::Restart,
        ticket,
    );
    assert(sequenced.events.last() == EvidenceMetric::Batch(BatchLabel::PublisherRestart));
    lemma_left_alone(sequenced, batch, now, ticket);
    let after = state.on_batch(batch, now);
    assert(after == sequenced.on_admitted(batch, now));
    assert(after.events[sequenced.events.len() - 1] == sequenced.events.last());
}

/// The next batch of an owner, if it is incomplete, voids the cuts that wait for
/// the owner.
pub proof fn law_incomplete_batch_voids_the_owners_cuts(
    state: SubscriptionView,
    batch: CacheEvidenceBatch,
    now: u64,
    ticket: u64,
)
    requires
        is_next(state, batch),
        batch.epoch_id is None,
        !batch.telemetry_complete,
        waits(state.barriers, ticket),
        state.barriers.cuts[ticket].unmarked_owners.contains(batch.owner),
    ensures
        is_voided(state.barriers, state.on_batch(batch, now).state.barriers, ticket),
{
    lemma_next(state, batch, now);
    let owner = batch.owner;
    let mutations = batch.mutations@;
    law_failures_void_whom_they_concern(
        state.barriers,
        owner,
        0,
        BarrierFailure::InvalidMarker,
        ticket,
    );
    law_failures_void_whom_they_concern(
        state.barriers,
        owner,
        0,
        BarrierFailure::IncompleteBatch,
        ticket,
    );
    if batch.barrier_id is None {
        let noted = SubscriptionView {
            sequences: state.sequences.observe(
                owner,
                batch.source_incarnation_id->0,
                batch.source_cursor,
                state.cold_epoch.accepts_clear_baseline(batch),
            ),
            ..state
        };
        let step = noted.step();
        let voided = step.void_cuts(owner, BarrierFailure::IncompleteBatch);
        let screened = if step.state.barriers.awaiting(owner).len() > 0 {
            Step {
                state: voided.state.fail_epoch(ColdEpochFailure::IncompleteBatch),
                ..voided
            }
        } else {
            voided
        };
        lemma_fenced(screened, owner, mutations, mutations.len() as int, ticket);
        let fenced = screened.fence_mutations(owner, mutations, mutations.len() as int);
        lemma_voided_stays(fenced, owner, ticket);
    }
}

/// The events of a batch that is applied are counted behind it, each by what it
/// does.
pub proof fn law_applied_events_are_counted(
    state: SubscriptionView,
    batch: CacheEvidenceBatch,
    now: u64,
    i: int,
)
    requires
        is_next(state, batch),
        batch.epoch_id is None,
        batch.barrier_id is None,
        0 <= i < batch.mutations@.len(),
    ensures
        ({
            let events = state.on_batch(batch, now).events;
            &&& events.contains(EvidenceMetric::Batch(BatchLabel::Applied))
            &&& events.contains(EvidenceMetric::Mutation(mutation_label(batch.mutations@[i])))
        }),
{
    lemma_next(state, batch, now);
    let owner = batch.owner;
    let mutations = batch.mutations@;
    let noted = SubscriptionView {
        sequences: state.sequences.observe(
            owner,
            batch.source_incarnation_id->0,
            batch.source_cursor,
            state.cold_epoch.accepts_clear_baseline(batch),
        ),
        ..state
    };
    let step = noted.step();
    let screened = if batch.telemetry_complete {
        step
    } else {
        let voided = step.void_cuts(owner, BarrierFailure::IncompleteBatch);
        if step.state.barriers.awaiting(owner).len() > 0 {
            Step {
                state: voided.state.fail_epoch(ColdEpochFailure::IncompleteBatch),
                ..voided
            }
        } else {
            voided
        }
    };
    let fenced = screened.fence_mutations(owner, mutations, mutations.len() as int);
    let counted = fenced.received(BatchLabel::Applied).count_mutations(mutations);
    lemma_apply_events(counted, batch);
    let n = fenced.events.len() as int;
    let events = state.on_batch(batch, now).events;
    assert(events == counted.apply(batch).events);
    assert(counted.events[n] == EvidenceMetric::Batch(BatchLabel::Applied));
    assert(counted.events[n + 1 + i] == EvidenceMetric::Mutation(mutation_label(mutations[i])));
    assert(events[n] == counted.events[n]);
    assert(events[n + 1 + i] == counted.events[n + 1 + i]);
}

/// An ordinary event between an owner's clear and its marker fails the epoch.
pub proof fn law_event_after_the_clear_fails_the_epoch(
    state: SubscriptionView,
    batch: CacheEvidenceBatch,
    now: u64,
)
    requires
        is_next(state, batch),
        batch.epoch_id is None,
        batch.barrier_id is None,
        batch.telemetry_complete,
        batch.mutations@.len() > 0,
        state.cold_epoch.active is Some,
        state.cold_epoch.active->0.owners.contains_key(batch.owner),
        state.cold_epoch.active->0.owners[batch.owner].clear_cursor is Some,
        !state.cold_epoch.active->0.owners[batch.owner].marker_seen,
    ensures
        state.on_batch(batch, now).state.cold_epoch.active is None,
        state.on_batch(batch, now).state.cold_epoch.outcome == ColdEpochOutcome::Incomplete(
            ColdEpochFailure::MutationAfterClear,
        ),
{
    lemma_next(state, batch, now);
    let owner = batch.owner;
    let mutations = batch.mutations@;
    let noted = SubscriptionView {
        sequences: state.sequences.observe(
            owner,
            batch.source_incarnation_id->0,
            batch.source_cursor,
            state.cold_epoch.accepts_clear_baseline(batch),
        ),
        ..state
    };
    lemma_first_fails(noted.step(), owner, mutations, mutations.len() as int);
}

proof fn lemma_first_fails(
    step: Step,
    owner: CacheOwner,
    mutations: Seq<CacheEvidenceMutation>,
    count: int,
)
    requires
        0 < count <= mutations.len(),
        step.state.cold_epoch.active is Some,
        step.state.cold_epoch.active->0.owners.contains_key(owner),
        step.state.cold_epoch.active->0.owners[owner].clear_cursor is Some,
        !step.state.cold_epoch.active->0.owners[owner].marker_seen,
    ensures
        ({
            let after = step.fence_mutations(owner, mutations, count).state.cold_epoch;
            &&& after.active is None
            &&& after.outcome == ColdEpochOutcome::Incomplete(
                ColdEpochFailure::MutationAfterClear,
            )
        }),
    decreases count,
{
    if count > 1 {
        lemma_first_fails(step, owner, mutations, count - 1);
    } else {
        assert(step.fence_mutations(owner, mutations, 0) == step);
    }
}

/// After its source was followed, a live owner has a catalog exactly if the
/// source attests one that is valid and that all declared ones agree with. A
/// source that is not live changes nothing.
pub proof fn law_attested_catalogs_are_kept(state: SubscriptionView, source: SourceMember)
    ensures
        ({
            let after = state.step().sync_source(source).state;
            let attested = source.catalog is Some && is_valid_catalog(
                shapes(source.catalog->0@),
            ) && forall|other: CacheOwner|
                (#[trigger] state.catalogs.contains_key(other)) ==> state.catalogs[other]
                    == normalized(shapes(source.catalog->0@));
            &&& !source.active ==> after == state
            &&& source.active ==> {
                &&& after.catalogs.contains_key(source.owner) <==> attested
                &&& attested ==> after.catalogs[source.owner] == normalized(
                    shapes(source.catalog->0@),
                )
                &&& forall|other: CacheOwner|
                    other != source.owner ==> ((#[trigger] after.catalogs.contains_key(other))
                        <==> state.catalogs.contains_key(other)) && (state.catalogs.contains_key(
                        other,
                    ) ==> after.catalogs[other] == state.catalogs[other])
            }
            &&& source.active && !attested && (source.catalog is Some
                || state.catalogs.contains_key(source.owner)) ==> {
                &&& !after.ledger.physical_telemetry_complete
                &&& !after.ledger.history_complete
                &&& after.cold_epoch.active is None
                &&& forall|ticket: u64| !(#[trigger] waits(after.barriers, ticket))
            }
        }),
{
}

/// An event that names blocks nobody knows fails an epoch under way.
pub proof fn law_unknown_blocks_fail_the_epoch(
    state: SubscriptionView,
    batch: CacheEvidenceBatch,
    now: u64,
    i: int,
)
    requires
        is_next(state, batch),
        batch.epoch_id is None,
        batch.barrier_id is None,
        batch.telemetry_complete,
        0 <= i < batch.mutations@.len(),
        names_unknown_blocks(state.ledger, batch.owner, batch.mutations@[i]),
    ensures
        state.on_batch(batch, now).state.cold_epoch.active is None,
        !state.on_batch(batch, now).state.ledger.history_complete,
{
    lemma_next(state, batch, now);
    let owner = batch.owner;
    let mutations = batch.mutations@;
    let noted = SubscriptionView {
        sequences: state.sequences.observe(
            owner,
            batch.source_incarnation_id->0,
            batch.source_cursor,
            state.cold_epoch.accepts_clear_baseline(batch),
        ),
        ..state
    };
    let count = mutations.len() as int;
    lemma_unknown_fails(noted.step(), owner, mutations, count, i);
    lemma_fenced(noted.step(), owner, mutations, count, 0);
    let fenced = noted.step().fence_mutations(owner, mutations, count);
    assert(!fenced.state.ledger.history_complete);
    crate::ledger_laws::law_batch_is_confined_to_its_owner(
        fenced.state.ledger,
        owner,
        true,
        mutations,
    );
}

proof fn lemma_unknown_fails(
    step: Step,
    owner: CacheOwner,
    mutations: Seq<CacheEvidenceMutation>,
    count: int,
    i: int,
)
    requires
        0 <= i < count <= mutations.len(),
        names_unknown_blocks(step.state.ledger, owner, mutations[i]),
    ensures
        step.fence_mutations(owner, mutations, count).state.cold_epoch.active is None,
    decreases count,
{
    let before = step.fence_mutations(owner, mutations, count - 1);
    if i < count - 1 {
        lemma_unknown_fails(step, owner, mutations, count - 1, i);
    } else {
        lemma_fenced(step, owner, mutations, count - 1, 0);
        lemma_affected(step.state.ledger, before.state.ledger, owner, mutations[i]);
        let hashes = before.state.ledger.affected_sequence_hashes(owner, mutations[i]);
        assert(hashes =~= Set::<u64>::empty());
    }
}

} // verus!
