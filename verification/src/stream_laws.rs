//! What a batch of evidence comes to, told from its owner, order and contents.

use vstd::prelude::*;

use crate::barrier::{BarrierFailure, BarrierOutcome, BarrierView};
use crate::cold_epoch::{ColdEpochFailure, ColdEpochOutcome, ColdEpochView};
use crate::cut_laws::{
    decides, law_earlier_events_void_what_they_touch, law_failures_void_whom_they_concern, waits,
};
use crate::evidence::{
    CacheEvidenceApplyIntegrityFailure, CacheEvidenceBatch, CacheEvidenceMutation, CacheOwner,
};
use crate::freshness::EvidenceWatermark;
use crate::metrics::{BatchLabel, EvidenceMetric};
use crate::model::{apply_batch, LedgerView};
use crate::sequence::OwnerPublisher;
use crate::subscription_model::{Step, SubscriptionView};

verus! {

/// The owner's batches are taken, and the batch is of the incarnation that is
/// expected of it.
pub open spec fn is_awaited_batch(state: SubscriptionView, batch: CacheEvidenceBatch) -> bool {
    &&& state.active.contains(batch.owner)
    &&& batch.source_incarnation_id is Some
    &&& state.freshness.expected.contains_key(batch.owner)
    &&& state.freshness.expected[batch.owner] == batch.source_incarnation_id
}

/// An epoch that is under way has failed for the reason; an earlier outcome
/// stands.
pub open spec fn fails_epoch(
    before: ColdEpochView,
    after: ColdEpochView,
    failure: ColdEpochFailure,
) -> bool {
    if before.active is None {
        after == before
    } else {
        after.active is None && after.outcome == ColdEpochOutcome::Incomplete(failure)
    }
}

/// Absence proves nothing any more; what was seen and held still counts.
pub open spec fn loses_certainty(before: LedgerView, after: LedgerView) -> bool {
    after == LedgerView {
        physical_telemetry_complete: false,
        history_complete: false,
        ..before
    }
}

/// Nothing but the parts that are named has changed.
pub open spec fn keeps_order_and_members(
    before: SubscriptionView,
    after: SubscriptionView,
) -> bool {
    &&& after.sequences == before.sequences
    &&& after.active == before.active
    &&& after.history_membership == before.history_membership
    &&& after.endpoint == before.endpoint
}

/// Batches of an owner that is not expected, or of another incarnation, are
/// counted and change nothing. One without an incarnation may be anything: it
/// costs the certainty, and the epoch that is under way.
pub proof fn law_unexpected_batches_are_only_counted(
    state: SubscriptionView,
    batch: CacheEvidenceBatch,
    now: u64,
)
    ensures
        ({
            let step = state.on_batch(batch, now);
            let after = step.state;
            &&& !state.active.contains(batch.owner) ==> after == state && step.events == seq![
                EvidenceMetric::Batch(BatchLabel::InactiveOwner),
            ]
            &&& state.active.contains(batch.owner) && batch.source_incarnation_id is None ==> {
                &&& loses_certainty(state.ledger, after.ledger)
                &&& fails_epoch(state.cold_epoch, after.cold_epoch, ColdEpochFailure::LegacyBatch)
                &&& after.barriers == state.barriers
                &&& after.catalogs == state.catalogs
                &&& after.freshness == state.freshness
                &&& keeps_order_and_members(state, after)
                &&& step.events == seq![EvidenceMetric::Batch(BatchLabel::Legacy)]
            }
            &&& state.active.contains(batch.owner) && batch.source_incarnation_id is Some
                && !is_awaited_batch(state, batch) ==> after == state && step.events == seq![
                EvidenceMetric::Batch(BatchLabel::WrongIncarnation),
            ]
        }),
{
}

/// A heartbeat that names the last cursor that was applied makes its owner's
/// evidence fresh, and does nothing else. One that names an earlier cursor does
/// nothing; one that names a later cursor, or carries events, costs the
/// certainty and the cuts that wait for the owner.
pub proof fn law_heartbeat_confirms_what_was_applied(
    state: SubscriptionView,
    batch: CacheEvidenceBatch,
    now: u64,
)
    requires
        is_awaited_batch(state, batch),
        batch.heartbeat,
    ensures
        ({
            let step = state.on_batch(batch, now);
            let after = step.state;
            let incarnation = batch.source_incarnation_id->0;
            let known = state.sequences.publishers.contains_key(incarnation);
            let last = state.sequences.publishers[incarnation];
            let named = batch.watermark_source_cursor;
            let bare = batch.mutations@.len() == 0 && batch.telemetry_complete;
            let current = if known {
                named == Some(last)
            } else {
                named is None
            };
            let earlier = known && named is Some && named->0 < last;
            &&& keeps_order_and_members(state, after)
            &&& after.catalogs == state.catalogs
            &&& after.cold_epoch == state.cold_epoch
            &&& bare && current ==> {
                &&& after.freshness.watermarks == state.freshness.watermarks.insert(
                    batch.owner,
                    EvidenceWatermark { incarnation_id: incarnation, received_at: now },
                )
                &&& after.freshness.expected == state.freshness.expected
                &&& after.ledger == state.ledger
                &&& after.barriers == state.barriers
                &&& step.events == seq![EvidenceMetric::Batch(BatchLabel::Watermark)]
            }
            &&& bare && earlier ==> after == state && step.events == seq![
                EvidenceMetric::Batch(BatchLabel::StaleWatermark),
            ]
            &&& !bare || (!current && !earlier) ==> {
                &&& after.freshness == state.freshness
                &&& loses_certainty(state.ledger, after.ledger)
                &&& after.barriers == state.barriers.fail_owner(
                    batch.owner,
                    if bare {
                        BarrierFailure::WatermarkAhead
                    } else {
                        BarrierFailure::InvalidWatermark
                    },
                )
                &&& step.events == seq![
                    EvidenceMetric::Batch(
                        if bare {
                            BatchLabel::WatermarkAhead
                        } else {
                            BatchLabel::InvalidWatermark
                        },
                    ),
                ]
            }
        }),
{
}

/// The batch is the next of its publisher, which speaks for the owner.
pub open spec fn is_next(state: SubscriptionView, batch: CacheEvidenceBatch) -> bool {
    let incarnation = batch.source_incarnation_id->0;
    &&& is_awaited_batch(state, batch)
    &&& !batch.heartbeat
    &&& !state.sequences.retired.contains(
        OwnerPublisher { owner: batch.owner, publisher_id: incarnation },
    )
    &&& state.sequences.owner_publishers.contains_key(batch.owner)
        ==> state.sequences.owner_publishers[batch.owner] == incarnation
    &&& if state.sequences.publishers.contains_key(incarnation) {
        batch.source_cursor == state.sequences.publishers[incarnation] + 1
    } else {
        batch.source_cursor == 0
    }
}

/// The publisher has come to the batch's cursor and speaks for the owner.
pub open spec fn moves_on(
    before: SubscriptionView,
    after: SubscriptionView,
    batch: CacheEvidenceBatch,
) -> bool {
    let incarnation = batch.source_incarnation_id->0;
    &&& after.sequences.publishers == before.sequences.publishers.insert(
        incarnation,
        batch.source_cursor,
    )
    &&& after.sequences.owner_publishers == before.sequences.owner_publishers.insert(
        batch.owner,
        incarnation,
    )
    &&& after.sequences.retired == before.sequences.retired
    &&& after.freshness == before.freshness
    &&& after.catalogs == before.catalogs
    &&& after.active == before.active
    &&& after.history_membership == before.history_membership
    &&& after.endpoint == before.endpoint
}

pub(crate) proof fn lemma_next(state: SubscriptionView, batch: CacheEvidenceBatch, now: u64)
    requires
        is_next(state, batch),
    ensures
        ({
            let incarnation = batch.source_incarnation_id->0;
            let noted = SubscriptionView {
                sequences: state.sequences.observe(
                    batch.owner,
                    incarnation,
                    batch.source_cursor,
                    state.cold_epoch.accepts_clear_baseline(batch),
                ),
                ..state
            };
            &&& state.on_batch(batch, now) == noted.step().on_admitted(batch, now)
            &&& moves_on(state, noted, batch)
        }),
{
    let incarnation = batch.source_incarnation_id->0;
    assert(state.continuity(batch, incarnation)
        == crate::sequence::EvidenceSequenceObservation::Contiguous);
}

/// The next batch of an owner, if it is a marker, is passed to its round and
/// moves no block. A marker that carries events, or is incomplete, voids the
/// cuts that wait for the owner instead.
pub proof fn law_marker_batch_is_passed_to_its_round(
    state: SubscriptionView,
    batch: CacheEvidenceBatch,
    now: u64,
)
    requires
        is_next(state, batch),
        batch.epoch_id is None,
        batch.barrier_id is Some,
    ensures
        ({
            let step = state.on_batch(batch, now);
            let after = step.state;
            let bare = batch.mutations@.len() == 0 && batch.telemetry_complete;
            &&& moves_on(state, after, batch)
            &&& after.ledger == state.ledger
            &&& after.cold_epoch == state.cold_epoch
            &&& bare ==> after.barriers == state.barriers.marker(
                batch.owner,
                batch.barrier_id->0,
            ) && step.events.last() == EvidenceMetric::Batch(BatchLabel::Barrier)
            &&& !bare ==> after.barriers == state.barriers.fail_owner(
                batch.owner,
                BarrierFailure::InvalidMarker,
            ) && step.events.last() == EvidenceMetric::Batch(BatchLabel::InvalidBarrier)
        }),
{
    lemma_next(state, batch, now);
}

/// Something could not be applied.
pub open spec fn some_failed(failures: Set<CacheEvidenceApplyIntegrityFailure>) -> bool {
    exists|failure: CacheEvidenceApplyIntegrityFailure| #[trigger] failures.contains(failure)
}

/// The next batch of an owner under an epoch id is evidence of the epoch: an
/// empty one is its marker, any other its clear, which is applied and voids the
/// cuts that wait for the owner.
pub proof fn law_epoch_batch_is_evidence_of_the_epoch(
    state: SubscriptionView,
    batch: CacheEvidenceBatch,
    now: u64,
)
    requires
        is_next(state, batch),
        batch.epoch_id is Some,
    ensures
        ({
            let step = state.on_batch(batch, now);
            let after = step.state;
            let applied = apply_batch(
                state.ledger,
                batch.owner,
                batch.telemetry_complete,
                batch.mutations@,
            );
            &&& moves_on(state, after, batch)
            &&& batch.mutations@.len() == 0 ==> {
                &&& after.cold_epoch == state.cold_epoch.observe_marker(batch)
                &&& after.ledger == state.ledger
                &&& after.barriers == state.barriers
                &&& step.events == seq![EvidenceMetric::Batch(BatchLabel::ColdEpochMarker)]
            }
            &&& batch.mutations@.len() > 0 ==> {
                &&& after.ledger == applied.ledger
                &&& after.barriers == state.barriers.fail_owner(
                    batch.owner,
                    BarrierFailure::Clear,
                )
                &&& !some_failed(applied.failures) ==> after.cold_epoch
                    == state.cold_epoch.observe_clear_batch(batch)
                &&& some_failed(applied.failures) ==> fails_epoch(
                    state.cold_epoch.observe_clear_batch(batch),
                    after.cold_epoch,
                    ColdEpochFailure::ApplyIntegrityFailure,
                )
                &&& step.events == seq![EvidenceMetric::Batch(BatchLabel::ColdEpochClear)]
            }
        }),
{
    lemma_next(state, batch, now);
    let applied = apply_batch(
        state.ledger,
        batch.owner,
        batch.telemetry_complete,
        batch.mutations@,
    );
    if !some_failed(applied.failures) {
        assert(applied.failures =~= Set::<CacheEvidenceApplyIntegrityFailure>::empty());
    }
}

// ---- ordinary events ----

/// The mutation names blocks, but nobody can tell which.
pub open spec fn names_unknown_blocks(
    ledger: LedgerView,
    owner: CacheOwner,
    mutation: CacheEvidenceMutation,
) -> bool {
    let names = match mutation {
        CacheEvidenceMutation::Store { blocks, .. } => blocks@.len() > 0,
        CacheEvidenceMutation::Remove { block_hashes, .. } => block_hashes@.len() > 0,
        CacheEvidenceMutation::Clear { .. } => false,
    };
    names && forall|hash: u64|
        !(#[trigger] ledger.affected_sequence_hashes(owner, mutation).contains(hash))
}

/// The mutation may change a block that the cut is about: it touches one,
/// clears all the owner has, or names blocks that nobody knows.
pub open spec fn concerns_cut(
    state: SubscriptionView,
    owner: CacheOwner,
    mutation: CacheEvidenceMutation,
    ticket: u64,
) -> bool {
    let touched = state.ledger.affected_sequence_hashes(owner, mutation);
    ||| names_unknown_blocks(state.ledger, owner, mutation)
    ||| mutation == (CacheEvidenceMutation::Clear { tier: None })
    ||| exists|hash: u64| #[trigger]
        touched.contains(hash) && state.barriers.cuts[ticket].relevant_hashes.contains(hash)
}

/// Some of the first mutations may change a block that the cut is about.
pub open spec fn some_concerns_cut(
    state: SubscriptionView,
    owner: CacheOwner,
    mutations: Seq<CacheEvidenceMutation>,
    count: int,
    ticket: u64,
) -> bool {
    exists|i: int| 0 <= i < count && concerns_cut(state, owner, #[trigger] mutations[i], ticket)
}

/// The cut waits exactly as it did, with the same outcome.
pub open spec fn same_cut(before: BarrierView, after: BarrierView, ticket: u64) -> bool {
    &&& waits(after, ticket) <==> waits(before, ticket)
    &&& waits(after, ticket) ==> after.cuts[ticket] == before.cuts[ticket]
    &&& after.outcomes.contains_key(ticket) <==> before.outcomes.contains_key(ticket)
    &&& after.outcomes.contains_key(ticket) ==> after.outcomes[ticket] == before.outcomes[ticket]
}

/// The cut does not wait any more; it has failed.
pub open spec fn is_voided(before: BarrierView, after: BarrierView, ticket: u64) -> bool {
    &&& !waits(after, ticket)
    &&& after.outcomes.contains_key(ticket) <==> before.outcomes.contains_key(ticket)
    &&& after.outcomes.contains_key(ticket) ==> after.outcomes[ticket] is Incomplete
}

pub(crate) proof fn lemma_affected(
    a: LedgerView,
    b: LedgerView,
    owner: CacheOwner,
    mutation: CacheEvidenceMutation,
)
    requires
        a.external_copies == b.external_copies,
    ensures
        a.affected_sequence_hashes(owner, mutation) == b.affected_sequence_hashes(
            owner,
            mutation,
        ),
{
    assert forall|hash: u64|
        a.affected_sequence_hashes(owner, mutation).contains(hash)
            == b.affected_sequence_hashes(owner, mutation).contains(hash) by {
        crate::store_laws::law_affected_blocks_are_those_touched(a, owner, mutation, hash);
        crate::store_laws::law_affected_blocks_are_those_touched(b, owner, mutation, hash);
    }
    assert(a.affected_sequence_hashes(owner, mutation) =~= b.affected_sequence_hashes(
        owner,
        mutation,
    ));
}

pub(crate) proof fn lemma_fenced(
    step: Step,
    owner: CacheOwner,
    mutations: Seq<CacheEvidenceMutation>,
    count: int,
    ticket: u64,
)
    requires
        0 <= count <= mutations.len(),
    ensures
        ({
            let after = step.fence_mutations(owner, mutations, count).state;
            let before = step.state;
            let hit = waits(before.barriers, ticket)
                && before.barriers.cuts[ticket].unmarked_owners.contains(owner)
                && some_concerns_cut(before, owner, mutations, count, ticket);
            &&& hit ==> is_voided(before.barriers, after.barriers, ticket)
            &&& !hit ==> same_cut(before.barriers, after.barriers, ticket)
            &&& after.ledger == (LedgerView {
                history_complete: after.ledger.history_complete,
                ..before.ledger
            })
            &&& after.ledger.history_complete <==> before.ledger.history_complete && forall|
                i: int,
            |
                0 <= i < count ==> !names_unknown_blocks(
                    before.ledger,
                    owner,
                    #[trigger] mutations[i],
                )
            &&& after == (SubscriptionView {
                ledger: after.ledger,
                barriers: after.barriers,
                cold_epoch: after.cold_epoch,
                ..before
            })
        }),
    decreases count,
{
    if count > 0 {
        let before = step.state;
        lemma_fenced(step, owner, mutations, count - 1, ticket);
        let middle = step.fence_mutations(owner, mutations, count - 1);
        let mutation = mutations[count - 1];
        lemma_fence_one(middle, owner, mutation, ticket);
        lemma_affected(before.ledger, middle.state.ledger, owner, mutation);
        if waits(middle.state.barriers, ticket) {
            assert(concerns_cut(before, owner, mutation, ticket) == concerns_cut(
                middle.state,
                owner,
                mutation,
                ticket,
            ));
        }
        assert(some_concerns_cut(before, owner, mutations, count, ticket) <==> some_concerns_cut(
            before,
            owner,
            mutations,
            count - 1,
            ticket,
        ) || concerns_cut(before, owner, mutation, ticket)) by {
            if concerns_cut(before, owner, mutation, ticket) {
                assert(concerns_cut(before, owner, mutations[count - 1], ticket));
            }
        }
    }
}

proof fn lemma_fence_one(
    step: Step,
    owner: CacheOwner,
    mutation: CacheEvidenceMutation,
    ticket: u64,
)
    ensures
        ({
            let after = step.fence_mutation(owner, mutation).state;
            let before = step.state;
            let hit = waits(before.barriers, ticket)
                && before.barriers.cuts[ticket].unmarked_owners.contains(owner) && concerns_cut(
                before,
                owner,
                mutation,
                ticket,
            );
            &&& hit ==> is_voided(before.barriers, after.barriers, ticket)
            &&& !hit ==> same_cut(before.barriers, after.barriers, ticket)
            &&& after.ledger == (LedgerView {
                history_complete: before.ledger.history_complete && !names_unknown_blocks(
                    before.ledger,
                    owner,
                    mutation,
                ),
                ..before.ledger
            })
            &&& after == (SubscriptionView {
                ledger: after.ledger,
                barriers: after.barriers,
                cold_epoch: after.cold_epoch,
                ..before
            })
        }),
{
    let before = step.state;
    let after = step.fence_mutation(owner, mutation).state;
    let hashes = before.ledger.affected_sequence_hashes(owner, mutation);
    let clear = crate::subscription_model::clears_owner(mutation);
    assert(clear <==> mutation == (CacheEvidenceMutation::Clear { tier: None }));
    assert(crate::subscription_model::is_unresolved(mutation, hashes) <==> names_unknown_blocks(
        before.ledger,
        owner,
        mutation,
    )) by {
        if forall|hash: u64| !(#[trigger] hashes.contains(hash)) {
            assert(hashes =~= Set::<u64>::empty());
        }
    }
    if crate::subscription_model::is_unresolved(mutation, hashes) {
        law_failures_void_whom_they_concern(
            before.barriers,
            owner,
            0,
            BarrierFailure::UnresolvedMutation,
            ticket,
        );
    } else {
        law_earlier_events_void_what_they_touch(before.barriers, owner, hashes, clear, ticket);
    }
}

/// The next batch of an owner that carries events, if it is complete and can be
/// applied, is applied to the ledger. Of the cuts that wait it voids exactly
/// those that wait for the owner and are about a block that it may change; all
/// others stay as they are.
pub proof fn law_events_are_applied_and_void_what_they_touch(
    state: SubscriptionView,
    batch: CacheEvidenceBatch,
    now: u64,
    ticket: u64,
)
    requires
        is_next(state, batch),
        batch.epoch_id is None,
        batch.barrier_id is None,
        batch.telemetry_complete,
    ensures
        ({
            let step = state.on_batch(batch, now);
            let after = step.state;
            let known = forall|i: int|
                0 <= i < batch.mutations@.len() ==> !names_unknown_blocks(
                    state.ledger,
                    batch.owner,
                    #[trigger] batch.mutations@[i],
                );
            let start = if known {
                state.ledger
            } else {
                LedgerView { history_complete: false, ..state.ledger }
            };
            let applied = apply_batch(start, batch.owner, true, batch.mutations@);
            let waiting = waits(state.barriers, ticket)
                && state.barriers.cuts[ticket].unmarked_owners.contains(batch.owner);
            let hit = waiting && some_concerns_cut(
                state,
                batch.owner,
                batch.mutations@,
                batch.mutations@.len() as int,
                ticket,
            );
            &&& moves_on(state, after, batch)
            &&& after.ledger == applied.ledger
            &&& !waiting ==> same_cut(state.barriers, after.barriers, ticket)
            &&& hit ==> is_voided(state.barriers, after.barriers, ticket)
            &&& !hit && !some_failed(applied.failures) ==> same_cut(
                state.barriers,
                after.barriers,
                ticket,
            )
        }),
{
    lemma_next(state, batch, now);
    let owner = batch.owner;
    let mutations = batch.mutations@;
    let noted = SubscriptionView {
        sequences: state.sequences.observe(
            owner,
            batch.source_incarnation_id->0,
            batch.source_cursor,
            state.cold_epoch.accepts_clear_baseline(batch),
        ),
        ..state
    };
    let fenced = noted.step().fence_mutations(owner, mutations, mutations.len() as int);
    lemma_fenced(noted.step(), owner, mutations, mutations.len() as int, ticket);
    assert(some_concerns_cut(noted, owner, mutations, mutations.len() as int, ticket)
        == some_concerns_cut(state, owner, mutations, mutations.len() as int, ticket)) by {
        assert forall|i: int| 0 <= i < mutations.len() implies concerns_cut(
            noted,
            owner,
            #[trigger] mutations[i],
            ticket,
        ) == concerns_cut(state, owner, mutations[i], ticket) by {}
        if some_concerns_cut(noted, owner, mutations, mutations.len() as int, ticket) {
            let i = choose|i: int|
                0 <= i < mutations.len() && concerns_cut(
                    noted,
                    owner,
                    #[trigger] mutations[i],
                    ticket,
                );
            assert(concerns_cut(state, owner, mutations[i], ticket));
        }
        if some_concerns_cut(state, owner, mutations, mutations.len() as int, ticket) {
            let i = choose|i: int|
                0 <= i < mutations.len() && concerns_cut(
                    state,
                    owner,
                    #[trigger] mutations[i],
                    ticket,
                );
            assert(concerns_cut(noted, owner, mutations[i], ticket));
        }
    }
    let applied = apply_batch(fenced.state.ledger, owner, true, mutations);
    if !some_failed(applied.failures) {
        assert(applied.failures =~= Set::<CacheEvidenceApplyIntegrityFailure>::empty());
    }
    law_failures_void_whom_they_concern(
        fenced.state.barriers,
        owner,
        0,
        BarrierFailure::ApplyIntegrityFailure,
        ticket,
    );
}

/// When the stream of evidence ends, or a batch of it is lost, every waiting
/// cut is void, the certainty is lost, and an epoch under way fails.
pub proof fn law_lost_stream_voids_every_cut(state: SubscriptionView, ticket: u64)
    ensures
        ({
            let after = state.subscriber_closed();
            &&& decides(
                state.barriers,
                after.barriers,
                ticket,
                true,
                BarrierOutcome::Incomplete(BarrierFailure::SubscriberClosed),
            )
            &&& loses_certainty(state.ledger, after.ledger)
            &&& fails_epoch(
                state.cold_epoch,
                after.cold_epoch,
                ColdEpochFailure::SubscriberClosed,
            )
            &&& keeps_order_and_members(state, after)
            &&& after.catalogs == state.catalogs
            &&& after.freshness == state.freshness
        }),
        ({
            let step = state.decode_error();
            let after = step.state;
            &&& decides(
                state.barriers,
                after.barriers,
                ticket,
                true,
                BarrierOutcome::Incomplete(BarrierFailure::DecodeError),
            )
            &&& loses_certainty(state.ledger, after.ledger)
            &&& fails_epoch(state.cold_epoch, after.cold_epoch, ColdEpochFailure::DecodeError)
            &&& keeps_order_and_members(state, after)
            &&& after.catalogs == state.catalogs
            &&& after.freshness == state.freshness
            &&& step.events == seq![EvidenceMetric::Batch(BatchLabel::DecodeError)]
        }),
{
    let owner = CacheOwner { worker_id: 0, dp_rank: 0 };
    law_failures_void_whom_they_concern(
        state.barriers,
        owner,
        0,
        BarrierFailure::SubscriberClosed,
        ticket,
    );
    law_failures_void_whom_they_concern(
        state.barriers,
        owner,
        0,
        BarrierFailure::DecodeError,
        ticket,
    );
}

} // verus!
