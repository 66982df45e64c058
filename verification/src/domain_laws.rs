//! How the routing domain's members and their catalogs are followed.

use vstd::prelude::*;

use crate::barrier::{BarrierFailure, BarrierOutcome};
use crate::catalog::{
    indexes, is_valid_catalog, law_normalized_is_a_sorted_permutation, normalized, CatalogGroup,
};
use crate::cold_epoch::ColdEpochFailure;
use crate::cold_laws::is_member;
use crate::cut_laws::{
    decides, law_failures_void_whom_they_concern, law_membership_is_adopted, waits,
};
use crate::evidence::{BlockCopy, CacheOwner, CacheTier, OwnerTier};
use crate::membership::{
    evidence_pairs, incarnation_pairs, serving_pairs, MembershipView, SourceMember,
};
use crate::metrics::EvidenceMetric;
use crate::owner_map::pairs_map;
use crate::sequence::OwnerPublisher;
use crate::stream_laws::{fails_epoch, loses_certainty};
use crate::subscription_model::{history_fences, Step, SubscriptionView};

verus! {

// ---- catalogs ----

/// Some group has the index.
pub open spec fn has_index(groups: Seq<CatalogGroup>, index: u32) -> bool {
    exists|i: int| 0 <= i < groups.len() && (#[trigger] groups[i]).group_idx == index
}

proof fn lemma_indexes(groups: Seq<CatalogGroup>, index: u32)
    ensures
        indexes(normalized(groups)).contains(index) <==> has_index(groups, index),
{
    broadcast use vstd::seq_lib::group_to_multiset_ensures;

    law_normalized_is_a_sorted_permutation(groups);
    let sorted = normalized(groups);
    if has_index(sorted, index) {
        let i = choose|i: int| 0 <= i < sorted.len() && (#[trigger] sorted[i]).group_idx == index;
        assert(sorted.contains(sorted[i]));
        assert(groups.to_multiset().count(sorted[i]) > 0);
        assert(groups.contains(sorted[i]));
        let j = choose|j: int| 0 <= j < groups.len() && groups[j] == sorted[i];
        assert(groups[j].group_idx == index);
    }
    if has_index(groups, index) {
        let i = choose|i: int| 0 <= i < groups.len() && (#[trigger] groups[i]).group_idx == index;
        assert(groups.contains(groups[i]));
        assert(sorted.to_multiset().count(groups[i]) > 0);
        assert(sorted.contains(groups[i]));
        let j = choose|j: int| 0 <= j < sorted.len() && sorted[j] == groups[i];
        assert(sorted[j].group_idx == index);
    }
}

/// An owner's catalog is recorded if it is valid and all owners that have
/// declared one agree with it, in order of the groups. The owner then needs each
/// group on both tiers. A catalog that is new to the owner voids all cuts and
/// fails an epoch under way; so does one that is refused, which also costs the
/// certainty.
pub proof fn law_catalog_is_recorded_if_all_agree(
    state: SubscriptionView,
    owner: CacheOwner,
    groups: Seq<CatalogGroup>,
    tier: CacheTier,
    index: u32,
    ticket: u64,
)
    ensures
        ({
            let step = state.step().record_group_catalog(owner, groups);
            let after = step.state;
            let agreed = is_valid_catalog(groups) && forall|other: CacheOwner|
                (#[trigger] state.catalogs.contains_key(other)) ==> state.catalogs[other]
                    == normalized(groups);
            let known = state.catalogs.contains_key(owner);
            let needed = OwnerTier { owner, tier };
            &&& agreed ==> {
                &&& after.catalogs == state.catalogs.insert(owner, normalized(groups))
                &&& after.ledger.required_groups.contains_key(needed)
                &&& after.ledger.required_groups[needed].contains(index) <==> has_index(
                    groups,
                    index,
                )
                &&& forall|other: OwnerTier|
                    other.owner != owner ==> ((#[trigger] after.ledger.required_groups.contains_key(
                        other,
                    )) <==> state.ledger.required_groups.contains_key(other)) && (
                    state.ledger.required_groups.contains_key(other)
                        ==> after.ledger.required_groups[other]
                        == state.ledger.required_groups[other])
                &&& after.ledger.copies == state.ledger.copies
                &&& after.ledger.history_complete == state.ledger.history_complete
                &&& after.ledger.physical_telemetry_complete
                    == state.ledger.physical_telemetry_complete
            }
            &&& agreed && known ==> {
                &&& after.barriers == state.barriers
                &&& after.cold_epoch == state.cold_epoch
                &&& step.events.len() == 0
            }
            &&& !agreed || !known ==> {
                &&& decides(
                    state.barriers,
                    after.barriers,
                    ticket,
                    true,
                    BarrierOutcome::Incomplete(BarrierFailure::CatalogChanged),
                )
                &&& fails_epoch(
                    state.cold_epoch,
                    after.cold_epoch,
                    ColdEpochFailure::CatalogChanged,
                )
            }
            &&& agreed && !known ==> step.events == seq![
                EvidenceMetric::BarrierIncomplete(BarrierFailure::CatalogChanged),
            ]
            &&& !agreed ==> {
                &&& after.catalogs == state.catalogs
                &&& loses_certainty(state.ledger, after.ledger)
                &&& step.events.len() == 0
            }
            &&& after.freshness == state.freshness
            &&& after.sequences == state.sequences
            &&& after.active == state.active
        }),
{
    lemma_indexes(groups, index);
    law_failures_void_whom_they_concern(
        state.barriers,
        owner,
        0,
        BarrierFailure::CatalogChanged,
        ticket,
    );
    match tier {
        CacheTier::Gpu => {},
        CacheTier::Cpu => {},
    }
}

/// Recording catalogs changes no copies and no members.
pub open spec fn only_catalogs_change(before: SubscriptionView, after: SubscriptionView) -> bool {
    &&& after.ledger.copies == before.ledger.copies
    &&& after.ledger.external_copies == before.ledger.external_copies
    &&& after.ledger.seen_blocks == before.ledger.seen_blocks
    &&& after.ledger.history_epoch == before.ledger.history_epoch
    &&& after.ledger.expected_owners == before.ledger.expected_owners
    &&& after.ledger.history_complete ==> before.ledger.history_complete
    &&& after.ledger.physical_telemetry_complete ==> before.ledger.physical_telemetry_complete
    &&& after.barriers.owners == before.barriers.owners
    &&& after.barriers.serving_incarnations == before.barriers.serving_incarnations
    &&& forall|ticket: u64| #[trigger]
        waits(after.barriers, ticket) ==> waits(before.barriers, ticket)
    &&& before.cold_epoch.active is None ==> after.cold_epoch == before.cold_epoch
    &&& after.freshness == before.freshness
    &&& after.sequences == before.sequences
    &&& after.active == before.active
    &&& after.history_membership == before.history_membership
    &&& after.endpoint == before.endpoint
}

proof fn lemma_sync(step: Step, sources: Seq<SourceMember>, count: int)
    ensures
        only_catalogs_change(step.state, step.sync_sources(sources, count).state),
    decreases count,
{
    if count > 0 {
        lemma_sync(step, sources, count - 1);
    }
}

proof fn lemma_synced(step: Step, sources: Seq<SourceMember>)
    ensures
        only_catalogs_change(step.state, step.sync_attested_group_catalogs(sources).state),
        forall|owner: CacheOwner|
            (#[trigger] step.sync_attested_group_catalogs(sources).state.catalogs.contains_key(
                owner,
            )) ==> exists|i: int|
                0 <= i < sources.len() && (#[trigger] sources[i]).active && sources[i].owner
                    == owner,
{
    lemma_sync(step, sources, sources.len() as int);
}

// ---- members ----

/// Exactly the members are taken and expected, under the incarnations that they
/// have said, and cuts are taken with those who can take part.
pub open spec fn follows_members(after: SubscriptionView, view: MembershipView) -> bool {
    &&& forall|owner: CacheOwner|
        (#[trigger] after.active.contains(owner)) <==> is_member(view, owner)
    &&& after.ledger.expected_owners is Some
    &&& forall|owner: CacheOwner|
        (#[trigger] after.ledger.expected_owners->0.contains(owner)) <==> is_member(view, owner)
    &&& after.freshness.expected == pairs_map(incarnation_pairs(view.sources@))
    &&& after.barriers.owners == pairs_map(evidence_pairs(view.sources@))
    &&& after.barriers.serving_incarnations == pairs_map(serving_pairs(view.sources@))
    &&& after.history_membership == history_fences(view.sources@)
    &&& forall|owner: CacheOwner|
        (#[trigger] after.catalogs.contains_key(owner)) ==> is_member(view, owner)
}

proof fn lemma_members(view: MembershipView)
    ensures
        forall|owner: CacheOwner| #[trigger]
            crate::membership::member_owners(view.sources@).to_set().contains(owner) == is_member(
                view,
                owner,
            ),
{
    let owners = crate::membership::member_owners(view.sources@);
    assert forall|owner: CacheOwner| #[trigger] owners.to_set().contains(owner) == is_member(
        view,
        owner,
    ) by {
        if owners.contains(owner) {
            let i = choose|i: int| 0 <= i < owners.len() && owners[i] == owner;
            assert(view.sources@[i].owner == owner);
        }
        if is_member(view, owner) {
            let i = choose|i: int|
                0 <= i < view.sources@.len() && (#[trigger] view.sources@[i]).owner == owner;
            assert(owners[i] == owner);
        }
    }
}

/// A subscription begins by following the members as they are. Without an
/// endpoint there is no certainty.
pub proof fn law_subscription_follows_the_members(state: SubscriptionView, view: MembershipView)
    ensures
        ({
            let after = state.begin_subscription(view).state;
            &&& follows_members(after, view)
            &&& view.endpoint is None ==> after.endpoint is None
                && !after.ledger.history_complete && !after.ledger.physical_telemetry_complete
            &&& view.endpoint is Some ==> after.endpoint == Some(view.endpoint->0@)
            &&& after.ledger.seen_blocks == state.ledger.seen_blocks
            &&& after.ledger.history_epoch == state.ledger.history_epoch
            &&& after.sequences == state.sequences
        }),
{
    let sources = view.sources@;
    let owners = crate::membership::member_owners(sources).to_set();
    lemma_members(view);
    let begun = SubscriptionView {
        active: owners,
        history_membership: history_fences(sources),
        ..state.set_barrier_owners(sources)
    };
    lemma_synced(begun.step(), sources);
    let owner = CacheOwner { worker_id: 0, dp_rank: 0 };
    law_membership_is_adopted(
        state.barriers,
        pairs_map(evidence_pairs(sources)),
        pairs_map(serving_pairs(sources)),
        0,
        owner,
    );
    crate::evidence_laws::law_membership_keeps_the_expected(
        begun.step().sync_attested_group_catalogs(sources).state.ledger,
        owners,
    );
    let after = state.begin_subscription(view).state;
    assert forall|o: CacheOwner|
        (#[trigger] after.catalogs.contains_key(o)) implies is_member(view, o) by {
        let i = choose|i: int|
            0 <= i < sources.len() && (#[trigger] sources[i]).active && sources[i].owner == o;
        assert(view.sources@[i].owner == o);
    }
}

/// The owner has published and left, or is no longer expected as it was.
pub open spec fn has_gone(
    state: SubscriptionView,
    view: MembershipView,
    owner: CacheOwner,
) -> bool {
    let expected = pairs_map(incarnation_pairs(view.sources@));
    ||| state.sequences.owner_publishers.contains_key(owner) && !is_member(view, owner)
    ||| state.freshness.expected.contains_key(owner) && !(expected.contains_key(owner)
        && expected[owner] == state.freshness.expected[owner])
}

/// The evidence is published where it was.
pub open spec fn stays_put(state: SubscriptionView, view: MembershipView) -> bool {
    view.endpoint is Some && state.endpoint == Some(view.endpoint->0@)
}

/// Where the evidence is published as before, a change of membership is
/// followed. Owners that have gone leave nothing behind: no copies, no publisher
/// that could speak for them. What other members hold stays. If the owners that
/// take part in cold epochs are others, what the history lacks proves nothing
/// any more, and an epoch under way has failed.
pub proof fn law_membership_is_followed(
    state: SubscriptionView,
    view: MembershipView,
    owner: CacheOwner,
)
    requires
        stays_put(state, view),
    ensures
        ({
            let after = state.membership_changed(view).state;
            let changed = state.history_membership != history_fences(view.sources@);
            &&& follows_members(after, view)
            &&& after.endpoint == state.endpoint
            &&& after.ledger.seen_blocks == state.ledger.seen_blocks
            &&& after.ledger.history_epoch == state.ledger.history_epoch
            &&& changed ==> !after.ledger.history_complete && after.cold_epoch.active is None
            &&& after.ledger.history_complete ==> state.ledger.history_complete
            &&& has_gone(state, view, owner) ==> {
                &&& !after.sequences.owner_publishers.contains_key(owner)
                &&& state.sequences.owner_publishers.contains_key(owner)
                    ==> after.sequences.retired.contains(
                    OwnerPublisher {
                        owner,
                        publisher_id: state.sequences.owner_publishers[owner],
                    },
                )
                &&& forall|key: BlockCopy|
                    key.copy.owner == owner ==> !(#[trigger] after.ledger.copies.contains_key(key))
                &&& forall|key: BlockCopy|
                    key.copy.owner == owner ==> !(
                    #[trigger] after.ledger.external_copies.contains_key(key))
            }
            &&& !has_gone(state, view, owner) ==> {
                &&& after.sequences.owner_publishers.contains_key(owner)
                    <==> state.sequences.owner_publishers.contains_key(owner)
                &&& state.sequences.owner_publishers.contains_key(owner)
                    ==> after.sequences.owner_publishers[owner]
                    == state.sequences.owner_publishers[owner]
            }
            &&& !has_gone(state, view, owner) && is_member(view, owner) ==> {
                &&& forall|key: BlockCopy|
                    key.copy.owner == owner ==> ((#[trigger] after.ledger.copies.contains_key(key))
                        <==> state.ledger.copies.contains_key(key)) && (
                    state.ledger.copies.contains_key(key) ==> after.ledger.copies[key]
                        == state.ledger.copies[key])
                &&& forall|key: BlockCopy|
                    key.copy.owner == owner ==> ((
                    #[trigger] after.ledger.external_copies.contains_key(key))
                        <==> state.ledger.external_copies.contains_key(key)) && (
                    state.ledger.external_copies.contains_key(key)
                        ==> after.ledger.external_copies[key]
                        == state.ledger.external_copies[key])
            }
        }),
{
    let sources = view.sources@;
    let owners = crate::membership::member_owners(sources).to_set();
    let reset = state.reset_owners(view);
    lemma_members(view);
    assert(state.same_endpoint(view));
    assert forall|o: CacheOwner| #[trigger] reset.contains(o) == has_gone(state, view, o) by {
        crate::order_laws::law_membership_keeps_matching_watermarks(
            state.freshness,
            pairs_map(incarnation_pairs(sources)),
            o,
        );
        assert(owners.contains(o) == is_member(view, o));
    }
    let fenced = SubscriptionView {
        cold_epoch: if state.fences_changed(view) {
            state.cold_epoch.fail(ColdEpochFailure::MembershipChanged)
        } else {
            state.cold_epoch
        },
        ..state.set_barrier_owners(sources)
    };
    let prepared = SubscriptionView {
        freshness: fenced.freshness.set_expected(pairs_map(incarnation_pairs(sources))),
        sequences: fenced.sequences.retire_all(reset),
        catalogs: fenced.catalogs.remove_keys(reset),
        ..fenced
    };
    lemma_synced(prepared.step(), sources);
    law_membership_is_adopted(
        state.barriers,
        pairs_map(evidence_pairs(sources)),
        pairs_map(serving_pairs(sources)),
        0,
        owner,
    );
    let synced = prepared.step().sync_attested_group_catalogs(sources);
    let reconciled = if state.fences_changed(view) {
        synced.state.ledger.mark_history_incomplete()
    } else {
        synced.state.ledger
    };
    crate::evidence_laws::law_membership_keeps_the_expected(reconciled, owners);
    let after = state.membership_changed(view).state;
    assert(after.ledger == reconciled.set_expected_owners(owners).retire_all(reset));
    assert forall|o: CacheOwner|
        (#[trigger] after.catalogs.contains_key(o)) implies is_member(view, o) by {
        let i = choose|i: int|
            0 <= i < sources.len() && (#[trigger] sources[i]).active && sources[i].owner == o;
        assert(view.sources@[i].owner == o);
    }
    assert(reset.contains(owner) == has_gone(state, view, owner));
    assert(owners.contains(owner) == is_member(view, owner));
}

/// Where the evidence is no longer published as before, nothing is followed:
/// no cut waits any more, an epoch under way has failed, and what the history
/// lacks proves nothing.
pub proof fn law_moved_domain_is_not_followed(
    state: SubscriptionView,
    view: MembershipView,
    ticket: u64,
)
    requires
        !stays_put(state, view),
    ensures
        ({
            let after = state.membership_changed(view).state;
            &&& decides(
                state.barriers,
                after.barriers,
                ticket,
                true,
                BarrierOutcome::Incomplete(BarrierFailure::MembershipChanged),
            )
            &&& fails_epoch(
                state.cold_epoch,
                after.cold_epoch,
                ColdEpochFailure::MembershipChanged,
            )
            &&& after.ledger == (crate::model::LedgerView {
                history_complete: false,
                ..state.ledger
            })
            &&& after.catalogs == state.catalogs
            &&& after.freshness == state.freshness
            &&& after.sequences == state.sequences
            &&& after.active == state.active
            &&& after.endpoint == state.endpoint
        }),
{
    let sources = view.sources@;
    let owner = CacheOwner { worker_id: 0, dp_rank: 0 };
    law_membership_is_adopted(
        state.barriers,
        pairs_map(evidence_pairs(sources)),
        pairs_map(serving_pairs(sources)),
        ticket,
        owner,
    );
    law_failures_void_whom_they_concern(
        state.set_barrier_owners(sources).barriers,
        owner,
        0,
        BarrierFailure::MembershipChanged,
        ticket,
    );
}

} // verus!
