//! Which routes are refused, and what a cut of an accepted one is about.

use vstd::prelude::*;

use crate::catalog::flat_hashes;
use crate::cut_laws::{can_cut, law_cut_waits_for_all_owners, waits};
use crate::evidence::CacheOwner;
use crate::membership_laws::is_usable_group;
use crate::order_laws::{has_watermark, is_recent};
use crate::prefix::CacheGroupHashSequence;
use crate::route::{CacheEvidenceQuality, IncompleteReason};
use crate::snapshot::{at_most, incomplete_route, max_hit_tokens};
use crate::subscription_model::SubscriptionView;

verus! {

/// The worker serves under the incarnation that is expected of it.
pub open spec fn serves_as_expected(
    state: SubscriptionView,
    selected: CacheOwner,
    incarnation: Option<u64>,
) -> bool {
    &&& incarnation is Some
    &&& state.barriers.serving_incarnations.contains_key(selected)
    &&& state.barriers.serving_incarnations[selected] == incarnation->0
}

/// Exactly the owners that cuts are taken with have declared a catalog.
pub open spec fn catalogs_are_of_owners(state: SubscriptionView) -> bool {
    forall|owner: CacheOwner|
        (#[trigger] state.catalogs.contains_key(owner)) <==> state.barriers.owners.contains_key(
            owner,
        )
}

/// Every group that the selected worker declares can be used.
pub open spec fn groups_are_usable(state: SubscriptionView, selected: CacheOwner) -> bool {
    forall|i: int|
        0 <= i < state.catalogs[selected].len() ==> is_usable_group(
            #[trigger] state.catalogs[selected][i],
        )
}

/// A route is taken up if the selected worker serves as expected, exactly the
/// owners have declared catalogs, the worker among them, the request is text
/// alone, and all groups of the worker can be used. Otherwise the first of these
/// that fails is the reason.
pub proof fn law_route_is_refused_for_the_first_reason(
    state: SubscriptionView,
    multimodal: bool,
    selected: CacheOwner,
    incarnation: Option<u64>,
)
    ensures
        ({
            let refusal = state.route_refusal(multimodal, selected, incarnation);
            let serving = serves_as_expected(state, selected, incarnation);
            let cataloged = catalogs_are_of_owners(state);
            let declared = state.catalogs.contains_key(selected);
            let usable = groups_are_usable(state, selected);
            &&& refusal == Some(IncompleteReason::MembershipMismatch) <==> !serving
            &&& refusal == Some(IncompleteReason::CatalogMembershipMismatch) <==> serving
                && !cataloged
            &&& refusal == Some(IncompleteReason::MissingCacheGroupCatalog) <==> serving
                && cataloged && !declared
            &&& refusal == Some(IncompleteReason::MultimodalNotSupported) <==> serving && cataloged
                && declared && multimodal
            &&& refusal == Some(IncompleteReason::UnsupportedCacheGroupShape) <==> serving
                && cataloged && declared && !multimodal && !usable
            &&& refusal is None <==> serving && cataloged && declared && !multimodal && usable
        }),
{
    assert(catalogs_are_of_owners(state) <==> state.catalogs.dom()
        == state.barriers.owners.dom()) by {
        if catalogs_are_of_owners(state) {
            assert(state.catalogs.dom() =~= state.barriers.owners.dom());
        }
        if state.catalogs.dom() == state.barriers.owners.dom() {
            assert forall|owner: CacheOwner|
                (#[trigger] state.catalogs.contains_key(owner))
                    <==> state.barriers.owners.contains_key(owner) by {
                assert(state.catalogs.dom().contains(owner) == state.barriers.owners.dom().contains(
                    owner,
                ));
            }
        }
    }
    let groups = state.catalogs[selected];
    assert forall|i: int| 0 <= i < groups.len() implies is_usable_group(#[trigger] groups[i])
        == groups[i].is_supported() by {
        crate::membership_laws::lemma_usable(groups[i]);
    }
    if groups_are_usable(state, selected) {
        assert forall|i: int| 0 <= i < groups.len() implies (
        #[trigger] groups[i]).is_supported() by {
            assert(is_usable_group(groups[i]));
        }
    }
    if crate::catalog::all_supported(groups) {
        assert forall|i: int| 0 <= i < groups.len() implies is_usable_group(
            #[trigger] groups[i],
        ) by {
            assert(groups[i].is_supported());
        }
    }
}

/// Everybody who is expected has a watermark of the incarnation that is
/// expected, and somebody is.
pub open spec fn all_have_watermarks(state: SubscriptionView) -> bool {
    &&& exists|owner: CacheOwner| #[trigger] state.freshness.expected.contains_key(owner)
    &&& forall|owner: CacheOwner|
        (#[trigger] state.freshness.expected.contains_key(owner)) ==> has_watermark(
            state.freshness,
            owner,
        )
}

pub open spec fn all_are_recent(state: SubscriptionView, now: u64) -> bool {
    forall|owner: CacheOwner|
        (#[trigger] state.freshness.expected.contains_key(owner)) ==> is_recent(
            state.freshness,
            owner,
            now,
        )
}

/// Evidence is taken for complete if all watermarks are there and recent, the
/// ledger expects exactly the owners of cuts, and all three prefixes are known.
/// Otherwise the first of these that fails is the reason.
pub proof fn law_evidence_is_refused_for_the_first_reason(
    state: SubscriptionView,
    prompt_tokens: u64,
    groups: Seq<CacheGroupHashSequence>,
    selected: CacheOwner,
    now: u64,
)
    ensures
        ({
            let refusal = state.evidence_refusal(prompt_tokens, groups, selected, now);
            let limit = if prompt_tokens == 0 {
                0u64
            } else {
                (prompt_tokens - 1) as u64
            };
            let marked = all_have_watermarks(state);
            let recent = all_are_recent(state, now);
            let expected = state.ledger.expected_owners == Some(state.barriers.owners.dom());
            let known = state.ledger.reusable_prefix(groups, limit) is Known
                && state.ledger.resident_prefix_anywhere(groups, limit) is Known
                && state.ledger.resident_prefix_on(groups, limit, selected) is Known;
            &&& refusal == Some(IncompleteReason::MissingWatermark) <==> !marked
            &&& refusal == Some(IncompleteReason::StaleWatermark) <==> marked && !recent
            &&& refusal == Some(IncompleteReason::LedgerMembershipMismatch) <==> marked && recent
                && !expected
            &&& refusal == Some(IncompleteReason::IncompleteEvidence) <==> marked && recent
                && expected && !known
            &&& refusal is None <==> marked && recent && expected && known
        }),
{
    crate::order_laws::law_fresh_evidence_has_recent_watermarks(state.freshness, now);
}

/// A refused route has no lengths and is incomplete for the reason.
pub proof fn law_refused_route_measures_nothing(prompt_tokens: u64, reason: IncompleteReason)
    ensures
        ({
            let route = incomplete_route(prompt_tokens, reason);
            &&& route.prompt_tokens == prompt_tokens
            &&& route.incomplete_reason == Some(reason)
            &&& !route.complete
            &&& route.quality == CacheEvidenceQuality::Incomplete
            &&& route.barrier is None
            &&& route.reusable_prefix_tokens is None
            &&& route.physical_prefix_tokens is None
            &&& route.router_visible_prefix_tokens is None
            &&& route.selected_physical_prefix_tokens is None
            &&& route.group_hashes is None
        }),
{
}

/// The last token of a prompt is never taken from a cache; a length is cut down
/// to a limit only if it is beyond it.
pub proof fn law_last_token_is_computed(prompt_tokens: u64, tokens: u64, limit: u64)
    ensures
        prompt_tokens > 0 ==> max_hit_tokens(prompt_tokens) + 1 == prompt_tokens,
        prompt_tokens == 0 ==> max_hit_tokens(prompt_tokens) == 0,
        at_most(tokens, limit) <= limit,
        at_most(tokens, limit) <= tokens,
        at_most(tokens, limit) == tokens || at_most(tokens, limit) == limit,
{
}

/// Some group has the hash.
pub open spec fn some_group_has(groups: Seq<CacheGroupHashSequence>, hash: u64) -> bool {
    exists|i: int| 0 <= i < groups.len() && (#[trigger] groups[i]).sequence_hashes@.contains(hash)
}

/// The hashes of a request are those of all its groups.
pub proof fn law_request_has_the_hashes_of_all_groups(
    groups: Seq<CacheGroupHashSequence>,
    hash: u64,
)
    ensures
        flat_hashes(groups).contains(hash) <==> some_group_has(groups, hash),
    decreases groups.len(),
{
    if groups.len() > 0 {
        let front = groups.drop_last();
        let last = groups.last().sequence_hashes@;
        let all = flat_hashes(groups);
        law_request_has_the_hashes_of_all_groups(front, hash);
        assert(all == flat_hashes(front) + last);
        if all.contains(hash) {
            let i = choose|i: int| 0 <= i < all.len() && all[i] == hash;
            if i < flat_hashes(front).len() {
                assert(flat_hashes(front)[i] == hash);
                let g = choose|g: int|
                    0 <= g < front.len() && (#[trigger] front[g]).sequence_hashes@.contains(hash);
                assert(groups[g].sequence_hashes@.contains(hash));
            } else {
                assert(last[i - flat_hashes(front).len()] == hash);
                assert(groups[groups.len() - 1].sequence_hashes@.contains(hash));
            }
        }
        if some_group_has(groups, hash) {
            let g = choose|g: int|
                0 <= g < groups.len() && (#[trigger] groups[g]).sequence_hashes@.contains(hash);
            if g < front.len() {
                assert(front[g].sequence_hashes@.contains(hash));
                let i = choose|i: int|
                    0 <= i < flat_hashes(front).len() && flat_hashes(front)[i] == hash;
                assert(all[i] == hash);
            } else {
                let i = choose|i: int| 0 <= i < last.len() && last[i] == hash;
                assert(all[flat_hashes(front).len() + i] == hash);
            }
        }
    }
}

/// A complete route takes a cut about every block of the request, in any of its
/// groups, and about no other. If the cut is refused that is counted.
pub proof fn law_cut_is_about_the_requests_blocks(
    state: SubscriptionView,
    groups: Seq<CacheGroupHashSequence>,
    now: u64,
    hash: u64,
)
    requires
        state.barriers.inv(),
        state.barriers.ids_available(),
    ensures
        ({
            let after = state.with_cut(groups, now);
            let ticket = state.barriers.next_ticket;
            let room = state.barriers.cuts.dom().len() < state.barriers.max_pending;
            &&& after.ledger == state.ledger
            &&& after.catalogs == state.catalogs
            &&& after.freshness == state.freshness
            &&& after.sequences == state.sequences
            &&& after.cold_epoch == state.cold_epoch
            &&& waits(after.barriers, ticket) <==> can_cut(state.barriers) && room
            &&& can_cut(state.barriers) && room ==> {
                &&& after.barriers.cuts[ticket].relevant_hashes.contains(hash) <==> some_group_has(
                    groups,
                    hash,
                )
                &&& state.cut_events().len() == 0
            }
            &&& !(can_cut(state.barriers) && room) ==> {
                &&& state.cut_events().len() == 1
                &&& after.barriers.outcomes[ticket] == crate::barrier::BarrierOutcome::Incomplete(
                    state.cut_events()[0]->BarrierIncomplete_0,
                )
                &&& state.cut_events()[0] is BarrierIncomplete
            }
        }),
{
    law_cut_waits_for_all_owners(
        state.barriers,
        flat_hashes(groups).to_set(),
        now,
        state.barriers.next_ticket,
    );
    law_request_has_the_hashes_of_all_groups(groups, hash);
    crate::cut_laws::lemma_capable(state.barriers);
    assert(!state.barriers.cuts.contains_key(state.barriers.next_ticket));
}

/// A route whose evidence is refused is incomplete for that reason and takes no
/// cut. If the ledger expects others than the owners of cuts, it says nothing at
/// all; otherwise it still says what the router saw.
pub proof fn law_refused_evidence_is_told(
    state: SubscriptionView,
    prompt_tokens: u64,
    group_hashes: Vec<CacheGroupHashSequence>,
    selected: CacheOwner,
    visible: u64,
    now: u64,
)
    ensures
        ({
            let refusal = state.evidence_refusal(
                prompt_tokens,
                group_hashes@,
                selected,
                now,
            );
            let route = state.observed_route(
                prompt_tokens,
                group_hashes,
                selected,
                visible,
                now,
            );
            &&& route.prompt_tokens == prompt_tokens
            &&& route.incomplete_reason == refusal
            &&& route.complete <==> refusal is None
            &&& route.barrier == if refusal is None {
                Some(state.barriers.next_ticket)
            } else {
                None
            }
            &&& refusal is None ==> route.quality == CacheEvidenceQuality::BoundedPhysical
            &&& refusal is Some ==> {
                &&& route.quality == CacheEvidenceQuality::Incomplete
                &&& route.reusable_prefix_tokens is None
                &&& route.physical_prefix_tokens is None
                &&& route.selected_physical_prefix_tokens is None
            }
            &&& if refusal == Some(IncompleteReason::LedgerMembershipMismatch) {
                route.group_hashes is None && route.router_visible_prefix_tokens is None
            } else {
                &&& route.group_hashes == Some(group_hashes)
                &&& visible < prompt_tokens ==> route.router_visible_prefix_tokens == Some(visible)
                &&& 0 < prompt_tokens <= visible ==> route.router_visible_prefix_tokens == Some(
                    (prompt_tokens - 1) as u64,
                )
                &&& prompt_tokens == 0 ==> route.router_visible_prefix_tokens == Some(0u64)
            }
        }),
{
}

} // verus!
