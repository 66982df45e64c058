//! What a route observation is worth.

use vstd::prelude::*;

use crate::barrier::BarrierOutcome;
use crate::evidence::CacheOwner;
use crate::model::LedgerView;
use crate::prefix::{CacheGroupHashSequence, KnownPrefixLength};
use crate::prefix_laws::law_known_prefix_is_confirmed_by_every_group;
use crate::route::{CacheEvidenceQuality, CacheLossRouteObservation, IncompleteReason};
use crate::snapshot::max_hit_tokens;
use crate::subscription_model::SubscriptionView;

verus! {

/// A route is complete exactly if nothing stands against its evidence. It is
/// then fully measured, each of its prefixes short of the prompt's last
/// token, and waits for its cut; otherwise it says why not, and
/// claims nothing of reusable or resident prefixes.
pub proof fn law_complete_route_is_measured(
    state: SubscriptionView,
    prompt_tokens: u64,
    group_hashes: Vec<CacheGroupHashSequence>,
    selected: CacheOwner,
    visible: u64,
    now: u64,
)
    ensures
        ({
            let route = state.observed_route(prompt_tokens, group_hashes, selected, visible, now);
            let refusal = state.evidence_refusal(prompt_tokens, group_hashes@, selected, now);
            &&& route.complete <==> refusal is None
            &&& route.incomplete_reason == refusal
            &&& route.complete ==> {
                &&& route.reusable_prefix_tokens matches Some(reusable) && reusable
                    <= max_hit_tokens(prompt_tokens)
                &&& route.physical_prefix_tokens matches Some(physical) && physical
                    <= max_hit_tokens(prompt_tokens)
                &&& route.router_visible_prefix_tokens matches Some(visible) && visible
                    <= max_hit_tokens(prompt_tokens)
                &&& route.selected_physical_prefix_tokens matches Some(selected) && selected
                    <= max_hit_tokens(prompt_tokens)
                &&& route.quality == CacheEvidenceQuality::BoundedPhysical
                &&& route.barrier == Some(state.barriers.next_ticket)
            }
            &&& !route.complete ==> {
                &&& route.reusable_prefix_tokens is None
                &&& route.physical_prefix_tokens is None
                &&& route.selected_physical_prefix_tokens is None
                &&& route.quality == CacheEvidenceQuality::Incomplete
                &&& route.barrier is None
            }
        }),
{
    let limit = max_hit_tokens(prompt_tokens);
    let groups = group_hashes@;
    let ledger = state.ledger;
    law_known_prefix_is_confirmed_by_every_group(ledger.history_presence(), groups, limit as int);
    lemma_resident_prefix_bounded(ledger, groups, limit, selected);
    lemma_best_prefix_exists(ledger, groups, limit, u64::MAX);
    let best = choose|best: u64| ledger.is_best_known_prefix(groups, limit, best);
    assert(ledger.is_best_known_prefix(groups, limit, best));
    if best > 0 {
        let owner = choose|owner: CacheOwner| #[trigger]
            ledger.cataloged(owner) && ledger.resident_prefix_on(groups, limit, owner)
                == KnownPrefixLength::Known(best);
        lemma_resident_prefix_bounded(ledger, groups, limit, owner);
    }
}

proof fn lemma_resident_prefix_bounded(
    ledger: LedgerView,
    groups: Seq<CacheGroupHashSequence>,
    max_tokens: u64,
    owner: CacheOwner,
)
    ensures
        match ledger.resident_prefix_on(groups, max_tokens, owner) {
            KnownPrefixLength::Known(tokens) => tokens <= max_tokens,
            KnownPrefixLength::Unknown => true,
        },
{
    law_known_prefix_is_confirmed_by_every_group(
        ledger.owner_presence(owner),
        groups,
        max_tokens as int,
    );
}

/// What is resident on the selected worker is resident somewhere.
pub proof fn law_selected_prefix_is_resident_somewhere(
    state: SubscriptionView,
    prompt_tokens: u64,
    group_hashes: Vec<CacheGroupHashSequence>,
    selected: CacheOwner,
    visible: u64,
    now: u64,
)
    requires
        state.ledger.cataloged(selected),
    ensures
        ({
            let route = state.observed_route(prompt_tokens, group_hashes, selected, visible, now);
            route.complete ==> route.selected_physical_prefix_tokens->0
                <= route.physical_prefix_tokens->0
        }),
{
    let limit = max_hit_tokens(prompt_tokens);
    lemma_best_prefix_exists(state.ledger, group_hashes@, limit, u64::MAX);
    let best = choose|best: u64| state.ledger.is_best_known_prefix(group_hashes@, limit, best);
    assert(state.ledger.is_best_known_prefix(group_hashes@, limit, best));
    assert(state.ledger.cataloged(selected));
}

/// Among the known prefixes up to `bound` there is a longest one.
pub(crate) proof fn lemma_best_prefix_exists(
    ledger: LedgerView,
    groups: Seq<CacheGroupHashSequence>,
    max_tokens: u64,
    bound: u64,
)
    requires
        forall|owner: CacheOwner| #[trigger]
            ledger.cataloged(owner) ==> match ledger.resident_prefix_on(
                groups,
                max_tokens,
                owner,
            ) {
                KnownPrefixLength::Known(tokens) => tokens <= bound,
                KnownPrefixLength::Unknown => true,
            },
    ensures
        exists|best: u64| ledger.is_best_known_prefix(groups, max_tokens, best),
    decreases bound,
{
    if bound == 0 || exists|owner: CacheOwner| #[trigger]
        ledger.cataloged(owner) && ledger.resident_prefix_on(groups, max_tokens, owner)
            == KnownPrefixLength::Known(bound) {
        assert(ledger.is_best_known_prefix(groups, max_tokens, bound));
    } else {
        lemma_best_prefix_exists(ledger, groups, max_tokens, (bound - 1) as u64);
    }
}

/// A route becomes exact by an exact cut and by nothing else; a void cut
/// leaves it incomplete, with the cut's reason.
pub proof fn law_only_an_exact_cut_makes_a_route_exact(
    route: CacheLossRouteObservation,
    outcome: BarrierOutcome,
)
    requires
        route.quality != CacheEvidenceQuality::Exact,
    ensures
        route.settled(outcome).quality == CacheEvidenceQuality::Exact <==> outcome
            == BarrierOutcome::Exact,
        outcome == BarrierOutcome::Exact ==> route.settled(outcome).complete == route.complete,
        match outcome {
            BarrierOutcome::Incomplete(failure) => !route.settled(outcome).complete
                && route.settled(outcome).incomplete_reason == Some(
                IncompleteReason::Barrier(failure),
            ),
            _ => true,
        },
{
}

} // verus!
