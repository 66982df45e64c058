//! What the prefix lengths of a route mean, told from the blocks themselves.

use vstd::prelude::*;

use crate::evidence::{BlockCopy, CacheOwner, CacheTier, KnownBool, OwnerTier, PhysicalCopy};
use crate::freshness::EvidenceFreshnessStatus;
use crate::model::LedgerView;
use crate::prefix::{
    hybrid_hit, well_shaped, CacheGroupHashSequence, KnownPrefixLength, Presence,
};
use crate::prefix_laws::{law_known_prefix_ignores_unknown_blocks, refines};
use crate::route::CacheEvidenceQuality;
use crate::route_laws::lemma_best_prefix_exists;
use crate::speculative_prefix_laws::{
    all_can_serve, is_decided, is_usable, law_common_prefix_is_the_longest_that_can_be_served,
    speculation_is_apart,
};
use crate::subscription_model::SubscriptionView;

verus! {

/// A block is there if the history has seen it.
pub open spec fn seen_in_history(ledger: LedgerView) -> Presence {
    |group: u32, hash: u64|
        if ledger.seen_blocks.contains(hash) {
            KnownBool::Yes
        } else {
            KnownBool::No
        }
}

/// A block is there if the owner has a copy of it for the group, on either
/// tier.
pub open spec fn held_by(ledger: LedgerView, owner: CacheOwner) -> Presence {
    |group: u32, hash: u64|
        if ledger.copies.contains_key(
            BlockCopy { hash, copy: PhysicalCopy { owner, tier: CacheTier::Gpu, group } },
        ) || ledger.copies.contains_key(
            BlockCopy { hash, copy: PhysicalCopy { owner, tier: CacheTier::Cpu, group } },
        ) {
            KnownBool::Yes
        } else {
            KnownBool::No
        }
}

/// The owner has declared what it caches, on either tier.
pub open spec fn has_declared(ledger: LedgerView, owner: CacheOwner) -> bool {
    ledger.required_groups.contains_key(OwnerTier { owner, tier: CacheTier::Gpu })
        || ledger.required_groups.contains_key(OwnerTier { owner, tier: CacheTier::Cpu })
}

/// `tokens` is the longest prefix that every group can serve.
pub open spec fn is_longest(
    presence: Presence,
    groups: Seq<CacheGroupHashSequence>,
    limit: int,
    tokens: int,
) -> bool {
    &&& 0 <= tokens <= limit
    &&& all_can_serve(presence, groups, limit, tokens)
    &&& forall|longer: int|
        0 <= longer <= limit && #[trigger] all_can_serve(presence, groups, limit, longer)
            ==> longer <= tokens
}

/// A prefix that is known is the longest one, whatever the unknown blocks turn
/// out to be.
pub(crate) proof fn lemma_known_is_longest(
    evidence: Presence,
    facts: Presence,
    groups: Seq<CacheGroupHashSequence>,
    limit: int,
)
    requires
        limit >= 0,
        refines(evidence, facts),
        forall|group: u32, hash: u64| #[trigger] facts(group, hash) != KnownBool::Unknown,
        speculation_is_apart(groups),
        hybrid_hit(evidence, groups, limit) is Some,
    ensures
        is_longest(facts, groups, limit, hybrid_hit(evidence, groups, limit)->0),
{
    law_known_prefix_ignores_unknown_blocks(evidence, facts, groups, limit);
    assert forall|i: int| 0 <= i < groups.len() implies is_usable(#[trigger] groups[i])
        && is_decided(facts, groups[i], limit) by {
        assert(well_shaped(groups[i]));
    }
    law_common_prefix_is_the_longest_that_can_be_served(facts, groups, limit);
}

/// The reusable prefix is the longest that the history has seen. It depends on
/// nothing else: not on what is resident anywhere.
pub proof fn law_reusable_prefix_is_what_history_has_seen(
    ledger: LedgerView,
    groups: Seq<CacheGroupHashSequence>,
    limit: u64,
)
    requires
        speculation_is_apart(groups),
    ensures
        match ledger.reusable_prefix(groups, limit) {
            KnownPrefixLength::Known(tokens) => is_longest(
                seen_in_history(ledger),
                groups,
                limit as int,
                tokens as int,
            ),
            KnownPrefixLength::Unknown => true,
        },
{
    if hybrid_hit(ledger.history_presence(), groups, limit as int) is Some {
        lemma_known_is_longest(
            ledger.history_presence(),
            seen_in_history(ledger),
            groups,
            limit as int,
        );
    }
}

/// The prefix resident on an owner is the longest of which it has copies.
pub proof fn law_resident_prefix_is_what_the_owner_holds(
    ledger: LedgerView,
    groups: Seq<CacheGroupHashSequence>,
    limit: u64,
    owner: CacheOwner,
)
    requires
        speculation_is_apart(groups),
    ensures
        match ledger.resident_prefix_on(groups, limit, owner) {
            KnownPrefixLength::Known(tokens) => is_longest(
                held_by(ledger, owner),
                groups,
                limit as int,
                tokens as int,
            ),
            KnownPrefixLength::Unknown => true,
        },
{
    if hybrid_hit(ledger.owner_presence(owner), groups, limit as int) is Some {
        lemma_known_is_longest(
            ledger.owner_presence(owner),
            held_by(ledger, owner),
            groups,
            limit as int,
        );
    }
}

/// With a complete history and telemetry, both prefixes are known: nothing but
/// missing evidence leaves them open.
pub proof fn law_complete_evidence_decides_prefixes(
    ledger: LedgerView,
    groups: Seq<CacheGroupHashSequence>,
    limit: u64,
    owner: CacheOwner,
)
    requires
        groups.len() > 0,
        forall|i: int| 0 <= i < groups.len() ==> is_usable(#[trigger] groups[i]),
        speculation_is_apart(groups),
    ensures
        ledger.history_complete && !ledger.history_saturated ==> ledger.reusable_prefix(
            groups,
            limit,
        ) is Known,
        ledger.physical_scope_complete && ledger.physical_telemetry_complete && has_declared(
            ledger,
            owner,
        ) ==> ledger.resident_prefix_on(groups, limit, owner) is Known,
{
    if ledger.history_complete && !ledger.history_saturated {
        assert forall|i: int| 0 <= i < groups.len() implies is_usable(#[trigger] groups[i])
            && is_decided(ledger.history_presence(), groups[i], limit as int) by {}
        law_common_prefix_is_the_longest_that_can_be_served(
            ledger.history_presence(),
            groups,
            limit as int,
        );
    }
    if ledger.physical_scope_complete && ledger.physical_telemetry_complete && has_declared(
        ledger,
        owner,
    ) {
        assert(ledger.cataloged(owner));
        assert forall|i: int| 0 <= i < groups.len() implies is_usable(#[trigger] groups[i])
            && is_decided(ledger.owner_presence(owner), groups[i], limit as int) by {}
        law_common_prefix_is_the_longest_that_can_be_served(
            ledger.owner_presence(owner),
            groups,
            limit as int,
        );
    }
}

/// The prefix resident anywhere is the longest that some declared owner holds,
/// or none at all.
pub proof fn law_physical_prefix_is_the_best_that_an_owner_holds(
    ledger: LedgerView,
    groups: Seq<CacheGroupHashSequence>,
    limit: u64,
)
    requires
        speculation_is_apart(groups),
    ensures
        match ledger.resident_prefix_anywhere(groups, limit) {
            KnownPrefixLength::Known(best) => {
                &&& best <= limit
                &&& best == 0 || exists|owner: CacheOwner| #[trigger]
                    has_declared(ledger, owner) && is_longest(
                        held_by(ledger, owner),
                        groups,
                        limit as int,
                        best as int,
                    )
                &&& forall|owner: CacheOwner, tokens: int|
                    has_declared(ledger, owner) && 0 <= tokens <= limit && #[trigger] all_can_serve(
                        held_by(ledger, owner),
                        groups,
                        limit as int,
                        tokens,
                    ) ==> tokens <= best
            },
            KnownPrefixLength::Unknown => true,
        },
{
    if let KnownPrefixLength::Known(best) = ledger.resident_prefix_anywhere(groups, limit) {
        lemma_best_prefix_exists(ledger, groups, limit, u64::MAX);
        assert(ledger.is_best_known_prefix(groups, limit, best));
        if best > 0 {
            let owner = choose|owner: CacheOwner| #[trigger]
                ledger.cataloged(owner) && ledger.resident_prefix_on(groups, limit, owner)
                    == KnownPrefixLength::Known(best);
            let tier = choose|tier: CacheTier| #[trigger]
                ledger.required_groups.contains_key(OwnerTier { owner, tier });
            match tier {
                CacheTier::Gpu => {},
                CacheTier::Cpu => {},
            }
            assert(has_declared(ledger, owner));
            law_resident_prefix_is_what_the_owner_holds(ledger, groups, limit, owner);
        }
        assert forall|owner: CacheOwner, tokens: int|
            has_declared(ledger, owner) && 0 <= tokens <= limit && #[trigger] all_can_serve(
                held_by(ledger, owner),
                groups,
                limit as int,
                tokens,
            ) implies tokens <= best by {
            assert(ledger.cataloged(owner));
            law_resident_prefix_is_what_the_owner_holds(ledger, groups, limit, owner);
            if best != limit {
                assert(ledger.resident_prefix_on(groups, limit, owner) is Known);
            }
        }
    }
}

/// A complete route says of each prefix what the evidence shows: the reusable
/// one is what the history has seen, the physical one the best that a declared
/// owner holds, the selected one what the selected owner holds, and the
/// visible one what the router said, all short of the prompt's last token.
pub proof fn law_complete_route_measures_the_evidence(
    state: SubscriptionView,
    prompt_tokens: u64,
    group_hashes: Vec<CacheGroupHashSequence>,
    selected: CacheOwner,
    visible: u64,
    now: u64,
)
    requires
        speculation_is_apart(group_hashes@),
    ensures
        ({
            let route = state.observed_route(prompt_tokens, group_hashes, selected, visible, now);
            let ledger = state.ledger;
            let limit: int = if prompt_tokens == 0 {
                0
            } else {
                prompt_tokens - 1
            };
            &&& route.prompt_tokens == prompt_tokens
            &&& route.complete ==> {
                &&& state.freshness.status(now) == EvidenceFreshnessStatus::BoundedFresh
                &&& ledger.expected_owners == Some(state.barriers.owners.dom())
                &&& route.group_hashes == Some(group_hashes)
                &&& route.incomplete_reason is None
                &&& route.quality == CacheEvidenceQuality::BoundedPhysical
                &&& route.router_visible_prefix_tokens == Some(
                    if visible <= limit {
                        visible
                    } else {
                        limit as u64
                    },
                )
                &&& route.reusable_prefix_tokens matches Some(reusable) && is_longest(
                    seen_in_history(ledger),
                    group_hashes@,
                    limit,
                    reusable as int,
                )
                &&& route.selected_physical_prefix_tokens matches Some(on_selected) && is_longest(
                    held_by(ledger, selected),
                    group_hashes@,
                    limit,
                    on_selected as int,
                )
                &&& route.physical_prefix_tokens matches Some(physical) && {
                    &&& physical <= limit
                    &&& physical == 0 || exists|owner: CacheOwner| #[trigger]
                        has_declared(ledger, owner) && is_longest(
                            held_by(ledger, owner),
                            group_hashes@,
                            limit,
                            physical as int,
                        )
                    &&& forall|owner: CacheOwner, tokens: int|
                        has_declared(ledger, owner) && 0 <= tokens <= limit
                            && #[trigger] all_can_serve(
                            held_by(ledger, owner),
                            group_hashes@,
                            limit,
                            tokens,
                        ) ==> tokens <= physical
                }
            }
        }),
{
    let limit = crate::snapshot::max_hit_tokens(prompt_tokens);
    let groups = group_hashes@;
    law_reusable_prefix_is_what_history_has_seen(state.ledger, groups, limit);
    law_resident_prefix_is_what_the_owner_holds(state.ledger, groups, limit, selected);
    law_physical_prefix_is_the_best_that_an_owner_holds(state.ledger, groups, limit);
    if hybrid_hit(state.ledger.history_presence(), groups, limit as int) is Some {
        crate::prefix_laws::law_known_prefix_is_confirmed_by_every_group(
            state.ledger.history_presence(),
            groups,
            limit as int,
        );
    }
}

/// A route is complete where the evidence is: fresh, of the membership that is
/// served, with a complete history and telemetry, and with the selected owner
/// among those that have declared their groups.
pub proof fn law_complete_evidence_makes_a_complete_route(
    state: SubscriptionView,
    prompt_tokens: u64,
    group_hashes: Vec<CacheGroupHashSequence>,
    selected: CacheOwner,
    visible: u64,
    now: u64,
)
    requires
        group_hashes@.len() > 0,
        forall|i: int| 0 <= i < group_hashes@.len() ==> is_usable(#[trigger] group_hashes@[i]),
        speculation_is_apart(group_hashes@),
        state.freshness.status(now) == EvidenceFreshnessStatus::BoundedFresh,
        state.ledger.expected_owners == Some(state.barriers.owners.dom()),
        state.ledger.history_complete,
        !state.ledger.history_saturated,
        state.ledger.physical_scope_complete,
        state.ledger.physical_telemetry_complete,
        has_declared(state.ledger, selected),
    ensures
        state.observed_route(prompt_tokens, group_hashes, selected, visible, now).complete,
{
    let limit = crate::snapshot::max_hit_tokens(prompt_tokens);
    let groups = group_hashes@;
    let ledger = state.ledger;
    law_complete_evidence_decides_prefixes(ledger, groups, limit, selected);
    assert(ledger.cataloged(selected));
    assert(!ledger.prefix_undecided(groups, limit)) by {
        assert forall|owner: CacheOwner| #[trigger]
            ledger.cataloged(owner) implies ledger.resident_prefix_on(groups, limit, owner)
            != KnownPrefixLength::Unknown by {
            let tier = choose|tier: CacheTier| #[trigger]
                ledger.required_groups.contains_key(OwnerTier { owner, tier });
            match tier {
                CacheTier::Gpu => {},
                CacheTier::Cpu => {},
            }
            law_complete_evidence_decides_prefixes(ledger, groups, limit, owner);
        }
    }
}

} // verus!
