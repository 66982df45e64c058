//! What replies, batches and outcomes say, told from what they hold.

use vstd::prelude::*;

use crate::barrier::BarrierOutcome;
use crate::catalog::{shapes, CacheGroupObservation};
use crate::cold_epoch::{ColdEpochOwnerFence, TierSet};
use crate::control::{barrier_verdict, epoch_verdict, ControlError, ControlReply};
use crate::event::RawKvEvent;
use crate::evidence::{CacheGroupBlockQuery, CacheOwner, CacheTier, KnownBool, OwnerTier};
use crate::guard::{effect_of, effects_of, GuardAction, GuardEffect};
use crate::history_request::total_len;
use crate::listener::{epochs_consistent, is_only_epoch};
use crate::membership::fence_map;
use crate::model::LedgerView;
use crate::owner_map::pairs_map;
use crate::prefix::{as_length, CacheGroupHashSequence, KnownPrefixLength};
use crate::prompt_source::is_control_result;
use crate::reply_laws::{is_said, media_make_up};
use crate::route::{CacheEvidenceQuality, CacheLossRouteObservation, IncompleteReason};
use crate::snapshot::hashed_route;
use crate::subscription_model::SubscriptionView;

verus! {

// ---- refused replies ----

/// The reply is refused with the error.
pub open spec fn is_refused<T>(verdict: Result<T, ControlError>, error: ControlError) -> bool {
    verdict is Err && verdict->Err_0 == error
}

/// A reply to a request for markers is refused for the first thing that is
/// wrong: that there is none, that it failed or is empty, that it names another
/// barrier, that there is more than one, that it is an error.
pub proof fn law_marker_reply_is_refused_for_the_first_reason(
    replies: Seq<ControlReply>,
    barrier_id: u64,
)
    ensures
        ({
            let verdict = barrier_verdict(replies, barrier_id);
            let first = replies[0];
            let payload = first->Payload_0;
            let named = payload.barrier_id == Some(barrier_id);
            let final_error = is_said(payload.status, "error"@) && is_said(
                payload.code,
                "barrier_permanently_unavailable"@,
            );
            &&& replies.len() == 0 ==> is_refused(verdict, ControlError::NoResponse)
            &&& replies.len() > 0 && first is Failed ==> is_refused(verdict, ControlError::Failed)
            &&& replies.len() > 0 && first is Empty ==> is_refused(verdict, ControlError::NoPayload)
            &&& replies.len() > 0 && first is Payload && !named ==> is_refused(
                verdict,
                ControlError::MismatchedBarrierId,
            )
            &&& replies.len() > 1 && first is Payload && named ==> is_refused(
                verdict,
                ControlError::MoreThanOneResponse,
            )
            &&& replies.len() == 1 && first is Payload && named && !is_said(
                payload.status,
                "success"@,
            ) && !final_error ==> is_refused(verdict, ControlError::ErrorPayload)
        }),
{
}

/// A reply to a cold-epoch request is refused for the first thing that is
/// wrong.
pub proof fn law_epoch_reply_is_refused_for_the_first_reason(
    replies: Seq<ControlReply>,
    epoch_id: Seq<char>,
    barrier_id: Option<u64>,
    serving_incarnation: Option<u64>,
    expected_tiers: Option<TierSet>,
)
    ensures
        ({
            let verdict = epoch_verdict(
                replies,
                epoch_id,
                barrier_id,
                serving_incarnation,
                expected_tiers,
            );
            let first = replies[0];
            let payload = first->Payload_0;
            let success = is_said(payload.status, "success"@);
            let token = is_said(payload.epoch_id, epoch_id);
            let barrier = barrier_id is Some ==> payload.barrier_id == barrier_id;
            let serving = serving_incarnation is Some ==> payload.serving_incarnation
                == serving_incarnation;
            let media = payload.cleared_media;
            let known = forall|i: int|
                0 <= i < media->0@.len() ==> is_said(#[trigger] media->0@[i], "GPU"@) || is_said(
                    media->0@[i],
                    "CPU"@,
                );
            let cleared = expected_tiers is Some ==> media is Some && media_make_up(
                media->0@,
                expected_tiers->0,
            );
            &&& replies.len() == 0 ==> is_refused(verdict, ControlError::NoResponse)
            &&& replies.len() > 0 && first is Failed ==> is_refused(verdict, ControlError::Failed)
            &&& replies.len() > 0 && first is Empty ==> is_refused(verdict, ControlError::NoPayload)
            &&& replies.len() > 0 && first is Payload ==> {
                &&& !success ==> is_refused(verdict, ControlError::ErrorPayload)
                &&& success && !token ==> is_refused(verdict, ControlError::MismatchedToken)
                &&& success && token && !barrier ==> is_refused(
                    verdict,
                    ControlError::MismatchedBarrierId,
                )
                &&& success && token && barrier && !serving ==> is_refused(
                    verdict,
                    ControlError::MismatchedServingIncarnation,
                )
                &&& success && token && barrier && serving && !cleared ==> is_refused(
                    verdict,
                    if media is None {
                        ControlError::OmittedClearedMedia
                    } else if !known {
                        ControlError::InvalidClearedMedia
                    } else {
                        ControlError::MismatchedClearedMedia
                    },
                )
                &&& success && token && barrier && serving && cleared && replies.len() > 1
                    ==> is_refused(verdict, ControlError::MoreThanOneResponse)
            }
        }),
{
    if replies.len() > 0 && replies[0] is Payload && expected_tiers is Some {
        let payload = replies[0]->Payload_0;
        if payload.cleared_media is Some {
            let media = payload.cleared_media->0@;
            crate::reply_laws::lemma_media(media, expected_tiers->0);
            if forall|i: int|
                0 <= i < media.len() ==> is_said(#[trigger] media[i], "GPU"@) || is_said(
                    media[i],
                    "CPU"@,
                ) {
                assert forall|i: int| 0 <= i < media.len() implies crate::control::is_medium(
                    #[trigger] media[i],
                ) by {
                    assert(is_said(media[i], "GPU"@) || is_said(media[i], "CPU"@));
                }
            }
            if crate::control::all_media(media) {
                assert forall|i: int| 0 <= i < media.len() implies is_said(
                    #[trigger] media[i],
                    "GPU"@,
                ) || is_said(media[i], "CPU"@) by {
                    assert(crate::control::is_medium(media[i]));
                }
            }
        }
    }
}

/// Only the results of a control that the router knows are counted by name.
pub proof fn law_known_control_results(result: Seq<char>)
    ensures
        is_control_result(result) <==> result == "origin_active_evicted"@ || result
            == "origin_pending_expired"@ || result == "origin_pending_full"@ || result
            == "origin_missing"@,
{
}

// ---- epochs of a batch ----

/// The event clears everything for the epoch.
pub open spec fn is_clear_for(event: RawKvEvent, epoch_id: Seq<char>) -> bool {
    event matches RawKvEvent::AllBlocksCleared { epoch_id: Some(id), .. } && id@ == epoch_id
}

pub open spec fn is_clear_for_some_epoch(event: RawKvEvent) -> bool {
    event matches RawKvEvent::AllBlocksCleared { epoch_id: Some(_), .. }
}

/// A batch belongs to the epoch of its clears if they all name the same. Events
/// that are not clears of that epoch may not come with them.
pub proof fn law_epoch_clears_come_alone(events: Seq<RawKvEvent>, epoch_id: Seq<char>)
    ensures
        is_only_epoch(events, epoch_id) <==> {
            &&& exists|i: int| 0 <= i < events.len() && is_clear_for(#[trigger] events[i], epoch_id)
            &&& forall|i: int|
                0 <= i < events.len() ==> !is_clear_for_some_epoch(#[trigger] events[i])
                    || is_clear_for(events[i], epoch_id)
        },
        (forall|i: int|
            0 <= i < events.len() ==> !is_clear_for_some_epoch(#[trigger] events[i]))
            ==> epochs_consistent(events),
        events.len() > 0 && (forall|i: int|
            0 <= i < events.len() ==> is_clear_for(#[trigger] events[i], epoch_id))
            ==> epochs_consistent(events),
        epochs_consistent(events) && (exists|i: int|
            0 <= i < events.len() && is_clear_for(#[trigger] events[i], epoch_id)) ==> forall|
            i: int,
        |
            0 <= i < events.len() ==> is_clear_for(#[trigger] events[i], epoch_id),
{
    assert forall|i: int| 0 <= i < events.len() implies {
        &&& (#[trigger] events[i]).epoch() == Some(epoch_id) <==> is_clear_for(events[i], epoch_id)
        &&& events[i].epoch() is Some <==> is_clear_for_some_epoch(events[i])
    } by {}
    if is_only_epoch(events, epoch_id) {
        let i = choose|i: int|
            0 <= i < events.len() && (#[trigger] events[i]).epoch() == Some(epoch_id);
        assert(is_clear_for(events[i], epoch_id));
    }
    if events.len() > 0 && (forall|i: int|
        0 <= i < events.len() ==> is_clear_for(#[trigger] events[i], epoch_id)) {
        assert(is_clear_for(events[0], epoch_id));
        assert(events[0].epoch() == Some(epoch_id));
        assert(is_only_epoch(events, epoch_id));
    }
    if epochs_consistent(events) && (exists|i: int|
        0 <= i < events.len() && is_clear_for(#[trigger] events[i], epoch_id)) {
        let k = choose|i: int|
            0 <= i < events.len() && is_clear_for(#[trigger] events[i], epoch_id);
        assert(events[k].epoch() == Some(epoch_id));
        let only = choose|id: Seq<char>| #[trigger]
            is_only_epoch(events, id) && forall|i: int|
                0 <= i < events.len() ==> (#[trigger] events[i]).epoch() == Some(id);
        assert(events[k].epoch() == Some(only));
        assert forall|i: int| 0 <= i < events.len() implies is_clear_for(
            #[trigger] events[i],
            epoch_id,
        ) by {
            assert(events[i].epoch() == Some(only));
        }
    }
}

// ---- residency of groups ----

/// The owner has declared something on a tier.
pub open spec fn has_declared_tier(ledger: LedgerView, owner: CacheOwner) -> bool {
    ledger.required_groups.contains_key(OwnerTier { owner, tier: CacheTier::Gpu })
        || ledger.required_groups.contains_key(OwnerTier { owner, tier: CacheTier::Cpu })
}

/// Blocks of groups are held somewhere exactly if some owner that has declared
/// its groups holds them. They are held nowhere only if there are such owners,
/// each is known not to hold them, and the evidence is complete.
pub proof fn law_groups_are_held_if_an_owner_holds_them(
    ledger: LedgerView,
    queries: Seq<CacheGroupBlockQuery>,
)
    ensures
        ({
            let known = ledger.resident_groups_anywhere(queries);
            &&& known == KnownBool::Yes <==> exists|owner: CacheOwner| #[trigger]
                has_declared_tier(ledger, owner) && ledger.resident_groups_on(queries, owner)
                    == KnownBool::Yes
            &&& known == KnownBool::No <==> {
                &&& exists|owner: CacheOwner| #[trigger] has_declared_tier(ledger, owner)
                &&& forall|owner: CacheOwner| #[trigger]
                    has_declared_tier(ledger, owner) ==> ledger.resident_groups_on(queries, owner)
                        == KnownBool::No
                &&& ledger.physical_scope_complete
                &&& ledger.physical_telemetry_complete
            }
        }),
{
    assert forall|owner: CacheOwner| #[trigger] ledger.cataloged(owner) == has_declared_tier(
        ledger,
        owner,
    ) by {
        if ledger.cataloged(owner) {
            let tier = choose|tier: CacheTier| #[trigger]
                ledger.required_groups.contains_key(OwnerTier { owner, tier });
            match tier {
                CacheTier::Gpu => {},
                CacheTier::Cpu => {},
            }
        }
    }
    if exists|owner: CacheOwner| #[trigger]
        has_declared_tier(ledger, owner) && ledger.resident_groups_on(queries, owner)
            == KnownBool::Yes {
        let owner = choose|owner: CacheOwner| #[trigger]
            has_declared_tier(ledger, owner) && ledger.resident_groups_on(queries, owner)
                == KnownBool::Yes;
        assert(ledger.cataloged(owner));
    }
    if exists|owner: CacheOwner| #[trigger] has_declared_tier(ledger, owner) {
        let owner = choose|owner: CacheOwner| #[trigger] has_declared_tier(ledger, owner);
        assert(ledger.cataloged(owner));
    }
    if exists|owner: CacheOwner| #[trigger] ledger.cataloged(owner) {
        let owner = choose|owner: CacheOwner| #[trigger] ledger.cataloged(owner);
        assert(has_declared_tier(ledger, owner));
    }
    if exists|owner: CacheOwner| #[trigger]
        ledger.cataloged(owner) && ledger.resident_groups_on(queries, owner)
            == KnownBool::Unknown {
        let owner = choose|owner: CacheOwner| #[trigger]
            ledger.cataloged(owner) && ledger.resident_groups_on(queries, owner)
                == KnownBool::Unknown;
        assert(has_declared_tier(ledger, owner));
    }
    if ledger.resident_groups_anywhere(queries) == KnownBool::No {
        assert forall|owner: CacheOwner| #[trigger] has_declared_tier(
            ledger,
            owner,
        ) implies ledger.resident_groups_on(queries, owner) == KnownBool::No by {
            assert(ledger.cataloged(owner));
            match ledger.resident_groups_on(queries, owner) {
                KnownBool::Yes => {},
                KnownBool::No => {},
                KnownBool::Unknown => {},
            }
        }
    }
    if forall|owner: CacheOwner| #[trigger]
        has_declared_tier(ledger, owner) ==> ledger.resident_groups_on(queries, owner)
            == KnownBool::No {
        assert forall|owner: CacheOwner| #[trigger] ledger.cataloged(
            owner,
        ) implies ledger.resident_groups_on(queries, owner) == KnownBool::No by {
            assert(has_declared_tier(ledger, owner));
        }
    }
}

// ---- routes and outcomes ----

/// A route whose evidence is refused still says what the router saw, up to the
/// last token, and how the request hashes.
pub proof fn law_route_without_evidence_says_what_the_router_saw(
    prompt_tokens: u64,
    visible: u64,
    group_hashes: Vec<CacheGroupHashSequence>,
    reason: IncompleteReason,
)
    ensures
        ({
            let route = hashed_route(prompt_tokens, visible, group_hashes, reason);
            &&& route.prompt_tokens == prompt_tokens
            &&& route.group_hashes == Some(group_hashes)
            &&& route.incomplete_reason == Some(reason)
            &&& !route.complete
            &&& route.quality == CacheEvidenceQuality::Incomplete
            &&& route.barrier is None
            &&& route.reusable_prefix_tokens is None
            &&& route.physical_prefix_tokens is None
            &&& route.selected_physical_prefix_tokens is None
            &&& route.router_visible_prefix_tokens is Some
            &&& visible < prompt_tokens ==> route.router_visible_prefix_tokens == Some(visible)
            &&& 0 < prompt_tokens <= visible ==> route.router_visible_prefix_tokens->0 + 1
                == prompt_tokens
            &&& prompt_tokens == 0 ==> route.router_visible_prefix_tokens == Some(0u64)
        }),
{
}

/// A cut that nothing is known of is still pending; any other has its outcome.
pub proof fn law_outcome_is_that_of_the_ticket(outcomes: Map<u64, BarrierOutcome>, ticket: u64)
    ensures
        outcomes.contains_key(ticket) ==> CacheLossRouteObservation::outcome_of(outcomes, ticket)
            == outcomes[ticket],
        !outcomes.contains_key(ticket) ==> CacheLossRouteObservation::outcome_of(outcomes, ticket)
            == BarrierOutcome::Pending,
{
}

/// A prefix that was found has its own length; one that was not is unknown.
pub proof fn law_found_prefix_has_its_length(hit: Option<int>)
    ensures
        hit is None <==> as_length(hit) == KnownPrefixLength::Unknown,
        hit is Some && 0 <= hit->0 <= u64::MAX ==> as_length(hit) is Known && as_length(
            hit,
        )->Known_0 == hit->0,
{
}

/// What a request asks for is what its action holds.
pub proof fn law_actions_say_what_they_hold(actions: Seq<GuardAction>, i: int)
    requires
        0 <= i < actions.len(),
    ensures
        effects_of(actions).len() == actions.len(),
        effects_of(actions)[i] == effect_of(actions[i]),
        match (actions[i], effect_of(actions[i])) {
            (GuardAction::RecordCatalog(a), GuardEffect::RecordCatalog(b)) => a == b,
            (
                GuardAction::RecordPrompt { epoch, tokens },
                GuardEffect::RecordPrompt { epoch: other, tokens: list },
            ) => epoch == other && tokens@ == list,
            (
                GuardAction::RecordSequence { epoch, tokens },
                GuardEffect::RecordSequence { epoch: other, tokens: list },
            ) => epoch == other && tokens@ == list,
            (
                GuardAction::MarkHistoryIncomplete { epoch },
                GuardEffect::MarkHistoryIncomplete { epoch: other },
            ) => epoch == other,
            (GuardAction::ObserveCacheLoss(a), GuardEffect::ObserveCacheLoss(b)) => a == b,
            (
                GuardAction::CountRequest { output_tokens },
                GuardEffect::CountRequest { output_tokens: other },
            ) => output_tokens == other,
            (GuardAction::FreeWorker(a), GuardEffect::FreeWorker(b)) => a == b,
            (GuardAction::DropTicket(a), GuardEffect::DropTicket(b)) => a == b,
            _ => false,
        },
{
}

/// A catalog declares the groups that were reported, in order and as they were.
pub proof fn law_catalog_declares_what_was_reported(groups: Seq<CacheGroupObservation>, i: int)
    requires
        0 <= i < groups.len(),
    ensures
        shapes(groups).len() == groups.len(),
        shapes(groups)[i].group_idx == groups[i].group_idx,
        shapes(groups)[i].kind == groups[i].kind@,
        shapes(groups)[i].block_size == groups[i].block_size,
        shapes(groups)[i].sliding_window == groups[i].sliding_window,
        shapes(groups)[i].is_eagle == groups[i].is_eagle,
        shapes(groups)[i].alignment_tokens == groups[i].alignment_tokens,
{
}

/// Giving up an attempt costs what the history lacks its meaning, and nothing
/// else.
pub proof fn law_abandoned_attempt_costs_the_history(state: SubscriptionView)
    ensures
        ({
            let after = state.abandon_epoch();
            &&& !after.ledger.history_complete
            &&& after == (SubscriptionView {
                ledger: LedgerView { history_complete: false, ..state.ledger },
                ..state
            })
        }),
{
}

/// The owners that fences are listed for are fenced by them; without a list
/// nobody is.
pub proof fn law_fences_are_those_listed(
    membership: Option<Vec<(CacheOwner, ColdEpochOwnerFence)>>,
)
    ensures
        membership is None <==> fence_map(membership) is None,
        membership is Some ==> fence_map(membership) == Some(pairs_map(membership->0@)),
{
}

/// Lists have as many hashes as all of them together.
pub proof fn law_lists_count_all_hashes(lists: Seq<Seq<u64>>, list: Seq<u64>)
    ensures
        total_len(Seq::empty()) == 0,
        total_len(lists.push(list)) == total_len(lists) + list.len(),
{
    assert(lists.push(list).drop_last() =~= lists);
}

/// Removals take the listed hashes back one behind the other.
pub proof fn law_removals_are_taken_in_order(
    ledger: LedgerView,
    owner: CacheOwner,
    tier: CacheTier,
    group: u32,
    hashes: Seq<u64>,
    hash: u64,
)
    ensures
        ledger.remove_all(owner, tier, group, Seq::empty()) == ledger,
        ledger.remove_all(owner, tier, group, hashes.push(hash)) == ledger.remove_all(
            owner,
            tier,
            group,
            hashes,
        ).remove_external(owner, tier, group, hash),
{
    assert(hashes.push(hash).drop_last() =~= hashes);
}

} // verus!
