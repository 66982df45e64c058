//! What each operation does to the cuts, told ticket by ticket.

use vstd::prelude::*;

use crate::barrier::{
    completion, BarrierFailure, BarrierOutcome, BarrierView, CutView, RoundView,
};
use crate::evidence::CacheOwner;

verus! {

/// The ticket's cut still waits.
pub open spec fn waits(state: BarrierView, ticket: u64) -> bool {
    state.cuts.contains_key(ticket)
}

/// The cut of the ticket gets the outcome if it is `hit` while it waits; it is
/// left alone otherwise.
pub open spec fn decides(
    before: BarrierView,
    after: BarrierView,
    ticket: u64,
    hit: bool,
    outcome: BarrierOutcome,
) -> bool {
    &&& waits(after, ticket) <==> waits(before, ticket) && !hit
    &&& waits(after, ticket) ==> after.cuts[ticket] == before.cuts[ticket]
    &&& after.outcomes.contains_key(ticket) <==> before.outcomes.contains_key(ticket)
    &&& after.outcomes.contains_key(ticket) ==> after.outcomes[ticket] == if waits(before, ticket)
        && hit {
        outcome
    } else {
        before.outcomes[ticket]
    }
}

/// Some waiting cut belongs to the round.
pub open spec fn is_awaited(state: BarrierView, id: u64) -> bool {
    exists|ticket: u64| #[trigger] waits(state, ticket) && state.cuts[ticket].round == id
}

/// The rounds that somebody still waits for are left, and only those, with
/// their owners, start and count. One that took cuts goes on taking them.
pub open spec fn keeps_awaited_rounds(before: BarrierView, after: BarrierView) -> bool {
    &&& forall|id: u64|
        (#[trigger] after.rounds.contains_key(id)) <==> before.rounds.contains_key(id)
            && is_awaited(after, id)
    &&& forall|id: u64|
        (#[trigger] after.rounds.contains_key(id)) ==> after.rounds[id] == before.rounds[id]
    &&& after.open_round == if before.open_round is Some && after.rounds.contains_key(
        before.open_round->0,
    ) {
        before.open_round
    } else {
        None
    }
}

/// Nothing but cuts, outcomes and rounds has changed.
pub open spec fn keeps_members(before: BarrierView, after: BarrierView) -> bool {
    &&& after.owners == before.owners
    &&& after.serving_incarnations == before.serving_incarnations
    &&& after.permanently_unavailable == before.permanently_unavailable
    &&& keeps_counters(before, after)
}

pub open spec fn keeps_counters(before: BarrierView, after: BarrierView) -> bool {
    &&& after.next_id == before.next_id
    &&& after.next_ticket == before.next_ticket
    &&& after.max_pending == before.max_pending
}

proof fn lemma_resolved(
    before: BarrierView,
    tickets: Set<u64>,
    outcome: BarrierOutcome,
    ticket: u64,
)
    ensures
        decides(
            before,
            before.resolve(tickets, outcome),
            ticket,
            tickets.contains(ticket),
            outcome,
        ),
        keeps_awaited_rounds(before, before.resolve(tickets, outcome)),
        keeps_members(before, before.resolve(tickets, outcome)),
{
    let left = BarrierView {
        cuts: before.cuts.remove_keys(tickets),
        outcomes: Map::new(
            |ticket: u64| before.outcomes.contains_key(ticket),
            |ticket: u64|
                if tickets.contains(ticket) && before.cuts.contains_key(ticket) {
                    outcome
                } else {
                    before.outcomes[ticket]
                },
        ),
        ..before
    };
    lemma_swept(left);
    assert(before.resolve(tickets, outcome) == left.sweep());
}

proof fn lemma_swept(left: BarrierView)
    ensures
        keeps_awaited_rounds(left, left.sweep()),
{
    let after = left.sweep();
    assert forall|id: u64| left.awaited(id) == is_awaited(after, id) by {
        if left.awaited(id) {
            let t = choose|t: u64| #[trigger]
                left.cuts.contains_key(t) && left.cuts[t].round == id;
            assert(waits(after, t));
        }
        if is_awaited(after, id) {
            let t = choose|t: u64| #[trigger] waits(after, t) && after.cuts[t].round == id;
            assert(left.cuts.contains_key(t));
        }
    }
}

/// An event of an owner voids a waiting cut exactly if it came before the
/// owner's marker, and cleared the cache or touched a block that the cut is
/// about. No other cut is touched.
pub proof fn law_earlier_events_void_what_they_touch(
    state: BarrierView,
    owner: CacheOwner,
    hashes: Set<u64>,
    clear: bool,
    ticket: u64,
)
    ensures
        ({
            let after = state.mutation(owner, hashes, clear);
            let cut = state.cuts[ticket];
            let hit = waits(state, ticket) && cut.unmarked_owners.contains(owner) && (clear
                || exists|hash: u64| #[trigger]
                hashes.contains(hash) && cut.relevant_hashes.contains(hash));
            &&& decides(
                state,
                after,
                ticket,
                hit,
                BarrierOutcome::Incomplete(
                    if clear {
                        BarrierFailure::Clear
                    } else {
                        BarrierFailure::RelevantMutation
                    },
                ),
            )
            &&& keeps_awaited_rounds(state, after)
            &&& keeps_members(state, after)
            &&& state.voided(owner, hashes, clear).contains(ticket) <==> hit
        }),
{
    let cut = state.cuts[ticket];
    let set = state.voided(owner, hashes, clear);
    let shared = exists|hash: u64| #[trigger]
        hashes.contains(hash) && cut.relevant_hashes.contains(hash);
    assert(shared <==> !cut.relevant_hashes.disjoint(hashes)) by {
        if shared {
            let hash = choose|hash: u64| #[trigger]
                hashes.contains(hash) && cut.relevant_hashes.contains(hash);
            assert(cut.relevant_hashes.contains(hash));
        }
        if !cut.relevant_hashes.disjoint(hashes) {
            let hash = choose|hash: u64|
                cut.relevant_hashes.contains(hash) && hashes.contains(hash);
            assert(hashes.contains(hash));
        }
    }
    lemma_resolved(
        state,
        set,
        BarrierOutcome::Incomplete(
            if clear {
                BarrierFailure::Clear
            } else {
                BarrierFailure::RelevantMutation
            },
        ),
        ticket,
    );
}

/// A failure of an owner voids the cuts that wait for its marker, a failure of
/// a round those of the round, and a general one all that wait.
pub proof fn law_failures_void_whom_they_concern(
    state: BarrierView,
    owner: CacheOwner,
    id: u64,
    failure: BarrierFailure,
    ticket: u64,
)
    ensures
        ({
            let after = state.fail_owner(owner, failure);
            let hit = waits(state, ticket) && state.cuts[ticket].unmarked_owners.contains(owner);
            &&& decides(state, after, ticket, hit, BarrierOutcome::Incomplete(failure))
            &&& keeps_awaited_rounds(state, after)
            &&& keeps_members(state, after)
            &&& state.awaiting(owner).contains(ticket) <==> hit
        }),
        ({
            let after = state.fail_round(id, failure);
            let hit = waits(state, ticket) && state.cuts[ticket].round == id;
            &&& decides(state, after, ticket, hit, BarrierOutcome::Incomplete(failure))
            &&& keeps_awaited_rounds(state, after)
            &&& keeps_members(state, after)
            &&& state.in_round(id).contains(ticket) <==> hit
        }),
        ({
            let after = state.fail_all(failure);
            &&& decides(state, after, ticket, true, BarrierOutcome::Incomplete(failure))
            &&& after.open_round is None
            &&& forall|round: u64| !(#[trigger] after.rounds.contains_key(round))
            &&& keeps_members(state, after)
        }),
{
    lemma_resolved(
        state,
        state.awaiting(owner),
        BarrierOutcome::Incomplete(failure),
        ticket,
    );
    lemma_resolved(state, state.in_round(id), BarrierOutcome::Incomplete(failure), ticket);
    lemma_resolved(state, state.cuts.dom(), BarrierOutcome::Incomplete(failure), ticket);
    let after = state.fail_all(failure);
    assert forall|round: u64| !is_awaited(after, round) by {
        if is_awaited(after, round) {
            let t = choose|t: u64| #[trigger] waits(after, t) && after.cuts[t].round == round;
            assert(!after.cuts.contains_key(t));
        }
    }
}

/// A marker of an owner of a round is passed for every cut of the round, and
/// makes exact those that waited for it alone, once all owners had accepted the
/// request. Any other marker changes nothing.
pub proof fn law_marker_is_passed_in_its_round(
    state: BarrierView,
    owner: CacheOwner,
    id: u64,
    ticket: u64,
)
    ensures
        ({
            let after = state.marker(owner, id);
            let known = state.rounds.contains_key(id) && state.rounds[id].owners.contains_key(
                owner,
            );
            let cut = state.cuts[ticket];
            let concerned = known && waits(state, ticket) && cut.round == id;
            let last = forall|other: CacheOwner| #[trigger]
                cut.unmarked_owners.contains(other) ==> other == owner;
            let exact = concerned && last && !state.rounds[id].controls_pending;
            &&& !known ==> after == state
            &&& waits(after, ticket) <==> waits(state, ticket) && !exact
            &&& waits(after, ticket) && !concerned ==> after.cuts[ticket] == cut
            &&& waits(after, ticket) && concerned ==> after.cuts[ticket] == (CutView {
                unmarked_owners: cut.unmarked_owners.remove(owner),
                ..cut
            })
            &&& after.outcomes.contains_key(ticket) <==> state.outcomes.contains_key(ticket)
            &&& after.outcomes.contains_key(ticket) ==> after.outcomes[ticket] == if exact {
                BarrierOutcome::Exact
            } else {
                state.outcomes[ticket]
            }
            &&& known && !state.rounds[id].controls_pending ==> keeps_awaited_rounds(
                state,
                after,
            )
            &&& known && state.rounds[id].controls_pending ==> after.rounds == state.rounds
                && after.open_round == state.open_round
            &&& keeps_members(state, after)
        }),
{
    let known = state.rounds.contains_key(id) && state.rounds[id].owners.contains_key(owner);
    if known {
        let passed = state.pass_marker(owner, id);
        let cut = state.cuts[ticket];
        let last = forall|other: CacheOwner| #[trigger]
            cut.unmarked_owners.contains(other) ==> other == owner;
        assert(last <==> cut.unmarked_owners.remove(owner) == Set::<CacheOwner>::empty()) by {
            if last {
                assert(cut.unmarked_owners.remove(owner) =~= Set::<CacheOwner>::empty());
            } else {
                let other = choose|other: CacheOwner| #[trigger]
                    cut.unmarked_owners.contains(other) && other != owner;
                assert(cut.unmarked_owners.remove(owner).contains(other));
            }
        }
        let set = passed.marked(id);
        lemma_resolved(passed, set, BarrierOutcome::Exact, ticket);
        if waits(state, ticket) && cut.round == id {
            assert(passed.cuts[ticket].unmarked_owners == cut.unmarked_owners.remove(owner));
        }
    }
}

/// Once all owners have accepted a round's request, its cuts that no marker is
/// missing for are exact. No other round is touched.
pub proof fn law_answers_free_the_marked_cuts(state: BarrierView, id: u64, ticket: u64)
    ensures
        ({
            let after = state.controls_succeeded(id);
            let cut = state.cuts[ticket];
            let hit = waits(state, ticket) && cut.round == id && forall|owner: CacheOwner|
                !(#[trigger] cut.unmarked_owners.contains(owner));
            &&& !state.rounds.contains_key(id) ==> after == state
            &&& state.rounds.contains_key(id) ==> {
                &&& decides(state, after, ticket, hit, BarrierOutcome::Exact)
                &&& keeps_members(state, after)
                &&& forall|other: u64|
                    (#[trigger] after.rounds.contains_key(other)) <==> state.rounds.contains_key(
                        other,
                    ) && is_awaited(after, other)
                &&& forall|other: u64|
                    (#[trigger] after.rounds.contains_key(other)) ==> after.rounds[other]
                        == if other == id {
                        RoundView { controls_pending: false, ..state.rounds[id] }
                    } else {
                        state.rounds[other]
                    }
            }
        }),
{
    if state.rounds.contains_key(id) {
        let confirmed = BarrierView {
            rounds: state.rounds.insert(
                id,
                RoundView { controls_pending: false, ..state.rounds[id] },
            ),
            ..state
        };
        let cut = state.cuts[ticket];
        assert((forall|owner: CacheOwner| !(#[trigger] cut.unmarked_owners.contains(owner)))
            <==> cut.unmarked_owners == Set::<CacheOwner>::empty()) by {
            if forall|owner: CacheOwner| !(#[trigger] cut.unmarked_owners.contains(owner)) {
                assert(cut.unmarked_owners =~= Set::<CacheOwner>::empty());
            }
        }
        lemma_resolved(confirmed, state.marked(id), BarrierOutcome::Exact, ticket);
    }
}

/// A cut can be taken: there are owners, and none of them is unavailable under
/// the incarnation that it is expected under.
pub open spec fn can_cut(state: BarrierView) -> bool {
    &&& exists|owner: CacheOwner| #[trigger] state.owners.contains_key(owner)
    &&& forall|owner: CacheOwner|
        (#[trigger] state.owners.contains_key(owner)) ==> !(
        state.permanently_unavailable.contains_key(owner) && state.permanently_unavailable[owner]
            == state.owners[owner])
}

/// A request for a cut gets the next ticket. It is refused for want of a
/// capable owner, or of room; otherwise it waits, in the round that is open or
/// in a new one, for the markers of all owners of the round. All other tickets
/// are left alone.
pub proof fn law_cut_waits_for_all_owners(
    state: BarrierView,
    hashes: Set<u64>,
    now: u64,
    ticket: u64,
)
    requires
        state.inv(),
        state.ids_available(),
    ensures
        ({
            let after = state.begin(hashes, now);
            let mine = state.next_ticket;
            let refused = !can_cut(state) || state.cuts.dom().len() >= state.max_pending;
            &&& after.next_ticket == mine + 1
            &&& after.outcomes == state.outcomes.insert(
                mine,
                if !can_cut(state) {
                    BarrierOutcome::Incomplete(BarrierFailure::MissingCapability)
                } else if refused {
                    BarrierOutcome::Incomplete(BarrierFailure::JournalOverflow)
                } else {
                    BarrierOutcome::Pending
                },
            )
            &&& refused ==> after.cuts == state.cuts && after.rounds == state.rounds
                && after.open_round == state.open_round && after.next_id == state.next_id
            &&& !refused ==> {
                let id = if state.open_round is Some {
                    state.open_round->0
                } else {
                    state.next_id
                };
                &&& after.open_round == Some(id)
                &&& waits(after, mine)
                &&& after.cuts[mine].round == id
                &&& after.cuts[mine].relevant_hashes == hashes
                &&& after.cuts[mine].unmarked_owners == after.rounds[id].owners.dom()
                &&& ticket != mine ==> (waits(after, ticket) <==> waits(state, ticket)) && (waits(
                    state,
                    ticket,
                ) ==> after.cuts[ticket] == state.cuts[ticket])
                &&& state.open_round is Some ==> {
                    &&& after.next_id == state.next_id
                    &&& after.rounds == state.rounds.insert(
                        id,
                        RoundView { cuts: state.rounds[id].cuts + 1, ..state.rounds[id] },
                    )
                }
                &&& state.open_round is None ==> {
                    &&& after.rounds == state.rounds.insert(
                        id,
                        RoundView {
                            owners: state.owners,
                            controls_pending: true,
                            cuts: 1,
                            started_at: now,
                        },
                    )
                    &&& after.next_id != id || id == 1
                    &&& id < u64::MAX ==> after.next_id == id + 1
                    &&& id == u64::MAX ==> after.next_id == 1
                }
            }
            &&& state.opens() == if !refused && state.open_round is None {
                Some(state.next_id)
            } else {
                None
            }
            &&& after.owners == state.owners
            &&& after.serving_incarnations == state.serving_incarnations
            &&& after.permanently_unavailable == state.permanently_unavailable
            &&& after.max_pending == state.max_pending
        }),
{
    lemma_capable(state);
    let after = state.begin(hashes, now);
    let id = if state.open_round is Some {
        state.open_round->0
    } else {
        state.next_id
    };
    if state.is_capable() && state.pending() < state.max_pending && state.open_round is None {
        assert(after.rounds =~= state.rounds.insert(
            id,
            RoundView { owners: state.owners, controls_pending: true, cuts: 1, started_at: now },
        ));
    }
}

pub(crate) proof fn lemma_capable(state: BarrierView)
    ensures
        state.is_capable() <==> can_cut(state),
{
    let somebody = exists|owner: CacheOwner| #[trigger] state.owners.contains_key(owner);
    if somebody {
        let owner = choose|owner: CacheOwner| #[trigger] state.owners.contains_key(owner);
        assert(state.owners.dom().contains(owner));
    } else {
        assert(state.owners.dom() =~= Set::<CacheOwner>::empty());
    }
    if state.is_capable() {
        assert forall|owner: CacheOwner|
            (#[trigger] state.owners.contains_key(owner)) implies !(
        state.permanently_unavailable.contains_key(owner) && state.permanently_unavailable[owner]
            == state.owners[owner]) by {
            if state.permanently_unavailable.contains_key(owner) {
                assert(state.permanently_unavailable[owner] != state.owners[owner]);
            }
        }
    }
    if can_cut(state) {
        assert forall|owner: CacheOwner| #[trigger]
            state.permanently_unavailable.contains_key(owner) implies !(state.owners.contains_key(
            owner,
        ) && state.owners[owner] == state.permanently_unavailable[owner]) by {
            if state.owners.contains_key(owner) {
                assert(state.owners[owner] != state.permanently_unavailable[owner]);
            }
        }
    }
}

/// An owner that can emit no markers is remembered under its incarnation, and
/// voids the cuts that wait for it; under any other incarnation nothing
/// happens.
pub proof fn law_unavailable_owner_voids_its_cuts(
    state: BarrierView,
    owner: CacheOwner,
    incarnation: u64,
    ticket: u64,
)
    ensures
        ({
            let after = state.mark_permanently_unavailable(owner, incarnation);
            let current = state.owners.contains_key(owner) && state.owners[owner] == incarnation;
            let hit = waits(state, ticket) && state.cuts[ticket].unmarked_owners.contains(owner);
            &&& !current ==> after == state
            &&& current ==> {
                &&& after.permanently_unavailable == state.permanently_unavailable.insert(
                    owner,
                    incarnation,
                )
                &&& !can_cut(after)
                &&& decides(
                    state,
                    after,
                    ticket,
                    hit,
                    BarrierOutcome::Incomplete(BarrierFailure::PermanentlyUnavailable),
                )
                &&& keeps_awaited_rounds(state, after)
                &&& after.owners == state.owners
                &&& after.serving_incarnations == state.serving_incarnations
                &&& keeps_counters(state, after)
            }
        }),
{
    let current = state.owners.contains_key(owner) && state.owners[owner] == incarnation;
    if current {
        let marked = BarrierView {
            permanently_unavailable: state.permanently_unavailable.insert(owner, incarnation),
            ..state
        };
        lemma_resolved(
            marked,
            marked.awaiting(owner),
            BarrierOutcome::Incomplete(BarrierFailure::PermanentlyUnavailable),
            ticket,
        );
        let after = state.mark_permanently_unavailable(owner, incarnation);
        assert(after.owners.contains_key(owner));
        assert(after.permanently_unavailable.contains_key(owner));
    }
}

/// The same membership changes nothing. Another one is adopted as it is and
/// voids every waiting cut; an owner stays unavailable unless it is expected
/// under another incarnation.
pub proof fn law_membership_is_adopted(
    state: BarrierView,
    owners: Map<CacheOwner, u64>,
    serving: Map<CacheOwner, u64>,
    ticket: u64,
    owner: CacheOwner,
)
    ensures
        ({
            let after = state.set_owner_incarnations(owners, serving);
            let same = state.owners == owners && state.serving_incarnations == serving;
            &&& same ==> after == state
            &&& !same ==> {
                &&& after.owners == owners
                &&& after.serving_incarnations == serving
                &&& after.permanently_unavailable.contains_key(owner)
                    <==> state.permanently_unavailable.contains_key(owner) && (
                !owners.contains_key(owner) || owners[owner]
                    == state.permanently_unavailable[owner])
                &&& after.permanently_unavailable.contains_key(owner)
                    ==> after.permanently_unavailable[owner]
                    == state.permanently_unavailable[owner]
                &&& decides(
                    state,
                    after,
                    ticket,
                    true,
                    BarrierOutcome::Incomplete(BarrierFailure::MembershipChanged),
                )
                &&& after.open_round is None
                &&& forall|id: u64| !(#[trigger] after.rounds.contains_key(id))
                &&& keeps_counters(state, after)
            }
        }),
{
    law_failures_void_whom_they_concern(
        state,
        owner,
        0,
        BarrierFailure::MembershipChanged,
        ticket,
    );
}

/// Sending off a round's request closes it to further cuts and changes nothing
/// else; letting go of a ticket forgets its outcome alone.
pub proof fn law_dispatch_and_release_touch_nothing_else(
    state: BarrierView,
    id: u64,
    ticket: u64,
    other: u64,
)
    ensures
        ({
            let after = state.dispatch(id);
            &&& after.open_round == if state.open_round == Some(id) {
                None
            } else {
                state.open_round
            }
            &&& after.rounds == state.rounds
            &&& after.cuts == state.cuts
            &&& after.outcomes == state.outcomes
            &&& keeps_members(state, after)
        }),
        ({
            let after = state.release(ticket);
            &&& !after.outcomes.contains_key(ticket)
            &&& other != ticket ==> (after.outcomes.contains_key(other)
                <==> state.outcomes.contains_key(other)) && (state.outcomes.contains_key(other)
                ==> after.outcomes[other] == state.outcomes[other])
            &&& after.rounds == state.rounds
            &&& after.cuts == state.cuts
            &&& after.open_round == state.open_round
            &&& keeps_members(state, after)
        }),
{
}

/// A round's duration is told when nobody waits for it any more, and counts
/// from its start.
pub proof fn law_round_takes_from_its_start_to_its_end(
    before: BarrierView,
    after: BarrierView,
    id: u64,
    now: u64,
)
    ensures
        completion(before, after, id, now) is Some <==> before.rounds.contains_key(id)
            && !after.rounds.contains_key(id),
        completion(before, after, id, now) matches Some(taken) ==> if before.rounds[id].started_at
            <= now {
            before.rounds[id].started_at + taken == now
        } else {
            taken == 0
        },
{
}

/// A coordinator starts with nothing.
pub proof fn law_coordinator_starts_empty(max_pending: nat, first_id: u64)
    ensures
        ({
            let state = BarrierView::initial(max_pending, first_id);
            &&& state.max_pending == max_pending
            &&& state.next_id == first_id
            &&& state.open_round is None
            &&& !can_cut(state)
            &&& forall|ticket: u64| !(#[trigger] waits(state, ticket))
            &&& forall|ticket: u64| !(#[trigger] state.outcomes.contains_key(ticket))
            &&& forall|id: u64| !(#[trigger] state.rounds.contains_key(id))
        }),
{
}

} // verus!
