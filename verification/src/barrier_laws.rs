//! What holds of every cut, whatever the coordinator is told.

use vstd::prelude::*;

use crate::barrier::{BarrierFailure, BarrierOutcome, BarrierView};
use crate::control::{answered, covers_round, first_refusal, has_succeeded, ControlResult};
use crate::evidence::CacheOwner;

verus! {

/// A held ticket that has an outcome keeps it.
pub open spec fn keeps_outcomes(before: BarrierView, after: BarrierView) -> bool {
    forall|ticket: u64| #[trigger]
        before.outcomes.contains_key(ticket) && before.outcomes[ticket] != BarrierOutcome::Pending
            && after.outcomes.contains_key(ticket) ==> after.outcomes[ticket]
            == before.outcomes[ticket]
}

/// No waiting cut becomes exact.
pub open spec fn proves_nothing(before: BarrierView, after: BarrierView) -> bool {
    forall|ticket: u64| #[trigger]
        before.outcomes.contains_key(ticket) && before.outcomes[ticket] == BarrierOutcome::Pending
            && after.outcomes.contains_key(ticket) ==> after.outcomes[ticket]
            != BarrierOutcome::Exact
}

/// A round that still waits for its owners' answers goes on waiting, for the
/// same owners.
pub open spec fn keeps_controls(before: BarrierView, after: BarrierView) -> bool {
    forall|id: u64| #[trigger]
        after.rounds.contains_key(id) && before.rounds.contains_key(id) ==> {
            &&& after.rounds[id].owners == before.rounds[id].owners
            &&& after.rounds[id].controls_pending == before.rounds[id].controls_pending
        }
}

/// An outcome, once reported, never changes: not by markers, controls or
/// events, nor by new cuts or another membership.
pub proof fn law_outcomes_are_final(
    state: BarrierView,
    owner: CacheOwner,
    id: u64,
    hashes: Set<u64>,
    clear: bool,
    failure: BarrierFailure,
    owners: Map<CacheOwner, u64>,
    serving: Map<CacheOwner, u64>,
    now: u64,
    ticket: u64,
)
    requires
        state.inv(),
    ensures
        keeps_outcomes(state, state.marker(owner, id)),
        keeps_outcomes(state, state.controls_succeeded(id)),
        keeps_outcomes(state, state.mutation(owner, hashes, clear)),
        keeps_outcomes(state, state.fail_owner(owner, failure)),
        keeps_outcomes(state, state.fail_round(id, failure)),
        keeps_outcomes(state, state.fail_all(failure)),
        keeps_outcomes(state, state.mark_permanently_unavailable(owner, id)),
        keeps_outcomes(state, state.set_owner_incarnations(owners, serving)),
        keeps_outcomes(state, state.dispatch(id)),
        keeps_outcomes(state, state.release(ticket)),
        state.ids_available() ==> keeps_outcomes(state, state.begin(hashes, now)),
{
}

/// Only markers and controls can make a cut exact.
pub proof fn law_failures_never_make_a_cut_exact(
    state: BarrierView,
    owner: CacheOwner,
    id: u64,
    hashes: Set<u64>,
    clear: bool,
    failure: BarrierFailure,
    owners: Map<CacheOwner, u64>,
    serving: Map<CacheOwner, u64>,
)
    requires
        state.inv(),
    ensures
        proves_nothing(state, state.mutation(owner, hashes, clear)),
        proves_nothing(state, state.fail_owner(owner, failure)),
        proves_nothing(state, state.fail_round(id, failure)),
        proves_nothing(state, state.fail_all(failure)),
        proves_nothing(state, state.mark_permanently_unavailable(owner, id)),
        proves_nothing(state, state.set_owner_incarnations(owners, serving)),
{
}

/// A marker makes a cut exact only if it was the last one missing and all
/// owners had accepted the request for markers.
pub proof fn law_exact_needs_every_marker(
    state: BarrierView,
    owner: CacheOwner,
    id: u64,
    ticket: u64,
)
    requires
        state.inv(),
        state.outcomes.contains_key(ticket),
        state.outcomes[ticket] == BarrierOutcome::Pending,
        state.marker(owner, id).outcomes[ticket] == BarrierOutcome::Exact,
    ensures
        state.cuts.contains_key(ticket),
        state.cuts[ticket].round == id,
        state.cuts[ticket].unmarked_owners == set![owner],
        !state.rounds[id].controls_pending,
{
    let passed = state.pass_marker(owner, id);
    assert(state.cuts.contains_key(ticket));
    assert(passed.marked(id).contains(ticket));
    assert(passed.cuts[ticket].unmarked_owners == Set::<CacheOwner>::empty());
    assert(state.cuts[ticket].unmarked_owners.remove(owner) == Set::<CacheOwner>::empty());
    assert forall|o: CacheOwner| state.cuts[ticket].unmarked_owners.contains(o) implies o
        == owner by {
        if o != owner {
            assert(state.cuts[ticket].unmarked_owners.remove(owner).contains(o));
        }
    }
    if !state.cuts[ticket].unmarked_owners.contains(owner) {
        assert(state.cuts[ticket].unmarked_owners =~= Set::<CacheOwner>::empty());
    }
    assert(state.cuts[ticket].unmarked_owners =~= set![owner]);
}

/// Controls make a cut exact only if no marker is missing.
pub proof fn law_exact_needs_controls(state: BarrierView, id: u64, ticket: u64)
    requires
        state.inv(),
        state.outcomes.contains_key(ticket),
        state.outcomes[ticket] == BarrierOutcome::Pending,
        state.controls_succeeded(id).outcomes[ticket] == BarrierOutcome::Exact,
    ensures
        state.cuts.contains_key(ticket),
        state.cuts[ticket].round == id,
        state.cuts[ticket].unmarked_owners == Set::<CacheOwner>::empty(),
{
}

proof fn lemma_no_refusal(results: Seq<ControlResult>, from: int)
    requires
        0 <= from,
        first_refusal(results, from) is None,
    ensures
        forall|i: int| from <= i < results.len() ==> (#[trigger] results[i]).succeeded(),
    decreases results.len() - from,
{
    if from < results.len() {
        lemma_no_refusal(results, from + 1);
    }
}

/// The owners' answers make a cut exact only if every owner of its round has
/// accepted the request and its marker has come; and they end the wait for
/// answers only if every owner has accepted.
pub proof fn law_exact_needs_every_owner(
    state: BarrierView,
    id: u64,
    results: Seq<ControlResult>,
    ticket: u64,
)
    requires
        state.inv(),
        covers_round(state, id, results),
    ensures
        state.outcomes.contains_key(ticket) && state.outcomes[ticket] == BarrierOutcome::Pending
            && answered(state, id, results).outcomes[ticket] == BarrierOutcome::Exact ==> {
            &&& state.cuts.contains_key(ticket)
            &&& state.cuts[ticket].round == id
            &&& state.cuts[ticket].unmarked_owners == Set::<CacheOwner>::empty()
            &&& forall|owner: CacheOwner| #[trigger]
                state.rounds[id].owners.contains_key(owner) ==> has_succeeded(results, owner)
        },
        forall|round: u64| #[trigger]
            answered(state, id, results).rounds.contains_key(round)
                && state.rounds[round].controls_pending && !answered(
                state,
                id,
                results,
            ).rounds[round].controls_pending ==> round == id && forall|owner: CacheOwner|
             #[trigger]
                state.rounds[id].owners.contains_key(owner) ==> has_succeeded(results, owner),
{
    if first_refusal(results, 0) is None {
        lemma_no_refusal(results, 0);
    }
}

/// Nothing but the owners' answers ends a round's wait for them.
pub proof fn law_only_answers_settle_controls(
    state: BarrierView,
    owner: CacheOwner,
    id: u64,
    hashes: Set<u64>,
    clear: bool,
    failure: BarrierFailure,
    owners: Map<CacheOwner, u64>,
    serving: Map<CacheOwner, u64>,
    now: u64,
    ticket: u64,
)
    requires
        state.inv(),
    ensures
        keeps_controls(state, state.marker(owner, id)),
        keeps_controls(state, state.mutation(owner, hashes, clear)),
        keeps_controls(state, state.fail_owner(owner, failure)),
        keeps_controls(state, state.fail_round(id, failure)),
        keeps_controls(state, state.fail_all(failure)),
        keeps_controls(state, state.mark_permanently_unavailable(owner, id)),
        keeps_controls(state, state.set_owner_incarnations(owners, serving)),
        keeps_controls(state, state.dispatch(id)),
        keeps_controls(state, state.release(ticket)),
        state.ids_available() ==> keeps_controls(state, state.begin(hashes, now)),
{
}

/// Once all controls are in, the last missing marker makes the cut exact.
pub proof fn law_last_marker_completes_the_cut(
    state: BarrierView,
    owner: CacheOwner,
    id: u64,
    ticket: u64,
)
    requires
        state.inv(),
        state.cuts.contains_key(ticket),
        state.outcomes.contains_key(ticket),
        state.cuts[ticket].round == id,
        state.cuts[ticket].unmarked_owners == set![owner],
        !state.rounds[id].controls_pending,
    ensures
        state.marker(owner, id).outcomes[ticket] == BarrierOutcome::Exact,
{
    let passed = state.pass_marker(owner, id);
    assert(passed.cuts[ticket].unmarked_owners =~= Set::<CacheOwner>::empty());
    assert(passed.marked(id).contains(ticket));
}

/// After an owner's marker its events no longer touch the cut; before it,
/// any clear and any event on a relevant block voids the cut.
pub proof fn law_only_earlier_events_void_a_cut(
    state: BarrierView,
    owner: CacheOwner,
    hashes: Set<u64>,
    clear: bool,
    ticket: u64,
)
    requires
        state.inv(),
        state.cuts.contains_key(ticket),
        state.outcomes.contains_key(ticket),
    ensures
        ({
            let after = state.mutation(owner, hashes, clear);
            if state.cuts[ticket].unmarked_owners.contains(owner) && (clear
                || !state.cuts[ticket].relevant_hashes.disjoint(hashes)) {
                after.outcomes[ticket] == BarrierOutcome::Incomplete(
                    if clear {
                        BarrierFailure::Clear
                    } else {
                        BarrierFailure::RelevantMutation
                    },
                )
            } else {
                after.outcomes[ticket] == BarrierOutcome::Pending && after.cuts[ticket]
                    == state.cuts[ticket]
            }
        }),
{
}

/// A change of membership voids every waiting cut.
pub proof fn law_membership_change_voids_every_cut(
    state: BarrierView,
    owners: Map<CacheOwner, u64>,
    serving: Map<CacheOwner, u64>,
    ticket: u64,
)
    requires
        state.inv(),
        state.owners != owners || state.serving_incarnations != serving,
        state.cuts.contains_key(ticket),
        state.outcomes.contains_key(ticket),
    ensures
        state.set_owner_incarnations(owners, serving).outcomes[ticket]
            == BarrierOutcome::Incomplete(BarrierFailure::MembershipChanged),
        state.set_owner_incarnations(owners, serving).pending() == 0,
{
    let after = state.set_owner_incarnations(owners, serving);
    assert(after.cuts.dom() =~= Set::<u64>::empty());
}

/// An owner that is permanently unavailable keeps every cut from starting
/// until its incarnation changes.
pub proof fn law_unavailable_owner_blocks_cuts(
    state: BarrierView,
    owner: CacheOwner,
    incarnation: u64,
    hashes: Set<u64>,
    now: u64,
)
    requires
        state.inv(),
        state.owners.contains_key(owner),
        state.owners[owner] == incarnation,
        state.ids_available(),
    ensures
        ({
            let after = state.mark_permanently_unavailable(owner, incarnation);
            &&& after.opens() is None
            &&& after.begin(hashes, now).outcomes[after.next_ticket] == BarrierOutcome::Incomplete(
                BarrierFailure::MissingCapability,
            )
        }),
{
    let after = state.mark_permanently_unavailable(owner, incarnation);
    assert(after.permanently_unavailable.contains_key(owner));
    assert(!after.is_capable());
}

} // verus!
