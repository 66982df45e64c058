//! When the history starts over, told from what the attempt has seen.

use vstd::prelude::*;

use crate::cold_epoch::{ColdEpochFailure, ColdEpochOutcome, ColdEpochOwnerFence};
use crate::cold_run::{
    evidence_decision, hex_text, release_decision, ColdEpochLabel, ColdEpochRun,
};
use crate::evidence::{BlockCopy, CacheOwner};
use crate::membership::MembershipView;
use crate::membership_laws::{all_can_be_cold, law_cold_epoch_takes_all_sources_or_none};
use crate::subscription_model::{history_fences, SubscriptionView};

verus! {

/// The owner is that of a source.
pub open spec fn is_member(view: MembershipView, owner: CacheOwner) -> bool {
    exists|i: int| 0 <= i < view.sources@.len() && (#[trigger] view.sources@[i]).owner == owner
}

/// The owner is fenced.
pub open spec fn is_fenced(fences: Seq<(CacheOwner, ColdEpochOwnerFence)>, owner: CacheOwner)
    -> bool {
    exists|i: int| 0 <= i < fences.len() && (#[trigger] fences[i]).0 == owner
}

/// Exactly the members have declared a catalog, and exactly they are expected.
pub open spec fn members_are_known(state: SubscriptionView, view: MembershipView) -> bool {
    &&& state.ledger.expected_owners is Some
    &&& forall|owner: CacheOwner|
        (#[trigger] state.catalogs.contains_key(owner)) <==> is_member(view, owner)
    &&& forall|owner: CacheOwner|
        (#[trigger] state.ledger.expected_owners->0.contains(owner)) <==> is_member(view, owner)
}

proof fn lemma_known(state: SubscriptionView, view: MembershipView)
    ensures
        state.epoch_catalogs_ready(view) <==> members_are_known(state, view),
{
    let owners = crate::membership::member_owners(view.sources@);
    assert forall|owner: CacheOwner| owners.to_set().contains(owner) == is_member(view, owner) by {
        if owners.contains(owner) {
            let i = choose|i: int| 0 <= i < owners.len() && owners[i] == owner;
            assert(view.sources@[i].owner == owner);
        }
        if is_member(view, owner) {
            let i = choose|i: int|
                0 <= i < view.sources@.len() && (#[trigger] view.sources@[i]).owner == owner;
            assert(owners[i] == owner);
        }
    }
    if members_are_known(state, view) {
        assert forall|owner: CacheOwner| state.catalogs.dom().contains(owner)
            == owners.to_set().contains(owner) by {
            assert(state.catalogs.contains_key(owner) <==> is_member(view, owner));
        }
        assert(state.catalogs.dom() =~= owners.to_set());
        assert(state.ledger.expected_owners->0 =~= owners.to_set());
    }
    if state.epoch_catalogs_ready(view) {
        assert forall|owner: CacheOwner|
            (#[trigger] state.catalogs.contains_key(owner)) <==> is_member(view, owner) by {
            assert(state.catalogs.dom().contains(owner) == owners.to_set().contains(owner));
        }
    }
}

/// An epoch can be prepared exactly if there are members, all of them can take
/// part, and exactly they have declared their catalogs and are expected.
pub proof fn law_epoch_needs_all_members(state: SubscriptionView, view: MembershipView)
    ensures
        state.epoch_ready(view) <==> view.sources@.len() > 0 && all_can_be_cold(view.sources@)
            && members_are_known(state, view),
{
    law_cold_epoch_takes_all_sources_or_none(view.sources@);
    lemma_known(state, view);
}

/// An epoch is fenced unless the members are no longer those it was prepared
/// with, some of them are not known, or another one is under way; the first of
/// these is the reason told.
pub proof fn law_fence_is_refused_for_a_reason(
    state: SubscriptionView,
    view: MembershipView,
    prepared: Map<CacheOwner, ColdEpochOwnerFence>,
)
    ensures
        ({
            let changed = history_fences(view.sources@) != Some(prepared);
            let refusal = state.fence_refusal(view, prepared);
            &&& refusal == Some(ColdEpochLabel::Membership) <==> changed
            &&& refusal == Some(ColdEpochLabel::Catalog) <==> !changed && !members_are_known(
                state,
                view,
            )
            &&& refusal == Some(ColdEpochLabel::Init) <==> !changed && members_are_known(
                state,
                view,
            ) && state.cold_epoch.active is Some
            &&& refusal is None <==> !changed && members_are_known(state, view)
                && state.cold_epoch.active is None
        }),
{
    lemma_known(state, view);
}

/// Nothing is announced or held on a fenced owner.
pub open spec fn fenced_are_empty(
    state: SubscriptionView,
    fences: Seq<(CacheOwner, ColdEpochOwnerFence)>,
) -> bool {
    &&& forall|key: BlockCopy|
        (#[trigger] state.ledger.copies.contains_key(key)) ==> !is_fenced(fences, key.copy.owner)
    &&& forall|key: BlockCopy|
        (#[trigger] state.ledger.external_copies.contains_key(key)) ==> !is_fenced(
            fences,
            key.copy.owner,
        )
}

/// Exactly the fenced owners are expected.
pub open spec fn expects_the_fenced(
    state: SubscriptionView,
    fences: Seq<(CacheOwner, ColdEpochOwnerFence)>,
) -> bool {
    &&& state.ledger.expected_owners is Some
    &&& forall|owner: CacheOwner|
        (#[trigger] state.ledger.expected_owners->0.contains(owner)) <==> is_fenced(fences, owner)
}

/// The history starts over exactly if all owners had started the epoch, its
/// evidence is in, the members, their catalogs and those expected are as they
/// were fenced, every group is declared, and no owner has anything announced
/// or held. It then is empty and complete, under the next epoch; in any other
/// case it stays as it was, and is no longer complete.
pub proof fn law_history_starts_over_on_cold_owners(
    state: SubscriptionView,
    run: ColdEpochRun,
    view: MembershipView,
    reported: Option<ColdEpochOutcome>,
)
    ensures
        ({
            let (after, committed, label) = evidence_decision(state, run, view, reported);
            let fences = run.fenced();
            &&& committed <==> {
                &&& run.has_begun()
                &&& reported == Some(ColdEpochOutcome::EvidenceReady)
                &&& history_fences(view.sources@) == Some(crate::owner_map::pairs_map(fences))
                &&& state.catalogs == run.declared()
                &&& expects_the_fenced(state, fences)
                &&& state.ledger.physical_scope_complete
                &&& fenced_are_empty(state, fences)
            }
            &&& committed ==> {
                &&& label is None
                &&& after.ledger.history_complete
                &&& forall|hash: u64| !(#[trigger] after.ledger.seen_blocks.contains(hash))
                &&& state.ledger.history_epoch < u64::MAX ==> after.ledger.history_epoch
                    == state.ledger.history_epoch + 1
                &&& after.cold_epoch == state.cold_epoch
            }
            &&& !committed ==> {
                &&& !after.ledger.history_complete
                &&& after.ledger.history_epoch == state.ledger.history_epoch
                &&& after.ledger.seen_blocks == state.ledger.seen_blocks
            }
            &&& after.ledger.copies == state.ledger.copies
            &&& after.ledger.external_copies == state.ledger.external_copies
            &&& after.ledger.expected_owners == state.ledger.expected_owners
            &&& after.catalogs == state.catalogs
            &&& after.freshness == state.freshness
            &&& after.sequences == state.sequences
            &&& after.barriers == state.barriers
        }),
{
    let fences = run.fenced();
    let owners = crate::cold_run::listed_owners(fences);
    lemma_listed(fences);
    if expects_the_fenced(state, fences) {
        assert(state.ledger.expected_owners->0 =~= owners.to_set());
    }
    assert(fenced_are_empty(state, fences) <==> {
        &&& forall|key: BlockCopy|
            (#[trigger] state.ledger.copies.contains_key(key)) ==> !owners.to_set().contains(
                key.copy.owner,
            )
        &&& forall|key: BlockCopy|
            (#[trigger] state.ledger.external_copies.contains_key(key))
                ==> !owners.to_set().contains(key.copy.owner)
    });
    crate::evidence_laws::law_commit_needs_empty_owners(state.ledger, owners.to_set());
}

proof fn lemma_listed(fences: Seq<(CacheOwner, ColdEpochOwnerFence)>)
    ensures
        forall|owner: CacheOwner| #[trigger]
            crate::cold_run::listed_owners(fences).to_set().contains(owner) == is_fenced(
                fences,
                owner,
            ),
{
    let owners = crate::cold_run::listed_owners(fences);
    assert forall|owner: CacheOwner| #[trigger] owners.to_set().contains(owner) == is_fenced(
        fences,
        owner,
    ) by {
        if owners.contains(owner) {
            let i = choose|i: int| 0 <= i < owners.len() && owners[i] == owner;
            assert(fences[i].0 == owner);
        }
        if is_fenced(fences, owner) {
            let i = choose|i: int| 0 <= i < fences.len() && (#[trigger] fences[i]).0 == owner;
            assert(owners[i] == owner);
        }
    }
}

/// An attempt that comes to nothing is counted by its cause: evidence that
/// failed by that failure, a changed membership or catalog by itself, and owners
/// that were not empty as such. Evidence that never came is counted only at the
/// end.
pub proof fn law_failed_attempt_is_counted_by_its_cause(
    state: SubscriptionView,
    run: ColdEpochRun,
    view: MembershipView,
    reported: Option<ColdEpochOutcome>,
)
    ensures
        ({
            let (after, committed, label) = evidence_decision(state, run, view, reported);
            let ready = run.has_begun() && reported == Some(ColdEpochOutcome::EvidenceReady);
            let same = history_fences(view.sources@) == Some(
                crate::owner_map::pairs_map(run.fenced()),
            ) && state.catalogs == run.declared() && expects_the_fenced(state, run.fenced());
            &&& !run.has_begun() ==> label is None
            &&& run.has_begun() ==> (reported matches Some(ColdEpochOutcome::Incomplete(failure))
                ==> label == Some(
                match failure {
                    ColdEpochFailure::MembershipChanged => ColdEpochLabel::Membership,
                    ColdEpochFailure::CatalogChanged => ColdEpochLabel::Catalog,
                    ColdEpochFailure::Cancelled => ColdEpochLabel::Cancelled,
                    _ => ColdEpochLabel::Evidence,
                },
            ))
            &&& run.has_begun() && reported is None ==> label is None
            &&& run.has_begun() && reported == Some(ColdEpochOutcome::Pending) ==> label is None
            &&& ready && !same ==> label == Some(ColdEpochLabel::Snapshot)
            &&& ready && same && !committed ==> label == Some(
                ColdEpochLabel::ResidualPhysicalState,
            )
        }),
{
    lemma_listed(run.fenced());
    let owners = crate::cold_run::listed_owners(run.fenced());
    if expects_the_fenced(state, run.fenced()) {
        assert(state.ledger.expected_owners->0 =~= owners.to_set());
    }
}

/// At the end the epoch is over. A committed epoch whose owners all went on is
/// a success and leaves the history as it is; any other leaves it incomplete.
pub proof fn law_end_of_an_epoch(state: SubscriptionView, run: ColdEpochRun, released: bool)
    ensures
        ({
            let (after, label) = release_decision(state, run, released);
            &&& state.cold_epoch.active is Some && state.cold_epoch.active->0.epoch_id == run.id()
                ==> after.cold_epoch.active is None
            &&& after.cold_epoch.outcome == state.cold_epoch.outcome
            &&& run.has_committed() && released ==> after.ledger == state.ledger && label == Some(
                ColdEpochLabel::Success,
            )
            &&& !(run.has_committed() && released) ==> {
                &&& !after.ledger.history_complete
                &&& after.ledger.seen_blocks == state.ledger.seen_blocks
                &&& after.ledger.history_epoch == state.ledger.history_epoch
                &&& after.ledger.copies == state.ledger.copies
            }
            &&& !released ==> label == Some(ColdEpochLabel::Release)
            &&& released && !run.has_committed() ==> label == if run.has_begun() && run.heard()
                is None {
                Some(ColdEpochLabel::Evidence)
            } else {
                None
            }
            &&& after.catalogs == state.catalogs
            &&& after.freshness == state.freshness
            &&& after.sequences == state.sequences
            &&& after.barriers == state.barriers
        }),
{
}

// ---- epoch ids ----

/// The value of a lower-case hexadecimal digit.
pub open spec fn digit_value(digit: char) -> int {
    if '0' <= digit <= '9' {
        digit as int - '0' as int
    } else {
        digit as int - 'a' as int + 10
    }
}

pub open spec fn is_hex_digit(digit: char) -> bool {
    '0' <= digit <= '9' || 'a' <= digit <= 'f'
}

/// The number that hexadecimal digits write.
pub open spec fn hex_value(text: Seq<char>) -> int
    decreases text.len(),
{
    if text.len() == 0 {
        0
    } else {
        16 * hex_value(text.drop_last()) + digit_value(text.last())
    }
}

/// Sixteen to the power of a width.
pub open spec fn hex_bound(width: nat) -> int
    decreases width,
{
    if width == 0 {
        1
    } else {
        16 * hex_bound((width - 1) as nat)
    }
}

/// The id of an epoch is as wide as asked for, made of hexadecimal digits, and
/// read back it is the number that it was made of, as far as that fits.
pub proof fn law_epoch_id_reads_back(number: nat, width: nat)
    ensures
        hex_text(number, width).len() == width,
        forall|i: int|
            0 <= i < width ==> is_hex_digit(#[trigger] hex_text(number, width)[i]),
        number < hex_bound(width) ==> hex_value(hex_text(number, width)) == number,
    decreases width,
{
    if width > 0 {
        let rest = (width - 1) as nat;
        law_epoch_id_reads_back(number / 16, rest);
        let text = hex_text(number, width);
        let last = crate::cold_run::hex_digit((number % 16) as int);
        lemma_digit((number % 16) as int);
        assert(text.drop_last() =~= hex_text(number / 16, rest));
        assert(text.last() == last[0]);
        assert forall|i: int| 0 <= i < width implies is_hex_digit(#[trigger] text[i]) by {
            if i < rest {
                assert(text[i] == hex_text(number / 16, rest)[i]);
            }
        }
    }
}

proof fn lemma_digit(value: int)
    requires
        0 <= value < 16,
    ensures
        crate::cold_run::hex_digit(value).len() == 1,
        is_hex_digit(crate::cold_run::hex_digit(value)[0]),
        digit_value(crate::cold_run::hex_digit(value)[0]) == value,
{
    reveal_strlit("0");
    reveal_strlit("1");
    reveal_strlit("2");
    reveal_strlit("3");
    reveal_strlit("4");
    reveal_strlit("5");
    reveal_strlit("6");
    reveal_strlit("7");
    reveal_strlit("8");
    reveal_strlit("9");
    reveal_strlit("a");
    reveal_strlit("b");
    reveal_strlit("c");
    reveal_strlit("d");
    reveal_strlit("e");
    reveal_strlit("f");
}

} // verus!
