//! When evidence is fresh and in order, told from watermarks and cursors.

use vstd::prelude::*;

use crate::evidence::CacheOwner;
use crate::freshness::{EvidenceFreshnessStatus, EvidenceWatermark, FreshnessView};
use crate::sequence::{
    watermark_observation, EvidenceSequenceObservation, EvidenceWatermarkObservation,
    OwnerPublisher, SequenceView,
};

verus! {

// ---- freshness ----

/// The owner has said, under the incarnation that is expected of it, how far
/// its evidence has come.
pub open spec fn has_watermark(state: FreshnessView, owner: CacheOwner) -> bool {
    state.watermarks.contains_key(owner) && state.expected.contains_key(owner)
        && state.expected[owner] == Some(state.watermarks[owner].incarnation_id)
}

/// The owner's last watermark came no longer ago than is allowed.
pub open spec fn is_recent(state: FreshnessView, owner: CacheOwner, now: u64) -> bool {
    now - state.watermarks[owner].received_at <= state.max_age
}

/// Evidence is fresh exactly if somebody is expected and everybody who is has
/// a recent watermark; it is missing if somebody has none at all, and stale
/// otherwise.
pub proof fn law_fresh_evidence_has_recent_watermarks(state: FreshnessView, now: u64)
    ensures
        ({
            let somebody = exists|owner: CacheOwner| #[trigger] state.expected.contains_key(owner);
            let all_marked = forall|owner: CacheOwner| #[trigger]
                state.expected.contains_key(owner) ==> has_watermark(state, owner);
            let all_recent = forall|owner: CacheOwner| #[trigger]
                state.expected.contains_key(owner) ==> is_recent(state, owner, now);
            &&& state.status(now) == EvidenceFreshnessStatus::Missing <==> !(somebody
                && all_marked)
            &&& state.status(now) == EvidenceFreshnessStatus::BoundedFresh <==> somebody
                && all_marked && all_recent
            &&& state.status(now) == EvidenceFreshnessStatus::Stale <==> somebody && all_marked
                && !all_recent
        }),
{
    let somebody = exists|owner: CacheOwner| #[trigger] state.expected.contains_key(owner);
    assert(somebody <==> state.expected.dom() != Set::<CacheOwner>::empty()) by {
        if !somebody {
            assert(state.expected.dom() =~= Set::<CacheOwner>::empty());
        } else {
            let owner = choose|owner: CacheOwner| #[trigger] state.expected.contains_key(owner);
            assert(state.expected.dom().contains(owner));
        }
    }
    assert forall|owner: CacheOwner| #[trigger]
        state.expected.contains_key(owner) implies state.covered(owner) == has_watermark(
        state,
        owner,
    ) && (state.covered(owner) ==> state.is_fresh(owner, now) == is_recent(
        state,
        owner,
        now,
    )) by {}
    if exists|owner: CacheOwner| #[trigger]
        state.expected.contains_key(owner) && state.expected[owner] is None {
        let owner = choose|owner: CacheOwner| #[trigger]
            state.expected.contains_key(owner) && state.expected[owner] is None;
        assert(!has_watermark(state, owner));
    }
}

/// A watermark of an expected incarnation is the owner's last one from then
/// on; any other changes nothing.
pub proof fn law_watermark_is_taken_if_expected(
    state: FreshnessView,
    owner: CacheOwner,
    incarnation_id: u64,
    now: u64,
)
    ensures
        ({
            let after = state.observe(owner, incarnation_id, now);
            let expected = state.expected.contains_key(owner) && state.expected[owner] == Some(
                incarnation_id,
            );
            &&& !expected ==> after == state
            &&& expected ==> {
                &&& after.expected == state.expected
                &&& after.max_age == state.max_age
                &&& after.watermarks == state.watermarks.insert(
                    owner,
                    EvidenceWatermark { incarnation_id, received_at: now },
                )
            }
        }),
{
}

/// A new membership keeps the watermarks of the incarnations that it expects
/// and forgets all others. Changed are those who were expected otherwise.
pub proof fn law_membership_keeps_matching_watermarks(
    state: FreshnessView,
    expected: Map<CacheOwner, Option<u64>>,
    owner: CacheOwner,
)
    ensures
        ({
            let after = state.set_expected(expected);
            &&& after.expected == expected
            &&& after.max_age == state.max_age
            &&& after.watermarks.contains_key(owner) <==> state.watermarks.contains_key(owner)
                && expected.contains_key(owner) && expected[owner] == Some(
                state.watermarks[owner].incarnation_id,
            )
            &&& after.watermarks.contains_key(owner) ==> after.watermarks[owner]
                == state.watermarks[owner]
            &&& state.changed(expected).contains(owner) <==> state.expected.contains_key(owner) && (
            !expected.contains_key(owner) || expected[owner] != state.expected[owner])
        }),
{
}

/// Fresh owners are those expected with a recent watermark, if everybody who
/// is expected has an incarnation. The oldest age is the time since the
/// earliest of the last watermarks.
pub proof fn law_fresh_owners_are_counted(
    state: FreshnessView,
    owner: CacheOwner,
    now: u64,
    age: u64,
)
    ensures
        state.fresh_owners(now).contains(owner) <==> state.expected.contains_key(owner)
            && has_watermark(state, owner) && is_recent(state, owner, now) && forall|
            other: CacheOwner,
        | #[trigger]
            state.expected.contains_key(other) ==> state.expected[other] is Some,
        state.is_oldest_age(now, age) && state.expected.contains_key(owner) ==> now
            - state.watermarks[owner].received_at <= age,
        state.is_oldest_age(now, age) && age > 0 ==> exists|other: CacheOwner| #[trigger]
            state.expected.contains_key(other) && now - state.watermarks[other].received_at == age,
{
    if state.expected.contains_key(owner) {
        assert(state.expected.dom().contains(owner));
    }
    if state.is_oldest_age(now, age) && age > 0 {
        let other = choose|other: CacheOwner| #[trigger]
            state.expected.contains_key(other) && state.age(other, now) == age;
        assert(now - state.watermarks[other].received_at == age);
    }
}

// ---- sequence ----

/// Where a batch stands: stale if its publisher was retired for the owner or
/// has published its cursor before; a restart if another publisher spoke for
/// the owner; contiguous if it is the next of its publisher, or the first at
/// the start or where any start will do; and otherwise behind a gap.
pub proof fn law_cursors_tell_the_order(
    state: SequenceView,
    owner: CacheOwner,
    publisher_id: u64,
    source_cursor: u64,
    baseline: bool,
)
    ensures
        ({
            let seen = state.observation(owner, publisher_id, source_cursor, baseline);
            let fenced = state.retired.contains(OwnerPublisher { owner, publisher_id });
            let known = state.publishers.contains_key(publisher_id);
            let last = state.publishers[publisher_id];
            let replaced = state.owner_publishers.contains_key(owner)
                && state.owner_publishers[owner] != publisher_id;
            let stale = fenced || (known && source_cursor <= last);
            let next = if known {
                source_cursor == last + 1
            } else {
                source_cursor == 0 || baseline
            };
            &&& seen == EvidenceSequenceObservation::Stale <==> stale
            &&& seen == EvidenceSequenceObservation::PublisherRestart <==> !stale && replaced
            &&& seen == EvidenceSequenceObservation::Contiguous <==> !stale && !replaced && next
            &&& seen == EvidenceSequenceObservation::Gap <==> !stale && !replaced && !next
        }),
{
}

/// A batch that is not stale moves its publisher on to its cursor and makes it
/// speak for the owner; a publisher that spoke before is retired for it.
pub proof fn law_accepted_batch_moves_the_publisher_on(
    state: SequenceView,
    owner: CacheOwner,
    publisher_id: u64,
    source_cursor: u64,
    baseline: bool,
)
    ensures
        ({
            let after = state.observe(owner, publisher_id, source_cursor, baseline);
            let stale = state.retired.contains(OwnerPublisher { owner, publisher_id }) || (
            state.publishers.contains_key(publisher_id) && source_cursor
                <= state.publishers[publisher_id]);
            let replaced = state.owner_publishers.contains_key(owner)
                && state.owner_publishers[owner] != publisher_id;
            &&& stale ==> after == state
            &&& !stale ==> {
                &&& after.publishers == state.publishers.insert(publisher_id, source_cursor)
                &&& after.owner_publishers == state.owner_publishers.insert(owner, publisher_id)
                &&& replaced ==> after.retired == state.retired.insert(
                    OwnerPublisher { owner, publisher_id: state.owner_publishers[owner] },
                )
                &&& !replaced ==> after.retired == state.retired
            }
        }),
{
}

/// Retiring an owner takes its publisher away for good and leaves all others.
pub proof fn law_retiring_takes_the_publisher_away(state: SequenceView, owner: CacheOwner)
    ensures
        ({
            let after = state.retire(owner);
            &&& after.publishers == state.publishers
            &&& !after.owner_publishers.contains_key(owner)
            &&& forall|other: CacheOwner|
                other != owner ==> ((#[trigger] after.owner_publishers.contains_key(other))
                    <==> state.owner_publishers.contains_key(other)) && (
                state.owner_publishers.contains_key(other) ==> after.owner_publishers[other]
                    == state.owner_publishers[other])
            &&& forall|fenced: OwnerPublisher|
                (#[trigger] after.retired.contains(fenced)) <==> state.retired.contains(fenced) || (
                fenced.owner == owner && state.owner_publishers.contains_key(owner)
                    && fenced.publisher_id == state.owner_publishers[owner])
        }),
{
}

/// A watermark is current if it names the last cursor that was applied, stale
/// if it names an earlier one, and ahead if it names one that was not.
pub proof fn law_watermark_is_compared_to_what_was_applied(
    applied: Option<u64>,
    watermark: Option<u64>,
)
    ensures
        watermark_observation(applied, watermark) == EvidenceWatermarkObservation::Current
            <==> applied == watermark,
        watermark_observation(applied, watermark) == EvidenceWatermarkObservation::Stale
            <==> applied is Some && watermark is Some && watermark->0 < applied->0,
{
}

} // verus!
