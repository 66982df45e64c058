//! Requests for markers and the workers' replies.

use vstd::prelude::*;

use crate::barrier::{completion, BarrierCoordinator, BarrierFailure, BarrierView};
use crate::cold_epoch::TierSet;
use crate::evidence::CacheOwner;
use crate::metrics::EvidenceMetric;
use crate::owner_map::lists_pairs;
use crate::text::same_text;

verus! {

/// What a control reply carries, as far as anything reads it. A field that is
/// absent, or not of its type, is `None`.
pub struct ControlPayload {
    pub status: Option<String>,
    pub code: Option<String>,
    pub barrier_id: Option<u64>,
    pub epoch_id: Option<String>,
    pub serving_incarnation: Option<u64>,
    /// The cleared media; an element that is not text is `None`.
    pub cleared_media: Option<Vec<Option<String>>>,
}

/// One reply of a control endpoint.
pub enum ControlReply {
    /// The endpoint reported an error.
    Failed,
    /// The endpoint replied without data.
    Empty,
    Payload(ControlPayload),
}

#[derive(Clone, Copy, Debug, PartialEq, Eq, Structural)]
pub enum BarrierControlDisposition {
    Success,
    PermanentlyUnavailable,
}

#[derive(Clone, Copy, Debug, PartialEq, Eq, Structural)]
pub enum ControlError {
    NoResponse,
    Failed,
    NoPayload,
    MismatchedBarrierId,
    MismatchedToken,
    MismatchedServingIncarnation,
    OmittedClearedMedia,
    InvalidClearedMedia,
    MismatchedClearedMedia,
    MoreThanOneResponse,
    ErrorPayload,
}

/// The optional text is present and equals `expected`.
pub open spec fn says(text: Option<String>, expected: Seq<char>) -> bool {
    text matches Some(text) && text@ == expected
}

fn is_text(text: &Option<String>, expected: &str) -> (same: bool)
    ensures
        same == says(*text, expected@),
{
    match text {
        None => false,
        Some(text) => same_text(text.as_str(), expected),
    }
}

/// What the replies to a request for markers mean: exactly one, for this
/// barrier, and successful or permanently refused.
pub open spec fn barrier_verdict(replies: Seq<ControlReply>, barrier_id: u64) -> Result<
    BarrierControlDisposition,
    ControlError,
> {
    if replies.len() == 0 {
        Err(ControlError::NoResponse)
    } else {
        match replies[0] {
            ControlReply::Failed => Err(ControlError::Failed),
            ControlReply::Empty => Err(ControlError::NoPayload),
            ControlReply::Payload(payload) => if payload.barrier_id != Some(barrier_id) {
                Err(ControlError::MismatchedBarrierId)
            } else if replies.len() > 1 {
                Err(ControlError::MoreThanOneResponse)
            } else if says(payload.status, "success"@) {
                Ok(BarrierControlDisposition::Success)
            } else if says(payload.status, "error"@) && says(
                payload.code,
                "barrier_permanently_unavailable"@,
            ) {
                Ok(BarrierControlDisposition::PermanentlyUnavailable)
            } else {
                Err(ControlError::ErrorPayload)
            },
        }
    }
}

pub fn validate_barrier_responses(replies: &[ControlReply], barrier_id: u64) -> (verdict: Result<
    BarrierControlDisposition,
    ControlError,
>)
    ensures
        verdict == barrier_verdict(replies@, barrier_id),
{
    if replies.len() == 0 {
        return Err(ControlError::NoResponse);
    }
    match &replies[0] {
        ControlReply::Failed => Err(ControlError::Failed),
        ControlReply::Empty => Err(ControlError::NoPayload),
        ControlReply::Payload(payload) => {
            if payload.barrier_id != Some(barrier_id) {
                Err(ControlError::MismatchedBarrierId)
            } else if replies.len() > 1 {
                Err(ControlError::MoreThanOneResponse)
            } else if is_text(&payload.status, "success") {
                Ok(BarrierControlDisposition::Success)
            } else if is_text(&payload.status, "error") && is_text(
                &payload.code,
                "barrier_permanently_unavailable",
            ) {
                Ok(BarrierControlDisposition::PermanentlyUnavailable)
            } else {
                Err(ControlError::ErrorPayload)
            }
        },
    }
}

pub open spec fn is_medium(name: Option<String>) -> bool {
    says(name, "GPU"@) || says(name, "CPU"@)
}

pub open spec fn all_media(media: Seq<Option<String>>) -> bool {
    forall|i: int| 0 <= i < media.len() ==> is_medium(#[trigger] media[i])
}

pub open spec fn lists_medium(media: Seq<Option<String>>, name: Seq<char>) -> bool {
    exists|i: int| 0 <= i < media.len() && says(#[trigger] media[i], name)
}

pub open spec fn cleared_tiers(media: Seq<Option<String>>) -> TierSet {
    TierSet { gpu: lists_medium(media, "GPU"@), cpu: lists_medium(media, "CPU"@) }
}

/// The reported media are exactly the expected tiers.
pub open spec fn media_error(media: Option<Vec<Option<String>>>, tiers: TierSet) -> Option<
    ControlError,
> {
    match media {
        None => Some(ControlError::OmittedClearedMedia),
        Some(media) => if !all_media(media@) {
            Some(ControlError::InvalidClearedMedia)
        } else if cleared_tiers(media@) != tiers {
            Some(ControlError::MismatchedClearedMedia)
        } else {
            None
        },
    }
}

/// What the replies to a cold-epoch request mean: exactly one, successful, and
/// in agreement with everything that is asked for.
pub open spec fn epoch_verdict(
    replies: Seq<ControlReply>,
    epoch_id: Seq<char>,
    barrier_id: Option<u64>,
    serving_incarnation: Option<u64>,
    expected_tiers: Option<TierSet>,
) -> Result<(), ControlError> {
    if replies.len() == 0 {
        Err(ControlError::NoResponse)
    } else {
        match replies[0] {
            ControlReply::Failed => Err(ControlError::Failed),
            ControlReply::Empty => Err(ControlError::NoPayload),
            ControlReply::Payload(payload) => if !says(payload.status, "success"@) {
                Err(ControlError::ErrorPayload)
            } else if !says(payload.epoch_id, epoch_id) {
                Err(ControlError::MismatchedToken)
            } else if barrier_id is Some && payload.barrier_id != barrier_id {
                Err(ControlError::MismatchedBarrierId)
            } else if serving_incarnation is Some && payload.serving_incarnation
                != serving_incarnation {
                Err(ControlError::MismatchedServingIncarnation)
            } else if expected_tiers is Some && media_error(
                payload.cleared_media,
                expected_tiers->0,
            ) is Some {
                Err(media_error(payload.cleared_media, expected_tiers->0)->0)
            } else if replies.len() > 1 {
                Err(ControlError::MoreThanOneResponse)
            } else {
                Ok(())
            },
        }
    }
}

fn check_media(media: &Option<Vec<Option<String>>>, tiers: TierSet) -> (error: Option<ControlError>)
    ensures
        error == media_error(*media, tiers),
{
    let list = match media {
        None => {
            return Some(ControlError::OmittedClearedMedia);
        },
        Some(list) => list,
    };
    let mut seen = TierSet { gpu: false, cpu: false };
    let mut i: usize = 0;
    while i < list.len()
        invariant
            i <= list@.len(),
            *media == Some(*list),
            forall|j: int| 0 <= j < i ==> is_medium(#[trigger] list@[j]),
            seen.gpu == exists|j: int| 0 <= j < i && says(#[trigger] list@[j], "GPU"@),
            seen.cpu == exists|j: int| 0 <= j < i && says(#[trigger] list@[j], "CPU"@),
        decreases list@.len() - i,
    {
        proof {
            reveal_strlit("GPU");
            reveal_strlit("CPU");
            assert("GPU"@[0] != "CPU"@[0]);
        }
        if is_text(&list[i], "GPU") {
            seen.gpu = true;
        } else if is_text(&list[i], "CPU") {
            seen.cpu = true;
        } else {
            assert(!is_medium(list@[i as int]));
            return Some(ControlError::InvalidClearedMedia);
        }
        i = i + 1;
    }
    if seen != tiers {
        Some(ControlError::MismatchedClearedMedia)
    } else {
        None
    }
}

pub fn validate_cold_epoch_response(
    replies: &[ControlReply],
    epoch_id: &str,
    barrier_id: Option<u64>,
    serving_incarnation: Option<u64>,
    expected_tiers: Option<TierSet>,
) -> (verdict: Result<(), ControlError>)
    ensures
        verdict == epoch_verdict(
            replies@,
            epoch_id@,
            barrier_id,
            serving_incarnation,
            expected_tiers,
        ),
{
    if replies.len() == 0 {
        return Err(ControlError::NoResponse);
    }
    let payload = match &replies[0] {
        ControlReply::Failed => {
            return Err(ControlError::Failed);
        },
        ControlReply::Empty => {
            return Err(ControlError::NoPayload);
        },
        ControlReply::Payload(payload) => payload,
    };
    if !is_text(&payload.status, "success") {
        return Err(ControlError::ErrorPayload);
    }
    if !is_text(&payload.epoch_id, epoch_id) {
        return Err(ControlError::MismatchedToken);
    }
    if barrier_id.is_some() && payload.barrier_id != barrier_id {
        return Err(ControlError::MismatchedBarrierId);
    }
    if serving_incarnation.is_some() && payload.serving_incarnation != serving_incarnation {
        return Err(ControlError::MismatchedServingIncarnation);
    }
    if let Some(tiers) = expected_tiers {
        if let Some(error) = check_media(&payload.cleared_media, tiers) {
            return Err(error);
        }
    }
    if replies.len() > 1 {
        return Err(ControlError::MoreThanOneResponse);
    }
    Ok(())
}

/// Every expected worker has been discovered.
pub fn workers_discovered(expected: &[u64], discovered: &[u64]) -> (complete: bool)
    ensures
        complete == forall|i: int|
            0 <= i < expected@.len() ==> discovered@.contains(#[trigger] expected@[i]),
{
    let mut i: usize = 0;
    while i < expected.len()
        invariant
            i <= expected@.len(),
            forall|j: int| 0 <= j < i ==> discovered@.contains(#[trigger] expected@[j]),
        decreases expected@.len() - i,
    {
        let mut found = false;
        let mut n: usize = 0;
        while n < discovered.len()
            invariant
                i < expected@.len(),
                n <= discovered@.len(),
                found == exists|k: int| 0 <= k < n && #[trigger] discovered@[k] == expected@[i as int],
            decreases discovered@.len() - n,
        {
            if discovered[n] == expected[i] {
                found = true;
            }
            n = n + 1;
        }
        if !found {
            proof {
                if discovered@.contains(expected@[i as int]) {
                    let k = choose|k: int|
                        0 <= k < discovered@.len() && discovered@[k] == expected@[i as int];
                    assert(discovered@[k] == expected@[i as int]);
                }
            }
            return false;
        }
        i = i + 1;
    }
    true
}

// ---- rounds of markers ----

/// How one owner answered the request for markers; `None` if the request
/// failed.
#[derive(Clone, Copy, Debug, PartialEq, Eq, Structural)]
pub struct ControlResult {
    pub owner: CacheOwner,
    pub incarnation: u64,
    pub disposition: Option<BarrierControlDisposition>,
}

impl ControlResult {
    pub open spec fn succeeded(self) -> bool {
        self.disposition == Some(BarrierControlDisposition::Success)
    }
}

/// The first result that is not a success.
pub open spec fn first_refusal(results: Seq<ControlResult>, from: int) -> Option<ControlResult>
    decreases results.len() - from,
{
    if from >= results.len() || from < 0 {
        None
    } else if results[from].succeeded() {
        first_refusal(results, from + 1)
    } else {
        Some(results[from])
    }
}

/// Every owner of the round is among the results.
pub open spec fn covers_round(state: BarrierView, id: u64, results: Seq<ControlResult>) -> bool {
    state.rounds.contains_key(id) ==> forall|owner: CacheOwner| #[trigger]
        state.rounds[id].owners.contains_key(owner) ==> exists|i: int|
            0 <= i < results.len() && (#[trigger] results[i]).owner == owner
}

/// The owner has answered, and each of its answers is a success.
pub open spec fn has_succeeded(results: Seq<ControlResult>, owner: CacheOwner) -> bool {
    &&& exists|i: int| 0 <= i < results.len() && (#[trigger] results[i]).owner == owner
    &&& forall|i: int|
        0 <= i < results.len() && (#[trigger] results[i]).owner == owner ==> results[i].succeeded()
}

/// What a round comes to once all owners have answered.
pub open spec fn answered(state: BarrierView, id: u64, results: Seq<ControlResult>) -> BarrierView {
    match first_refusal(results, 0) {
        None => state.controls_succeeded(id),
        Some(refusal) => match refusal.disposition {
            Some(_) => state.mark_permanently_unavailable(refusal.owner, refusal.incarnation),
            None => state.fail_round(id, BarrierFailure::ControlFailed),
        },
    }
}

pub open spec fn answer_events(
    state: BarrierView,
    id: u64,
    results: Seq<ControlResult>,
    now: u64,
) -> Seq<EvidenceMetric> {
    match first_refusal(results, 0) {
        None => match completion(state, state.controls_succeeded(id), id, now) {
            None => Seq::empty(),
            Some(rtt) => seq![EvidenceMetric::BarrierRtt(rtt)],
        },
        Some(refusal) => match refusal.disposition {
            Some(_) => seq![
                EvidenceMetric::BarrierIncomplete(BarrierFailure::PermanentlyUnavailable),
            ],
            None => seq![EvidenceMetric::BarrierIncomplete(BarrierFailure::ControlFailed)],
        },
    }
}

impl BarrierCoordinator {
    /// Closes a round and returns the owners to ask for markers; nothing if
    /// all of its cuts have come out already.
    pub fn dispatch_round(&mut self, id: u64, events: &mut Vec<EvidenceMetric>) -> (owners: Option<
        Vec<(CacheOwner, u64)>,
    >)
        requires
            old(self).wf(),
        ensures
            final(self).wf(),
            match owners {
                Some(owners) => {
                    &&& old(self)@.rounds.contains_key(id)
                    &&& lists_pairs(owners@, old(self)@.rounds[id].owners)
                    &&& final(self)@ == old(self)@.dispatch(id)
                    &&& final(events)@ == old(events)@.push(
                        EvidenceMetric::BarrierCoalesced(old(self)@.rounds[id].cuts as u64),
                    )
                },
                None => {
                    &&& !old(self)@.rounds.contains_key(id)
                    &&& final(self)@ == old(self)@
                    &&& final(events)@ == old(events)@
                },
            },
    {
        match self.dispatch(id) {
            None => None,
            Some((owners, cuts)) => {
                events.push(EvidenceMetric::BarrierCoalesced(cuts));
                Some(owners)
            },
        }
    }

    /// All owners have answered the request for markers. Returns whether the
    /// round still waits for markers.
    pub fn controls_answered(
        &mut self,
        id: u64,
        results: &[ControlResult],
        now: u64,
        events: &mut Vec<EvidenceMetric>,
    ) -> (waiting: bool)
        requires
            old(self).wf(),
            old(self)@.open_round != Some(id),
            covers_round(old(self)@, id, results@),
        ensures
            final(self).wf(),
            final(self)@ == answered(old(self)@, id, results@),
            final(events)@ == old(events)@ + answer_events(old(self)@, id, results@, now),
            waiting == (first_refusal(results@, 0) is None && completion(
                old(self)@,
                old(self)@.controls_succeeded(id),
                id,
                now,
            ) is None),
    {
        let ghost start = events@;
        let mut i: usize = 0;
        while i < results.len()
            invariant
                i <= results@.len(),
                self.wf(),
                self@ == old(self)@,
                events@ == start,
                start == old(events)@,
                first_refusal(results@, 0) == first_refusal(results@, i as int),
            decreases results@.len() - i,
        {
            let result = results[i];
            match result.disposition {
                Some(BarrierControlDisposition::Success) => {},
                Some(BarrierControlDisposition::PermanentlyUnavailable) => {
                    self.mark_permanently_unavailable(result.owner, result.incarnation);
                    events.push(
                        EvidenceMetric::BarrierIncomplete(BarrierFailure::PermanentlyUnavailable),
                    );
                    assert(events@ =~= start + answer_events(old(self)@, id, results@, now));
                    return false;
                },
                None => {
                    self.fail_round(id, BarrierFailure::ControlFailed);
                    events.push(EvidenceMetric::BarrierIncomplete(BarrierFailure::ControlFailed));
                    assert(events@ =~= start + answer_events(old(self)@, id, results@, now));
                    return false;
                },
            }
            i = i + 1;
        }
        match self.controls_succeeded(id, now) {
            Some(rtt) => {
                events.push(EvidenceMetric::BarrierRtt(rtt));
                assert(events@ =~= start + answer_events(old(self)@, id, results@, now));
                false
            },
            None => {
                assert(events@ =~= start + answer_events(old(self)@, id, results@, now));
                true
            },
        }
    }

    /// The owners did not all answer in time.
    pub fn controls_timed_out(&mut self, id: u64, events: &mut Vec<EvidenceMetric>)
        requires
            old(self).wf(),
        ensures
            final(self).wf(),
            final(self)@ == old(self)@.fail_round(id, BarrierFailure::Timeout),
            final(events)@ == old(events)@.push(
                EvidenceMetric::BarrierIncomplete(BarrierFailure::Timeout),
            ),
    {
        self.fail_round(id, BarrierFailure::Timeout);
        events.push(EvidenceMetric::BarrierIncomplete(BarrierFailure::Timeout));
    }

    /// The time for markers is over; what still waits is void.
    pub fn markers_timed_out(&mut self, id: u64, events: &mut Vec<EvidenceMetric>)
        requires
            old(self).wf(),
        ensures
            final(self).wf(),
            if old(self)@.rounds.contains_key(id) {
                &&& final(self)@ == old(self)@.fail_round(id, BarrierFailure::Timeout)
                &&& final(events)@ == old(events)@.push(
                    EvidenceMetric::BarrierIncomplete(BarrierFailure::Timeout),
                )
            } else {
                &&& final(self)@ == old(self)@
                &&& final(events)@ == old(events)@
            },
    {
        if self.has_round(id) {
            self.controls_timed_out(id, events);
        }
    }
}

} // verus!
