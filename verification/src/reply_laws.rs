//! What the workers' replies come to, told from what they say.

use vstd::prelude::*;

use crate::barrier::{BarrierFailure, BarrierView};
use crate::cold_epoch::TierSet;
use crate::control::{
    answer_events, answered, barrier_verdict, epoch_verdict, BarrierControlDisposition,
    ControlPayload, ControlReply, ControlResult,
};
use crate::metrics::EvidenceMetric;

verus! {

pub open spec fn is_said(text: Option<String>, expected: Seq<char>) -> bool {
    text is Some && text->0@ == expected
}

/// The worker replied once, with a payload.
pub open spec fn single_payload(replies: Seq<ControlReply>) -> Option<ControlPayload> {
    if replies.len() == 1 && replies[0] is Payload {
        Some(replies[0]->Payload_0)
    } else {
        None
    }
}

/// A worker takes part in a cut exactly if it replies once, for the barrier
/// that was asked for, and with success. It can never take part if it replies
/// so with the error that says it. Anything else is an error.
pub proof fn law_worker_takes_part_if_it_says_so(replies: Seq<ControlReply>, barrier_id: u64)
    ensures
        ({
            let payload = single_payload(replies)->0;
            let named = single_payload(replies) is Some && payload.barrier_id == Some(barrier_id);
            let success = named && is_said(payload.status, "success"@);
            let never = named && is_said(payload.status, "error"@) && is_said(
                payload.code,
                "barrier_permanently_unavailable"@,
            );
            let verdict = barrier_verdict(replies, barrier_id);
            &&& verdict == Ok::<_, crate::control::ControlError>(
                BarrierControlDisposition::Success,
            ) <==> success
            &&& verdict == Ok::<_, crate::control::ControlError>(
                BarrierControlDisposition::PermanentlyUnavailable,
            ) <==> never
            &&& verdict is Err <==> !success && !never
        }),
{
    reveal_strlit("success");
    reveal_strlit("error");
    assert("success"@.len() != "error"@.len());
}

/// The listed media are known ones and make up exactly the tiers.
pub open spec fn media_make_up(media: Seq<Option<String>>, tiers: TierSet) -> bool {
    &&& forall|i: int|
        0 <= i < media.len() ==> is_said(#[trigger] media[i], "GPU"@) || is_said(
            media[i],
            "CPU"@,
        )
    &&& tiers.gpu <==> exists|i: int| 0 <= i < media.len() && is_said(#[trigger] media[i], "GPU"@)
    &&& tiers.cpu <==> exists|i: int| 0 <= i < media.len() && is_said(#[trigger] media[i], "CPU"@)
}

/// A worker agrees to a cold epoch exactly if it replies once, with success,
/// and names the epoch, and the barrier, the incarnation and the media as far
/// as they are asked for.
pub proof fn law_worker_agrees_to_what_was_asked(
    replies: Seq<ControlReply>,
    epoch_id: Seq<char>,
    barrier_id: Option<u64>,
    serving_incarnation: Option<u64>,
    expected_tiers: Option<TierSet>,
)
    ensures
        epoch_verdict(replies, epoch_id, barrier_id, serving_incarnation, expected_tiers) is Ok
            <==> {
            let payload = single_payload(replies)->0;
            &&& single_payload(replies) is Some
            &&& is_said(payload.status, "success"@)
            &&& is_said(payload.epoch_id, epoch_id)
            &&& barrier_id is Some ==> payload.barrier_id == barrier_id
            &&& serving_incarnation is Some ==> payload.serving_incarnation
                == serving_incarnation
            &&& expected_tiers is Some ==> payload.cleared_media is Some && media_make_up(
                payload.cleared_media->0@,
                expected_tiers->0,
            )
        },
{
    if replies.len() > 0 && replies[0] is Payload && expected_tiers is Some {
        let payload = replies[0]->Payload_0;
        if payload.cleared_media is Some {
            lemma_media(payload.cleared_media->0@, expected_tiers->0);
        }
    }
}

pub(crate) proof fn lemma_media(media: Seq<Option<String>>, tiers: TierSet)
    ensures
        media_make_up(media, tiers) <==> crate::control::all_media(media)
            && crate::control::cleared_tiers(media) == tiers,
{
    assert forall|i: int| 0 <= i < media.len() implies (is_said(#[trigger] media[i], "GPU"@)
        == crate::control::says(media[i], "GPU"@)) && (is_said(media[i], "CPU"@)
        == crate::control::says(media[i], "CPU"@)) by {}
    assert(crate::control::cleared_tiers(media).gpu <==> exists|i: int|
        0 <= i < media.len() && is_said(#[trigger] media[i], "GPU"@)) by {
        if exists|i: int| 0 <= i < media.len() && is_said(#[trigger] media[i], "GPU"@) {
            let i = choose|i: int| 0 <= i < media.len() && is_said(#[trigger] media[i], "GPU"@);
            assert(crate::control::says(media[i], "GPU"@));
        }
    }
    assert(crate::control::cleared_tiers(media).cpu <==> exists|i: int|
        0 <= i < media.len() && is_said(#[trigger] media[i], "CPU"@)) by {
        if exists|i: int| 0 <= i < media.len() && is_said(#[trigger] media[i], "CPU"@) {
            let i = choose|i: int| 0 <= i < media.len() && is_said(#[trigger] media[i], "CPU"@);
            assert(crate::control::says(media[i], "CPU"@));
        }
    }
    if crate::control::all_media(media) {
        assert forall|i: int| 0 <= i < media.len() implies is_said(#[trigger] media[i], "GPU"@)
            || is_said(media[i], "CPU"@) by {
            assert(crate::control::is_medium(media[i]));
        }
    }
    if media_make_up(media, tiers) {
        assert forall|i: int| 0 <= i < media.len() implies crate::control::is_medium(
            #[trigger] media[i],
        ) by {
            assert(is_said(media[i], "GPU"@) || is_said(media[i], "CPU"@));
        }
    }
}

/// The owner accepted the request for markers.
pub open spec fn accepted(result: ControlResult) -> bool {
    result.disposition == Some(BarrierControlDisposition::Success)
}

/// All owners before `i` accepted the request.
pub open spec fn accepted_before(results: Seq<ControlResult>, i: int) -> bool {
    forall|j: int| 0 <= j < i ==> accepted(#[trigger] results[j])
}

/// A round goes on if every owner accepts the request. Otherwise the first that
/// does not decides: if it can never take part, it is unavailable; if its
/// request failed, the round is void.
pub proof fn law_first_refusal_decides(
    state: BarrierView,
    id: u64,
    results: Seq<ControlResult>,
    now: u64,
    i: int,
)
    ensures
        accepted_before(results, results.len() as int) ==> answered(state, id, results)
            == state.controls_succeeded(id),
        0 <= i < results.len() && accepted_before(results, i) && results[i].disposition == Some(
            BarrierControlDisposition::PermanentlyUnavailable,
        ) ==> {
            &&& answered(state, id, results) == state.mark_permanently_unavailable(
                results[i].owner,
                results[i].incarnation,
            )
            &&& answer_events(state, id, results, now) == seq![
                EvidenceMetric::BarrierIncomplete(BarrierFailure::PermanentlyUnavailable),
            ]
        },
        0 <= i < results.len() && accepted_before(results, i) && results[i].disposition
            is None ==> {
            &&& answered(state, id, results) == state.fail_round(
                id,
                BarrierFailure::ControlFailed,
            )
            &&& answer_events(state, id, results, now) == seq![
                EvidenceMetric::BarrierIncomplete(BarrierFailure::ControlFailed),
            ]
        },
        accepted_before(results, results.len() as int) ==> {
            let events = answer_events(state, id, results, now);
            let after = state.controls_succeeded(id);
            let started = state.rounds[id].started_at;
            if state.rounds.contains_key(id) && !after.rounds.contains_key(id) {
                &&& events.len() == 1
                &&& events[0] is BarrierRtt
                &&& started <= now ==> started + events[0]->BarrierRtt_0 == now
            } else {
                events.len() == 0
            }
        },
{
    if accepted_before(results, results.len() as int) {
        lemma_refusal(results, 0, results.len() as int);
    }
    if 0 <= i < results.len() && accepted_before(results, i) {
        lemma_refusal(results, 0, i);
    }
}

proof fn lemma_refusal(results: Seq<ControlResult>, from: int, to: int)
    requires
        0 <= from <= to <= results.len(),
        accepted_before(results, to),
    ensures
        crate::control::first_refusal(results, from) == crate::control::first_refusal(
            results,
            to,
        ),
    decreases to - from,
{
    if from < to {
        assert(accepted(results[from]));
        lemma_refusal(results, from + 1, to);
    }
}

} // verus!
