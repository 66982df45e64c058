//! What the funnel says of a prompt whose prefix lengths were measured.

use vstd::math::{max, min};
use vstd::prelude::*;

use crate::funnel::{
    plus, CacheLossFunnel, PrefixCounts, TokenAttribution, TokenObservation, TokenSource,
};
use crate::guard::{account, CacheLossResult, CacheLossTerminalKind};
use crate::prompt_source::CacheSourceObservation;
use crate::route::{CacheEvidenceQuality, CacheLossRouteObservation};

verus! {

/// A token is attributed to what was measured of it: a hit where it was read,
/// and otherwise the first stage that it did not pass, all earlier ones
/// passed.
pub proof fn law_token_is_attributed_to_its_first_failed_stage(seen: TokenObservation)
    ensures
        ({
            let measured = seen.complete && seen.source != TokenSource::Unknown;
            let lost = seen.complete && seen.source == TokenSource::Recomputed;
            let cause = seen.attribution();
            &&& cause == TokenAttribution::Incomplete <==> !measured
            &&& cause == TokenAttribution::GpuHit <==> seen.complete && seen.source
                == TokenSource::Gpu
            &&& cause == TokenAttribution::CpuHit <==> seen.complete && seen.source
                == TokenSource::Cpu
            &&& cause == TokenAttribution::UnavoidableRecomputation <==> lost && !seen.reusable
            &&& cause == TokenAttribution::RetentionLoss <==> lost && seen.reusable
                && !seen.physically_resident
            &&& cause == TokenAttribution::RouterVisibilityLoss <==> lost && seen.reusable
                && seen.physically_resident && !seen.router_visible
            &&& cause == TokenAttribution::RoutingChoiceLoss <==> lost && seen.reusable
                && seen.physically_resident && seen.router_visible
                && !seen.selected_resident_at_routing
            &&& cause == TokenAttribution::EvictionRaceLoss <==> lost && seen.reusable
                && seen.physically_resident && seen.router_visible
                && seen.selected_resident_at_routing && !seen.selected_resident_at_lookup
            &&& cause == TokenAttribution::RetrievalFailure <==> lost && seen.reusable
                && seen.physically_resident && seen.router_visible
                && seen.selected_resident_at_routing && seen.selected_resident_at_lookup
        }),
{
}

/// No counter saturates within so many more tokens.
pub open spec fn has_room(funnel: CacheLossFunnel, more: int) -> bool {
    &&& funnel.f0_backend_prompt_tokens + more <= u64::MAX
    &&& funnel.f1_reusable_tokens + more <= u64::MAX
    &&& funnel.f2_physically_resident_tokens + more <= u64::MAX
    &&& funnel.f3_router_visible_tokens + more <= u64::MAX
    &&& funnel.f4_selected_resident_tokens + more <= u64::MAX
    &&& funnel.f5_lookup_resident_tokens + more <= u64::MAX
    &&& funnel.f6_reused_tokens + more <= u64::MAX
    &&& funnel.unavoidable_recomputation + more <= u64::MAX
    &&& funnel.retention_loss + more <= u64::MAX
    &&& funnel.router_visibility_loss + more <= u64::MAX
    &&& funnel.routing_choice_loss + more <= u64::MAX
    &&& funnel.eviction_race_loss + more <= u64::MAX
    &&& funnel.retrieval_failure + more <= u64::MAX
    &&& funnel.gpu_hits + more <= u64::MAX
    &&& funnel.cpu_hits + more <= u64::MAX
    &&& funnel.incomplete_tokens + more <= u64::MAX
    &&& funnel.router_false_positive_tokens + more <= u64::MAX
    &&& funnel.router_false_negative_tokens + more <= u64::MAX
}

/// One observation of many tokens adds them to the counter of what became of
/// them, to every stage that they reached, and to nothing else.
pub proof fn law_observation_counts_where_it_belongs(
    funnel: CacheLossFunnel,
    seen: TokenObservation,
    count: u64,
)
    requires
        has_room(funnel, count as int),
    ensures
        ({
            let after = funnel.observed(seen, count);
            let n = count as int;
            let measured = seen.complete && seen.source != TokenSource::Unknown;
            let hit = seen.complete && (seen.source == TokenSource::Gpu || seen.source
                == TokenSource::Cpu);
            let lost = seen.complete && seen.source == TokenSource::Recomputed;
            let first = hit || (lost && seen.reusable);
            let second = hit || (lost && seen.reusable && seen.physically_resident);
            let third = hit || (lost && seen.reusable && seen.physically_resident
                && seen.router_visible);
            let fourth = hit || (lost && seen.reusable && seen.physically_resident
                && seen.router_visible && seen.selected_resident_at_routing);
            let fifth = hit || (lost && seen.reusable && seen.physically_resident
                && seen.router_visible && seen.selected_resident_at_routing
                && seen.selected_resident_at_lookup);
            &&& after.f0_backend_prompt_tokens == funnel.f0_backend_prompt_tokens + n
            &&& after.incomplete_tokens == funnel.incomplete_tokens + if measured {
                0
            } else {
                n
            }
            &&& after.f1_reusable_tokens == funnel.f1_reusable_tokens + if first {
                n
            } else {
                0
            }
            &&& after.f2_physically_resident_tokens == funnel.f2_physically_resident_tokens
                + if second {
                n
            } else {
                0
            }
            &&& after.f3_router_visible_tokens == funnel.f3_router_visible_tokens + if third {
                n
            } else {
                0
            }
            &&& after.f4_selected_resident_tokens == funnel.f4_selected_resident_tokens
                + if fourth {
                n
            } else {
                0
            }
            &&& after.f5_lookup_resident_tokens == funnel.f5_lookup_resident_tokens + if fifth {
                n
            } else {
                0
            }
            &&& after.f6_reused_tokens == funnel.f6_reused_tokens + if hit {
                n
            } else {
                0
            }
            &&& after.gpu_hits == funnel.gpu_hits + if seen.complete && seen.source
                == TokenSource::Gpu {
                n
            } else {
                0
            }
            &&& after.cpu_hits == funnel.cpu_hits + if seen.complete && seen.source
                == TokenSource::Cpu {
                n
            } else {
                0
            }
            &&& after.unavoidable_recomputation == funnel.unavoidable_recomputation + if lost
                && !first {
                n
            } else {
                0
            }
            &&& after.retention_loss == funnel.retention_loss + if first && !second {
                n
            } else {
                0
            }
            &&& after.router_visibility_loss == funnel.router_visibility_loss + if second
                && !third {
                n
            } else {
                0
            }
            &&& after.routing_choice_loss == funnel.routing_choice_loss + if third && !fourth {
                n
            } else {
                0
            }
            &&& after.eviction_race_loss == funnel.eviction_race_loss + if fourth && !fifth {
                n
            } else {
                0
            }
            &&& after.retrieval_failure == funnel.retrieval_failure + if fifth && !hit {
                n
            } else {
                0
            }
            &&& after.router_false_positive_tokens == funnel.router_false_positive_tokens + if
            seen.complete && seen.router_visible && !seen.physically_resident {
                n
            } else {
                0
            }
            &&& after.router_false_negative_tokens == funnel.router_false_negative_tokens + if
            seen.complete && seen.physically_resident && !seen.router_visible {
                n
            } else {
                0
            }
        }),
{
}

/// What a prompt with these prefix lengths adds. The first `gpu_hit` tokens
/// were read from GPU, the next `cpu_hit` from CPU; of the others those below
/// a length passed its stage if they passed the earlier ones.
pub open spec fn adds_prompt(
    before: CacheLossFunnel,
    after: CacheLossFunnel,
    prompt: int,
    reusable: int,
    physical: int,
    visible: int,
    selected: int,
    lookup: int,
    gpu_hit: int,
    cpu_hit: int,
) -> bool {
    let hit = gpu_hit + cpu_hit;
    let resident = min(physical, reusable);
    let seen = min(visible, resident);
    let chosen = min(selected, seen);
    let found = min(lookup, chosen);
    let gpu = min(gpu_hit, prompt);
    let hits = min(hit, prompt);
    // How many tokens reach each stage: hits, and those below all its lengths.
    let s1 = min(max(hit, reusable), prompt);
    let s2 = min(max(hit, resident), prompt);
    let s3 = min(max(hit, seen), prompt);
    let s4 = min(max(hit, chosen), prompt);
    let s5 = min(max(hit, found), prompt);
    &&& after.f0_backend_prompt_tokens == before.f0_backend_prompt_tokens + prompt
    &&& after.f1_reusable_tokens == before.f1_reusable_tokens + s1
    &&& after.f2_physically_resident_tokens == before.f2_physically_resident_tokens + s2
    &&& after.f3_router_visible_tokens == before.f3_router_visible_tokens + s3
    &&& after.f4_selected_resident_tokens == before.f4_selected_resident_tokens + s4
    &&& after.f5_lookup_resident_tokens == before.f5_lookup_resident_tokens + s5
    &&& after.f6_reused_tokens == before.f6_reused_tokens + hits
    &&& after.unavoidable_recomputation == before.unavoidable_recomputation + prompt - s1
    &&& after.retention_loss == before.retention_loss + s1 - s2
    &&& after.router_visibility_loss == before.router_visibility_loss + s2 - s3
    &&& after.routing_choice_loss == before.routing_choice_loss + s3 - s4
    &&& after.eviction_race_loss == before.eviction_race_loss + s4 - s5
    &&& after.retrieval_failure == before.retrieval_failure + s5 - hits
    &&& after.gpu_hits == before.gpu_hits + gpu
    &&& after.cpu_hits == before.cpu_hits + hits - gpu
    &&& after.incomplete_tokens == before.incomplete_tokens
    &&& after.router_false_positive_tokens == before.router_false_positive_tokens + max(
        0,
        min(visible, prompt) - min(physical, prompt),
    )
    &&& after.router_false_negative_tokens == before.router_false_negative_tokens + max(
        0,
        min(physical, prompt) - min(visible, prompt),
    )
}

/// Every token of a prompt is counted by the prefix lengths that it lies
/// below.
pub proof fn law_prefix_lengths_are_attributed(
    funnel: CacheLossFunnel,
    counts: PrefixCounts,
    prompt: int,
)
    requires
        0 <= prompt <= u64::MAX,
        has_room(funnel, prompt),
    ensures
        adds_prompt(
            funnel,
            funnel.observed_each(counts, 0, prompt),
            prompt,
            counts.reusable as int,
            counts.physical as int,
            counts.router_visible as int,
            counts.selected_resident as int,
            counts.lookup_resident as int,
            counts.gpu_hit as int,
            counts.cpu_hit as int,
        ),
{
    lemma_losses_lie_between_stages(funnel, counts, prompt);
    lemma_stages(funnel, counts, prompt);
    lemma_reads(funnel, counts, prompt);
}

/// What is lost between two stages is what reaches the one and not the other.
proof fn lemma_losses_lie_between_stages(
    funnel: CacheLossFunnel,
    counts: PrefixCounts,
    prompt: int,
)
    requires
        0 <= prompt <= u64::MAX,
        has_room(funnel, prompt),
    ensures
        ({
            let after = funnel.observed_each(counts, 0, prompt);
            let f1 = after.f1_reusable_tokens - funnel.f1_reusable_tokens;
            let f2 = after.f2_physically_resident_tokens - funnel.f2_physically_resident_tokens;
            let f3 = after.f3_router_visible_tokens - funnel.f3_router_visible_tokens;
            let f4 = after.f4_selected_resident_tokens - funnel.f4_selected_resident_tokens;
            let f5 = after.f5_lookup_resident_tokens - funnel.f5_lookup_resident_tokens;
            let f6 = after.f6_reused_tokens - funnel.f6_reused_tokens;
            &&& after.f0_backend_prompt_tokens == funnel.f0_backend_prompt_tokens + prompt
            &&& after.unavoidable_recomputation == funnel.unavoidable_recomputation + prompt - f1
            &&& after.retention_loss == funnel.retention_loss + f1 - f2
            &&& after.router_visibility_loss == funnel.router_visibility_loss + f2 - f3
            &&& after.routing_choice_loss == funnel.routing_choice_loss + f3 - f4
            &&& after.eviction_race_loss == funnel.eviction_race_loss + f4 - f5
            &&& after.retrieval_failure == funnel.retrieval_failure + f5 - f6
            &&& 0 <= f6 <= f5 <= f4 <= f3 <= f2 <= f1 <= prompt
            &&& after.cpu_hits + after.gpu_hits == funnel.cpu_hits + funnel.gpu_hits + f6
            &&& after.gpu_hits >= funnel.gpu_hits
            &&& after.cpu_hits >= funnel.cpu_hits
            &&& after.incomplete_tokens == funnel.incomplete_tokens
        }),
    decreases prompt,
{
    if prompt > 0 {
        lemma_losses_lie_between_stages(funnel, counts, prompt - 1);
        let before = funnel.observed_each(counts, 0, prompt - 1);
        assert(funnel.observed_each(counts, 0, prompt) == before.observed(
            counts.token(prompt - 1),
            1,
        ));
    }
}

proof fn lemma_stages(funnel: CacheLossFunnel, counts: PrefixCounts, prompt: int)
    requires
        0 <= prompt <= u64::MAX,
        has_room(funnel, prompt),
    ensures
        ({
            let after = funnel.observed_each(counts, 0, prompt);
            let hit = counts.gpu_hit + counts.cpu_hit;
            let resident = min(counts.physical as int, counts.reusable as int);
            let seen = min(counts.router_visible as int, resident);
            let chosen = min(counts.selected_resident as int, seen);
            let found = min(counts.lookup_resident as int, chosen);
            &&& after.f1_reusable_tokens == funnel.f1_reusable_tokens + min(
                max(hit, counts.reusable as int),
                prompt,
            )
            &&& after.f2_physically_resident_tokens == funnel.f2_physically_resident_tokens + min(
                max(hit, resident),
                prompt,
            )
            &&& after.f3_router_visible_tokens == funnel.f3_router_visible_tokens + min(
                max(hit, seen),
                prompt,
            )
            &&& after.f4_selected_resident_tokens == funnel.f4_selected_resident_tokens + min(
                max(hit, chosen),
                prompt,
            )
            &&& after.f5_lookup_resident_tokens == funnel.f5_lookup_resident_tokens + min(
                max(hit, found),
                prompt,
            )
            &&& after.f6_reused_tokens == funnel.f6_reused_tokens + min(hit, prompt)
        }),
    decreases prompt,
{
    if prompt > 0 {
        lemma_stages(funnel, counts, prompt - 1);
        let before = funnel.observed_each(counts, 0, prompt - 1);
        let at = prompt - 1;
        let hit = counts.gpu_hit + counts.cpu_hit;
        let resident = min(counts.physical as int, counts.reusable as int);
        let seen = min(counts.router_visible as int, resident);
        let chosen = min(counts.selected_resident as int, seen);
        let found = min(counts.lookup_resident as int, chosen);
        lemma_one_more(max(hit, counts.reusable as int), at);
        lemma_one_more(max(hit, resident), at);
        lemma_one_more(max(hit, seen), at);
        lemma_one_more(max(hit, chosen), at);
        lemma_one_more(max(hit, found), at);
        lemma_one_more(hit, at);
        lemma_reached(counts, at);
        assert(funnel.observed_each(counts, 0, prompt) == before.observed(counts.token(at), 1));
    }
}

/// Which stages a token reaches.
proof fn lemma_reached(counts: PrefixCounts, at: int)
    requires
        at >= 0,
    ensures
        ({
            let gates = crate::funnel::gates_passed(counts.token(at).attribution());
            let hit = counts.gpu_hit + counts.cpu_hit;
            let resident = min(counts.physical as int, counts.reusable as int);
            let seen = min(counts.router_visible as int, resident);
            let chosen = min(counts.selected_resident as int, seen);
            let found = min(counts.lookup_resident as int, chosen);
            &&& gates >= 1 <==> at < max(hit, counts.reusable as int)
            &&& gates >= 2 <==> at < max(hit, resident)
            &&& gates >= 3 <==> at < max(hit, seen)
            &&& gates >= 4 <==> at < max(hit, chosen)
            &&& gates >= 5 <==> at < max(hit, found)
            &&& gates >= 6 <==> at < hit
        }),
{
}

proof fn lemma_reads(funnel: CacheLossFunnel, counts: PrefixCounts, prompt: int)
    requires
        0 <= prompt <= u64::MAX,
        has_room(funnel, prompt),
    ensures
        ({
            let after = funnel.observed_each(counts, 0, prompt);
            let physical = counts.physical as int;
            let visible = counts.router_visible as int;
            &&& after.gpu_hits == funnel.gpu_hits + min(counts.gpu_hit as int, prompt)
            &&& after.router_false_positive_tokens == funnel.router_false_positive_tokens + max(
                0,
                min(visible, prompt) - min(physical, prompt),
            )
            &&& after.router_false_negative_tokens == funnel.router_false_negative_tokens + max(
                0,
                min(physical, prompt) - min(visible, prompt),
            )
        }),
    decreases prompt,
{
    if prompt > 0 {
        lemma_reads(funnel, counts, prompt - 1);
        let before = funnel.observed_each(counts, 0, prompt - 1);
        let at = prompt - 1;
        lemma_one_more(counts.gpu_hit as int, at);
        lemma_one_more(counts.router_visible as int, at);
        lemma_one_more(counts.physical as int, at);
        assert(funnel.observed_each(counts, 0, prompt) == before.observed(counts.token(at), 1));
    }
}

/// The token at `at` lies below a length or does not.
proof fn lemma_one_more(length: int, at: int)
    ensures
        min(length, at + 1) == min(length, at) + if at < length {
            1int
        } else {
            0
        },
{
}

/// A funnel that has counted nothing.
pub open spec fn nothing_counted() -> CacheLossFunnel {
    CacheLossFunnel {
        f0_backend_prompt_tokens: 0,
        f1_reusable_tokens: 0,
        f2_physically_resident_tokens: 0,
        f3_router_visible_tokens: 0,
        f4_selected_resident_tokens: 0,
        f5_lookup_resident_tokens: 0,
        f6_reused_tokens: 0,
        unavoidable_recomputation: 0,
        retention_loss: 0,
        router_visibility_loss: 0,
        routing_choice_loss: 0,
        eviction_race_loss: 0,
        retrieval_failure: 0,
        gpu_hits: 0,
        cpu_hits: 0,
        incomplete_tokens: 0,
        router_false_positive_tokens: 0,
        router_false_negative_tokens: 0,
    }
}

/// What the account of a request says of the lengths that its route and its
/// worker measured.
pub proof fn law_account_joins_route_and_worker(
    source: CacheSourceObservation,
    route: CacheLossRouteObservation,
    kind: CacheLossTerminalKind,
)
    ensures
        ({
            let record = account(source, route, kind);
            let accounted = source.complete && source.prompt_tokens == Some(route.prompt_tokens);
            let joined = source.gpu_hit_tokens is Some && source.cpu_hit_tokens is Some
                && source.cpu_lookup_tokens is Some && route.reusable_prefix_tokens is Some
                && route.physical_prefix_tokens is Some && route.router_visible_prefix_tokens is Some
                && route.selected_physical_prefix_tokens is Some;
            &&& record.kind == kind
            &&& record.result == CacheLossResult::Complete <==> route.complete && accounted
                && joined
            &&& record.result == CacheLossResult::IncompleteRoute <==> !route.complete
            &&& record.result == CacheLossResult::IncompleteWorker <==> route.complete
                && !accounted
            &&& record.result == CacheLossResult::MissingJoin <==> route.complete && accounted
                && !joined
            &&& record.result != CacheLossResult::Complete ==> {
                &&& record.quality == CacheEvidenceQuality::Incomplete
                &&& record.funnel == (CacheLossFunnel {
                    f0_backend_prompt_tokens: route.prompt_tokens,
                    incomplete_tokens: route.prompt_tokens,
                    ..nothing_counted()
                })
            }
            &&& record.result == CacheLossResult::Complete ==> {
                &&& record.quality == route.quality
                &&& adds_prompt(
                    nothing_counted(),
                    record.funnel,
                    route.prompt_tokens as int,
                    route.reusable_prefix_tokens->0 as int,
                    route.physical_prefix_tokens->0 as int,
                    route.router_visible_prefix_tokens->0 as int,
                    route.selected_physical_prefix_tokens->0 as int,
                    min(
                        source.gpu_hit_tokens->0 + source.cpu_lookup_tokens->0,
                        u64::MAX as int,
                    ),
                    source.gpu_hit_tokens->0 as int,
                    source.cpu_hit_tokens->0 as int,
                )
            }
        }),
{
    if route.complete && source.complete && source.prompt_tokens == Some(route.prompt_tokens)
        && source.gpu_hit_tokens is Some && source.cpu_hit_tokens is Some
        && source.cpu_lookup_tokens is Some && route.reusable_prefix_tokens is Some
        && route.physical_prefix_tokens is Some && route.router_visible_prefix_tokens is Some
        && route.selected_physical_prefix_tokens is Some {
        let lookup = plus(source.gpu_hit_tokens->0, source.cpu_lookup_tokens->0);
        law_prefix_lengths_are_attributed(
            CacheLossFunnel::zero(),
            PrefixCounts {
                reusable: route.reusable_prefix_tokens->0,
                physical: route.physical_prefix_tokens->0,
                router_visible: route.router_visible_prefix_tokens->0,
                selected_resident: route.selected_physical_prefix_tokens->0,
                lookup_resident: lookup,
                gpu_hit: source.gpu_hit_tokens->0,
                cpu_hit: source.cpu_hit_tokens->0,
            },
            route.prompt_tokens as int,
        );
    }
}

/// In a complete account whose measured lengths are nested, each loss is the
/// difference of the two lengths that it lies between.
pub proof fn law_nested_lengths_differ_by_their_loss(
    source: CacheSourceObservation,
    route: CacheLossRouteObservation,
    kind: CacheLossTerminalKind,
)
    requires
        account(source, route, kind).result == CacheLossResult::Complete,
        source.gpu_hit_tokens->0 + source.cpu_hit_tokens->0 <= source.gpu_hit_tokens->0
            + source.cpu_lookup_tokens->0 <= route.selected_physical_prefix_tokens->0
            <= route.router_visible_prefix_tokens->0 <= route.physical_prefix_tokens->0
            <= route.reusable_prefix_tokens->0 <= route.prompt_tokens,
    ensures
        ({
            let funnel = account(source, route, kind).funnel;
            let lookup = source.gpu_hit_tokens->0 + source.cpu_lookup_tokens->0;
            &&& funnel.f0_backend_prompt_tokens == route.prompt_tokens
            &&& funnel.f1_reusable_tokens == route.reusable_prefix_tokens->0
            &&& funnel.f2_physically_resident_tokens == route.physical_prefix_tokens->0
            &&& funnel.f3_router_visible_tokens == route.router_visible_prefix_tokens->0
            &&& funnel.f4_selected_resident_tokens == route.selected_physical_prefix_tokens->0
            &&& funnel.f5_lookup_resident_tokens == lookup
            &&& funnel.f6_reused_tokens == source.gpu_hit_tokens->0 + source.cpu_hit_tokens->0
            &&& funnel.unavoidable_recomputation == route.prompt_tokens
                - route.reusable_prefix_tokens->0
            &&& funnel.retention_loss == route.reusable_prefix_tokens->0
                - route.physical_prefix_tokens->0
            &&& funnel.router_visibility_loss == route.physical_prefix_tokens->0
                - route.router_visible_prefix_tokens->0
            &&& funnel.routing_choice_loss == route.router_visible_prefix_tokens->0
                - route.selected_physical_prefix_tokens->0
            &&& funnel.eviction_race_loss == route.selected_physical_prefix_tokens->0 - lookup
            &&& funnel.retrieval_failure == source.cpu_lookup_tokens->0 - source.cpu_hit_tokens->0
            &&& funnel.gpu_hits == source.gpu_hit_tokens->0
            &&& funnel.cpu_hits == source.cpu_hit_tokens->0
            &&& funnel.incomplete_tokens == 0
            &&& funnel.router_false_positive_tokens == 0
            &&& funnel.router_false_negative_tokens == route.physical_prefix_tokens->0
                - route.router_visible_prefix_tokens->0
        }),
{
    law_account_joins_route_and_worker(source, route, kind);
}

/// A counter counts on until it can count no further, and then stays there.
pub proof fn law_counters_stop_at_the_largest(counter: u64, count: u64)
    ensures
        counter + count <= u64::MAX ==> plus(counter, count) == counter + count,
        counter + count > u64::MAX ==> plus(counter, count) == u64::MAX,
{
}

} // verus!
