//! What holds of every request, however it ends.

use vstd::prelude::*;

use crate::barrier::{BarrierOutcome, BarrierView};
use crate::guard::{
    dropped_ticket, ticket_of, CacheLossResult, CacheLossTerminalKind, GuardEffect, GuardStep,
    GuardView, RequestTerminalLifecycle,
};
use crate::prompt_source::{CacheSourceObservation, TerminalPromptSourceOutcome, WaitError};
use crate::route::CacheLossRouteObservation;

verus! {

/// How many accounts of the request are handed out.
pub open spec fn accounts(effects: Seq<GuardEffect>) -> nat
    decreases effects.len(),
{
    if effects.len() == 0 {
        0
    } else {
        accounts(effects.drop_last()) + if effects.last() is ObserveCacheLoss {
            1nat
        } else {
            0
        }
    }
}

/// How often the request is counted.
pub open spec fn counts(effects: Seq<GuardEffect>) -> nat
    decreases effects.len(),
{
    if effects.len() == 0 {
        0
    } else {
        counts(effects.drop_last()) + if effects.last() is CountRequest {
            1nat
        } else {
            0
        }
    }
}

/// How often a ticket is let go of.
pub open spec fn drops(effects: Seq<GuardEffect>, ticket: u64) -> nat
    decreases effects.len(),
{
    if effects.len() == 0 {
        0
    } else {
        drops(effects.drop_last(), ticket) + if effects.last() == GuardEffect::DropTicket(ticket) {
            1nat
        } else {
            0
        }
    }
}

/// Nothing is counted and no account handed out when a ticket is let go of.
proof fn lemma_ticket(ticket: Option<u64>)
    ensures
        accounts(dropped_ticket(ticket)) == 0,
        counts(dropped_ticket(ticket)) == 0,
{
    lemma_plain(dropped_ticket(ticket));
}

proof fn lemma_concat(left: Seq<GuardEffect>, right: Seq<GuardEffect>)
    ensures
        accounts(left + right) == accounts(left) + accounts(right),
        counts(left + right) == counts(left) + counts(right),
    decreases right.len(),
{
    if right.len() == 0 {
        assert(left + right =~= left);
    } else {
        lemma_concat(left, right.drop_last());
        assert((left + right).drop_last() =~= left + right.drop_last());
    }
}

proof fn lemma_one(effect: GuardEffect)
    ensures
        accounts(seq![effect]) == if effect is ObserveCacheLoss {
            1nat
        } else {
            0
        },
        counts(seq![effect]) == if effect is CountRequest {
            1nat
        } else {
            0
        },
{
    assert(seq![effect].drop_last() =~= Seq::<GuardEffect>::empty());
    assert(accounts(Seq::<GuardEffect>::empty()) == 0);
    assert(counts(Seq::<GuardEffect>::empty()) == 0);
}

proof fn lemma_plain(effects: Seq<GuardEffect>)
    requires
        forall|i: int|
            0 <= i < effects.len() ==> !(#[trigger] effects[i] is ObserveCacheLoss) && !(effects[i]
                is CountRequest),
    ensures
        accounts(effects) == 0,
        counts(effects) == 0,
    decreases effects.len(),
{
    if effects.len() > 0 {
        lemma_plain(effects.drop_last());
    }
}

proof fn lemma_source(
    guard: GuardView,
    source: CacheSourceObservation,
    kind: CacheLossTerminalKind,
)
    ensures
        ({
            let (after, effects) = guard.observe_source(source, kind);
            &&& accounts(effects) == if guard.recorded || guard.route is None {
                0nat
            } else {
                1
            }
            &&& counts(effects) == 0
            &&& after.recorded == (guard.recorded || guard.route is Some)
            &&& after.dispatched == guard.dispatched
            &&& after.metrics_recorded == guard.metrics_recorded
            &&& after.lifecycle == guard.lifecycle
            &&& after.freed == guard.freed
        }),
{
    let (after, effects) = guard.observe_source(source, kind);
    if !(guard.recorded || guard.route is None) {
        let route = guard.route->0;
        let catalog = match source.cache_groups {
            Some(groups) => seq![GuardEffect::RecordCatalog(groups)],
            None => Seq::empty(),
        };
        let prompt = if crate::guard::accounts_for(source, route) {
            guard.prompt_effects()
        } else {
            Seq::empty()
        };
        let observed = GuardEffect::ObserveCacheLoss(crate::guard::account(source, route, kind));
        lemma_plain(catalog + prompt);
        lemma_one(observed);
        lemma_concat(catalog + prompt, seq![observed]);
        lemma_ticket(route.barrier);
        lemma_concat(catalog + prompt + seq![observed], dropped_ticket(route.barrier));
    }
}

proof fn lemma_finalize(
    guard: GuardView,
    barriers: BarrierView,
    source: Option<CacheSourceObservation>,
    kind: CacheLossTerminalKind,
)
    ensures
        ({
            let step = guard.finalize_loss(barriers, source, kind);
            &&& guard.recorded || guard.route is None ==> step.guard == guard && step.effects
                == Seq::<GuardEffect>::empty()
            &&& !guard.recorded && guard.route is Some && guard.dispatched ==> accounts(
                step.effects,
            ) == 1 && step.guard.recorded
            &&& !guard.recorded && guard.route is Some && !guard.dispatched && source is None
                ==> accounts(step.effects) == 0 && !step.guard.recorded
            &&& counts(step.effects) == 0
            &&& step.guard.dispatched == guard.dispatched
            &&& step.guard.metrics_recorded == guard.metrics_recorded
            &&& step.guard.lifecycle == guard.lifecycle
            &&& step.guard.freed == guard.freed
        }),
{
    let step = guard.observe_if_ready(barriers, source, kind);
    let settled = guard.settled(barriers);
    assert(accounts(Seq::<GuardEffect>::empty()) == 0);
    assert(counts(Seq::<GuardEffect>::empty()) == 0);
    if !guard.recorded && guard.route is Some {
        lemma_ticket(guard.route->0.barrier);
        if settled.guard.route->0.barrier is None && source is Some {
            lemma_source(settled.guard, source->0, kind);
            lemma_concat(settled.effects, settled.guard.observe_source(source->0, kind).1);
        }
        if !step.guard.recorded && step.guard.dispatched && step.guard.route is Some {
            let route = step.guard.route->0;
            let missing = GuardEffect::ObserveCacheLoss(
                crate::guard::incomplete_record(
                    route.prompt_tokens,
                    kind,
                    CacheLossResult::MissingJoin,
                ),
            );
            lemma_one(missing);
            lemma_concat(step.effects, seq![missing]);
            lemma_ticket(route.barrier);
            lemma_concat(step.effects + seq![missing], dropped_ticket(route.barrier));
        }
    }
}

proof fn lemma_histories(guard: GuardView)
    ensures
        accounts(guard.finalize_history().1) == 0,
        counts(guard.finalize_history().1) == 0,
        accounts(guard.abandon_history().1) == 0,
        counts(guard.abandon_history().1) == 0,
{
    lemma_plain(guard.finalize_history().1);
    lemma_plain(guard.abandon_history().1);
}

proof fn lemma_ends(guard: GuardView)
    ensures
        accounts(guard.count().1) == 0,
        counts(guard.count().1) == if guard.metrics_recorded || !guard.dispatched {
            0nat
        } else {
            1
        },
        accounts(guard.free().1) == 0,
        counts(guard.free().1) == 0,
{
    lemma_one(GuardEffect::CountRequest { output_tokens: guard.cumulative_osl });
    lemma_one(GuardEffect::FreeWorker(guard.worker));
    assert(accounts(Seq::<GuardEffect>::empty()) == 0);
    assert(counts(Seq::<GuardEffect>::empty()) == 0);
}

proof fn lemma_terminal(guard: GuardView, result: CacheLossResult)
    ensures
        ({
            let (after, effects) = guard.terminal_incomplete(result);
            &&& accounts(effects) == if guard.recorded || !guard.dispatched || guard.route is None {
                0nat
            } else {
                1
            }
            &&& counts(effects) == 0
            &&& after.recorded == (guard.recorded || (guard.dispatched && guard.route is Some))
            &&& after.dispatched == guard.dispatched
            &&& after.metrics_recorded == guard.metrics_recorded
            &&& after.freed == guard.freed
        }),
{
    let (after, effects) = guard.terminal_incomplete(result);
    assert(accounts(Seq::<GuardEffect>::empty()) == 0);
    assert(counts(Seq::<GuardEffect>::empty()) == 0);
    if !(guard.recorded || !guard.dispatched || guard.route is None) {
        let route = guard.route->0;
        let marked = match guard.history {
            Some(history) => seq![GuardEffect::MarkHistoryIncomplete { epoch: history.epoch }],
            None => Seq::empty(),
        };
        let observed = GuardEffect::ObserveCacheLoss(
            crate::guard::incomplete_record(
                route.prompt_tokens,
                CacheLossTerminalKind::Cancelled,
                result,
            ),
        );
        lemma_plain(marked);
        lemma_one(observed);
        lemma_concat(marked, seq![observed]);
        lemma_ticket(route.barrier);
        lemma_concat(marked + seq![observed], dropped_ticket(route.barrier));
    }
}

/// A request is accounted for once: after its account has been handed out,
/// nothing hands out another.
pub proof fn law_request_is_accounted_once(
    guard: GuardView,
    barriers: BarrierView,
    source: Option<CacheSourceObservation>,
    kind: CacheLossTerminalKind,
    result: CacheLossResult,
    outcome: Result<TerminalPromptSourceOutcome, WaitError>,
)
    requires
        guard.recorded,
    ensures
        accounts(guard.finalize_loss(barriers, source, kind).effects) == 0,
        guard.finalize_loss(barriers, source, kind).guard.recorded,
        accounts(guard.terminal_incomplete(result).1) == 0,
        guard.terminal_incomplete(result).0.recorded,
        accounts(guard.begin_wait().2) == 0,
        guard.begin_wait().0.recorded,
        accounts(guard.end_wait(outcome).1) == 0,
        guard.end_wait(outcome).0.recorded,
        accounts(guard.finish(barriers, source).effects) == 0,
        guard.finish(barriers, source).guard.recorded,
        accounts(guard.end_abort(barriers, source).effects) == 0,
        guard.end_abort(barriers, source).guard.recorded,
        accounts(guard.dropped(barriers, source).effects) == 0,
        guard.dropped(barriers, source).guard.recorded,
{
    lemma_finalize(guard, barriers, source, kind);
    lemma_finalize(guard, barriers, source, CacheLossTerminalKind::Completed);
    lemma_finalize(guard, barriers, source, CacheLossTerminalKind::Cancelled);
    lemma_finalize(guard, barriers, source, CacheLossTerminalKind::Dropped);
    lemma_terminal(guard, result);
    lemma_terminal(guard, CacheLossResult::TerminalWaitCancelled);
    assert(accounts(Seq::<GuardEffect>::empty()) == 0);
    match outcome {
        Ok(outcome) => {
            let (aborted, history) = guard.finalize_aborted_history(
                outcome.num_computed_output_tokens as nat,
                outcome.num_unobserved_computed_output_tokens as nat,
                outcome.cache_source.complete,
                outcome.generated_history_incomplete_reason is Some,
            );
            lemma_plain(history);
            lemma_source(aborted, outcome.cache_source, CacheLossTerminalKind::Cancelled);
            lemma_concat(
                history,
                aborted.observe_source(
                    outcome.cache_source,
                    CacheLossTerminalKind::Cancelled,
                ).1,
            );
        },
        Err(error) => {
            lemma_terminal(guard, crate::guard::wait_result(error));
        },
    }
    lemma_finish(guard, barriers, source);
    lemma_end_abort(guard, barriers, source);
    lemma_dropped(guard, barriers, source);
}

proof fn lemma_finish(
    guard: GuardView,
    barriers: BarrierView,
    source: Option<CacheSourceObservation>,
)
    ensures
        ({
            let loss = guard.finalize_loss(barriers, source, CacheLossTerminalKind::Completed);
            let step = guard.finish(barriers, source);
            &&& accounts(step.effects) == accounts(loss.effects)
            &&& step.guard.recorded == loss.guard.recorded
            &&& counts(step.effects) == if guard.metrics_recorded || !guard.dispatched {
                0nat
            } else {
                1
            }
            &&& step.guard.freed
            &&& step.guard.metrics_recorded == (guard.metrics_recorded || guard.dispatched)
            &&& step.guard.lifecycle == RequestTerminalLifecycle::Finished
        }),
{
    let loss = guard.finalize_loss(barriers, source, CacheLossTerminalKind::Completed);
    lemma_finalize(guard, barriers, source, CacheLossTerminalKind::Completed);
    lemma_histories(loss.guard);
    let (with_history, history) = loss.guard.finalize_history();
    let finished = GuardView { lifecycle: RequestTerminalLifecycle::Finished, ..with_history };
    lemma_ends(finished);
    let (counted_guard, counted) = finished.count();
    lemma_ends(counted_guard);
    let (freed_guard, freed) = counted_guard.free();
    lemma_concat(loss.effects, history);
    lemma_concat(loss.effects + history, counted);
    lemma_concat(loss.effects + history + counted, freed);
}

proof fn lemma_end_abort(
    guard: GuardView,
    barriers: BarrierView,
    source: Option<CacheSourceObservation>,
)
    ensures
        ({
            let loss = guard.finalize_loss(barriers, source, CacheLossTerminalKind::Cancelled);
            let step = guard.end_abort(barriers, source);
            &&& accounts(step.effects) == accounts(loss.effects)
            &&& step.guard.recorded == loss.guard.recorded
            &&& counts(step.effects) == 0
        }),
{
    let loss = guard.finalize_loss(barriers, source, CacheLossTerminalKind::Cancelled);
    lemma_finalize(guard, barriers, source, CacheLossTerminalKind::Cancelled);
    lemma_histories(loss.guard);
    lemma_concat(loss.effects, loss.guard.finalize_history().1);
}

proof fn lemma_dropped(
    guard: GuardView,
    barriers: BarrierView,
    source: Option<CacheSourceObservation>,
)
    ensures
        ({
            let loss = guard.finalize_loss(barriers, source, CacheLossTerminalKind::Dropped);
            let step = guard.dropped(barriers, source);
            &&& accounts(step.effects) == match guard.lifecycle {
                RequestTerminalLifecycle::Aborting => if guard.recorded || !guard.dispatched
                    || guard.route is None {
                    0nat
                } else {
                    1
                },
                RequestTerminalLifecycle::Open => accounts(loss.effects),
                _ => 0,
            }
            &&& step.guard.recorded == match guard.lifecycle {
                RequestTerminalLifecycle::Aborting => guard.recorded || (guard.dispatched
                    && guard.route is Some),
                RequestTerminalLifecycle::Open => loss.guard.recorded,
                _ => guard.recorded,
            }
            &&& counts(step.effects) == if guard.metrics_recorded || !guard.dispatched {
                0nat
            } else {
                1
            }
            &&& step.guard.freed
        }),
{
    lemma_terminal(guard, CacheLossResult::TerminalWaitCancelled);
    lemma_finalize(guard, barriers, source, CacheLossTerminalKind::Dropped);
    assert(accounts(Seq::<GuardEffect>::empty()) == 0);
    assert(counts(Seq::<GuardEffect>::empty()) == 0);
    let closed = match guard.lifecycle {
        RequestTerminalLifecycle::Aborting => {
            let (after, effects) = guard.terminal_incomplete(
                CacheLossResult::TerminalWaitCancelled,
            );
            GuardStep { guard: after, effects }
        },
        RequestTerminalLifecycle::Open => {
            let loss = guard.finalize_loss(barriers, source, CacheLossTerminalKind::Dropped);
            lemma_histories(loss.guard);
            let (after, history) = loss.guard.abandon_history();
            lemma_concat(loss.effects, history);
            GuardStep { guard: after, effects: loss.effects + history }
        },
        _ => GuardStep { guard, effects: Seq::empty() },
    };
    lemma_ends(closed.guard);
    let (counted_guard, counted) = closed.guard.count();
    lemma_ends(counted_guard);
    let (freed_guard, freed) = counted_guard.free();
    lemma_concat(closed.effects, counted);
    lemma_concat(closed.effects + counted, freed);
    lemma_ticket(ticket_of(freed_guard.route));
    lemma_concat(closed.effects + counted + freed, freed_guard.take_route(None).1);
}

/// Every dispatched request with a route is accounted for, however it ends:
/// finished, aborted, or dropped while open or while being aborted.
pub proof fn law_dispatched_request_is_accounted_for(
    guard: GuardView,
    barriers: BarrierView,
    source: Option<CacheSourceObservation>,
)
    requires
        guard.dispatched,
        guard.route is Some,
        !guard.recorded,
    ensures
        accounts(guard.finish(barriers, source).effects) == 1,
        guard.finish(barriers, source).guard.recorded,
        accounts(guard.end_abort(barriers, source).effects) == 1,
        guard.end_abort(barriers, source).guard.recorded,
        guard.lifecycle == RequestTerminalLifecycle::Open || guard.lifecycle
            == RequestTerminalLifecycle::Aborting ==> accounts(
            guard.dropped(barriers, source).effects,
        ) == 1 && guard.dropped(barriers, source).guard.recorded,
{
    lemma_finish(guard, barriers, source);
    lemma_end_abort(guard, barriers, source);
    lemma_dropped(guard, barriers, source);
    lemma_finalize(guard, barriers, source, CacheLossTerminalKind::Completed);
    lemma_finalize(guard, barriers, source, CacheLossTerminalKind::Cancelled);
    lemma_finalize(guard, barriers, source, CacheLossTerminalKind::Dropped);
}

/// A dispatched request counts once; dropping it after it has finished does
/// nothing but let go of a ticket that is still held.
pub proof fn law_finished_request_is_done(
    guard: GuardView,
    barriers: BarrierView,
    source: Option<CacheSourceObservation>,
    later_barriers: BarrierView,
    later_source: Option<CacheSourceObservation>,
)
    requires
        !guard.metrics_recorded,
    ensures
        counts(guard.finish(barriers, source).effects) == if guard.dispatched {
            1nat
        } else {
            0
        },
        ({
            let finished = guard.finish(barriers, source).guard;
            finished.dropped(later_barriers, later_source) == (GuardStep {
                guard: GuardView { route: None, ..finished },
                effects: dropped_ticket(ticket_of(finished.route)),
            })
        }),
{
    lemma_finish(guard, barriers, source);
    lemma_finalize(guard, barriers, source, CacheLossTerminalKind::Completed);
    let finished = guard.finish(barriers, source).guard;
    assert(finished.dispatched == guard.dispatched);
    assert(finished.dropped(later_barriers, later_source).effects =~= dropped_ticket(
        ticket_of(finished.route),
    ));
}

/// A request that never reached its worker leaves no trace in the metrics.
pub proof fn law_undispatched_request_counts_nothing(guard: GuardView, barriers: BarrierView)
    requires
        !guard.dispatched,
    ensures
        counts(guard.dropped(barriers, None).effects) == 0,
        accounts(guard.dropped(barriers, None).effects) == 0,
        counts(guard.finish(barriers, None).effects) == 0,
        accounts(guard.finish(barriers, None).effects) == 0,
{
    lemma_dropped(guard, barriers, None);
    lemma_finish(guard, barriers, None);
    lemma_finalize(guard, barriers, None, CacheLossTerminalKind::Dropped);
    lemma_finalize(guard, barriers, None, CacheLossTerminalKind::Completed);
    assert(accounts(Seq::<GuardEffect>::empty()) == 0);
}

/// The scheduler is told to forget a tracked request exactly once.
pub proof fn law_worker_is_freed_once(guard: GuardView)
    ensures
        guard.free().0.freed,
        guard.free().0.free().1 == Seq::<GuardEffect>::empty(),
        !guard.freed && guard.scheduler_tracked ==> guard.free().1 == seq![
            GuardEffect::FreeWorker(guard.worker),
        ],
{
}

/// An account that claims to be complete is one: route and worker both
/// accounted for every token, and everything was measured.
pub proof fn law_complete_account_needs_both_sides(
    source: CacheSourceObservation,
    route: CacheLossRouteObservation,
    kind: CacheLossTerminalKind,
)
    requires
        crate::guard::account(source, route, kind).result == CacheLossResult::Complete,
    ensures
        route.complete,
        crate::guard::accounts_for(source, route),
        crate::guard::joins(source, route),
{
}

/// Every account covers the prompt: each of its tokens is attributed exactly
/// once, or counts as incomplete.
pub proof fn law_account_covers_the_prompt(
    source: CacheSourceObservation,
    route: CacheLossRouteObservation,
    kind: CacheLossTerminalKind,
)
    ensures
        crate::guard::account(source, route, kind).funnel.conserves(),
        crate::guard::account(source, route, kind).funnel.f0_backend_prompt_tokens
            == route.prompt_tokens,
        crate::guard::account(source, route, kind).result != CacheLossResult::Complete
            ==> crate::guard::account(source, route, kind).funnel.incomplete_tokens
            == route.prompt_tokens,
{
    let record = crate::guard::account(source, route, kind);
    if record.result == CacheLossResult::Complete {
        crate::funnel::law_empty_funnel_conserves();
        crate::funnel::law_prefix_counts_conserve(
            crate::funnel::CacheLossFunnel::zero(),
            crate::funnel::PrefixCounts {
                reusable: route.reusable_prefix_tokens->0,
                physical: route.physical_prefix_tokens->0,
                router_visible: route.router_visible_prefix_tokens->0,
                selected_resident: route.selected_physical_prefix_tokens->0,
                lookup_resident: crate::funnel::plus(
                    source.gpu_hit_tokens->0,
                    source.cpu_lookup_tokens->0,
                ),
                gpu_hit: source.gpu_hit_tokens->0,
                cpu_hit: source.cpu_hit_tokens->0,
            },
            route.prompt_tokens,
        );
    }
}

// ---- tickets ----

/// A ticket that was held is held on, or let go of once; no other is let go
/// of.
pub open spec fn hands_back(before: Option<u64>, after: Option<u64>, effects: Seq<GuardEffect>)
    -> bool {
    forall|ticket: u64| #[trigger]
        drops(effects, ticket) == if before == Some(ticket) && after != Some(ticket) {
            1nat
        } else {
            0
        }
}

/// The guard keeps its ticket or lets go of it, and takes no other.
#[verifier::opaque]
spec fn yields(before: GuardView, after: GuardView, effects: Seq<GuardEffect>) -> bool {
    &&& ticket_of(after.route) is None || ticket_of(after.route) == ticket_of(before.route)
    &&& hands_back(ticket_of(before.route), ticket_of(after.route), effects)
}

proof fn lemma_drops_joined(left: Seq<GuardEffect>, right: Seq<GuardEffect>, ticket: u64)
    ensures
        drops(left + right, ticket) == drops(left, ticket) + drops(right, ticket),
    decreases right.len(),
{
    if right.len() == 0 {
        assert(left + right =~= left);
    } else {
        lemma_drops_joined(left, right.drop_last(), ticket);
        assert((left + right).drop_last() =~= left + right.drop_last());
    }
}

proof fn lemma_no_drops(effects: Seq<GuardEffect>, ticket: u64)
    requires
        forall|i: int| 0 <= i < effects.len() ==> !(#[trigger] effects[i] is DropTicket),
    ensures
        drops(effects, ticket) == 0,
    decreases effects.len(),
{
    if effects.len() > 0 {
        lemma_no_drops(effects.drop_last(), ticket);
    }
}

/// Effects that drop nothing, before a ticket that is given up.
proof fn lemma_given_up(
    before: Option<u64>,
    after: Option<u64>,
    quiet: Seq<GuardEffect>,
    effects: Seq<GuardEffect>,
)
    requires
        forall|i: int| 0 <= i < quiet.len() ==> !(#[trigger] quiet[i] is DropTicket),
        after != before ==> after is None,
        effects == quiet + if after == before {
            Seq::<GuardEffect>::empty()
        } else {
            dropped_ticket(before)
        },
    ensures
        hands_back(before, after, effects),
{
    assert forall|ticket: u64| #[trigger]
        drops(effects, ticket) == if before == Some(ticket) && after != Some(ticket) {
            1nat
        } else {
            0
        } by {
        let last = if after == before {
            Seq::<GuardEffect>::empty()
        } else {
            dropped_ticket(before)
        };
        lemma_no_drops(quiet, ticket);
        lemma_drops_joined(quiet, last, ticket);
        lemma_drops_one(before, ticket);
        assert(drops(Seq::<GuardEffect>::empty(), ticket) == 0);
    }
}

proof fn lemma_drops_one(held: Option<u64>, ticket: u64)
    ensures
        drops(dropped_ticket(held), ticket) == if held == Some(ticket) {
            1nat
        } else {
            0
        },
{
    assert(drops(Seq::<GuardEffect>::empty(), ticket) == 0);
    if let Some(held) = held {
        let one = seq![GuardEffect::DropTicket(held)];
        assert(one.drop_last() =~= Seq::<GuardEffect>::empty());
    }
}

proof fn lemma_yields_twice(
    before: GuardView,
    between: GuardView,
    after: GuardView,
    first: Seq<GuardEffect>,
    second: Seq<GuardEffect>,
)
    requires
        yields(before, between, first),
        yields(between, after, second),
    ensures
        yields(before, after, first + second),
{
    reveal(yields);
    assert forall|ticket: u64| #[trigger]
        drops(first + second, ticket) == if ticket_of(before.route) == Some(ticket) && ticket_of(
            after.route,
        ) != Some(ticket) {
            1nat
        } else {
            0
        } by {
        lemma_drops_joined(first, second, ticket);
        assert(drops(first, ticket) + drops(second, ticket) == drops(first + second, ticket));
    }
}

/// Nothing happens to the ticket.
proof fn lemma_yields_nothing(before: GuardView, after: GuardView, effects: Seq<GuardEffect>)
    requires
        ticket_of(after.route) == ticket_of(before.route),
        forall|i: int| 0 <= i < effects.len() ==> !(#[trigger] effects[i] is DropTicket),
    ensures
        yields(before, after, effects),
{
    reveal(yields);
    assert(effects + Seq::<GuardEffect>::empty() =~= effects);
    lemma_given_up(ticket_of(before.route), ticket_of(after.route), effects, effects);
}

proof fn lemma_source_yields(
    guard: GuardView,
    source: CacheSourceObservation,
    kind: CacheLossTerminalKind,
)
    ensures
        yields(guard, guard.observe_source(source, kind).0, guard.observe_source(source, kind).1),
{
    reveal(yields);
    let (after, effects) = guard.observe_source(source, kind);
    if guard.recorded || guard.route is None {
        lemma_yields_nothing(guard, after, effects);
    } else {
        let route = guard.route->0;
        let catalog = match source.cache_groups {
            Some(groups) => seq![GuardEffect::RecordCatalog(groups)],
            None => Seq::empty(),
        };
        let prompt = if crate::guard::accounts_for(source, route) {
            guard.prompt_effects()
        } else {
            Seq::empty()
        };
        let observed = GuardEffect::ObserveCacheLoss(crate::guard::account(source, route, kind));
        let quiet = catalog + prompt + seq![observed];
        if route.barrier is None {
            assert(effects =~= quiet + Seq::<GuardEffect>::empty());
        }
        lemma_given_up(route.barrier, None, quiet, effects);
    }
}

proof fn lemma_settled_yields(guard: GuardView, barriers: BarrierView)
    ensures
        yields(guard, guard.settled(barriers).guard, guard.settled(barriers).effects),
{
    reveal(yields);
    let step = guard.settled(barriers);
    if step.effects.len() == 0 {
        lemma_yields_nothing(guard, step.guard, step.effects);
    } else {
        let none = Seq::<GuardEffect>::empty();
        assert(none + step.effects =~= step.effects);
        lemma_given_up(ticket_of(guard.route), None, none, step.effects);
    }
}

proof fn lemma_finalize_yields(
    guard: GuardView,
    barriers: BarrierView,
    source: Option<CacheSourceObservation>,
    kind: CacheLossTerminalKind,
)
    ensures
        ({
            let ready = guard.observe_if_ready(barriers, source, kind);
            yields(guard, ready.guard, ready.effects)
        }),
        ({
            let loss = guard.finalize_loss(barriers, source, kind);
            yields(guard, loss.guard, loss.effects)
        }),
{
    let settled = guard.settled(barriers);
    let ready = guard.observe_if_ready(barriers, source, kind);
    if guard.recorded || guard.route is None {
        lemma_yields_nothing(guard, guard, Seq::empty());
    } else {
        lemma_settled_yields(guard, barriers);
        if settled.guard.route->0.barrier is None && source is Some {
            let (after, effects) = settled.guard.observe_source(source->0, kind);
            lemma_source_yields(settled.guard, source->0, kind);
            lemma_yields_twice(guard, settled.guard, after, settled.effects, effects);
        }
        if !ready.guard.recorded && ready.guard.dispatched && ready.guard.route is Some {
            let route = ready.guard.route->0;
            let missing = GuardEffect::ObserveCacheLoss(
                crate::guard::incomplete_record(
                    route.prompt_tokens,
                    kind,
                    CacheLossResult::MissingJoin,
                ),
            );
            let after = GuardView { route: None, recorded: true, ..ready.guard };
            let rest = seq![missing] + dropped_ticket(route.barrier);
            assert(yields(ready.guard, after, rest)) by {
                reveal(yields);
                if route.barrier is None {
                    assert(rest =~= seq![missing] + Seq::<GuardEffect>::empty());
                }
                lemma_given_up(route.barrier, None, seq![missing], rest);
            }
            lemma_yields_twice(guard, ready.guard, after, ready.effects, rest);
            assert(guard.finalize_loss(barriers, source, kind).effects =~= ready.effects + rest);
        }
    }
}

proof fn lemma_terminal_yields(guard: GuardView, result: CacheLossResult)
    ensures
        yields(
            guard,
            guard.terminal_incomplete(result).0,
            guard.terminal_incomplete(result).1,
        ),
{
    reveal(yields);
    let (after, effects) = guard.terminal_incomplete(result);
    if guard.recorded || !guard.dispatched || guard.route is None {
        lemma_yields_nothing(guard, after, effects);
    } else {
        let ticket = guard.route->0.barrier;
        let quiet = effects.take(effects.len() - dropped_ticket(ticket).len());
        assert(effects =~= quiet + dropped_ticket(ticket));
        lemma_given_up(ticket, None, quiet, effects);
    }
}

/// What a guard holds it lets go of: whenever a step gives up the route or its
/// cut comes out, the ticket is dropped, once; no step drops a ticket that the
/// guard does not hold or goes on holding. Once the guard itself is dropped it
/// holds none.
pub proof fn law_tickets_are_let_go_once(
    guard: GuardView,
    barriers: BarrierView,
    source: Option<CacheSourceObservation>,
    account: CacheSourceObservation,
    kind: CacheLossTerminalKind,
    result: CacheLossResult,
    reported: Result<TerminalPromptSourceOutcome, WaitError>,
    outcome: BarrierOutcome,
    route: Option<CacheLossRouteObservation>,
)
    ensures
        ({
            let held = ticket_of(guard.route);
            let (replaced, taken) = guard.take_route(route);
            let (settled, settling) = guard.settle(outcome);
            let (observed, observing) = guard.observe_source(account, kind);
            let ready = guard.observe_if_ready(barriers, source, kind);
            let loss = guard.finalize_loss(barriers, source, kind);
            let (incomplete, incompletion) = guard.terminal_incomplete(result);
            let (waiting, _, beginning) = guard.begin_wait();
            let (waited, ending) = guard.end_wait(reported);
            let finished = guard.finish(barriers, source);
            let aborted = guard.end_abort(barriers, source);
            let dropped = guard.dropped(barriers, source);
            &&& hands_back(held, ticket_of(replaced.route), taken)
            &&& hands_back(held, ticket_of(settled.route), settling)
            &&& hands_back(held, ticket_of(observed.route), observing)
            &&& hands_back(held, ticket_of(ready.guard.route), ready.effects)
            &&& hands_back(held, ticket_of(loss.guard.route), loss.effects)
            &&& hands_back(held, ticket_of(incomplete.route), incompletion)
            &&& hands_back(held, ticket_of(waiting.route), beginning)
            &&& hands_back(held, ticket_of(waited.route), ending)
            &&& hands_back(held, ticket_of(finished.guard.route), finished.effects)
            &&& hands_back(held, ticket_of(aborted.guard.route), aborted.effects)
            &&& hands_back(held, None, dropped.effects)
            &&& dropped.guard.route is None
        }),
{
    reveal(yields);
    let held = ticket_of(guard.route);
    lemma_taken(guard, route);
    assert(hands_back(held, ticket_of(guard.settle(outcome).0.route), guard.settle(outcome).1)) by {
        let none = Seq::<GuardEffect>::empty();
        let effects = guard.settle(outcome).1;
        assert(none + effects =~= effects);
        lemma_settle_drops_route(guard, outcome);
        lemma_given_up(held, None, none, effects);
    }
    lemma_source_yields(guard, account, kind);
    lemma_finalize_yields(guard, barriers, source, kind);
    lemma_terminal_yields(guard, result);
    lemma_wait_yields(guard, reported);
    lemma_end_yields(guard, barriers, source);
    lemma_drop_yields(guard, barriers, source);
}

proof fn lemma_taken(guard: GuardView, route: Option<CacheLossRouteObservation>)
    ensures
        hands_back(
            ticket_of(guard.route),
            ticket_of(guard.take_route(route).0.route),
            guard.take_route(route).1,
        ),
{
    let held = ticket_of(guard.route);
    let effects = guard.take_route(route).1;
    assert forall|ticket: u64| #[trigger]
        drops(effects, ticket) == if held == Some(ticket) && ticket_of(route) != Some(ticket) {
            1nat
        } else {
            0
        } by {
        lemma_drops_one(held, ticket);
        assert(drops(Seq::<GuardEffect>::empty(), ticket) == 0);
    }
}

/// A settled route waits for nothing.
proof fn lemma_settle_drops_route(guard: GuardView, outcome: BarrierOutcome)
    ensures
        ticket_of(guard.settle(outcome).0.route) is None,
        guard.settle(outcome).1 == dropped_ticket(ticket_of(guard.route)),
{
}

proof fn lemma_wait_yields(
    guard: GuardView,
    reported: Result<TerminalPromptSourceOutcome, WaitError>,
)
    ensures
        yields(guard, guard.begin_wait().0, guard.begin_wait().2),
        yields(guard, guard.end_wait(reported).0, guard.end_wait(reported).1),
{
    if guard.recorded || !guard.dispatched || guard.registration_error is None {
        lemma_yields_nothing(guard, guard.begin_wait().0, guard.begin_wait().2);
    } else {
        let error = guard.registration_error->0;
        let cleared = GuardView { registration_error: None, ..guard };
        lemma_terminal_yields(cleared, crate::guard::registration_result(error));
        reveal(yields);
    }
    match reported {
        Ok(outcome) => {
            let (aborted, history) = guard.finalize_aborted_history(
                outcome.num_computed_output_tokens as nat,
                outcome.num_unobserved_computed_output_tokens as nat,
                outcome.cache_source.complete,
                outcome.generated_history_incomplete_reason is Some,
            );
            lemma_yields_nothing(guard, aborted, history);
            let kind = CacheLossTerminalKind::Cancelled;
            lemma_source_yields(aborted, outcome.cache_source, kind);
            let (after, loss) = aborted.observe_source(outcome.cache_source, kind);
            lemma_yields_twice(guard, aborted, after, history, loss);
        },
        Err(error) => {
            lemma_terminal_yields(guard, crate::guard::wait_result(error));
        },
    }
}

/// Histories, counts and freed workers leave the ticket alone.
proof fn lemma_quiet_steps(guard: GuardView)
    ensures
        yields(guard, guard.finalize_history().0, guard.finalize_history().1),
        yields(guard, guard.abandon_history().0, guard.abandon_history().1),
        yields(guard, guard.count().0, guard.count().1),
        yields(guard, guard.free().0, guard.free().1),
{
    lemma_yields_nothing(guard, guard.finalize_history().0, guard.finalize_history().1);
    lemma_yields_nothing(guard, guard.abandon_history().0, guard.abandon_history().1);
    lemma_yields_nothing(guard, guard.count().0, guard.count().1);
    lemma_yields_nothing(guard, guard.free().0, guard.free().1);
}

/// The end of what a guard does: counting the request and freeing its worker.
proof fn lemma_ends_yield(before: GuardView, guard: GuardView, effects: Seq<GuardEffect>)
    requires
        yields(before, guard, effects),
    ensures
        ({
            let (counted_guard, counted) = guard.count();
            let (freed_guard, freed) = counted_guard.free();
            yields(before, freed_guard, effects + counted + freed)
        }),
{
    let (counted_guard, counted) = guard.count();
    let (freed_guard, freed) = counted_guard.free();
    lemma_quiet_steps(guard);
    lemma_quiet_steps(counted_guard);
    lemma_yields_twice(before, guard, counted_guard, effects, counted);
    lemma_yields_twice(before, counted_guard, freed_guard, effects + counted, freed);
}

proof fn lemma_end_yields(
    guard: GuardView,
    barriers: BarrierView,
    source: Option<CacheSourceObservation>,
)
    ensures
        yields(guard, guard.finish(barriers, source).guard, guard.finish(barriers, source).effects),
        yields(
            guard,
            guard.end_abort(barriers, source).guard,
            guard.end_abort(barriers, source).effects,
        ),
{
    reveal(yields);
    let completed = guard.finalize_loss(barriers, source, CacheLossTerminalKind::Completed);
    lemma_finalize_yields(guard, barriers, source, CacheLossTerminalKind::Completed);
    let (recorded, history) = completed.guard.finalize_history();
    lemma_quiet_steps(completed.guard);
    lemma_yields_twice(guard, completed.guard, recorded, completed.effects, history);
    let ended = GuardView { lifecycle: RequestTerminalLifecycle::Finished, ..recorded };
    lemma_ends_yield(guard, ended, completed.effects + history);

    let cancelled = guard.finalize_loss(barriers, source, CacheLossTerminalKind::Cancelled);
    lemma_finalize_yields(guard, barriers, source, CacheLossTerminalKind::Cancelled);
    lemma_quiet_steps(cancelled.guard);
    let (recorded, history) = cancelled.guard.finalize_history();
    lemma_yields_twice(guard, cancelled.guard, recorded, cancelled.effects, history);
}

proof fn lemma_drop_yields(
    guard: GuardView,
    barriers: BarrierView,
    source: Option<CacheSourceObservation>,
)
    ensures
        yields(
            guard,
            guard.dropped(barriers, source).guard,
            guard.dropped(barriers, source).effects,
        ),
{
    let closed = match guard.lifecycle {
        RequestTerminalLifecycle::Aborting => {
            let result = CacheLossResult::TerminalWaitCancelled;
            lemma_terminal_yields(guard, result);
            let (after, effects) = guard.terminal_incomplete(result);
            GuardStep { guard: after, effects }
        },
        RequestTerminalLifecycle::Open => {
            let kind = CacheLossTerminalKind::Dropped;
            let loss = guard.finalize_loss(barriers, source, kind);
            lemma_finalize_yields(guard, barriers, source, kind);
            lemma_quiet_steps(loss.guard);
            let (after, history) = loss.guard.abandon_history();
            lemma_yields_twice(guard, loss.guard, after, loss.effects, history);
            GuardStep { guard: after, effects: loss.effects + history }
        },
        _ => {
            lemma_yields_nothing(guard, guard, Seq::empty());
            GuardStep { guard, effects: Seq::empty() }
        },
    };
    lemma_ends_yield(guard, closed.guard, closed.effects);
    let (counted_guard, counted) = closed.guard.count();
    let (freed_guard, freed) = counted_guard.free();
    let (after, let_go) = freed_guard.take_route(None);
    lemma_last_ticket(freed_guard);
    lemma_yields_twice(guard, freed_guard, after, closed.effects + counted + freed, let_go);
}

proof fn lemma_last_ticket(guard: GuardView)
    ensures
        yields(guard, guard.take_route(None).0, guard.take_route(None).1),
{
    reveal(yields);
    lemma_taken(guard, None);
}

} // verus!
