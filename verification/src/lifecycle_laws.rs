//! What a request hands out at each turn, told from what it has been through.

use vstd::prelude::*;

use crate::barrier::{BarrierOutcome, BarrierView};
use crate::guard::{
    registration_result, wait_result, CacheLossResult, CacheLossTerminalKind, GuardEffect,
    GuardView, RequestTerminalLifecycle,
};
use crate::prompt_source::{
    CacheSourceObservation, RegistrationError, TerminalPromptSourceOutcome, WaitError,
};
use crate::route::{CacheEvidenceQuality, CacheLossRouteObservation, IncompleteReason};

verus! {

proof fn lemma_joined(left: Seq<GuardEffect>, right: Seq<GuardEffect>, effect: GuardEffect)
    ensures
        (left + right).contains(effect) <==> left.contains(effect) || right.contains(effect),
{
    if left.contains(effect) {
        let i = choose|i: int| 0 <= i < left.len() && left[i] == effect;
        assert((left + right)[i] == effect);
    }
    if right.contains(effect) {
        let i = choose|i: int| 0 <= i < right.len() && right[i] == effect;
        assert((left + right)[left.len() + i] == effect);
    }
    if (left + right).contains(effect) {
        let i = choose|i: int| 0 <= i < (left + right).len() && (left + right)[i] == effect;
        if i < left.len() {
            assert(left[i] == effect);
        } else {
            assert(right[i - left.len()] == effect);
        }
    }
}

proof fn lemma_single(one: GuardEffect, effect: GuardEffect)
    ensures
        seq![one].contains(effect) <==> one == effect,
        !Seq::<GuardEffect>::empty().contains(effect),
{
    assert(seq![one][0] == one);
}

/// What a worker's account may hand out: its catalog, the prompt, an account of
/// the given kind, and the ticket.
pub open spec fn belongs_to_account(effect: GuardEffect, kind: CacheLossTerminalKind) -> bool {
    match effect {
        GuardEffect::RecordCatalog(_) => true,
        GuardEffect::RecordPrompt { .. } => true,
        GuardEffect::ObserveCacheLoss(record) => record.kind == kind,
        GuardEffect::DropTicket(_) => true,
        _ => false,
    }
}

/// Nothing has changed but the account of the request.
pub open spec fn only_accounts(before: GuardView, after: GuardView) -> bool {
    after == GuardView {
        route: after.route,
        recorded: after.recorded,
        registration: after.registration,
        ..before
    }
}

// ---- the route ----

/// A cut that came out exact proves the route; one that failed leaves it
/// incomplete, for that reason. Lengths and hashes stay as they were measured.
pub proof fn law_cut_settles_the_route(
    route: CacheLossRouteObservation,
    outcome: BarrierOutcome,
)
    ensures
        ({
            let after = route.settled(outcome);
            &&& after.prompt_tokens == route.prompt_tokens
            &&& after.reusable_prefix_tokens == route.reusable_prefix_tokens
            &&& after.physical_prefix_tokens == route.physical_prefix_tokens
            &&& after.router_visible_prefix_tokens == route.router_visible_prefix_tokens
            &&& after.selected_physical_prefix_tokens == route.selected_physical_prefix_tokens
            &&& after.group_hashes == route.group_hashes
            &&& after.barrier == route.barrier
            &&& outcome == BarrierOutcome::Exact ==> {
                &&& after.quality == CacheEvidenceQuality::Exact
                &&& after.complete == route.complete
                &&& after.incomplete_reason == route.incomplete_reason
            }
            &&& outcome == BarrierOutcome::Pending ==> after == route
            &&& outcome is Incomplete ==> {
                &&& after.quality == CacheEvidenceQuality::Incomplete
                &&& !after.complete
                &&& after.incomplete_reason == Some(
                    IncompleteReason::Barrier(outcome->Incomplete_0),
                )
            }
        }),
{
}

/// The ticket of the route's cut.
pub open spec fn held_ticket(guard: GuardView) -> Option<u64> {
    if guard.route is Some {
        guard.route->0.barrier
    } else {
        None
    }
}

/// A new route takes the place of the old one, whose ticket is let go of unless
/// the new one holds it too.
pub proof fn law_route_is_replaced(
    guard: GuardView,
    route: Option<CacheLossRouteObservation>,
    effect: GuardEffect,
)
    ensures
        ({
            let (after, effects) = guard.take_route(route);
            &&& after == (GuardView { route, ..guard })
            &&& effects.contains(effect) <==> held_ticket(guard) is Some && held_ticket(guard)
                != held_ticket(after) && effect == GuardEffect::DropTicket(held_ticket(guard)->0)
        }),
{
    if held_ticket(guard) is Some {
        lemma_single(GuardEffect::DropTicket(held_ticket(guard)->0), effect);
    }
}

/// A cut that has come out settles the route and is let go of.
pub proof fn law_route_is_settled_once(
    guard: GuardView,
    outcome: BarrierOutcome,
    effect: GuardEffect,
)
    ensures
        ({
            let (after, effects) = guard.settle(outcome);
            &&& guard.route is None ==> after == guard && effects.len() == 0
            &&& guard.route is Some ==> {
                &&& after.route is Some
                &&& after == (GuardView { route: after.route, ..guard })
                &&& after.route->0.barrier is None
                &&& after.route->0 == (CacheLossRouteObservation {
                    barrier: None,
                    ..guard.route->0
                }).settled(outcome)
                &&& effects.contains(effect) <==> held_ticket(guard) is Some && effect
                    == GuardEffect::DropTicket(held_ticket(guard)->0)
            }
        }),
{
    if held_ticket(guard) is Some {
        lemma_single(GuardEffect::DropTicket(held_ticket(guard)->0), effect);
    }
}

// ---- output ----

/// Output counts its tokens. The first ones end the prefill. The tokens come
/// behind those of their choice.
pub proof fn law_output_counts_its_tokens(guard: GuardView, index: u32, tokens: Seq<u32>)
    ensures
        ({
            let after = guard.with_output(index, tokens);
            &&& after.cumulative_osl == guard.cumulative_osl + tokens.len()
            &&& after.first_token_recorded <==> guard.first_token_recorded || tokens.len() > 0
            &&& after.prefill_marked <==> guard.prefill_marked || tokens.len() > 0
            &&& after.output_blocks == guard.output_blocks.grown(after.cumulative_osl)
            &&& guard.history is None ==> after.history is None
            &&& guard.history is Some ==> {
                &&& after.history is Some
                &&& after.history->0.branches == guard.history->0.branches.observe(index, tokens)
                &&& after.history->0.prompt == guard.history->0.prompt
                &&& after.history->0.epoch == guard.history->0.epoch
                &&& after.history->0.prompt_recorded == guard.history->0.prompt_recorded
                &&& after.history->0.finalized == guard.history->0.finalized
            }
            &&& after.worker == guard.worker
            &&& after.freed == guard.freed
            &&& after.dispatched == guard.dispatched
            &&& after.route == guard.route
            &&& after.recorded == guard.recorded
            &&& after.lifecycle == guard.lifecycle
        }),
{
}

// ---- the account ----

/// The worker accounts for the very prompt that was routed.
pub open spec fn is_of_route(
    source: CacheSourceObservation,
    route: CacheLossRouteObservation,
) -> bool {
    source.complete && source.prompt_tokens == Some(route.prompt_tokens)
}

/// The first account of a routed request is handed out, and the route is done
/// with. With it goes the catalog that the worker shows; the prompt, if it is
/// accounted for and not recorded yet; and the ticket. Further accounts are not.
pub proof fn law_first_account_is_handed_out(
    guard: GuardView,
    source: CacheSourceObservation,
    kind: CacheLossTerminalKind,
    effect: GuardEffect,
)
    ensures
        ({
            let (after, effects) = guard.observe_source(source, kind);
            let first = !guard.recorded && guard.route is Some;
            let route = guard.route->0;
            let history = guard.history->0;
            &&& !first ==> after == guard && effects.len() == 0
            &&& first ==> {
                &&& after == (GuardView {
                    recorded: true,
                    registration: None,
                    route: None,
                    ..guard
                })
                &&& effects.contains(effect) <==> {
                    ||| source.cache_groups is Some && effect == GuardEffect::RecordCatalog(
                        source.cache_groups->0,
                    )
                    ||| is_of_route(source, route) && guard.history is Some
                        && !history.prompt_recorded && effect == (GuardEffect::RecordPrompt {
                        epoch: history.epoch,
                        tokens: history.prompt,
                    })
                    ||| effect == GuardEffect::ObserveCacheLoss(
                        crate::guard::account(source, route, kind),
                    )
                    ||| route.barrier is Some && effect == GuardEffect::DropTicket(
                        route.barrier->0,
                    )
                }
            }
        }),
{
    if !guard.recorded && guard.route is Some {
        let route = guard.route->0;
        let catalog = match source.cache_groups {
            Some(groups) => seq![GuardEffect::RecordCatalog(groups)],
            None => Seq::empty(),
        };
        let prompt = if crate::guard::accounts_for(source, route) {
            guard.prompt_effects()
        } else {
            Seq::empty()
        };
        let loss = seq![
            GuardEffect::ObserveCacheLoss(crate::guard::account(source, route, kind)),
        ];
        let ticket = crate::guard::dropped_ticket(route.barrier);
        lemma_joined(catalog + prompt + loss, ticket, effect);
        lemma_joined(catalog + prompt, loss, effect);
        lemma_joined(catalog, prompt, effect);
        lemma_single(
            GuardEffect::ObserveCacheLoss(crate::guard::account(source, route, kind)),
            effect,
        );
        if let Some(groups) = source.cache_groups {
            lemma_single(GuardEffect::RecordCatalog(groups), effect);
        }
        if let Some(history) = guard.history {
            lemma_single(
                GuardEffect::RecordPrompt { epoch: history.epoch, tokens: history.prompt },
                effect,
            );
        }
        if let Some(held) = route.barrier {
            lemma_single(GuardEffect::DropTicket(held), effect);
        }
        assert(guard.observe_source(source, kind).1 == catalog + prompt + loss + ticket);
    }
}

proof fn lemma_account(
    guard: GuardView,
    barriers: BarrierView,
    source: Option<CacheSourceObservation>,
    kind: CacheLossTerminalKind,
    effect: GuardEffect,
)
    ensures
        ({
            let step = guard.finalize_loss(barriers, source, kind);
            &&& only_accounts(guard, step.guard)
            &&& step.effects.contains(effect) ==> belongs_to_account(effect, kind)
            &&& guard.dispatched ==> step.guard.recorded || step.guard.route is None
        }),
{
    let settled = guard.settled(barriers);
    if held_ticket(guard) is Some {
        lemma_single(GuardEffect::DropTicket(held_ticket(guard)->0), effect);
    }
    assert(settled.effects.contains(effect) ==> effect is DropTicket);
    assert(only_accounts(guard, settled.guard));
    let step = guard.observe_if_ready(barriers, source, kind);
    if !guard.recorded && guard.route is Some && !(settled.guard.route->0.barrier is Some || source
        is None) {
        law_first_account_is_handed_out(settled.guard, source->0, kind, effect);
        lemma_joined(
            settled.effects,
            settled.guard.observe_source(source->0, kind).1,
            effect,
        );
        crate::funnel_laws::law_account_joins_route_and_worker(
            source->0,
            settled.guard.route->0,
            kind,
        );
    }
    assert(step.effects.contains(effect) ==> belongs_to_account(effect, kind));
    if !(step.guard.recorded || !step.guard.dispatched || step.guard.route is None) {
        let route = step.guard.route->0;
        let loss = GuardEffect::ObserveCacheLoss(
            crate::guard::incomplete_record(
                route.prompt_tokens,
                kind,
                CacheLossResult::MissingJoin,
            ),
        );
        let ticket = crate::guard::dropped_ticket(route.barrier);
        lemma_joined(step.effects + seq![loss], ticket, effect);
        lemma_joined(step.effects, seq![loss], effect);
        lemma_single(loss, effect);
        if let Some(held) = route.barrier {
            lemma_single(GuardEffect::DropTicket(held), effect);
        }
    }
}

// ---- the ends ----

/// The history has something to record yet.
pub open spec fn has_unfinished_history(guard: GuardView) -> bool {
    guard.history is Some && !guard.history->0.finalized
}

/// The effect records what was computed for an output choice.
pub open spec fn records_choice(guard: GuardView, effect: GuardEffect) -> bool {
    let history = guard.history->0;
    &&& has_unfinished_history(guard)
    &&& exists|i: int|
        0 <= i < history.branches.order.len() && effect == (GuardEffect::RecordSequence {
            epoch: history.epoch,
            tokens: #[trigger] history.completed(i),
        })
}

pub open spec fn counts_the_request(guard: GuardView, effect: GuardEffect) -> bool {
    &&& guard.dispatched
    &&& !guard.metrics_recorded
    &&& effect == (GuardEffect::CountRequest { output_tokens: guard.cumulative_osl })
}

pub open spec fn frees_the_worker(guard: GuardView, effect: GuardEffect) -> bool {
    &&& !guard.freed
    &&& guard.scheduler_tracked
    &&& effect == GuardEffect::FreeWorker(guard.worker)
}

proof fn lemma_histories(guard: GuardView, effect: GuardEffect)
    ensures
        guard.finalize_history().1.contains(effect) <==> records_choice(guard, effect),
{
    if guard.owes_history() {
        let history = guard.history->0;
        let effects = guard.finalize_history().1;
        if effects.contains(effect) {
            let i = choose|i: int| 0 <= i < effects.len() && effects[i] == effect;
            assert(effects[i] == (GuardEffect::RecordSequence {
                epoch: history.epoch,
                tokens: history.completed(i),
            }));
        }
        if records_choice(guard, effect) {
            let i = choose|i: int|
                0 <= i < history.branches.order.len() && effect == (GuardEffect::RecordSequence {
                    epoch: history.epoch,
                    tokens: #[trigger] history.completed(i),
                });
            assert(effects[i] == effect);
        }
    }
}

proof fn lemma_ends(guard: GuardView, effect: GuardEffect)
    ensures
        guard.count().1.contains(effect) <==> counts_the_request(guard, effect),
        guard.free().1.contains(effect) <==> frees_the_worker(guard, effect),
{
    lemma_single(GuardEffect::CountRequest { output_tokens: guard.cumulative_osl }, effect);
    lemma_single(GuardEffect::FreeWorker(guard.worker), effect);
}

/// A request that finishes is accounted for as completed, records what was
/// computed for each of its outputs, is counted with its output tokens if it was
/// dispatched, and frees its worker; each as far as that has not been done.
pub proof fn law_finished_request_leaves_its_records(
    guard: GuardView,
    barriers: BarrierView,
    source: Option<CacheSourceObservation>,
    effect: GuardEffect,
)
    ensures
        ({
            let step = guard.finish(barriers, source);
            &&& step.guard.lifecycle == RequestTerminalLifecycle::Finished
            &&& step.guard.freed
            &&& guard.dispatched ==> step.guard.metrics_recorded
            &&& !has_unfinished_history(step.guard)
            &&& step.effects.contains(effect) ==> {
                ||| belongs_to_account(effect, CacheLossTerminalKind::Completed)
                ||| records_choice(guard, effect)
                ||| counts_the_request(guard, effect)
                ||| frees_the_worker(guard, effect)
            }
            &&& records_choice(guard, effect) ==> step.effects.contains(effect)
            &&& counts_the_request(guard, effect) ==> step.effects.contains(effect)
            &&& frees_the_worker(guard, effect) ==> step.effects.contains(effect)
        }),
{
    let loss = guard.finalize_loss(barriers, source, CacheLossTerminalKind::Completed);
    lemma_account(guard, barriers, source, CacheLossTerminalKind::Completed, effect);
    let (a, history) = loss.guard.finalize_history();
    let (b, counted) = (GuardView {
        lifecycle: RequestTerminalLifecycle::Finished,
        ..a
    }).count();
    let (c, freed) = b.free();
    lemma_histories(loss.guard, effect);
    lemma_ends(GuardView { lifecycle: RequestTerminalLifecycle::Finished, ..a }, effect);
    lemma_ends(b, effect);
    lemma_joined(loss.effects + history + counted, freed, effect);
    lemma_joined(loss.effects + history, counted, effect);
    lemma_joined(loss.effects, history, effect);
}

/// A request that is aborted frees its worker at once. At the end of it, it is
/// accounted for as cancelled and records what was computed for each output.
pub proof fn law_aborted_request_leaves_its_records(
    guard: GuardView,
    barriers: BarrierView,
    source: Option<CacheSourceObservation>,
    effect: GuardEffect,
)
    ensures
        ({
            let (after, effects) = guard.begin_abort();
            &&& after == (GuardView {
                lifecycle: RequestTerminalLifecycle::Aborting,
                freed: true,
                ..guard
            })
            &&& effects.contains(effect) <==> frees_the_worker(guard, effect)
        }),
        ({
            let step = guard.end_abort(barriers, source);
            &&& step.guard.lifecycle == RequestTerminalLifecycle::Aborted
            &&& step.effects.contains(effect) ==> belongs_to_account(
                effect,
                CacheLossTerminalKind::Cancelled,
            ) || records_choice(guard, effect)
            &&& records_choice(guard, effect) ==> step.effects.contains(effect)
        }),
{
    lemma_ends(GuardView { lifecycle: RequestTerminalLifecycle::Aborting, ..guard }, effect);
    let loss = guard.finalize_loss(barriers, source, CacheLossTerminalKind::Cancelled);
    lemma_account(guard, barriers, source, CacheLossTerminalKind::Cancelled, effect);
    lemma_histories(loss.guard, effect);
    lemma_joined(loss.effects, loss.guard.finalize_history().1, effect);
}

/// A request that is dropped is counted and frees its worker as far as that has
/// not been done. If it was still open, it is accounted for as dropped, and what
/// the history lacks of it proves nothing; if it was being aborted, its wait was
/// cancelled.
pub proof fn law_dropped_request_leaves_nothing_open(
    guard: GuardView,
    barriers: BarrierView,
    source: Option<CacheSourceObservation>,
    effect: GuardEffect,
)
    ensures
        ({
            let step = guard.dropped(barriers, source);
            let open = guard.lifecycle == RequestTerminalLifecycle::Open;
            let aborting = guard.lifecycle == RequestTerminalLifecycle::Aborting;
            let marks = effect == (GuardEffect::MarkHistoryIncomplete {
                epoch: guard.history->0.epoch,
            });
            &&& step.guard.freed
            &&& step.guard.route is None
            &&& guard.dispatched ==> step.guard.metrics_recorded
            &&& counts_the_request(guard, effect) ==> step.effects.contains(effect)
            &&& frees_the_worker(guard, effect) ==> step.effects.contains(effect)
            &&& open && guard.dispatched && has_unfinished_history(guard) && marks
                ==> step.effects.contains(effect)
            &&& effect is RecordSequence ==> !step.effects.contains(effect)
            &&& effect is ObserveCacheLoss && step.effects.contains(effect) ==> {
                let record = effect->ObserveCacheLoss_0;
                &&& open || aborting
                &&& open ==> record.kind == CacheLossTerminalKind::Dropped
                &&& aborting ==> record.kind == CacheLossTerminalKind::Cancelled && record.result
                    == CacheLossResult::TerminalWaitCancelled
            }
            &&& effect is CountRequest && step.effects.contains(effect) ==> counts_the_request(
                guard,
                effect,
            )
            &&& effect is FreeWorker && step.effects.contains(effect) ==> frees_the_worker(
                guard,
                effect,
            )
        }),
{
    let (ended, effects) = match guard.lifecycle {
        RequestTerminalLifecycle::Aborting => {
            law_failed_wait_is_accounted_for(
                guard,
                CacheLossResult::TerminalWaitCancelled,
                effect,
            );
            guard.terminal_incomplete(CacheLossResult::TerminalWaitCancelled)
        },
        RequestTerminalLifecycle::Open => {
            let loss = guard.finalize_loss(barriers, source, CacheLossTerminalKind::Dropped);
            lemma_account(guard, barriers, source, CacheLossTerminalKind::Dropped, effect);
            let (after, history) = loss.guard.abandon_history();
            lemma_joined(loss.effects, history, effect);
            if loss.guard.owes_history() {
                lemma_single(
                    GuardEffect::MarkHistoryIncomplete { epoch: guard.history->0.epoch },
                    effect,
                );
            }
            (after, loss.effects + history)
        },
        _ => (guard, Seq::<GuardEffect>::empty()),
    };
    let (counted, count) = ended.count();
    let (freed, free) = counted.free();
    let (gone, let_go) = freed.take_route(None);
    lemma_ends(ended, effect);
    lemma_ends(counted, effect);
    law_route_is_replaced(freed, None, effect);
    lemma_joined(effects + count + free, let_go, effect);
    lemma_joined(effects + count, free, effect);
    lemma_joined(effects, count, effect);
    assert(guard.dropped(barriers, source).effects == effects + count + free + let_go);
}

/// A dispatched request whose worker's account cannot come is accounted for as
/// cancelled, with that result; what the history lacks of it proves nothing.
pub proof fn law_failed_wait_is_accounted_for(
    guard: GuardView,
    result: CacheLossResult,
    effect: GuardEffect,
)
    ensures
        ({
            let (after, effects) = guard.terminal_incomplete(result);
            let due = !guard.recorded && guard.dispatched && guard.route is Some;
            &&& !due ==> after == guard && effects.len() == 0
            &&& due ==> {
                &&& after.recorded
                &&& after.route is None
                &&& after.registration == guard.registration
                &&& !has_unfinished_history(after)
                &&& after.freed == guard.freed
                &&& after.metrics_recorded == guard.metrics_recorded
                &&& after.cumulative_osl == guard.cumulative_osl
                &&& after.worker == guard.worker
                &&& after.scheduler_tracked == guard.scheduler_tracked
                &&& after.dispatched
                &&& guard.history is Some && effect == (GuardEffect::MarkHistoryIncomplete {
                    epoch: guard.history->0.epoch,
                }) ==> effects.contains(effect)
                &&& effects.contains(effect) ==> effect is MarkHistoryIncomplete || effect
                    is ObserveCacheLoss || effect is DropTicket
                &&& effect is ObserveCacheLoss && effects.contains(effect) ==> {
                    let record = effect->ObserveCacheLoss_0;
                    &&& record.kind == CacheLossTerminalKind::Cancelled
                    &&& record.result == result
                    &&& record.quality == CacheEvidenceQuality::Incomplete
                    &&& record.funnel.f0_backend_prompt_tokens == guard.route->0.prompt_tokens
                    &&& record.funnel.incomplete_tokens == guard.route->0.prompt_tokens
                }
                &&& exists|i: int|
                    0 <= i < effects.len() && #[trigger] effects[i] is ObserveCacheLoss
            }
        }),
{
    if !guard.recorded && guard.dispatched && guard.route is Some {
        let marked = match guard.history {
            Some(history) => seq![
                GuardEffect::MarkHistoryIncomplete { epoch: history.epoch },
            ],
            None => Seq::empty(),
        };
        let loss = GuardEffect::ObserveCacheLoss(
            crate::guard::incomplete_record(
                guard.route->0.prompt_tokens,
                CacheLossTerminalKind::Cancelled,
                result,
            ),
        );
        let ticket = crate::guard::dropped_ticket(guard.route->0.barrier);
        let effects = guard.terminal_incomplete(result).1;
        assert(effects == marked + seq![loss] + ticket);
        lemma_joined(marked + seq![loss], ticket, effect);
        lemma_joined(marked, seq![loss], effect);
        lemma_single(loss, effect);
        if let Some(history) = guard.history {
            lemma_single(
                GuardEffect::MarkHistoryIncomplete { epoch: history.epoch },
                effect,
            );
        }
        if let Some(held) = guard.route->0.barrier {
            lemma_single(GuardEffect::DropTicket(held), effect);
        }
        assert(effects[marked.len() as int] == loss);
    }
}

/// A dispatched request that has no account yet waits for it under its nonce;
/// if it could not be registered, it is accounted for with that error instead.
pub proof fn law_wait_is_for_the_registered_nonce(guard: GuardView)
    ensures
        ({
            let (after, nonce, effects) = guard.begin_wait();
            let due = !guard.recorded && guard.dispatched;
            &&& !due ==> after == guard && nonce is None && effects.len() == 0
            &&& due && guard.registration_error is None ==> {
                &&& nonce == guard.registration
                &&& after == (GuardView { registration: None, ..guard })
                &&& effects.len() == 0
            }
            &&& due && guard.registration_error is Some ==> {
                &&& nonce is None
                &&& (after, effects) == (GuardView {
                    registration_error: None,
                    ..guard
                }).terminal_incomplete(
                    match guard.registration_error->0 {
                        RegistrationError::Full => CacheLossResult::TerminalRegistryFull,
                        RegistrationError::Duplicate => CacheLossResult::TerminalRegistryDuplicate,
                        RegistrationError::Unavailable =>
                            CacheLossResult::TerminalRegistryUnavailable,
                    },
                )
            }
        }),
{
}

/// What was computed of an aborted request is recorded if it is known exactly;
/// otherwise what the history lacks of it proves nothing.
pub proof fn law_aborted_history_is_recorded_if_known(
    guard: GuardView,
    computed: nat,
    unobserved: nat,
    prompt_complete: bool,
    incomplete: bool,
)
    ensures
        ({
            let (after, effects) = guard.finalize_aborted_history(
                computed,
                unobserved,
                prompt_complete,
                incomplete,
            );
            let history = guard.history->0;
            let aborted = history.aborted(computed, prompt_complete);
            &&& !has_unfinished_history(guard) ==> after == guard && effects.len() == 0
            &&& has_unfinished_history(guard) ==> {
                &&& !has_unfinished_history(after)
                &&& after.route == guard.route
                &&& after.recorded == guard.recorded
                &&& effects.len() == 1
                &&& aborted is Ok && unobserved == 0 && !incomplete ==> effects[0] == (
                GuardEffect::RecordSequence { epoch: history.epoch, tokens: aborted->Ok_0 })
                &&& aborted is Err || unobserved > 0 || incomplete ==> effects[0] == (
                GuardEffect::MarkHistoryIncomplete { epoch: history.epoch })
            }
        }),
{
}

/// An account that has come is used for the history and the loss, as cancelled;
/// one that has not is accounted for by why.
pub proof fn law_end_of_the_wait(
    guard: GuardView,
    outcome: TerminalPromptSourceOutcome,
    error: WaitError,
)
    ensures
        ({
            let history = guard.finalize_aborted_history(
                outcome.num_computed_output_tokens as nat,
                outcome.num_unobserved_computed_output_tokens as nat,
                outcome.cache_source.complete,
                outcome.generated_history_incomplete_reason is Some,
            );
            let loss = history.0.observe_source(
                outcome.cache_source,
                CacheLossTerminalKind::Cancelled,
            );
            guard.end_wait(Ok(outcome)) == (loss.0, history.1 + loss.1)
        }),
        guard.end_wait(Err(error)) == guard.terminal_incomplete(
            match error {
                WaitError::Timeout => CacheLossResult::TerminalTimeout,
                WaitError::PublisherClosed => CacheLossResult::TerminalPublisherClosed,
            },
        ),
        wait_result(WaitError::Timeout) != wait_result(WaitError::PublisherClosed),
        registration_result(RegistrationError::Full) != registration_result(
            RegistrationError::Duplicate,
        ),
{
}

/// A cut that is still waited for: its outcome is not known, or it has none yet.
pub open spec fn is_waited_for(guard: GuardView, barriers: BarrierView) -> bool {
    held_ticket(guard) is Some && (!barriers.outcomes.contains_key(held_ticket(guard)->0)
        || barriers.outcomes[held_ticket(guard)->0] == BarrierOutcome::Pending)
}

/// The account waits for the cut and for the worker. A cut that has come out is
/// settled first; only then is the account made of the settled route.
pub proof fn law_account_waits_for_the_cut(
    guard: GuardView,
    barriers: BarrierView,
    source: Option<CacheSourceObservation>,
    kind: CacheLossTerminalKind,
)
    ensures
        ({
            let step = guard.observe_if_ready(barriers, source, kind);
            let due = !guard.recorded && guard.route is Some;
            let settled = if held_ticket(guard) is Some {
                guard.settle(barriers.outcomes[held_ticket(guard)->0])
            } else {
                (guard, Seq::empty())
            };
            &&& !due || is_waited_for(guard, barriers) ==> step.guard == guard
                && step.effects.len() == 0
            &&& due && !is_waited_for(guard, barriers) && source is None ==> step.guard
                == settled.0 && step.effects == settled.1
            &&& due && !is_waited_for(guard, barriers) && source is Some ==> {
                let account = settled.0.observe_source(source->0, kind);
                step.guard == account.0 && step.effects == settled.1 + account.1
            }
        }),
{
}

/// At the end nothing is waited for: a dispatched request whose cut has not come
/// out, or whose worker has not accounted for it, is one that was never joined.
pub proof fn law_unjoined_request_is_accounted_for(
    guard: GuardView,
    barriers: BarrierView,
    source: Option<CacheSourceObservation>,
    kind: CacheLossTerminalKind,
    effect: GuardEffect,
)
    requires
        !guard.recorded,
        guard.dispatched,
        guard.route is Some,
        is_waited_for(guard, barriers) || source is None,
    ensures
        ({
            let step = guard.finalize_loss(barriers, source, kind);
            &&& step.guard.recorded
            &&& step.guard.route is None
            &&& effect is ObserveCacheLoss && step.effects.contains(effect) ==> {
                let record = effect->ObserveCacheLoss_0;
                &&& record.kind == kind
                &&& record.result == CacheLossResult::MissingJoin
                &&& record.quality == CacheEvidenceQuality::Incomplete
                &&& record.funnel.f0_backend_prompt_tokens == guard.route->0.prompt_tokens
                &&& record.funnel.incomplete_tokens == guard.route->0.prompt_tokens
            }
        }),
{
    law_account_waits_for_the_cut(guard, barriers, source, kind);
    let step = guard.observe_if_ready(barriers, source, kind);
    if held_ticket(guard) is Some {
        lemma_single(GuardEffect::DropTicket(held_ticket(guard)->0), effect);
    }
    let route = step.guard.route->0;
    let loss = GuardEffect::ObserveCacheLoss(
        crate::guard::incomplete_record(route.prompt_tokens, kind, CacheLossResult::MissingJoin),
    );
    let ticket = crate::guard::dropped_ticket(route.barrier);
    lemma_joined(step.effects + seq![loss], ticket, effect);
    lemma_joined(step.effects, seq![loss], effect);
    lemma_single(loss, effect);
    if let Some(held) = route.barrier {
        lemma_single(GuardEffect::DropTicket(held), effect);
    }
}

} // verus!
