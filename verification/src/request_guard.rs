//! Coordinates cleanup, load tracking and accounting of one request.

use vstd::prelude::*;

use crate::barrier::{BarrierCoordinator, BarrierOutcome};
use crate::evidence::CacheOwner;
use crate::funnel::CacheLossFunnel;
use crate::guard::{
    account, dropped_ticket, effect_of, effects_of, incomplete_record, ticket_of, CacheLossRecord,
    CacheLossResult, CacheLossTerminalKind, GuardAction, GuardEffect, GuardStep, GuardView,
    RequestTerminalLifecycle,
};
use crate::prompt_source::{
    CacheSourceObservation, RegistrationError, TerminalPromptSourceOutcome, WaitError,
};
use crate::route::{CacheEvidenceQuality, CacheLossRouteObservation};
use crate::tracker::{CacheHistoryTracker, OutputBlockTracker, OutputBlockUpdate, TrackerView};

verus! {

/// What the tokens of one response call for.
#[derive(Clone, Copy, Debug, PartialEq, Eq, Structural)]
pub struct ItemUpdate {
    /// The scheduler is to be told that prefill is over.
    pub mark_prefill: bool,
    /// These are the first tokens.
    pub first_token: bool,
    /// Output has grown into a new block.
    pub output_block: Option<OutputBlockUpdate>,
}

pub struct RequestGuard {
    worker: CacheOwner,
    scheduler_tracked: bool,
    freed: bool,
    cumulative_osl: usize,
    metrics_recorded: bool,
    first_token_recorded: bool,
    dispatched: bool,
    output_blocks: OutputBlockTracker,
    prefill_marked: bool,
    cache_loss_route: Option<CacheLossRouteObservation>,
    cache_loss_recorded: bool,
    cache_history: Option<CacheHistoryTracker>,
    terminal_prompt_source: Option<u64>,
    terminal_prompt_source_registration_error: Option<RegistrationError>,
    terminal_lifecycle: RequestTerminalLifecycle,
}

pub open spec fn tracker_view(history: Option<CacheHistoryTracker>) -> Option<TrackerView> {
    match history {
        Some(history) => Some(history@),
        None => None,
    }
}

impl View for RequestGuard {
    type V = GuardView;

    closed spec fn view(&self) -> GuardView {
        GuardView {
            worker: self.worker,
            scheduler_tracked: self.scheduler_tracked,
            freed: self.freed,
            cumulative_osl: self.cumulative_osl as nat,
            metrics_recorded: self.metrics_recorded,
            first_token_recorded: self.first_token_recorded,
            dispatched: self.dispatched,
            output_blocks: self.output_blocks,
            prefill_marked: self.prefill_marked,
            route: self.cache_loss_route,
            recorded: self.cache_loss_recorded,
            history: tracker_view(self.cache_history),
            registration: self.terminal_prompt_source,
            registration_error: self.terminal_prompt_source_registration_error,
            lifecycle: self.terminal_lifecycle,
        }
    }
}

/// The funnel of a prompt of which nothing is known.
fn incomplete_loss(prompt_tokens: u64, kind: CacheLossTerminalKind, result: CacheLossResult)
    -> (record: CacheLossRecord)
    ensures
        record == incomplete_record(prompt_tokens, kind, result),
{
    let mut funnel = CacheLossFunnel::default();
    funnel.observe_incomplete(prompt_tokens);
    CacheLossRecord { funnel, kind, quality: CacheEvidenceQuality::Incomplete, result }
}

/// The account that follows from what routing and the worker saw.
pub fn cache_loss_record(
    source: &CacheSourceObservation,
    route: &CacheLossRouteObservation,
    kind: CacheLossTerminalKind,
) -> (record: CacheLossRecord)
    ensures
        record == account(*source, *route, kind),
{
    if !route.complete {
        return incomplete_loss(route.prompt_tokens, kind, CacheLossResult::IncompleteRoute);
    }
    if !(source.complete && source.prompt_tokens == Some(route.prompt_tokens)) {
        return incomplete_loss(route.prompt_tokens, kind, CacheLossResult::IncompleteWorker);
    }
    match (
        (source.gpu_hit_tokens, source.cpu_hit_tokens, source.cpu_lookup_tokens),
        (
            route.reusable_prefix_tokens,
            route.physical_prefix_tokens,
            route.router_visible_prefix_tokens,
            route.selected_physical_prefix_tokens,
        ),
    ) {
        (
            (Some(gpu_hits), Some(cpu_hits), Some(cpu_lookup)),
            (Some(reusable), Some(physical), Some(router_visible), Some(selected)),
        ) => {
            let mut funnel = CacheLossFunnel::default();
            funnel.observe_prefix_counts(
                route.prompt_tokens,
                reusable,
                physical,
                router_visible,
                selected,
                gpu_hits.saturating_add(cpu_lookup),
                gpu_hits,
                cpu_hits,
            );
            CacheLossRecord {
                funnel,
                kind,
                quality: route.quality,
                result: CacheLossResult::Complete,
            }
        },
        _ => incomplete_loss(route.prompt_tokens, kind, CacheLossResult::MissingJoin),
    }
}

/// Actions one after the other.
fn joined(first: Vec<GuardAction>, second: Vec<GuardAction>) -> (actions: Vec<GuardAction>)
    ensures
        effects_of(actions@) == effects_of(first@) + effects_of(second@),
{
    let mut actions = first;
    let mut second = second;
    let ghost before = actions@;
    let ghost after = second@;
    actions.append(&mut second);
    assert(effects_of(actions@) =~= effects_of(before) + effects_of(after));
    actions
}

fn no_actions() -> (actions: Vec<GuardAction>)
    ensures
        effects_of(actions@) == Seq::<GuardEffect>::empty(),
{
    let actions: Vec<GuardAction> = Vec::new();
    assert(effects_of(actions@) =~= Seq::<GuardEffect>::empty());
    actions
}

fn one_action(action: GuardAction) -> (actions: Vec<GuardAction>)
    ensures
        effects_of(actions@) == seq![effect_of(action)],
{
    let mut actions: Vec<GuardAction> = Vec::new();
    actions.push(action);
    assert(effects_of(actions@) =~= seq![effect_of(action)]);
    actions
}

fn ticket_actions(ticket: Option<u64>) -> (actions: Vec<GuardAction>)
    ensures
        effects_of(actions@) == dropped_ticket(ticket),
{
    match ticket {
        Some(ticket) => one_action(GuardAction::DropTicket(ticket)),
        None => no_actions(),
    }
}

impl RequestGuard {
    pub closed spec fn wf(&self) -> bool {
        &&& self.output_blocks.block_size > 0
        &&& match self.cache_history {
            Some(history) => history.wf(),
            None => true,
        }
    }

    /// A guard for a request that `worker` was selected for. `history_epoch`
    /// is the current history epoch where a history is kept. Returns true
    /// where the request cannot be part of it: that history is then
    /// incomplete.
    pub fn new(
        worker: CacheOwner,
        prompt: Vec<u32>,
        block_size: usize,
        expected_output_tokens: Option<u32>,
        scheduler_tracked: bool,
        router_track_output_blocks: bool,
        history_epoch: Option<u64>,
        multimodal: bool,
    ) -> (created: (Self, bool))
        requires
            block_size > 0,
        ensures
            created.0.wf(),
            created.1 == (history_epoch is Some && multimodal),
            created.0@.worker == worker,
            created.0@.scheduler_tracked == scheduler_tracked,
            !created.0@.freed,
            created.0@.cumulative_osl == 0,
            !created.0@.metrics_recorded,
            !created.0@.first_token_recorded,
            !created.0@.dispatched,
            created.0@.output_blocks == (OutputBlockTracker {
                track_output_blocks: scheduler_tracked && router_track_output_blocks,
                current_total_blocks: crate::tracker::blocks_of(
                    prompt@.len(),
                    block_size as nat,
                ) as usize,
                isl_tokens: prompt@.len() as usize,
                block_size,
                expected_output_tokens,
            }),
            !created.0@.prefill_marked,
            created.0@.route is None,
            !created.0@.recorded,
            created.0@.history == if history_epoch is Some && !multimodal {
                Some(
                    TrackerView {
                        epoch: history_epoch->0,
                        prompt: prompt@,
                        branches: crate::branches::BranchesView::empty(),
                        prompt_recorded: false,
                        finalized: false,
                    },
                )
            } else {
                None
            },
            created.0@.registration is None,
            created.0@.registration_error is None,
            created.0@.lifecycle == RequestTerminalLifecycle::Open,
    {
        let output_blocks = OutputBlockTracker::new(
            scheduler_tracked && router_track_output_blocks,
            prompt.len(),
            block_size,
            expected_output_tokens,
        );
        let mut history_incomplete = false;
        let cache_history: Option<CacheHistoryTracker> = match history_epoch {
            Some(epoch) => if multimodal {
                history_incomplete = true;
                None
            } else {
                Some(CacheHistoryTracker::new(prompt, epoch))
            },
            None => None,
        };
        (
            RequestGuard {
                worker,
                scheduler_tracked,
                freed: false,
                cumulative_osl: 0,
                metrics_recorded: false,
                first_token_recorded: false,
                dispatched: false,
                output_blocks,
                prefill_marked: false,
                cache_loss_route: None,
                cache_loss_recorded: false,
                cache_history,
                terminal_prompt_source: None,
                terminal_prompt_source_registration_error: None,
                terminal_lifecycle: RequestTerminalLifecycle::Open,
            },
            history_incomplete,
        )
    }

    /// Takes the observation of the request's route. Returns true where the
    /// worker's account is to be registered for.
    pub fn set_cache_loss_route(&mut self, observation: Option<CacheLossRouteObservation>)
        -> (taken: (bool, Vec<GuardAction>))
        requires
            old(self).wf(),
        ensures
            final(self).wf(),
            (final(self)@, effects_of(taken.1@)) == old(self)@.take_route(observation),
            taken.0 == (observation is Some && old(self)@.scheduler_tracked),
    {
        let register = observation.is_some() && self.scheduler_tracked;
        let before = self.route_ticket();
        self.cache_loss_route = observation;
        let dropped = if self.route_ticket() == before {
            None
        } else {
            before
        };
        (register, ticket_actions(dropped))
    }

    /// Takes what registering came to.
    pub fn set_registration(&mut self, registration: Result<u64, RegistrationError>)
        requires
            old(self).wf(),
        ensures
            final(self).wf(),
            final(self)@ == match registration {
                Ok(nonce) => GuardView { registration: Some(nonce), ..old(self)@ },
                Err(error) => GuardView { registration_error: Some(error), ..old(self)@ },
            },
    {
        match registration {
            Ok(nonce) => {
                self.terminal_prompt_source = Some(nonce);
            },
            Err(error) => {
                self.terminal_prompt_source_registration_error = Some(error);
            },
        }
    }

    pub fn terminal_prompt_source_nonce(&self) -> (nonce: Option<u64>)
        ensures
            nonce == self@.registration,
    {
        self.terminal_prompt_source
    }

    pub fn mark_dispatched(&mut self)
        requires
            old(self).wf(),
        ensures
            final(self).wf(),
            final(self)@ == (GuardView { dispatched: true, ..old(self)@ }),
    {
        self.dispatched = true;
    }

    pub fn dispatched(&self) -> (dispatched: bool)
        ensures
            dispatched == self@.dispatched,
    {
        self.dispatched
    }

    pub fn cumulative_osl(&self) -> (tokens: usize)
        ensures
            tokens == self@.cumulative_osl,
    {
        self.cumulative_osl
    }

    /// The cut that the route still waits for.
    pub fn route_ticket(&self) -> (ticket: Option<u64>)
        ensures
            ticket == ticket_of(self@.route),
    {
        match &self.cache_loss_route {
            Some(route) => route.barrier,
            None => None,
        }
    }

    /// Takes the outcome of the route's cut.
    pub fn settle_route(&mut self, outcome: BarrierOutcome) -> (actions: Vec<GuardAction>)
        requires
            old(self).wf(),
            outcome != BarrierOutcome::Pending,
        ensures
            final(self).wf(),
            (final(self)@, effects_of(actions@)) == old(self)@.settle(outcome),
    {
        match self.cache_loss_route.take() {
            None => no_actions(),
            Some(route) => {
                let mut route = route;
                let ticket = route.barrier;
                route.barrier = None;
                route.apply_barrier_outcome(outcome);
                self.cache_loss_route = Some(route);
                ticket_actions(ticket)
            },
        }
    }

    /// Takes the tokens of one response.
    pub fn on_item(&mut self, index: Option<u32>, token_ids: &[u32]) -> (update: ItemUpdate)
        requires
            old(self).wf(),
            old(self)@.output_blocks.isl_tokens + old(self)@.cumulative_osl + token_ids@.len()
                <= usize::MAX,
        ensures
            final(self).wf(),
            final(self)@ == old(self)@.with_output(
                match index {
                    Some(index) => index,
                    None => 0,
                },
                token_ids@,
            ),
            update == (ItemUpdate {
                mark_prefill: !old(self)@.prefill_marked && token_ids@.len() > 0
                    && old(self)@.scheduler_tracked,
                first_token: !old(self)@.first_token_recorded && token_ids@.len() > 0,
                output_block: old(self)@.output_blocks.update(
                    old(self)@.cumulative_osl + token_ids@.len(),
                ),
            }),
    {
        let ghost before = self@;
        let output_index: u32 = match index {
            Some(index) => index,
            None => 0,
        };
        if let Some(history) = self.cache_history.take() {
            let mut history = history;
            history.observe(output_index, token_ids);
            self.cache_history = Some(history);
        }
        let new_tokens: usize = token_ids.len();
        let mut mark_prefill = false;
        if !self.prefill_marked && new_tokens > 0 {
            mark_prefill = self.scheduler_tracked;
            self.prefill_marked = true;
        }
        let mut first_token = false;
        if !self.first_token_recorded && new_tokens > 0 {
            first_token = true;
            self.first_token_recorded = true;
        }
        self.cumulative_osl = self.cumulative_osl + new_tokens;
        let output_block = self.output_blocks.observe(self.cumulative_osl);
        assert(self@ =~= before.with_output(output_index, token_ids@));
        ItemUpdate { mark_prefill, first_token, output_block }
    }

    /// The prompt, if it is due to be recorded.
    fn prompt_actions(&self) -> (actions: Vec<GuardAction>)
        requires
            self.wf(),
        ensures
            effects_of(actions@) == self@.prompt_effects(),
    {
        match &self.cache_history {
            Some(history) => {
                if history.is_prompt_recorded() {
                    no_actions()
                } else {
                    one_action(
                        GuardAction::RecordPrompt {
                            epoch: history.epoch(),
                            tokens: history.prompt(),
                        },
                    )
                }
            },
            None => no_actions(),
        }
    }

    /// Takes whether the prompt could be recorded.
    pub fn set_prompt_recorded(&mut self, recorded: bool)
        requires
            old(self).wf(),
        ensures
            final(self).wf(),
            final(self)@ == match old(self)@.history {
                Some(history) => GuardView {
                    history: Some(TrackerView { prompt_recorded: recorded, ..history }),
                    ..old(self)@
                },
                None => old(self)@,
            },
    {
        if let Some(history) = self.cache_history.take() {
            let mut history = history;
            history.set_prompt_recorded(recorded);
            self.cache_history = Some(history);
        }
    }

    /// Joins the worker's account with the route's. Done once per request.
    pub fn observe_cache_loss_source(
        &mut self,
        source: CacheSourceObservation,
        terminal_kind: CacheLossTerminalKind,
    ) -> (actions: Vec<GuardAction>)
        requires
            old(self).wf(),
        ensures
            final(self).wf(),
            (final(self)@, effects_of(actions@)) == old(self)@.observe_source(
                source,
                terminal_kind,
            ),
    {
        if self.cache_loss_recorded {
            return no_actions();
        }
        let route: CacheLossRouteObservation = match self.cache_loss_route.take() {
            Some(route) => route,
            None => {
                return no_actions();
            },
        };
        self.cache_loss_recorded = true;
        self.terminal_prompt_source = None;
        let record = cache_loss_record(&source, &route, terminal_kind);
        let prompt = if source.complete && source.prompt_tokens == Some(route.prompt_tokens) {
            self.prompt_actions()
        } else {
            no_actions()
        };
        let catalog = match source.cache_groups {
            Some(groups) => one_action(GuardAction::RecordCatalog(groups)),
            None => no_actions(),
        };
        let observed = joined(
            joined(catalog, prompt),
            one_action(GuardAction::ObserveCacheLoss(record)),
        );
        joined(observed, ticket_actions(route.barrier))
    }

    /// Joins the accounts unless the route still waits for its cut, or the
    /// worker's account is not there.
    pub fn observe_cache_loss_if_ready(
        &mut self,
        barriers: &BarrierCoordinator,
        source: Option<CacheSourceObservation>,
        terminal_kind: CacheLossTerminalKind,
    ) -> (actions: Vec<GuardAction>)
        requires
            old(self).wf(),
        ensures
            final(self).wf(),
            (GuardStep { guard: final(self)@, effects: effects_of(actions@) })
                == old(self)@.observe_if_ready(barriers@, source, terminal_kind),
    {
        if self.cache_loss_recorded {
            return no_actions();
        }
        let ticket = self.route_ticket();
        let ready: bool;
        match self.cache_loss_route.take() {
            Some(route) => {
                let mut route = route;
                ready = route.finalize_barrier_if_ready(barriers);
                self.cache_loss_route = Some(route);
            },
            None => {
                return no_actions();
            },
        }
        if !ready {
            return no_actions();
        }
        let dropped = ticket_actions(ticket);
        match source {
            Some(source) => joined(dropped, self.observe_cache_loss_source(source, terminal_kind)),
            None => dropped,
        }
    }

    /// Closes the account of a dispatched request: what could not be joined
    /// counts as incomplete.
    pub fn finalize_cache_loss(
        &mut self,
        barriers: &BarrierCoordinator,
        source: Option<CacheSourceObservation>,
        terminal_kind: CacheLossTerminalKind,
    ) -> (actions: Vec<GuardAction>)
        requires
            old(self).wf(),
        ensures
            final(self).wf(),
            (GuardStep { guard: final(self)@, effects: effects_of(actions@) })
                == old(self)@.finalize_loss(barriers@, source, terminal_kind),
    {
        let actions = self.observe_cache_loss_if_ready(barriers, source, terminal_kind);
        if self.cache_loss_recorded || !self.dispatched {
            return actions;
        }
        match self.cache_loss_route.take() {
            None => actions,
            Some(route) => {
                self.cache_loss_recorded = true;
                let observed = joined(
                    actions,
                    one_action(
                        GuardAction::ObserveCacheLoss(
                            incomplete_loss(
                                route.prompt_tokens,
                                terminal_kind,
                                CacheLossResult::MissingJoin,
                            ),
                        ),
                    ),
                );
                joined(observed, ticket_actions(route.barrier))
            },
        }
    }

    /// Records what a finished request has computed, once.
    pub fn finalize_cache_history(&mut self) -> (actions: Vec<GuardAction>)
        requires
            old(self).wf(),
        ensures
            final(self).wf(),
            (final(self)@, effects_of(actions@)) == old(self)@.finalize_history(),
    {
        let ghost before = self@;
        match self.cache_history.take() {
            None => no_actions(),
            Some(history) => {
                let mut history = history;
                if history.is_finalized() {
                    self.cache_history = Some(history);
                    return no_actions();
                }
                history.set_finalized();
                let epoch: u64 = history.epoch();
                let mut actions: Vec<GuardAction> = Vec::new();
                let mut i: usize = 0;
                while i < history.choices()
                    invariant
                        history.wf(),
                        i <= history@.branches.order.len(),
                        actions@.len() == i,
                        forall|j: int|
                            0 <= j < i ==> effect_of(#[trigger] actions@[j])
                                == (GuardEffect::RecordSequence {
                                epoch,
                                tokens: history@.completed(j),
                            }),
                    decreases history@.branches.order.len() - i,
                {
                    let tokens = history.completed_sequence(i);
                    actions.push(GuardAction::RecordSequence { epoch, tokens });
                    i = i + 1;
                }
                proof {
                    let expected = before.finalize_history().1;
                    assert forall|j: int| 0 <= j < i implies before.history->0.completed(j)
                        == #[trigger] history@.completed(j) by {}
                    assert(effects_of(actions@) =~= expected);
                }
                self.cache_history = Some(history);
                actions
            },
        }
    }

    /// A request that was dropped half-way leaves a gap in the history.
    pub fn abandon_cache_history(&mut self) -> (actions: Vec<GuardAction>)
        requires
            old(self).wf(),
        ensures
            final(self).wf(),
            (final(self)@, effects_of(actions@)) == old(self)@.abandon_history(),
    {
        if !self.dispatched {
            return no_actions();
        }
        match self.cache_history.take() {
            None => no_actions(),
            Some(history) => {
                let mut history = history;
                if history.is_finalized() {
                    self.cache_history = Some(history);
                    return no_actions();
                }
                history.set_finalized();
                let epoch: u64 = history.epoch();
                self.cache_history = Some(history);
                one_action(GuardAction::MarkHistoryIncomplete { epoch })
            },
        }
    }

    /// Records what an aborted request has computed, going by its worker's
    /// account, or marks the history incomplete where that leaves a doubt.
    pub fn finalize_aborted_cache_history(
        &mut self,
        computed_output_tokens: u64,
        unobserved_computed_output_tokens: u64,
        prompt_complete: bool,
        incomplete: bool,
    ) -> (actions: Vec<GuardAction>)
        requires
            old(self).wf(),
        ensures
            final(self).wf(),
            (final(self)@, effects_of(actions@)) == old(self)@.finalize_aborted_history(
                computed_output_tokens as nat,
                unobserved_computed_output_tokens as nat,
                prompt_complete,
                incomplete,
            ),
    {
        match self.cache_history.take() {
            None => no_actions(),
            Some(history) => {
                let mut history = history;
                if history.is_finalized() {
                    self.cache_history = Some(history);
                    return no_actions();
                }
                let epoch: u64 = history.epoch();
                let too_many = computed_output_tokens as u128 > usize::MAX as u128;
                let action = if unobserved_computed_output_tokens > 0 || incomplete || too_many {
                    proof {
                        if too_many {
                            assert(history@.only_output().len() <= usize::MAX) by {
                                history.lemma_output_fits();
                            }
                        }
                    }
                    GuardAction::MarkHistoryIncomplete { epoch }
                } else {
                    match history.aborted_sequence(
                        computed_output_tokens as usize,
                        prompt_complete,
                    ) {
                        Ok(tokens) => GuardAction::RecordSequence { epoch, tokens },
                        Err(_) => GuardAction::MarkHistoryIncomplete { epoch },
                    }
                };
                history.set_finalized();
                self.cache_history = Some(history);
                one_action(action)
            },
        }
    }

    /// The worker's account will not come: the request counts as incomplete,
    /// and so does the history.
    pub fn record_terminal_incomplete(&mut self, result: CacheLossResult) -> (actions: Vec<
        GuardAction,
    >)
        requires
            old(self).wf(),
        ensures
            final(self).wf(),
            (final(self)@, effects_of(actions@)) == old(self)@.terminal_incomplete(result),
    {
        let ghost before = self@;
        if self.cache_loss_recorded || !self.dispatched {
            return no_actions();
        }
        let route: CacheLossRouteObservation = match self.cache_loss_route.take() {
            Some(route) => route,
            None => {
                return no_actions();
            },
        };
        let marked = match self.cache_history.take() {
            Some(history) => {
                let mut history = history;
                history.set_finalized();
                let epoch: u64 = history.epoch();
                self.cache_history = Some(history);
                one_action(GuardAction::MarkHistoryIncomplete { epoch })
            },
            None => no_actions(),
        };
        self.cache_loss_recorded = true;
        let observed = joined(
            marked,
            one_action(
                GuardAction::ObserveCacheLoss(
                    incomplete_loss(
                        route.prompt_tokens,
                        CacheLossTerminalKind::Cancelled,
                        result,
                    ),
                ),
            ),
        );
        let actions = joined(observed, ticket_actions(route.barrier));
        assert(effects_of(actions@) =~= before.terminal_incomplete(result).1);
        actions
    }

    /// What there is to wait for when the request is aborted: the nonce under
    /// which the worker's account is to come.
    pub fn begin_terminal_wait(&mut self) -> (wait: (Option<u64>, Vec<GuardAction>))
        requires
            old(self).wf(),
        ensures
            final(self).wf(),
            (final(self)@, wait.0, effects_of(wait.1@)) == old(self)@.begin_wait(),
    {
        if self.cache_loss_recorded || !self.dispatched {
            return (None, no_actions());
        }
        match self.terminal_prompt_source_registration_error {
            Some(error) => {
                self.terminal_prompt_source_registration_error = None;
                let result = match error {
                    RegistrationError::Full => CacheLossResult::TerminalRegistryFull,
                    RegistrationError::Duplicate => CacheLossResult::TerminalRegistryDuplicate,
                    RegistrationError::Unavailable => CacheLossResult::TerminalRegistryUnavailable,
                };
                (None, self.record_terminal_incomplete(result))
            },
            None => {
                let nonce = self.terminal_prompt_source;
                self.terminal_prompt_source = None;
                (nonce, no_actions())
            },
        }
    }

    /// Takes the worker's account, or why it did not come. The route's cut has
    /// to be settled before an account is taken.
    pub fn end_terminal_wait(
        &mut self,
        result: Result<TerminalPromptSourceOutcome, WaitError>,
    ) -> (actions: Vec<GuardAction>)
        requires
            old(self).wf(),
            result is Ok ==> ticket_of(old(self)@.route) is None,
        ensures
            final(self).wf(),
            (final(self)@, effects_of(actions@)) == old(self)@.end_wait(result),
    {
        match result {
            Ok(outcome) => {
                let history = self.finalize_aborted_cache_history(
                    outcome.num_computed_output_tokens,
                    outcome.num_unobserved_computed_output_tokens,
                    outcome.cache_source.complete,
                    outcome.generated_history_incomplete_reason.is_some(),
                );
                let loss = self.observe_cache_loss_source(
                    outcome.cache_source,
                    CacheLossTerminalKind::Cancelled,
                );
                joined(history, loss)
            },
            Err(WaitError::Timeout) => {
                self.record_terminal_incomplete(CacheLossResult::TerminalTimeout)
            },
            Err(WaitError::PublisherClosed) => {
                self.record_terminal_incomplete(CacheLossResult::TerminalPublisherClosed)
            },
        }
    }

    /// Counts the request, once. One that was never dispatched does not count.
    fn record_metrics(&mut self) -> (actions: Vec<GuardAction>)
        requires
            old(self).wf(),
        ensures
            final(self).wf(),
            (final(self)@, effects_of(actions@)) == old(self)@.count(),
    {
        if self.metrics_recorded || !self.dispatched {
            return no_actions();
        }
        self.metrics_recorded = true;
        one_action(GuardAction::CountRequest { output_tokens: self.cumulative_osl })
    }

    /// Lets the scheduler forget the request, once.
    fn free(&mut self) -> (actions: Vec<GuardAction>)
        requires
            old(self).wf(),
        ensures
            final(self).wf(),
            (final(self)@, effects_of(actions@)) == old(self)@.free(),
    {
        if self.freed {
            return no_actions();
        }
        self.freed = true;
        if self.scheduler_tracked {
            one_action(GuardAction::FreeWorker(self.worker))
        } else {
            no_actions()
        }
    }

    /// The request has completed.
    pub fn finish(
        &mut self,
        barriers: &BarrierCoordinator,
        source: Option<CacheSourceObservation>,
    ) -> (actions: Vec<GuardAction>)
        requires
            old(self).wf(),
        ensures
            final(self).wf(),
            (GuardStep { guard: final(self)@, effects: effects_of(actions@) })
                == old(self)@.finish(barriers@, source),
    {
        let loss = self.finalize_cache_loss(barriers, source, CacheLossTerminalKind::Completed);
        let history = self.finalize_cache_history();
        self.terminal_lifecycle = RequestTerminalLifecycle::Finished;
        let counted = self.record_metrics();
        let freed = self.free();
        joined(joined(joined(loss, history), counted), freed)
    }

    /// The request is being aborted; its worker's account may still come.
    pub fn begin_abort(&mut self) -> (actions: Vec<GuardAction>)
        requires
            old(self).wf(),
        ensures
            final(self).wf(),
            (final(self)@, effects_of(actions@)) == old(self)@.begin_abort(),
    {
        self.terminal_lifecycle = RequestTerminalLifecycle::Aborting;
        self.free()
    }

    /// The request has been aborted.
    pub fn end_abort(
        &mut self,
        barriers: &BarrierCoordinator,
        source: Option<CacheSourceObservation>,
    ) -> (actions: Vec<GuardAction>)
        requires
            old(self).wf(),
        ensures
            final(self).wf(),
            (GuardStep { guard: final(self)@, effects: effects_of(actions@) })
                == old(self)@.end_abort(barriers@, source),
    {
        let loss = self.finalize_cache_loss(barriers, source, CacheLossTerminalKind::Cancelled);
        let history = self.finalize_cache_history();
        self.terminal_lifecycle = RequestTerminalLifecycle::Aborted;
        joined(loss, history)
    }

    /// Nobody holds the request any more.
    pub fn on_drop(
        &mut self,
        barriers: &BarrierCoordinator,
        source: Option<CacheSourceObservation>,
    ) -> (actions: Vec<GuardAction>)
        requires
            old(self).wf(),
        ensures
            final(self).wf(),
            (GuardStep { guard: final(self)@, effects: effects_of(actions@) })
                == old(self)@.dropped(barriers@, source),
    {
        let closed = match self.terminal_lifecycle {
            RequestTerminalLifecycle::Aborting => {
                self.record_terminal_incomplete(CacheLossResult::TerminalWaitCancelled)
            },
            RequestTerminalLifecycle::Open => {
                let loss = self.finalize_cache_loss(
                    barriers,
                    source,
                    CacheLossTerminalKind::Dropped,
                );
                let history = self.abandon_cache_history();
                joined(loss, history)
            },
            _ => no_actions(),
        };
        let counted = self.record_metrics();
        let freed = self.free();
        let let_go = self.set_cache_loss_route(None).1;
        joined(joined(joined(closed, counted), freed), let_go)
    }
}

} // verus!
