//! The life of a routed request, from selection to its last metric.

use vstd::prelude::*;

use crate::barrier::{BarrierOutcome, BarrierView};
use crate::catalog::CacheGroupObservation;
use crate::evidence::CacheOwner;
use crate::funnel::{plus, CacheLossFunnel, PrefixCounts};
use crate::prompt_source::{
    CacheSourceObservation, RegistrationError, TerminalPromptSourceOutcome, WaitError,
};
use crate::route::{CacheEvidenceQuality, CacheLossRouteObservation};
use crate::tracker::{OutputBlockTracker, TrackerView};

verus! {

/// How a request came to its end.
#[derive(Clone, Copy, Debug, PartialEq, Eq, Structural)]
pub enum CacheLossTerminalKind {
    Completed,
    Cancelled,
    Dropped,
}

/// What the account of a request came to.
#[derive(Clone, Copy, Debug, PartialEq, Eq, Structural)]
pub enum CacheLossResult {
    Complete,
    IncompleteRoute,
    IncompleteWorker,
    MissingJoin,
    TerminalRegistryFull,
    TerminalRegistryDuplicate,
    TerminalRegistryUnavailable,
    TerminalTimeout,
    TerminalPublisherClosed,
    TerminalWaitCancelled,
}

impl CacheLossResult {
    pub open spec fn name(self) -> Seq<char> {
        match self {
            Self::Complete => "complete"@,
            Self::IncompleteRoute => "incomplete_route"@,
            Self::IncompleteWorker => "incomplete_worker"@,
            Self::MissingJoin => "missing_join"@,
            Self::TerminalRegistryFull => "terminal_registry_full"@,
            Self::TerminalRegistryDuplicate => "terminal_registry_duplicate"@,
            Self::TerminalRegistryUnavailable => "terminal_registry_unavailable"@,
            Self::TerminalTimeout => "terminal_timeout"@,
            Self::TerminalPublisherClosed => "terminal_publisher_closed"@,
            Self::TerminalWaitCancelled => "terminal_wait_cancelled"@,
        }
    }

    pub fn label(self) -> (label: &'static str)
        ensures
            label@ == self.name(),
    {
        match self {
            Self::Complete => "complete",
            Self::IncompleteRoute => "incomplete_route",
            Self::IncompleteWorker => "incomplete_worker",
            Self::MissingJoin => "missing_join",
            Self::TerminalRegistryFull => "terminal_registry_full",
            Self::TerminalRegistryDuplicate => "terminal_registry_duplicate",
            Self::TerminalRegistryUnavailable => "terminal_registry_unavailable",
            Self::TerminalTimeout => "terminal_timeout",
            Self::TerminalPublisherClosed => "terminal_publisher_closed",
            Self::TerminalWaitCancelled => "terminal_wait_cancelled",
        }
    }
}

/// The result that a refused registration leads to.
pub open spec fn registration_result(error: RegistrationError) -> CacheLossResult {
    match error {
        RegistrationError::Full => CacheLossResult::TerminalRegistryFull,
        RegistrationError::Duplicate => CacheLossResult::TerminalRegistryDuplicate,
        RegistrationError::Unavailable => CacheLossResult::TerminalRegistryUnavailable,
    }
}

/// The result that a failed wait leads to.
pub open spec fn wait_result(error: WaitError) -> CacheLossResult {
    match error {
        WaitError::Timeout => CacheLossResult::TerminalTimeout,
        WaitError::PublisherClosed => CacheLossResult::TerminalPublisherClosed,
    }
}

#[derive(Clone, Copy, Debug, PartialEq, Eq, Structural)]
pub enum RequestTerminalLifecycle {
    Open,
    Aborting,
    Finished,
    Aborted,
}

/// The account of one request.
#[derive(Clone, Copy, Debug, PartialEq, Eq, Structural)]
pub struct CacheLossRecord {
    pub funnel: CacheLossFunnel,
    pub kind: CacheLossTerminalKind,
    pub quality: CacheEvidenceQuality,
    pub result: CacheLossResult,
}

/// What is to be done for a request, in order.
pub enum GuardAction {
    /// The worker has shown the shapes of its cache groups.
    RecordCatalog(Vec<CacheGroupObservation>),
    /// The prompt has been computed; whether it could be recorded is to be
    /// handed back.
    RecordPrompt { epoch: u64, tokens: Vec<u32> },
    /// The tokens have been computed.
    RecordSequence { epoch: u64, tokens: Vec<u32> },
    MarkHistoryIncomplete { epoch: u64 },
    ObserveCacheLoss(CacheLossRecord),
    /// The request counts, with so many output tokens.
    CountRequest { output_tokens: usize },
    /// The scheduler may forget the request.
    FreeWorker(CacheOwner),
    /// The guard no longer holds the ticket of its route's cut.
    DropTicket(u64),
}

// ---- model ----

#[allow(inconsistent_fields)]
pub enum GuardEffect {
    RecordCatalog(Vec<CacheGroupObservation>),
    RecordPrompt { epoch: u64, tokens: Seq<u32> },
    RecordSequence { epoch: u64, tokens: Seq<u32> },
    MarkHistoryIncomplete { epoch: u64 },
    ObserveCacheLoss(CacheLossRecord),
    CountRequest { output_tokens: nat },
    FreeWorker(CacheOwner),
    DropTicket(u64),
}

pub open spec fn effect_of(action: GuardAction) -> GuardEffect {
    match action {
        GuardAction::RecordCatalog(groups) => GuardEffect::RecordCatalog(groups),
        GuardAction::RecordPrompt { epoch, tokens } => GuardEffect::RecordPrompt {
            epoch,
            tokens: tokens@,
        },
        GuardAction::RecordSequence { epoch, tokens } => GuardEffect::RecordSequence {
            epoch,
            tokens: tokens@,
        },
        GuardAction::MarkHistoryIncomplete { epoch } => GuardEffect::MarkHistoryIncomplete {
            epoch,
        },
        GuardAction::ObserveCacheLoss(record) => GuardEffect::ObserveCacheLoss(record),
        GuardAction::CountRequest { output_tokens } => GuardEffect::CountRequest {
            output_tokens: output_tokens as nat,
        },
        GuardAction::FreeWorker(worker) => GuardEffect::FreeWorker(worker),
        GuardAction::DropTicket(ticket) => GuardEffect::DropTicket(ticket),
    }
}

pub open spec fn effects_of(actions: Seq<GuardAction>) -> Seq<GuardEffect> {
    Seq::new(actions.len(), |i: int| effect_of(actions[i]))
}

#[verifier::ext_equal]
pub struct GuardView {
    pub worker: CacheOwner,
    pub scheduler_tracked: bool,
    pub freed: bool,
    pub cumulative_osl: nat,
    pub metrics_recorded: bool,
    pub first_token_recorded: bool,
    pub dispatched: bool,
    pub output_blocks: OutputBlockTracker,
    pub prefill_marked: bool,
    pub route: Option<CacheLossRouteObservation>,
    pub recorded: bool,
    pub history: Option<TrackerView>,
    /// The nonce under which the worker's account is awaited.
    pub registration: Option<u64>,
    pub registration_error: Option<RegistrationError>,
    pub lifecycle: RequestTerminalLifecycle,
}

/// A guard and what is to be done.
#[verifier::ext_equal]
pub struct GuardStep {
    pub guard: GuardView,
    pub effects: Seq<GuardEffect>,
}

/// The ticket of the cut that the route waits for.
pub open spec fn ticket_of(route: Option<CacheLossRouteObservation>) -> Option<u64> {
    match route {
        Some(route) => route.barrier,
        None => None,
    }
}

pub open spec fn dropped_ticket(ticket: Option<u64>) -> Seq<GuardEffect> {
    match ticket {
        Some(ticket) => seq![GuardEffect::DropTicket(ticket)],
        None => Seq::empty(),
    }
}

/// An account that attributes none of the tokens.
pub open spec fn incomplete_record(
    prompt_tokens: u64,
    kind: CacheLossTerminalKind,
    result: CacheLossResult,
) -> CacheLossRecord {
    let zero = CacheLossFunnel::zero();
    CacheLossRecord {
        funnel: CacheLossFunnel {
            f0_backend_prompt_tokens: plus(zero.f0_backend_prompt_tokens, prompt_tokens),
            incomplete_tokens: plus(zero.incomplete_tokens, prompt_tokens),
            ..zero
        },
        kind,
        quality: CacheEvidenceQuality::Incomplete,
        result,
    }
}

/// The worker has accounted for every token of the routed prompt.
pub open spec fn accounts_for(
    source: CacheSourceObservation,
    route: CacheLossRouteObservation,
) -> bool {
    source.complete && source.prompt_tokens == Some(route.prompt_tokens)
}

/// Everything that the funnel needs was measured.
pub open spec fn joins(source: CacheSourceObservation, route: CacheLossRouteObservation) -> bool {
    &&& source.gpu_hit_tokens is Some
    &&& source.cpu_hit_tokens is Some
    &&& source.cpu_lookup_tokens is Some
    &&& route.reusable_prefix_tokens is Some
    &&& route.physical_prefix_tokens is Some
    &&& route.router_visible_prefix_tokens is Some
    &&& route.selected_physical_prefix_tokens is Some
}

/// The account that follows from what routing and the worker saw.
pub open spec fn account(
    source: CacheSourceObservation,
    route: CacheLossRouteObservation,
    kind: CacheLossTerminalKind,
) -> CacheLossRecord {
    if !route.complete {
        incomplete_record(route.prompt_tokens, kind, CacheLossResult::IncompleteRoute)
    } else if !accounts_for(source, route) {
        incomplete_record(route.prompt_tokens, kind, CacheLossResult::IncompleteWorker)
    } else if !joins(source, route) {
        incomplete_record(route.prompt_tokens, kind, CacheLossResult::MissingJoin)
    } else {
        CacheLossRecord {
            funnel: CacheLossFunnel::zero().observed_each(
                PrefixCounts {
                    reusable: route.reusable_prefix_tokens->0,
                    physical: route.physical_prefix_tokens->0,
                    router_visible: route.router_visible_prefix_tokens->0,
                    selected_resident: route.selected_physical_prefix_tokens->0,
                    lookup_resident: plus(source.gpu_hit_tokens->0, source.cpu_lookup_tokens->0),
                    gpu_hit: source.gpu_hit_tokens->0,
                    cpu_hit: source.cpu_hit_tokens->0,
                },
                0,
                route.prompt_tokens as int,
            ),
            kind,
            quality: route.quality,
            result: CacheLossResult::Complete,
        }
    }
}

impl GuardView {
    /// Another route takes the place of the one before.
    pub open spec fn take_route(self, route: Option<CacheLossRouteObservation>) -> (
        GuardView,
        Seq<GuardEffect>,
    ) {
        (
            GuardView { route, ..self },
            if ticket_of(route) == ticket_of(self.route) {
                Seq::empty()
            } else {
                dropped_ticket(ticket_of(self.route))
            },
        )
    }

    /// The route's cut has come out.
    pub open spec fn settle(self, outcome: BarrierOutcome) -> (GuardView, Seq<GuardEffect>) {
        match self.route {
            Some(route) => (
                GuardView {
                    route: Some(
                        (CacheLossRouteObservation { barrier: None, ..route }).settled(outcome),
                    ),
                    ..self
                },
                dropped_ticket(route.barrier),
            ),
            None => (self, Seq::empty()),
        }
    }

    pub open spec fn with_output(self, index: u32, tokens: Seq<u32>) -> GuardView {
        GuardView {
            cumulative_osl: self.cumulative_osl + tokens.len(),
            first_token_recorded: self.first_token_recorded || tokens.len() > 0,
            prefill_marked: self.prefill_marked || tokens.len() > 0,
            output_blocks: self.output_blocks.grown(self.cumulative_osl + tokens.len()),
            history: match self.history {
                Some(history) => Some(
                    TrackerView { branches: history.branches.observe(index, tokens), ..history },
                ),
                None => None,
            },
            ..self
        }
    }

    /// The prompt is due to be recorded.
    pub open spec fn prompt_effects(self) -> Seq<GuardEffect> {
        match self.history {
            Some(history) => if history.prompt_recorded {
                Seq::empty()
            } else {
                seq![GuardEffect::RecordPrompt { epoch: history.epoch, tokens: history.prompt }]
            },
            None => Seq::empty(),
        }
    }

    pub open spec fn observe_source(
        self,
        source: CacheSourceObservation,
        kind: CacheLossTerminalKind,
    ) -> (GuardView, Seq<GuardEffect>) {
        if self.recorded || self.route is None {
            (self, Seq::empty())
        } else {
            let route = self.route->0;
            let catalog = match source.cache_groups {
                Some(groups) => seq![GuardEffect::RecordCatalog(groups)],
                None => Seq::empty(),
            };
            let prompt = if accounts_for(source, route) {
                self.prompt_effects()
            } else {
                Seq::empty()
            };
            (
                GuardView { recorded: true, registration: None, route: None, ..self },
                catalog + prompt + seq![
                    GuardEffect::ObserveCacheLoss(account(source, route, kind)),
                ] + dropped_ticket(route.barrier),
            )
        }
    }

    /// The route once its cut has come out, if it has.
    pub open spec fn settled(self, barriers: BarrierView) -> GuardStep {
        match ticket_of(self.route) {
            None => GuardStep { guard: self, effects: Seq::empty() },
            Some(ticket) => {
                let outcome = CacheLossRouteObservation::outcome_of(barriers.outcomes, ticket);
                if outcome == BarrierOutcome::Pending {
                    GuardStep { guard: self, effects: Seq::empty() }
                } else {
                    let (guard, effects) = self.settle(outcome);
                    GuardStep { guard, effects }
                }
            },
        }
    }

    pub open spec fn observe_if_ready(
        self,
        barriers: BarrierView,
        source: Option<CacheSourceObservation>,
        kind: CacheLossTerminalKind,
    ) -> GuardStep {
        if self.recorded || self.route is None {
            GuardStep { guard: self, effects: Seq::empty() }
        } else {
            let step = self.settled(barriers);
            if step.guard.route->0.barrier is Some || source is None {
                step
            } else {
                let (guard, effects) = step.guard.observe_source(source->0, kind);
                GuardStep { guard, effects: step.effects + effects }
            }
        }
    }

    pub open spec fn finalize_loss(
        self,
        barriers: BarrierView,
        source: Option<CacheSourceObservation>,
        kind: CacheLossTerminalKind,
    ) -> GuardStep {
        let step = self.observe_if_ready(barriers, source, kind);
        if step.guard.recorded || !step.guard.dispatched || step.guard.route is None {
            step
        } else {
            let route = step.guard.route->0;
            GuardStep {
                guard: GuardView { route: None, recorded: true, ..step.guard },
                effects: step.effects + seq![
                    GuardEffect::ObserveCacheLoss(
                        incomplete_record(route.prompt_tokens, kind, CacheLossResult::MissingJoin),
                    ),
                ] + dropped_ticket(route.barrier),
            }
        }
    }

    pub open spec fn with_history_finalized(self) -> GuardView {
        GuardView {
            history: match self.history {
                Some(history) => Some(TrackerView { finalized: true, ..history }),
                None => None,
            },
            ..self
        }
    }

    /// The history is there and not finalized.
    pub open spec fn owes_history(self) -> bool {
        self.history is Some && !self.history->0.finalized
    }

    pub open spec fn finalize_history(self) -> (GuardView, Seq<GuardEffect>) {
        if self.owes_history() {
            let history = self.history->0;
            (
                self.with_history_finalized(),
                Seq::new(
                    history.completed_sequences().len(),
                    |i: int|
                        GuardEffect::RecordSequence {
                            epoch: history.epoch,
                            tokens: history.completed_sequences()[i],
                        },
                ),
            )
        } else {
            (self, Seq::empty())
        }
    }

    pub open spec fn abandon_history(self) -> (GuardView, Seq<GuardEffect>) {
        if self.dispatched && self.owes_history() {
            (
                self.with_history_finalized(),
                seq![GuardEffect::MarkHistoryIncomplete { epoch: self.history->0.epoch }],
            )
        } else {
            (self, Seq::empty())
        }
    }

    pub open spec fn finalize_aborted_history(
        self,
        computed: nat,
        unobserved: nat,
        prompt_complete: bool,
        incomplete: bool,
    ) -> (GuardView, Seq<GuardEffect>) {
        if self.owes_history() {
            let history = self.history->0;
            let effect = match history.aborted(computed, prompt_complete) {
                Ok(tokens) => if unobserved > 0 || incomplete {
                    GuardEffect::MarkHistoryIncomplete { epoch: history.epoch }
                } else {
                    GuardEffect::RecordSequence { epoch: history.epoch, tokens }
                },
                Err(_) => GuardEffect::MarkHistoryIncomplete { epoch: history.epoch },
            };
            (self.with_history_finalized(), seq![effect])
        } else {
            (self, Seq::empty())
        }
    }

    pub open spec fn terminal_incomplete(self, result: CacheLossResult) -> (
        GuardView,
        Seq<GuardEffect>,
    ) {
        if self.recorded || !self.dispatched || self.route is None {
            (self, Seq::empty())
        } else {
            let marked = match self.history {
                Some(history) => seq![GuardEffect::MarkHistoryIncomplete { epoch: history.epoch }],
                None => Seq::empty(),
            };
            (
                GuardView { route: None, recorded: true, ..self }.with_history_finalized(),
                marked + seq![
                    GuardEffect::ObserveCacheLoss(
                        incomplete_record(
                            self.route->0.prompt_tokens,
                            CacheLossTerminalKind::Cancelled,
                            result,
                        ),
                    ),
                ] + dropped_ticket(self.route->0.barrier),
            )
        }
    }

    /// What there is to wait for when the request is aborted.
    pub open spec fn begin_wait(self) -> (GuardView, Option<u64>, Seq<GuardEffect>) {
        if self.recorded || !self.dispatched {
            (self, None, Seq::empty())
        } else {
            match self.registration_error {
                Some(error) => {
                    let (guard, effects) = (GuardView {
                        registration_error: None,
                        ..self
                    }).terminal_incomplete(registration_result(error));
                    (guard, None, effects)
                },
                None => (GuardView { registration: None, ..self }, self.registration, Seq::empty()),
            }
        }
    }

    pub open spec fn end_wait(
        self,
        result: Result<TerminalPromptSourceOutcome, WaitError>,
    ) -> (GuardView, Seq<GuardEffect>) {
        match result {
            Ok(outcome) => {
                let (guard, history) = self.finalize_aborted_history(
                    outcome.num_computed_output_tokens as nat,
                    outcome.num_unobserved_computed_output_tokens as nat,
                    outcome.cache_source.complete,
                    outcome.generated_history_incomplete_reason is Some,
                );
                let (guard, loss) = guard.observe_source(
                    outcome.cache_source,
                    CacheLossTerminalKind::Cancelled,
                );
                (guard, history + loss)
            },
            Err(error) => self.terminal_incomplete(wait_result(error)),
        }
    }

    pub open spec fn count(self) -> (GuardView, Seq<GuardEffect>) {
        if self.metrics_recorded || !self.dispatched {
            (self, Seq::empty())
        } else {
            (
                GuardView { metrics_recorded: true, ..self },
                seq![GuardEffect::CountRequest { output_tokens: self.cumulative_osl }],
            )
        }
    }

    pub open spec fn free(self) -> (GuardView, Seq<GuardEffect>) {
        if self.freed {
            (self, Seq::empty())
        } else {
            (
                GuardView { freed: true, ..self },
                if self.scheduler_tracked {
                    seq![GuardEffect::FreeWorker(self.worker)]
                } else {
                    Seq::empty()
                },
            )
        }
    }

    pub open spec fn finish(
        self,
        barriers: BarrierView,
        source: Option<CacheSourceObservation>,
    ) -> GuardStep {
        let loss = self.finalize_loss(barriers, source, CacheLossTerminalKind::Completed);
        let (guard, history) = loss.guard.finalize_history();
        let (guard, counted) = (GuardView {
            lifecycle: RequestTerminalLifecycle::Finished,
            ..guard
        }).count();
        let (guard, freed) = guard.free();
        GuardStep { guard, effects: loss.effects + history + counted + freed }
    }

    pub open spec fn begin_abort(self) -> (GuardView, Seq<GuardEffect>) {
        (GuardView { lifecycle: RequestTerminalLifecycle::Aborting, ..self }).free()
    }

    pub open spec fn end_abort(
        self,
        barriers: BarrierView,
        source: Option<CacheSourceObservation>,
    ) -> GuardStep {
        let loss = self.finalize_loss(barriers, source, CacheLossTerminalKind::Cancelled);
        let (guard, history) = loss.guard.finalize_history();
        GuardStep {
            guard: GuardView { lifecycle: RequestTerminalLifecycle::Aborted, ..guard },
            effects: loss.effects + history,
        }
    }

    pub open spec fn dropped(
        self,
        barriers: BarrierView,
        source: Option<CacheSourceObservation>,
    ) -> GuardStep {
        let step = match self.lifecycle {
            RequestTerminalLifecycle::Aborting => {
                let (guard, effects) = self.terminal_incomplete(
                    CacheLossResult::TerminalWaitCancelled,
                );
                GuardStep { guard, effects }
            },
            RequestTerminalLifecycle::Open => {
                let loss = self.finalize_loss(barriers, source, CacheLossTerminalKind::Dropped);
                let (guard, history) = loss.guard.abandon_history();
                GuardStep { guard, effects: loss.effects + history }
            },
            _ => GuardStep { guard: self, effects: Seq::empty() },
        };
        let (guard, counted) = step.guard.count();
        let (guard, freed) = guard.free();
        let (guard, let_go) = guard.take_route(None);
        GuardStep { guard, effects: step.effects + counted + freed + let_go }
    }
}

} // verus!
