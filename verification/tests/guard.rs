//! The life of a routed request.

use kv_cache_evidence::barrier::{BarrierCoordinator, BarrierFailure, BarrierOutcome};
use kv_cache_evidence::catalog::CacheGroupObservation;
use kv_cache_evidence::evidence::CacheOwner;
use kv_cache_evidence::guard::{
    CacheLossRecord, CacheLossResult, CacheLossTerminalKind, GuardAction,
};
use kv_cache_evidence::prompt_source::{
    CacheSourceObservation, RegistrationError, TerminalPromptSourceOutcome, WaitError,
};
use kv_cache_evidence::request_guard::{cache_loss_record, RequestGuard};
use kv_cache_evidence::route::{CacheEvidenceQuality, CacheLossRouteObservation};

const WORKER: CacheOwner = CacheOwner {
    worker_id: 3,
    dp_rank: 1,
};

fn route() -> CacheLossRouteObservation {
    CacheLossRouteObservation {
        prompt_tokens: 100,
        reusable_prefix_tokens: Some(80),
        physical_prefix_tokens: Some(70),
        router_visible_prefix_tokens: Some(60),
        selected_physical_prefix_tokens: Some(50),
        group_hashes: None,
        quality: CacheEvidenceQuality::BoundedPhysical,
        complete: true,
        incomplete_reason: None,
        barrier: None,
    }
}

fn source() -> CacheSourceObservation {
    CacheSourceObservation {
        schema_version: 1,
        complete: true,
        prompt_tokens: Some(100),
        gpu_hit_tokens: Some(20),
        cpu_hit_tokens: Some(10),
        cpu_lookup_tokens: Some(20),
        retrieval_failure_tokens: Some(0),
        recomputed_tokens: Some(70),
        incomplete_reason: None,
        cache_groups: None,
    }
}

fn guard(history_epoch: Option<u64>) -> RequestGuard {
    let (guard, incomplete) =
        RequestGuard::new(WORKER, vec![1, 2, 3], 2, None, true, true, history_epoch, false);
    assert!(!incomplete);
    guard
}

fn dispatched(history_epoch: Option<u64>) -> RequestGuard {
    let mut guard = guard(history_epoch);
    assert!(guard.set_cache_loss_route(Some(route())).0);
    guard.set_registration(Ok(5));
    guard.mark_dispatched();
    guard
}

fn barriers() -> BarrierCoordinator {
    BarrierCoordinator::new(4)
}

fn records(actions: &[GuardAction]) -> Vec<CacheLossRecord> {
    actions
        .iter()
        .filter_map(|action| match action {
            GuardAction::ObserveCacheLoss(record) => Some(*record),
            _ => None,
        })
        .collect()
}

fn let_go(actions: &[GuardAction]) -> Vec<u64> {
    actions
        .iter()
        .filter_map(|action| match action {
            GuardAction::DropTicket(ticket) => Some(*ticket),
            _ => None,
        })
        .collect()
}

fn sequences(actions: &[GuardAction]) -> Vec<(u64, Vec<u32>)> {
    actions
        .iter()
        .filter_map(|action| match action {
            GuardAction::RecordSequence { epoch, tokens } => Some((*epoch, tokens.clone())),
            _ => None,
        })
        .collect()
}

fn marked(actions: &[GuardAction]) -> Vec<u64> {
    actions
        .iter()
        .filter_map(|action| match action {
            GuardAction::MarkHistoryIncomplete { epoch } => Some(*epoch),
            _ => None,
        })
        .collect()
}

fn counted(actions: &[GuardAction]) -> Vec<usize> {
    actions
        .iter()
        .filter_map(|action| match action {
            GuardAction::CountRequest { output_tokens } => Some(*output_tokens),
            _ => None,
        })
        .collect()
}

fn freed(actions: &[GuardAction]) -> usize {
    actions
        .iter()
        .filter(|action| matches!(action, GuardAction::FreeWorker(WORKER)))
        .count()
}

#[test]
fn a_finished_request_is_accounted_recorded_counted_and_freed_once() {
    let mut guard = dispatched(Some(4));
    assert_eq!(guard.terminal_prompt_source_nonce(), Some(5));
    let update = guard.on_item(None, &[7]);
    assert!(update.mark_prefill && update.first_token);
    assert_eq!(update.output_block, None);
    let update = guard.on_item(Some(0), &[8, 9]);
    assert!(!update.mark_prefill && !update.first_token);
    assert_eq!(update.output_block.unwrap().cumulative_osl, 3);
    assert_eq!(guard.cumulative_osl(), 3);

    let actions = guard.finish(&mut barriers(), Some(source()));
    let records = records(&actions);
    assert_eq!(records.len(), 1);
    assert_eq!(records[0].kind, CacheLossTerminalKind::Completed);
    assert_eq!(records[0].result, CacheLossResult::Complete);
    assert_eq!(records[0].quality, CacheEvidenceQuality::BoundedPhysical);
    assert_eq!(records[0].funnel.f0_backend_prompt_tokens, 100);
    assert_eq!(records[0].funnel.gpu_hits, 20);
    assert_eq!(records[0].funnel.cpu_hits, 10);
    assert_eq!(records[0].funnel.retrieval_failure, 10);
    assert_eq!(records[0].funnel.conservation_error(), 0);
    assert!(matches!(
        &actions[0],
        GuardAction::RecordPrompt { epoch: 4, tokens } if *tokens == vec![1, 2, 3]
    ));
    assert_eq!(sequences(&actions), vec![(4, vec![1, 2, 3, 7, 8])]);
    assert_eq!(counted(&actions), vec![3]);
    assert_eq!(freed(&actions), 1);
    assert!(matches!(actions.last(), Some(GuardAction::FreeWorker(_))));

    assert!(guard.on_drop(&mut barriers(), Some(source())).is_empty());
}

#[test]
fn a_request_without_its_workers_account_is_incomplete() {
    let mut guard = dispatched(None);
    let actions = guard.finish(&mut barriers(), None);
    let records = records(&actions);
    assert_eq!(records.len(), 1);
    assert_eq!(records[0].result, CacheLossResult::MissingJoin);
    assert_eq!(records[0].quality, CacheEvidenceQuality::Incomplete);
    assert_eq!(records[0].funnel.incomplete_tokens, 100);
    assert_eq!(records[0].funnel.f0_backend_prompt_tokens, 100);
}

#[test]
fn accounts_name_what_they_lack() {
    let kind = CacheLossTerminalKind::Completed;
    let result = |source: &CacheSourceObservation, route: &CacheLossRouteObservation| {
        cache_loss_record(source, route, kind).result
    };
    assert_eq!(result(&source(), &route()), CacheLossResult::Complete);
    assert_eq!(
        result(
            &source(),
            &CacheLossRouteObservation {
                complete: false,
                ..route()
            }
        ),
        CacheLossResult::IncompleteRoute
    );
    assert_eq!(
        result(
            &CacheSourceObservation {
                prompt_tokens: Some(99),
                ..source()
            },
            &route()
        ),
        CacheLossResult::IncompleteWorker
    );
    assert_eq!(
        result(
            &CacheSourceObservation {
                cpu_lookup_tokens: None,
                ..source()
            },
            &route()
        ),
        CacheLossResult::MissingJoin
    );
    for (result, label) in [
        (CacheLossResult::Complete, "complete"),
        (CacheLossResult::IncompleteRoute, "incomplete_route"),
        (CacheLossResult::IncompleteWorker, "incomplete_worker"),
        (CacheLossResult::MissingJoin, "missing_join"),
        (CacheLossResult::TerminalTimeout, "terminal_timeout"),
        (
            CacheLossResult::TerminalPublisherClosed,
            "terminal_publisher_closed",
        ),
        (
            CacheLossResult::TerminalWaitCancelled,
            "terminal_wait_cancelled",
        ),
    ] {
        assert_eq!(result.label(), label);
    }
}

#[test]
fn catalogs_come_before_the_prompt_they_shape() {
    let groups = vec![CacheGroupObservation {
        group_idx: 0,
        kind: "full_attention".to_string(),
        block_size: 16,
        sliding_window: None,
        is_eagle: false,
        alignment_tokens: None,
    }];
    let mut guard = dispatched(Some(1));
    let actions = guard.observe_cache_loss_source(
        CacheSourceObservation {
            cache_groups: Some(groups.clone()),
            ..source()
        },
        CacheLossTerminalKind::Completed,
    );
    assert_eq!(actions.len(), 3);
    assert!(matches!(&actions[0], GuardAction::RecordCatalog(shown) if *shown == groups));
    assert!(matches!(&actions[1], GuardAction::RecordPrompt { .. }));
    guard.set_prompt_recorded(true);
    assert!(guard
        .observe_cache_loss_source(source(), CacheLossTerminalKind::Completed)
        .is_empty());
    assert_eq!(guard.terminal_prompt_source_nonce(), None);
}

#[test]
fn an_aborted_request_waits_for_its_workers_account() {
    let mut guard = dispatched(Some(2));
    guard.on_item(Some(0), &[7, 8]);
    assert_eq!(freed(&guard.begin_abort()), 1);
    let (nonce, actions) = guard.begin_terminal_wait();
    assert_eq!(nonce, Some(5));
    assert!(actions.is_empty());
    let actions = guard.end_terminal_wait(Ok(TerminalPromptSourceOutcome {
        origin_router_id: 1,
        request_id: "r".to_string(),
        registration_nonce: 5,
        cache_source: source(),
        num_computed_output_tokens: 1,
        num_unobserved_computed_output_tokens: 0,
        generated_history_incomplete_reason: None,
    }));
    assert_eq!(sequences(&actions), vec![(2, vec![1, 2, 3, 7])]);
    let records = records(&actions);
    assert_eq!(records.len(), 1);
    assert_eq!(records[0].kind, CacheLossTerminalKind::Cancelled);
    assert_eq!(records[0].result, CacheLossResult::Complete);
    assert!(guard.end_abort(&mut barriers(), Some(source())).is_empty());
    let dropped = guard.on_drop(&mut barriers(), None);
    assert_eq!(counted(&dropped), vec![2]);
    assert_eq!(dropped.len(), 1);
}

#[test]
fn doubtful_aborts_leave_the_history_incomplete() {
    let outcome = |computed: u64, unobserved: u64, reason: Option<&str>| {
        Ok(TerminalPromptSourceOutcome {
            origin_router_id: 1,
            request_id: "r".to_string(),
            registration_nonce: 5,
            cache_source: source(),
            num_computed_output_tokens: computed,
            num_unobserved_computed_output_tokens: unobserved,
            generated_history_incomplete_reason: reason.map(str::to_string),
        })
    };
    for result in [
        outcome(9, 0, None),
        outcome(0, 1, None),
        outcome(0, 0, Some("lost")),
        outcome(u64::MAX, 0, None),
    ] {
        let mut guard = dispatched(Some(2));
        guard.begin_abort();
        guard.begin_terminal_wait();
        let actions = guard.end_terminal_wait(result);
        assert_eq!(marked(&actions), vec![2]);
        assert!(sequences(&actions).is_empty());
        assert_eq!(records(&actions).len(), 1);
    }
}

#[test]
fn accounts_that_never_come_are_counted_by_their_reason() {
    for (error, result) in [
        (WaitError::Timeout, CacheLossResult::TerminalTimeout),
        (
            WaitError::PublisherClosed,
            CacheLossResult::TerminalPublisherClosed,
        ),
    ] {
        let mut guard = dispatched(Some(2));
        guard.begin_abort();
        guard.begin_terminal_wait();
        let actions = guard.end_terminal_wait(Err(error));
        assert_eq!(marked(&actions), vec![2]);
        assert_eq!(records(&actions)[0].result, result);
        assert_eq!(records(&actions)[0].funnel.incomplete_tokens, 100);
        assert!(guard.end_abort(&mut barriers(), None).is_empty());
    }
    for (error, label) in [
        (RegistrationError::Full, "terminal_registry_full"),
        (RegistrationError::Duplicate, "terminal_registry_duplicate"),
        (
            RegistrationError::Unavailable,
            "terminal_registry_unavailable",
        ),
    ] {
        let mut guard = guard(None);
        guard.set_cache_loss_route(Some(route()));
        guard.set_registration(Err(error));
        guard.mark_dispatched();
        guard.begin_abort();
        let (nonce, actions) = guard.begin_terminal_wait();
        assert_eq!(nonce, None);
        assert_eq!(records(&actions)[0].result.label(), label);
    }
}

#[test]
fn dropped_requests_leave_a_gap_in_the_history() {
    let mut open = dispatched(Some(6));
    open.on_item(None, &[7]);
    let actions = open.on_drop(&mut barriers(), None);
    assert_eq!(records(&actions)[0].kind, CacheLossTerminalKind::Dropped);
    assert_eq!(marked(&actions), vec![6]);
    assert_eq!(counted(&actions), vec![1]);
    assert_eq!(freed(&actions), 1);

    let mut aborting = dispatched(Some(6));
    aborting.begin_abort();
    let actions = aborting.on_drop(&mut barriers(), None);
    assert_eq!(
        records(&actions)[0].result,
        CacheLossResult::TerminalWaitCancelled
    );
    assert_eq!(freed(&actions), 0);
}

#[test]
fn undispatched_requests_only_free_their_worker() {
    let mut guard = guard(Some(6));
    guard.set_cache_loss_route(Some(route()));
    let actions = guard.on_drop(&mut barriers(), None);
    assert_eq!(actions.len(), 1);
    assert_eq!(freed(&actions), 1);
}

#[test]
fn multimodal_requests_leave_the_history_incomplete() {
    let (_, incomplete) =
        RequestGuard::new(WORKER, vec![1], 2, None, true, false, Some(1), true);
    assert!(incomplete);
    let (_, incomplete) = RequestGuard::new(WORKER, vec![1], 2, None, true, false, None, true);
    assert!(!incomplete);
}

#[test]
fn streaming_accounts_wait_for_the_cut() {
    let mut barriers = BarrierCoordinator::new(4);
    barriers.set_owner_incarnations(&[(WORKER, 1)], &[(WORKER, 1)]);
    let (ticket, _) = barriers.begin(std::collections::HashSet::from([1]), 0);
    let mut guard = guard(None);
    guard.set_cache_loss_route(Some(CacheLossRouteObservation {
        barrier: Some(ticket),
        ..route()
    }));
    guard.mark_dispatched();
    assert_eq!(guard.route_ticket(), Some(ticket));
    assert!(guard
        .observe_cache_loss_if_ready(
            &mut barriers,
            Some(source()),
            CacheLossTerminalKind::Completed
        )
        .is_empty());
    barriers.fail_all(BarrierFailure::Gap);
    let actions = guard.observe_cache_loss_if_ready(
        &mut barriers,
        Some(source()),
        CacheLossTerminalKind::Completed,
    );
    assert_eq!(records(&actions)[0].result, CacheLossResult::IncompleteRoute);
    assert_eq!(let_go(&actions), vec![ticket]);

    let mut settled = dispatched(None);
    settled.settle_route(BarrierOutcome::Exact);
    let actions = settled.finish(&mut barriers, Some(source()));
    assert_eq!(records(&actions)[0].quality, CacheEvidenceQuality::Exact);
}

#[test]
fn a_ticket_is_let_go_of_once() {
    let mut barriers = BarrierCoordinator::new(8);
    barriers.set_owner_incarnations(&[(WORKER, 1)], &[(WORKER, 1)]);
    let mut waiting = || {
        let (ticket, _) = barriers.begin(std::collections::HashSet::from([1]), 0);
        (
            ticket,
            CacheLossRouteObservation {
                barrier: Some(ticket),
                ..route()
            },
        )
    };
    let (first, earlier) = waiting();
    let (second, later) = waiting();

    // Another route takes the place of the first; the same one does not.
    let mut guard = guard(None);
    assert!(guard.set_cache_loss_route(Some(earlier.clone())).1.is_empty());
    assert!(guard.set_cache_loss_route(Some(earlier)).1.is_empty());
    let (_, actions) = guard.set_cache_loss_route(Some(later.clone()));
    assert_eq!(let_go(&actions), vec![first]);

    // The cut of an undispatched request is still pending when it is dropped.
    let actions = guard.finish(&barriers, Some(source()));
    assert!(records(&actions).is_empty());
    assert!(let_go(&actions).is_empty());
    assert_eq!(guard.route_ticket(), Some(second));
    let actions = guard.on_drop(&barriers, None);
    assert_eq!(let_go(&actions), vec![second]);
    assert_eq!(guard.route_ticket(), None);

    // A dispatched one is accounted for without its cut.
    let mut unjoined = dispatched(None);
    unjoined.set_cache_loss_route(Some(later.clone()));
    let actions = unjoined.finish(&barriers, Some(source()));
    assert_eq!(records(&actions)[0].result, CacheLossResult::MissingJoin);
    assert_eq!(let_go(&actions), vec![second]);
    assert!(let_go(&unjoined.on_drop(&barriers, None)).is_empty());

    let mut cancelled = dispatched(None);
    cancelled.set_cache_loss_route(Some(later.clone()));
    cancelled.begin_abort();
    let actions = cancelled.end_terminal_wait(Err(WaitError::Timeout));
    assert_eq!(let_go(&actions), vec![second]);

    let mut settled = dispatched(None);
    settled.set_cache_loss_route(Some(later));
    assert_eq!(
        let_go(&settled.settle_route(BarrierOutcome::Exact)),
        vec![second]
    );
}
