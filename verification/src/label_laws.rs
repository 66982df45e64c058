//! The names under which things are counted tell them apart.

use vstd::prelude::*;

use crate::barrier::BarrierFailure;
use crate::cold_epoch::ColdEpochFailure;
use crate::cold_run::ColdEpochLabel;
use crate::evidence::{
    CacheEvidenceApplyIntegrityFailure, CacheEvidenceMutation, CacheTier,
    if_occurred, ordered_failures,
};
use crate::fault::FaultStage;
use crate::guard::CacheLossResult;
use crate::metrics::{BatchLabel, MutationLabel, mutation_label, tier_label};
use crate::prompt_source::QueueOutcome;
use crate::resolver::EvidenceMutationError;
use crate::route::{CacheEvidenceQuality, IncompleteReason};
use crate::tracker::AbortedHistoryError;

verus! {

/// A failed cut is counted under a name of its own.
pub proof fn law_failures_are_told_apart(failure: BarrierFailure)
    ensures
        failure.label() == "missing_capability"@ <==> failure == BarrierFailure::MissingCapability,
        failure.label() == "journal_overflow"@ <==> failure == BarrierFailure::JournalOverflow,
        failure.label() == "membership_changed"@ <==> failure == BarrierFailure::MembershipChanged,
        failure.label() == "permanently_unavailable"@ <==> failure
            == BarrierFailure::PermanentlyUnavailable,
        failure.label() == "control_unavailable"@ <==> failure
            == BarrierFailure::ControlUnavailable,
        failure.label() == "control_failed"@ <==> failure == BarrierFailure::ControlFailed,
        failure.label() == "timeout"@ <==> failure == BarrierFailure::Timeout,
        failure.label() == "coordinator_closed"@ <==> failure == BarrierFailure::CoordinatorClosed,
        failure.label() == "subscriber_closed"@ <==> failure == BarrierFailure::SubscriberClosed,
        failure.label() == "decode_error"@ <==> failure == BarrierFailure::DecodeError,
        failure.label() == "invalid_watermark"@ <==> failure == BarrierFailure::InvalidWatermark,
        failure.label() == "watermark_ahead"@ <==> failure == BarrierFailure::WatermarkAhead,
        failure.label() == "gap"@ <==> failure == BarrierFailure::Gap,
        failure.label() == "restart"@ <==> failure == BarrierFailure::Restart,
        failure.label() == "invalid_marker"@ <==> failure == BarrierFailure::InvalidMarker,
        failure.label() == "incomplete_batch"@ <==> failure == BarrierFailure::IncompleteBatch,
        failure.label() == "unresolved_mutation"@ <==> failure
            == BarrierFailure::UnresolvedMutation,
        failure.label() == "relevant_mutation"@ <==> failure == BarrierFailure::RelevantMutation,
        failure.label() == "clear"@ <==> failure == BarrierFailure::Clear,
        failure.label() == "catalog_changed"@ <==> failure == BarrierFailure::CatalogChanged,
        failure.label() == "apply_integrity_failure"@ <==> failure
            == BarrierFailure::ApplyIntegrityFailure,
{
    reveal_strlit("missing_capability");
    reveal_strlit("journal_overflow");
    reveal_strlit("membership_changed");
    reveal_strlit("permanently_unavailable");
    reveal_strlit("control_unavailable");
    reveal_strlit("control_failed");
    reveal_strlit("timeout");
    reveal_strlit("coordinator_closed");
    reveal_strlit("subscriber_closed");
    reveal_strlit("decode_error");
    reveal_strlit("invalid_watermark");
    reveal_strlit("watermark_ahead");
    reveal_strlit("gap");
    reveal_strlit("restart");
    reveal_strlit("invalid_marker");
    reveal_strlit("incomplete_batch");
    reveal_strlit("unresolved_mutation");
    reveal_strlit("relevant_mutation");
    reveal_strlit("clear");
    reveal_strlit("catalog_changed");
    reveal_strlit("apply_integrity_failure");
    assert("missing_capability"@.len() == 18);
    assert("journal_overflow"@.len() == 16);
    assert("membership_changed"@.len() == 18);
    assert("permanently_unavailable"@.len() == 23);
    assert("control_unavailable"@.len() == 19);
    assert("control_failed"@.len() == 14);
    assert("timeout"@.len() == 7);
    assert("coordinator_closed"@.len() == 18);
    assert("subscriber_closed"@.len() == 17);
    assert("decode_error"@.len() == 12);
    assert("invalid_watermark"@.len() == 17);
    assert("watermark_ahead"@.len() == 15);
    assert("gap"@.len() == 3);
    assert("restart"@.len() == 7);
    assert("invalid_marker"@.len() == 14);
    assert("incomplete_batch"@.len() == 16);
    assert("unresolved_mutation"@.len() == 19);
    assert("relevant_mutation"@.len() == 17);
    assert("clear"@.len() == 5);
    assert("catalog_changed"@.len() == 15);
    assert("apply_integrity_failure"@.len() == 23);
    assert("missing_capability"@[0] == 'm');
    assert("missing_capability"@[1] == 'i');
    assert("membership_changed"@[0] == 'm');
    assert("membership_changed"@[1] == 'e');
    assert("coordinator_closed"@[0] == 'c');
    assert("journal_overflow"@[0] == 'j');
    assert("incomplete_batch"@[0] == 'i');
    assert("permanently_unavailable"@[0] == 'p');
    assert("apply_integrity_failure"@[0] == 'a');
    assert("control_unavailable"@[0] == 'c');
    assert("unresolved_mutation"@[0] == 'u');
    assert("control_failed"@[0] == 'c');
    assert("invalid_marker"@[0] == 'i');
    assert("timeout"@[0] == 't');
    assert("restart"@[0] == 'r');
    assert("subscriber_closed"@[0] == 's');
    assert("invalid_watermark"@[0] == 'i');
    assert("relevant_mutation"@[0] == 'r');
    assert("watermark_ahead"@[0] == 'w');
    assert("catalog_changed"@[0] == 'c');
}

/// A route that a failed cut left incomplete names the cut's failure, as that of a
/// barrier.
pub proof fn law_reason_names_the_failure(failure: BarrierFailure)
    ensures
        failure.reason_label() == "barrier_"@ + failure.label(),
{
    reveal_strlit("barrier_");
    match failure {
        BarrierFailure::MissingCapability => {
            reveal_strlit("barrier_missing_capability");
            reveal_strlit("missing_capability");
            assert("barrier_missing_capability"@ =~= "barrier_"@ + "missing_capability"@);
        },
        BarrierFailure::JournalOverflow => {
            reveal_strlit("barrier_journal_overflow");
            reveal_strlit("journal_overflow");
            assert("barrier_journal_overflow"@ =~= "barrier_"@ + "journal_overflow"@);
        },
        BarrierFailure::MembershipChanged => {
            reveal_strlit("barrier_membership_changed");
            reveal_strlit("membership_changed");
            assert("barrier_membership_changed"@ =~= "barrier_"@ + "membership_changed"@);
        },
        BarrierFailure::PermanentlyUnavailable => {
            reveal_strlit("barrier_permanently_unavailable");
            reveal_strlit("permanently_unavailable");
            assert("barrier_permanently_unavailable"@ =~= "barrier_"@ + "permanently_unavailable"@);
        },
        BarrierFailure::ControlUnavailable => {
            reveal_strlit("barrier_control_unavailable");
            reveal_strlit("control_unavailable");
            assert("barrier_control_unavailable"@ =~= "barrier_"@ + "control_unavailable"@);
        },
        BarrierFailure::ControlFailed => {
            reveal_strlit("barrier_control_failed");
            reveal_strlit("control_failed");
            assert("barrier_control_failed"@ =~= "barrier_"@ + "control_failed"@);
        },
        BarrierFailure::Timeout => {
            reveal_strlit("barrier_timeout");
            reveal_strlit("timeout");
            assert("barrier_timeout"@ =~= "barrier_"@ + "timeout"@);
        },
        BarrierFailure::CoordinatorClosed => {
            reveal_strlit("barrier_coordinator_closed");
            reveal_strlit("coordinator_closed");
            assert("barrier_coordinator_closed"@ =~= "barrier_"@ + "coordinator_closed"@);
        },
        BarrierFailure::SubscriberClosed => {
            reveal_strlit("barrier_subscriber_closed");
            reveal_strlit("subscriber_closed");
            assert("barrier_subscriber_closed"@ =~= "barrier_"@ + "subscriber_closed"@);
        },
        BarrierFailure::DecodeError => {
            reveal_strlit("barrier_decode_error");
            reveal_strlit("decode_error");
            assert("barrier_decode_error"@ =~= "barrier_"@ + "decode_error"@);
        },
        BarrierFailure::InvalidWatermark => {
            reveal_strlit("barrier_invalid_watermark");
            reveal_strlit("invalid_watermark");
            assert("barrier_invalid_watermark"@ =~= "barrier_"@ + "invalid_watermark"@);
        },
        BarrierFailure::WatermarkAhead => {
            reveal_strlit("barrier_watermark_ahead");
            reveal_strlit("watermark_ahead");
            assert("barrier_watermark_ahead"@ =~= "barrier_"@ + "watermark_ahead"@);
        },
        BarrierFailure::Gap => {
            reveal_strlit("barrier_gap");
            reveal_strlit("gap");
            assert("barrier_gap"@ =~= "barrier_"@ + "gap"@);
        },
        BarrierFailure::Restart => {
            reveal_strlit("barrier_restart");
            reveal_strlit("restart");
            assert("barrier_restart"@ =~= "barrier_"@ + "restart"@);
        },
        BarrierFailure::InvalidMarker => {
            reveal_strlit("barrier_invalid_marker");
            reveal_strlit("invalid_marker");
            assert("barrier_invalid_marker"@ =~= "barrier_"@ + "invalid_marker"@);
        },
        BarrierFailure::IncompleteBatch => {
            reveal_strlit("barrier_incomplete_batch");
            reveal_strlit("incomplete_batch");
            assert("barrier_incomplete_batch"@ =~= "barrier_"@ + "incomplete_batch"@);
        },
        BarrierFailure::UnresolvedMutation => {
            reveal_strlit("barrier_unresolved_mutation");
            reveal_strlit("unresolved_mutation");
            assert("barrier_unresolved_mutation"@ =~= "barrier_"@ + "unresolved_mutation"@);
        },
        BarrierFailure::RelevantMutation => {
            reveal_strlit("barrier_relevant_mutation");
            reveal_strlit("relevant_mutation");
            assert("barrier_relevant_mutation"@ =~= "barrier_"@ + "relevant_mutation"@);
        },
        BarrierFailure::Clear => {
            reveal_strlit("barrier_clear");
            reveal_strlit("clear");
            assert("barrier_clear"@ =~= "barrier_"@ + "clear"@);
        },
        BarrierFailure::CatalogChanged => {
            reveal_strlit("barrier_catalog_changed");
            reveal_strlit("catalog_changed");
            assert("barrier_catalog_changed"@ =~= "barrier_"@ + "catalog_changed"@);
        },
        BarrierFailure::ApplyIntegrityFailure => {
            reveal_strlit("barrier_apply_integrity_failure");
            reveal_strlit("apply_integrity_failure");
            assert("barrier_apply_integrity_failure"@ =~= "barrier_"@ + "apply_integrity_failure"@);
        },
    }
}

/// A failed epoch is told by a name of its own.
pub proof fn law_epoch_failures_are_told_apart(failure: ColdEpochFailure)
    ensures
        failure.reason_label() == "cold_epoch_invalid_clear"@ <==> failure
            == ColdEpochFailure::InvalidClear,
        failure.reason_label() == "cold_epoch_invalid_marker"@ <==> failure
            == ColdEpochFailure::InvalidMarker,
        failure.reason_label() == "cold_epoch_membership_changed"@ <==> failure
            == ColdEpochFailure::MembershipChanged,
        failure.reason_label() == "cold_epoch_catalog_changed"@ <==> failure
            == ColdEpochFailure::CatalogChanged,
        failure.reason_label() == "cold_epoch_mutation_after_clear"@ <==> failure
            == ColdEpochFailure::MutationAfterClear,
        failure.reason_label() == "cold_epoch_subscriber_closed"@ <==> failure
            == ColdEpochFailure::SubscriberClosed,
        failure.reason_label() == "cold_epoch_decode_error"@ <==> failure
            == ColdEpochFailure::DecodeError,
        failure.reason_label() == "cold_epoch_legacy_batch"@ <==> failure
            == ColdEpochFailure::LegacyBatch,
        failure.reason_label() == "cold_epoch_gap"@ <==> failure == ColdEpochFailure::Gap,
        failure.reason_label() == "cold_epoch_restart"@ <==> failure == ColdEpochFailure::Restart,
        failure.reason_label() == "cold_epoch_incomplete_batch"@ <==> failure
            == ColdEpochFailure::IncompleteBatch,
        failure.reason_label() == "cold_epoch_unresolved_mutation"@ <==> failure
            == ColdEpochFailure::UnresolvedMutation,
        failure.reason_label() == "cold_epoch_apply_integrity_failure"@ <==> failure
            == ColdEpochFailure::ApplyIntegrityFailure,
        failure.reason_label() == "cold_epoch_begin_failed"@ <==> failure
            == ColdEpochFailure::BeginFailed,
        failure.reason_label() == "cold_epoch_residual_physical_state"@ <==> failure
            == ColdEpochFailure::ResidualPhysicalState,
        failure.reason_label() == "cold_epoch_snapshot_changed"@ <==> failure
            == ColdEpochFailure::SnapshotChanged,
        failure.reason_label() == "cold_epoch_cancelled"@ <==> failure
            == ColdEpochFailure::Cancelled,
{
    reveal_strlit("cold_epoch_invalid_clear");
    reveal_strlit("cold_epoch_invalid_marker");
    reveal_strlit("cold_epoch_membership_changed");
    reveal_strlit("cold_epoch_catalog_changed");
    reveal_strlit("cold_epoch_mutation_after_clear");
    reveal_strlit("cold_epoch_subscriber_closed");
    reveal_strlit("cold_epoch_decode_error");
    reveal_strlit("cold_epoch_legacy_batch");
    reveal_strlit("cold_epoch_gap");
    reveal_strlit("cold_epoch_restart");
    reveal_strlit("cold_epoch_incomplete_batch");
    reveal_strlit("cold_epoch_unresolved_mutation");
    reveal_strlit("cold_epoch_apply_integrity_failure");
    reveal_strlit("cold_epoch_begin_failed");
    reveal_strlit("cold_epoch_residual_physical_state");
    reveal_strlit("cold_epoch_snapshot_changed");
    reveal_strlit("cold_epoch_cancelled");
    assert("cold_epoch_invalid_clear"@.len() == 24);
    assert("cold_epoch_invalid_marker"@.len() == 25);
    assert("cold_epoch_membership_changed"@.len() == 29);
    assert("cold_epoch_catalog_changed"@.len() == 26);
    assert("cold_epoch_mutation_after_clear"@.len() == 31);
    assert("cold_epoch_subscriber_closed"@.len() == 28);
    assert("cold_epoch_decode_error"@.len() == 23);
    assert("cold_epoch_legacy_batch"@.len() == 23);
    assert("cold_epoch_gap"@.len() == 14);
    assert("cold_epoch_restart"@.len() == 18);
    assert("cold_epoch_incomplete_batch"@.len() == 27);
    assert("cold_epoch_unresolved_mutation"@.len() == 30);
    assert("cold_epoch_apply_integrity_failure"@.len() == 34);
    assert("cold_epoch_begin_failed"@.len() == 23);
    assert("cold_epoch_residual_physical_state"@.len() == 34);
    assert("cold_epoch_snapshot_changed"@.len() == 27);
    assert("cold_epoch_cancelled"@.len() == 20);
    assert("cold_epoch_decode_error"@[11] == 'd');
    assert("cold_epoch_legacy_batch"@[11] == 'l');
    assert("cold_epoch_begin_failed"@[11] == 'b');
    assert("cold_epoch_incomplete_batch"@[11] == 'i');
    assert("cold_epoch_snapshot_changed"@[11] == 's');
    assert("cold_epoch_apply_integrity_failure"@[11] == 'a');
    assert("cold_epoch_residual_physical_state"@[11] == 'r');
}

/// An attempt at a cold epoch is counted under a name of its own.
pub proof fn law_attempts_are_told_apart(attempt: ColdEpochLabel)
    ensures
        attempt.label() == "cancelled"@ <==> attempt == ColdEpochLabel::Cancelled,
        attempt.label() == "readiness_timeout"@ <==> attempt == ColdEpochLabel::ReadinessTimeout,
        attempt.label() == "membership"@ <==> attempt == ColdEpochLabel::Membership,
        attempt.label() == "control"@ <==> attempt == ColdEpochLabel::Control,
        attempt.label() == "dispatch_drain"@ <==> attempt == ColdEpochLabel::DispatchDrain,
        attempt.label() == "catalog"@ <==> attempt == ColdEpochLabel::Catalog,
        attempt.label() == "init"@ <==> attempt == ColdEpochLabel::Init,
        attempt.label() == "evidence"@ <==> attempt == ColdEpochLabel::Evidence,
        attempt.label() == "residual_physical_state"@ <==> attempt
            == ColdEpochLabel::ResidualPhysicalState,
        attempt.label() == "snapshot"@ <==> attempt == ColdEpochLabel::Snapshot,
        attempt.label() == "release"@ <==> attempt == ColdEpochLabel::Release,
        attempt.label() == "success"@ <==> attempt == ColdEpochLabel::Success,
{
    reveal_strlit("cancelled");
    reveal_strlit("readiness_timeout");
    reveal_strlit("membership");
    reveal_strlit("control");
    reveal_strlit("dispatch_drain");
    reveal_strlit("catalog");
    reveal_strlit("init");
    reveal_strlit("evidence");
    reveal_strlit("residual_physical_state");
    reveal_strlit("snapshot");
    reveal_strlit("release");
    reveal_strlit("success");
    assert("cancelled"@.len() == 9);
    assert("readiness_timeout"@.len() == 17);
    assert("membership"@.len() == 10);
    assert("control"@.len() == 7);
    assert("dispatch_drain"@.len() == 14);
    assert("catalog"@.len() == 7);
    assert("init"@.len() == 4);
    assert("evidence"@.len() == 8);
    assert("residual_physical_state"@.len() == 23);
    assert("snapshot"@.len() == 8);
    assert("release"@.len() == 7);
    assert("success"@.len() == 7);
    assert("control"@[0] == 'c');
    assert("control"@[1] == 'o');
    assert("catalog"@[0] == 'c');
    assert("catalog"@[1] == 'a');
    assert("release"@[0] == 'r');
    assert("success"@[0] == 's');
    assert("evidence"@[0] == 'e');
    assert("snapshot"@[0] == 's');
}

/// What could not be applied is counted under a name of its own.
pub proof fn law_integrity_failures_are_told_apart(failure: CacheEvidenceApplyIntegrityFailure)
    ensures
        failure.label() == "incomplete_batch"@ <==> failure
            == CacheEvidenceApplyIntegrityFailure::IncompleteBatch,
        failure.label() == "missing_group"@ <==> failure
            == CacheEvidenceApplyIntegrityFailure::MissingGroup,
        failure.label() == "missing_parent"@ <==> failure
            == CacheEvidenceApplyIntegrityFailure::MissingParent,
        failure.label() == "conflicting_mapping"@ <==> failure
            == CacheEvidenceApplyIntegrityFailure::ConflictingMapping,
{
    reveal_strlit("incomplete_batch");
    reveal_strlit("missing_group");
    reveal_strlit("missing_parent");
    reveal_strlit("conflicting_mapping");
    assert("incomplete_batch"@.len() == 16);
    assert("missing_group"@.len() == 13);
    assert("missing_parent"@.len() == 14);
    assert("conflicting_mapping"@.len() == 19);
}

/// A stage of injected loss is counted under a name of its own.
pub proof fn law_stages_are_told_apart(stage: FaultStage)
    ensures
        stage.name() == "physical_retention"@ <==> stage == FaultStage::PhysicalRetention,
        stage.name() == "router_visibility"@ <==> stage == FaultStage::RouterVisibility,
        stage.name() == "routing_choice"@ <==> stage == FaultStage::RoutingChoice,
{
    reveal_strlit("physical_retention");
    reveal_strlit("router_visibility");
    reveal_strlit("routing_choice");
    assert("physical_retention"@.len() == 18);
    assert("router_visibility"@.len() == 17);
    assert("routing_choice"@.len() == 14);
}

/// The result of an account is counted under a name of its own.
pub proof fn law_results_are_told_apart(result: CacheLossResult)
    ensures
        result.name() == "complete"@ <==> result == CacheLossResult::Complete,
        result.name() == "incomplete_route"@ <==> result == CacheLossResult::IncompleteRoute,
        result.name() == "incomplete_worker"@ <==> result == CacheLossResult::IncompleteWorker,
        result.name() == "missing_join"@ <==> result == CacheLossResult::MissingJoin,
        result.name() == "terminal_registry_full"@ <==> result
            == CacheLossResult::TerminalRegistryFull,
        result.name() == "terminal_registry_duplicate"@ <==> result
            == CacheLossResult::TerminalRegistryDuplicate,
        result.name() == "terminal_registry_unavailable"@ <==> result
            == CacheLossResult::TerminalRegistryUnavailable,
        result.name() == "terminal_timeout"@ <==> result == CacheLossResult::TerminalTimeout,
        result.name() == "terminal_publisher_closed"@ <==> result
            == CacheLossResult::TerminalPublisherClosed,
        result.name() == "terminal_wait_cancelled"@ <==> result
            == CacheLossResult::TerminalWaitCancelled,
{
    reveal_strlit("complete");
    reveal_strlit("incomplete_route");
    reveal_strlit("incomplete_worker");
    reveal_strlit("missing_join");
    reveal_strlit("terminal_registry_full");
    reveal_strlit("terminal_registry_duplicate");
    reveal_strlit("terminal_registry_unavailable");
    reveal_strlit("terminal_timeout");
    reveal_strlit("terminal_publisher_closed");
    reveal_strlit("terminal_wait_cancelled");
    assert("complete"@.len() == 8);
    assert("incomplete_route"@.len() == 16);
    assert("incomplete_worker"@.len() == 17);
    assert("missing_join"@.len() == 12);
    assert("terminal_registry_full"@.len() == 22);
    assert("terminal_registry_duplicate"@.len() == 27);
    assert("terminal_registry_unavailable"@.len() == 29);
    assert("terminal_timeout"@.len() == 16);
    assert("terminal_publisher_closed"@.len() == 25);
    assert("terminal_wait_cancelled"@.len() == 23);
    assert("incomplete_route"@[0] == 'i');
    assert("terminal_timeout"@[0] == 't');
}

/// A batch is counted under a name of its own.
pub proof fn law_batches_are_told_apart(batch: BatchLabel)
    ensures
        batch.label() == "decode_error"@ <==> batch == BatchLabel::DecodeError,
        batch.label() == "inactive_owner"@ <==> batch == BatchLabel::InactiveOwner,
        batch.label() == "legacy"@ <==> batch == BatchLabel::Legacy,
        batch.label() == "wrong_incarnation"@ <==> batch == BatchLabel::WrongIncarnation,
        batch.label() == "invalid_watermark"@ <==> batch == BatchLabel::InvalidWatermark,
        batch.label() == "stale_watermark"@ <==> batch == BatchLabel::StaleWatermark,
        batch.label() == "watermark_ahead"@ <==> batch == BatchLabel::WatermarkAhead,
        batch.label() == "watermark"@ <==> batch == BatchLabel::Watermark,
        batch.label() == "gap"@ <==> batch == BatchLabel::Gap,
        batch.label() == "stale"@ <==> batch == BatchLabel::Stale,
        batch.label() == "publisher_restart"@ <==> batch == BatchLabel::PublisherRestart,
        batch.label() == "cold_epoch_marker"@ <==> batch == BatchLabel::ColdEpochMarker,
        batch.label() == "cold_epoch_clear"@ <==> batch == BatchLabel::ColdEpochClear,
        batch.label() == "invalid_barrier"@ <==> batch == BatchLabel::InvalidBarrier,
        batch.label() == "barrier"@ <==> batch == BatchLabel::Barrier,
        batch.label() == "applied"@ <==> batch == BatchLabel::Applied,
{
    reveal_strlit("decode_error");
    reveal_strlit("inactive_owner");
    reveal_strlit("legacy");
    reveal_strlit("wrong_incarnation");
    reveal_strlit("invalid_watermark");
    reveal_strlit("stale_watermark");
    reveal_strlit("watermark_ahead");
    reveal_strlit("watermark");
    reveal_strlit("gap");
    reveal_strlit("stale");
    reveal_strlit("publisher_restart");
    reveal_strlit("cold_epoch_marker");
    reveal_strlit("cold_epoch_clear");
    reveal_strlit("invalid_barrier");
    reveal_strlit("barrier");
    reveal_strlit("applied");
    assert("decode_error"@.len() == 12);
    assert("inactive_owner"@.len() == 14);
    assert("legacy"@.len() == 6);
    assert("wrong_incarnation"@.len() == 17);
    assert("invalid_watermark"@.len() == 17);
    assert("stale_watermark"@.len() == 15);
    assert("watermark_ahead"@.len() == 15);
    assert("watermark"@.len() == 9);
    assert("gap"@.len() == 3);
    assert("stale"@.len() == 5);
    assert("publisher_restart"@.len() == 17);
    assert("cold_epoch_marker"@.len() == 17);
    assert("cold_epoch_clear"@.len() == 16);
    assert("invalid_barrier"@.len() == 15);
    assert("barrier"@.len() == 7);
    assert("applied"@.len() == 7);
    assert("wrong_incarnation"@[0] == 'w');
    assert("invalid_watermark"@[0] == 'i');
    assert("publisher_restart"@[0] == 'p');
    assert("cold_epoch_marker"@[0] == 'c');
    assert("stale_watermark"@[0] == 's');
    assert("watermark_ahead"@[0] == 'w');
    assert("invalid_barrier"@[0] == 'i');
    assert("barrier"@[0] == 'b');
    assert("applied"@[0] == 'a');
}

/// What became of an outcome in the queue is counted under a name of its own.
pub proof fn law_queue_outcomes_are_told_apart(outcome: QueueOutcome)
    ensures
        outcome.label() == "enqueued"@ <==> outcome == QueueOutcome::Enqueued,
        outcome.label() == "queue_full"@ <==> outcome == QueueOutcome::Full,
        outcome.label() == "queue_closed"@ <==> outcome == QueueOutcome::Closed,
{
    reveal_strlit("enqueued");
    reveal_strlit("queue_full");
    reveal_strlit("queue_closed");
    assert("enqueued"@.len() == 8);
    assert("queue_full"@.len() == 10);
    assert("queue_closed"@.len() == 12);
}

/// An event that cannot be converted is counted under a name of its own.
pub proof fn law_conversion_errors_are_told_apart(error: EvidenceMutationError)
    ensures
        error.label() == "evidence_conversion_error"@ <==> error == EvidenceMutationError::Invalid,
        error.label() == "evidence_hash_unresolved"@ <==> error
            == EvidenceMutationError::UnresolvedHash,
        error.label() == "evidence_hash_ambiguous"@ <==> error
            == EvidenceMutationError::AmbiguousHash,
        error.label() == "evidence_hash_mapping_overflow"@ <==> error
            == EvidenceMutationError::MappingOverflow,
{
    reveal_strlit("evidence_conversion_error");
    reveal_strlit("evidence_hash_unresolved");
    reveal_strlit("evidence_hash_ambiguous");
    reveal_strlit("evidence_hash_mapping_overflow");
    assert("evidence_conversion_error"@.len() == 25);
    assert("evidence_hash_unresolved"@.len() == 24);
    assert("evidence_hash_ambiguous"@.len() == 23);
    assert("evidence_hash_mapping_overflow"@.len() == 30);
}

/// The quality of evidence is counted under a name of its own.
pub proof fn law_qualities_are_told_apart(quality: CacheEvidenceQuality)
    ensures
        quality.label() == "incomplete"@ <==> quality == CacheEvidenceQuality::Incomplete,
        quality.label() == "bounded_physical"@ <==> quality
            == CacheEvidenceQuality::BoundedPhysical,
        quality.label() == "exact"@ <==> quality == CacheEvidenceQuality::Exact,
{
    reveal_strlit("incomplete");
    reveal_strlit("bounded_physical");
    reveal_strlit("exact");
    assert("incomplete"@.len() == 10);
    assert("bounded_physical"@.len() == 16);
    assert("exact"@.len() == 5);
}

/// Why an aborted history is unknown is told by a name of its own.
pub proof fn law_aborted_histories_are_told_apart(error: AbortedHistoryError)
    ensures
        error.label() == "prompt_incomplete"@ <==> error == AbortedHistoryError::PromptIncomplete,
        error.label() == "multiple_output_branches"@ <==> error
            == AbortedHistoryError::MultipleOutputBranches,
        error.label() == "computed_output_exceeds_delivered_output"@ <==> error
            == AbortedHistoryError::ComputedOutputExceedsDelivered,
{
    reveal_strlit("prompt_incomplete");
    reveal_strlit("multiple_output_branches");
    reveal_strlit("computed_output_exceeds_delivered_output");
    assert("prompt_incomplete"@.len() == 17);
    assert("multiple_output_branches"@.len() == 24);
    assert("computed_output_exceeds_delivered_output"@.len() == 40);
}

/// Why a route is incomplete is told by a name of its own; a failed cut tells it
/// by its failure.
pub proof fn law_reasons_are_told_apart(reason: IncompleteReason)
    requires
        !(reason is Barrier),
    ensures
        reason.label() == "barrier_membership_mismatch"@ <==> reason
            == IncompleteReason::MembershipMismatch,
        reason.label() == "barrier_catalog_membership_mismatch"@ <==> reason
            == IncompleteReason::CatalogMembershipMismatch,
        reason.label() == "missing_cache_group_catalog"@ <==> reason
            == IncompleteReason::MissingCacheGroupCatalog,
        reason.label() == "hybrid_multimodal_hashing_not_supported"@ <==> reason
            == IncompleteReason::MultimodalNotSupported,
        reason.label() == "unsupported_cache_group_shape"@ <==> reason
            == IncompleteReason::UnsupportedCacheGroupShape,
        reason.label() == "missing_cache_evidence_watermark"@ <==> reason
            == IncompleteReason::MissingWatermark,
        reason.label() == "stale_cache_evidence_watermark"@ <==> reason
            == IncompleteReason::StaleWatermark,
        reason.label() == "barrier_ledger_membership_mismatch"@ <==> reason
            == IncompleteReason::LedgerMembershipMismatch,
        reason.label() == "incomplete_history_or_residency_evidence"@ <==> reason
            == IncompleteReason::IncompleteEvidence,
{
    reveal_strlit("barrier_membership_mismatch");
    reveal_strlit("barrier_catalog_membership_mismatch");
    reveal_strlit("missing_cache_group_catalog");
    reveal_strlit("hybrid_multimodal_hashing_not_supported");
    reveal_strlit("unsupported_cache_group_shape");
    reveal_strlit("missing_cache_evidence_watermark");
    reveal_strlit("stale_cache_evidence_watermark");
    reveal_strlit("barrier_ledger_membership_mismatch");
    reveal_strlit("incomplete_history_or_residency_evidence");
    assert("barrier_membership_mismatch"@.len() == 27);
    assert("barrier_catalog_membership_mismatch"@.len() == 35);
    assert("missing_cache_group_catalog"@.len() == 27);
    assert("hybrid_multimodal_hashing_not_supported"@.len() == 39);
    assert("unsupported_cache_group_shape"@.len() == 29);
    assert("missing_cache_evidence_watermark"@.len() == 32);
    assert("stale_cache_evidence_watermark"@.len() == 30);
    assert("barrier_ledger_membership_mismatch"@.len() == 34);
    assert("incomplete_history_or_residency_evidence"@.len() == 40);
    assert("barrier_membership_mismatch"@[0] == 'b');
    assert("missing_cache_group_catalog"@[0] == 'm');
}

/// The name of a failed cut as a reason is that of its failure.
pub proof fn law_failed_cut_is_its_own_reason(failure: BarrierFailure)
    ensures
        IncompleteReason::Barrier(failure).label() == "barrier_"@ + failure.label(),
{
    law_reason_names_the_failure(failure);
}

/// Tiers are told apart by their names.
pub proof fn law_tiers_are_told_apart(tier: CacheTier)
    ensures
        tier_label(tier) == "gpu"@ <==> tier == CacheTier::Gpu,
        tier_label(tier) == "cpu"@ <==> tier == CacheTier::Cpu,
{
    reveal_strlit("gpu");
    reveal_strlit("cpu");
    assert("gpu"@[0] == 'g');
    assert("cpu"@[0] == 'c');
}

/// A mutation is counted by what it does, and where.
pub proof fn law_mutations_are_counted_by_kind(mutation: CacheEvidenceMutation, tier: CacheTier)
    ensures
        mutation_label(mutation) == MutationLabel::Store(tier) <==> (mutation is Store
            && mutation->Store_tier == tier),
        mutation_label(mutation) == MutationLabel::Remove(tier) <==> (mutation is Remove
            && mutation->Remove_tier == tier),
        mutation_label(mutation) == MutationLabel::Clear <==> mutation is Clear,
{
}

/// What could not be applied is listed once each, in a fixed order.
pub proof fn law_failures_are_listed_in_order(
    failures: Set<CacheEvidenceApplyIntegrityFailure>,
    failure: CacheEvidenceApplyIntegrityFailure,
    i: int,
    j: int,
)
    ensures
        ({
            let list = ordered_failures(failures);
            &&& list.contains(failure) <==> failures.contains(failure)
            &&& 0 <= i < j < list.len() ==> place_in_list(list[i]) < place_in_list(list[j])
        }),
{
    let list = ordered_failures(failures);
    let a = if_occurred(failures, CacheEvidenceApplyIntegrityFailure::IncompleteBatch);
    let b = if_occurred(failures, CacheEvidenceApplyIntegrityFailure::MissingGroup);
    let c = if_occurred(failures, CacheEvidenceApplyIntegrityFailure::MissingParent);
    let d = if_occurred(failures, CacheEvidenceApplyIntegrityFailure::ConflictingMapping);
    assert(list == a + b + c + d);
    if failures.contains(failure) {
        match failure {
            CacheEvidenceApplyIntegrityFailure::IncompleteBatch => {
                assert(list[0] == failure);
            },
            CacheEvidenceApplyIntegrityFailure::MissingGroup => {
                assert(list[a.len() as int] == failure);
            },
            CacheEvidenceApplyIntegrityFailure::MissingParent => {
                assert(list[(a.len() + b.len()) as int] == failure);
            },
            CacheEvidenceApplyIntegrityFailure::ConflictingMapping => {
                assert(list[(a.len() + b.len() + c.len()) as int] == failure);
            },
        }
    }
    if list.contains(failure) {
        let n = choose|n: int| 0 <= n < list.len() && list[n] == failure;
        assert(list[n] == failure);
    }
}

pub open spec fn place_in_list(failure: CacheEvidenceApplyIntegrityFailure) -> int {
    match failure {
        CacheEvidenceApplyIntegrityFailure::IncompleteBatch => 0,
        CacheEvidenceApplyIntegrityFailure::MissingGroup => 1,
        CacheEvidenceApplyIntegrityFailure::MissingParent => 2,
        CacheEvidenceApplyIntegrityFailure::ConflictingMapping => 3,
    }
}

} // verus!
