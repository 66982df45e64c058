//! What is known of a request's reusable prefix when it is routed.

use vstd::prelude::*;

use crate::barrier::{BarrierCoordinator, BarrierFailure, BarrierOutcome};
use crate::prefix::CacheGroupHashSequence;

verus! {

#[derive(Clone, Copy, Debug, PartialEq, Eq, Structural)]
pub enum CacheEvidenceQuality {
    /// No complete physical-cache attribution is available.
    Incomplete,
    /// Physical state is bounded by recent ordered watermarks, without a
    /// route-time barrier.
    BoundedPhysical,
    /// Physical state is proven through an ordered route-time barrier.
    Exact,
}

impl CacheEvidenceQuality {
    pub open spec fn label(self) -> Seq<char> {
        match self {
            Self::Incomplete => "incomplete"@,
            Self::BoundedPhysical => "bounded_physical"@,
            Self::Exact => "exact"@,
        }
    }

    pub fn metric_label(&self) -> (label: &'static str)
        ensures
            label@ == self.label(),
    {
        match self {
            Self::Incomplete => "incomplete",
            Self::BoundedPhysical => "bounded_physical",
            Self::Exact => "exact",
        }
    }
}

impl Default for CacheEvidenceQuality {
    fn default() -> (quality: Self)
        ensures
            quality == CacheEvidenceQuality::Incomplete,
    {
        CacheEvidenceQuality::Incomplete
    }
}

/// Why a route observation does not attribute its tokens.
#[derive(Clone, Copy, Debug, PartialEq, Eq, Structural)]
pub enum IncompleteReason {
    MembershipMismatch,
    CatalogMembershipMismatch,
    MissingCacheGroupCatalog,
    MultimodalNotSupported,
    UnsupportedCacheGroupShape,
    MissingWatermark,
    StaleWatermark,
    LedgerMembershipMismatch,
    IncompleteEvidence,
    Barrier(BarrierFailure),
}

impl IncompleteReason {
    pub open spec fn label(self) -> Seq<char> {
        match self {
            Self::MembershipMismatch => "barrier_membership_mismatch"@,
            Self::CatalogMembershipMismatch => "barrier_catalog_membership_mismatch"@,
            Self::MissingCacheGroupCatalog => "missing_cache_group_catalog"@,
            Self::MultimodalNotSupported => "hybrid_multimodal_hashing_not_supported"@,
            Self::UnsupportedCacheGroupShape => "unsupported_cache_group_shape"@,
            Self::MissingWatermark => "missing_cache_evidence_watermark"@,
            Self::StaleWatermark => "stale_cache_evidence_watermark"@,
            Self::LedgerMembershipMismatch => "barrier_ledger_membership_mismatch"@,
            Self::IncompleteEvidence => "incomplete_history_or_residency_evidence"@,
            Self::Barrier(failure) => failure.reason_label(),
        }
    }

    pub fn reason(self) -> (reason: &'static str)
        ensures
            reason@ == self.label(),
    {
        match self {
            Self::MembershipMismatch => "barrier_membership_mismatch",
            Self::CatalogMembershipMismatch => "barrier_catalog_membership_mismatch",
            Self::MissingCacheGroupCatalog => "missing_cache_group_catalog",
            Self::MultimodalNotSupported => "hybrid_multimodal_hashing_not_supported",
            Self::UnsupportedCacheGroupShape => "unsupported_cache_group_shape",
            Self::MissingWatermark => "missing_cache_evidence_watermark",
            Self::StaleWatermark => "stale_cache_evidence_watermark",
            Self::LedgerMembershipMismatch => "barrier_ledger_membership_mismatch",
            Self::IncompleteEvidence => "incomplete_history_or_residency_evidence",
            Self::Barrier(failure) => failure.reason(),
        }
    }
}

/// The prefix lengths that a request had when it was routed.
#[derive(Clone, Debug)]
pub struct CacheLossRouteObservation {
    pub prompt_tokens: u64,
    pub reusable_prefix_tokens: Option<u64>,
    pub physical_prefix_tokens: Option<u64>,
    pub router_visible_prefix_tokens: Option<u64>,
    pub selected_physical_prefix_tokens: Option<u64>,
    pub group_hashes: Option<Vec<CacheGroupHashSequence>>,
    pub quality: CacheEvidenceQuality,
    pub complete: bool,
    pub incomplete_reason: Option<IncompleteReason>,
    /// The ticket of the route-time cut that is to prove the observation.
    pub barrier: Option<u64>,
}

impl Default for CacheLossRouteObservation {
    fn default() -> (observation: Self)
        ensures
            observation == (CacheLossRouteObservation {
                prompt_tokens: 0,
                reusable_prefix_tokens: None,
                physical_prefix_tokens: None,
                router_visible_prefix_tokens: None,
                selected_physical_prefix_tokens: None,
                group_hashes: None,
                quality: CacheEvidenceQuality::Incomplete,
                complete: false,
                incomplete_reason: None,
                barrier: None,
            }),
    {
        CacheLossRouteObservation {
            prompt_tokens: 0,
            reusable_prefix_tokens: None,
            physical_prefix_tokens: None,
            router_visible_prefix_tokens: None,
            selected_physical_prefix_tokens: None,
            group_hashes: None,
            quality: CacheEvidenceQuality::Incomplete,
            complete: false,
            incomplete_reason: None,
            barrier: None,
        }
    }
}

impl CacheLossRouteObservation {
    /// An observation that attributes nothing, with its reason.
    pub fn incomplete(prompt_tokens: u64, reason: IncompleteReason) -> (observation: Self)
        ensures
            observation == (CacheLossRouteObservation {
                prompt_tokens,
                reusable_prefix_tokens: None,
                physical_prefix_tokens: None,
                router_visible_prefix_tokens: None,
                selected_physical_prefix_tokens: None,
                group_hashes: None,
                quality: CacheEvidenceQuality::Incomplete,
                complete: false,
                incomplete_reason: Some(reason),
                barrier: None,
            }),
    {
        CacheLossRouteObservation {
            prompt_tokens,
            reusable_prefix_tokens: None,
            physical_prefix_tokens: None,
            router_visible_prefix_tokens: None,
            selected_physical_prefix_tokens: None,
            group_hashes: None,
            quality: CacheEvidenceQuality::Incomplete,
            complete: false,
            incomplete_reason: Some(reason),
            barrier: None,
        }
    }

    /// The outcome that the cut has by now. A cut that the coordinator does
    /// not know of has come to nothing that could be told.
    pub open spec fn outcome_of(
        outcomes: Map<u64, BarrierOutcome>,
        ticket: u64,
    ) -> BarrierOutcome {
        if outcomes.contains_key(ticket) {
            outcomes[ticket]
        } else {
            BarrierOutcome::Pending
        }
    }

    /// The observation once its cut has come out.
    pub open spec fn settled(self, outcome: BarrierOutcome) -> CacheLossRouteObservation {
        match outcome {
            BarrierOutcome::Pending => self,
            BarrierOutcome::Exact => CacheLossRouteObservation {
                quality: CacheEvidenceQuality::Exact,
                ..self
            },
            BarrierOutcome::Incomplete(failure) => CacheLossRouteObservation {
                complete: false,
                quality: CacheEvidenceQuality::Incomplete,
                incomplete_reason: Some(IncompleteReason::Barrier(failure)),
                ..self
            },
        }
    }

    /// Applies an already resolved barrier. Returns false only while a barrier
    /// is still pending, so streaming metrics cannot consume a provisional
    /// bounded observation after its exactness result is ready. The outcome
    /// stays where it is: every holder of the ticket reads the same.
    pub fn finalize_barrier_if_ready(&mut self, barriers: &BarrierCoordinator) -> (ready: bool)
        ensures
            match old(self).barrier {
                None => ready && *final(self) == *old(self),
                Some(ticket) => {
                    let outcome = Self::outcome_of(barriers@.outcomes, ticket);
                    &&& ready == (outcome != BarrierOutcome::Pending)
                    &&& *final(self) == if ready {
                        (CacheLossRouteObservation { barrier: None, ..*old(self) }).settled(
                            outcome,
                        )
                    } else {
                        *old(self)
                    }
                },
            },
    {
        let ticket: u64 = match self.barrier {
            None => {
                return true;
            },
            Some(ticket) => ticket,
        };
        let outcome = match barriers.outcome(ticket) {
            None => BarrierOutcome::Pending,
            Some(outcome) => outcome,
        };
        if outcome == BarrierOutcome::Pending {
            return false;
        }
        self.barrier = None;
        self.apply_barrier_outcome(outcome);
        true
    }

    /// Applies the outcome of the observation's cut.
    pub fn apply_barrier_outcome(&mut self, outcome: BarrierOutcome)
        requires
            outcome != BarrierOutcome::Pending,
        ensures
            *final(self) == old(self).settled(outcome),
    {
        match outcome {
            BarrierOutcome::Exact => {
                self.quality = CacheEvidenceQuality::Exact;
            },
            BarrierOutcome::Incomplete(failure) => {
                self.complete = false;
                self.quality = CacheEvidenceQuality::Incomplete;
                self.incomplete_reason = Some(IncompleteReason::Barrier(failure));
            },
            BarrierOutcome::Pending => {},
        }
    }
}

} // verus!
