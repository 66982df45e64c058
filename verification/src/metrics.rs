//! What there is to count while evidence is processed.

use vstd::prelude::*;

use crate::barrier::BarrierFailure;
use crate::evidence::{CacheEvidenceApplyIntegrityFailure, CacheEvidenceMutation, CacheTier};

verus! {

/// How an evidence batch was received.
#[derive(Clone, Copy, Debug, PartialEq, Eq, Structural)]
pub enum BatchLabel {
    DecodeError,
    InactiveOwner,
    Legacy,
    WrongIncarnation,
    InvalidWatermark,
    StaleWatermark,
    WatermarkAhead,
    Watermark,
    Gap,
    Stale,
    PublisherRestart,
    ColdEpochMarker,
    ColdEpochClear,
    InvalidBarrier,
    Barrier,
    Applied,
}

impl BatchLabel {
    pub open spec fn label(self) -> Seq<char> {
        match self {
            Self::DecodeError => "decode_error"@,
            Self::InactiveOwner => "inactive_owner"@,
            Self::Legacy => "legacy"@,
            Self::WrongIncarnation => "wrong_incarnation"@,
            Self::InvalidWatermark => "invalid_watermark"@,
            Self::StaleWatermark => "stale_watermark"@,
            Self::WatermarkAhead => "watermark_ahead"@,
            Self::Watermark => "watermark"@,
            Self::Gap => "gap"@,
            Self::Stale => "stale"@,
            Self::PublisherRestart => "publisher_restart"@,
            Self::ColdEpochMarker => "cold_epoch_marker"@,
            Self::ColdEpochClear => "cold_epoch_clear"@,
            Self::InvalidBarrier => "invalid_barrier"@,
            Self::Barrier => "barrier"@,
            Self::Applied => "applied"@,
        }
    }

    pub fn metric_label(self) -> (label: &'static str)
        ensures
            label@ == self.label(),
    {
        match self {
            Self::DecodeError => "decode_error",
            Self::InactiveOwner => "inactive_owner",
            Self::Legacy => "legacy",
            Self::WrongIncarnation => "wrong_incarnation",
            Self::InvalidWatermark => "invalid_watermark",
            Self::StaleWatermark => "stale_watermark",
            Self::WatermarkAhead => "watermark_ahead",
            Self::Watermark => "watermark",
            Self::Gap => "gap",
            Self::Stale => "stale",
            Self::PublisherRestart => "publisher_restart",
            Self::ColdEpochMarker => "cold_epoch_marker",
            Self::ColdEpochClear => "cold_epoch_clear",
            Self::InvalidBarrier => "invalid_barrier",
            Self::Barrier => "barrier",
            Self::Applied => "applied",
        }
    }
}

/// The kind of an applied mutation.
#[derive(Clone, Copy, Debug, PartialEq, Eq, Structural)]
pub enum MutationLabel {
    Store(CacheTier),
    Remove(CacheTier),
    Clear,
}

pub open spec fn tier_label(tier: CacheTier) -> Seq<char> {
    match tier {
        CacheTier::Gpu => "gpu"@,
        CacheTier::Cpu => "cpu"@,
    }
}

pub fn cache_tier_label(tier: CacheTier) -> (label: &'static str)
    ensures
        label@ == tier_label(tier),
{
    match tier {
        CacheTier::Gpu => "gpu",
        CacheTier::Cpu => "cpu",
    }
}

pub open spec fn mutation_label(mutation: CacheEvidenceMutation) -> MutationLabel {
    match mutation {
        CacheEvidenceMutation::Store { tier, .. } => MutationLabel::Store(tier),
        CacheEvidenceMutation::Remove { tier, .. } => MutationLabel::Remove(tier),
        CacheEvidenceMutation::Clear { .. } => MutationLabel::Clear,
    }
}

impl MutationLabel {
    pub fn of(mutation: &CacheEvidenceMutation) -> (label: Self)
        ensures
            label == mutation_label(*mutation),
    {
        match mutation {
            CacheEvidenceMutation::Store { tier, .. } => MutationLabel::Store(*tier),
            CacheEvidenceMutation::Remove { tier, .. } => MutationLabel::Remove(*tier),
            CacheEvidenceMutation::Clear { .. } => MutationLabel::Clear,
        }
    }

    pub fn operation(self) -> (label: &'static str)
        ensures
            label@ == match self {
                MutationLabel::Store(_) => "store"@,
                MutationLabel::Remove(_) => "remove"@,
                MutationLabel::Clear => "clear"@,
            },
    {
        match self {
            MutationLabel::Store(_) => "store",
            MutationLabel::Remove(_) => "remove",
            MutationLabel::Clear => "clear",
        }
    }

    pub fn tier(self) -> (label: &'static str)
        ensures
            label@ == match self {
                MutationLabel::Store(tier) => tier_label(tier),
                MutationLabel::Remove(tier) => tier_label(tier),
                MutationLabel::Clear => "all"@,
            },
    {
        match self {
            MutationLabel::Store(tier) => cache_tier_label(tier),
            MutationLabel::Remove(tier) => cache_tier_label(tier),
            MutationLabel::Clear => "all",
        }
    }
}

/// One observation to count.
#[derive(Clone, Copy, Debug, PartialEq, Eq, Structural)]
pub enum EvidenceMetric {
    Batch(BatchLabel),
    BarrierIncomplete(BarrierFailure),
    /// Nanoseconds from the first cut of a round to its last marker.
    BarrierRtt(u64),
    /// Cuts that shared a round.
    BarrierCoalesced(u64),
    Mutation(MutationLabel),
    ApplyIntegrityFailure(CacheEvidenceApplyIntegrityFailure),
}

} // verus!
