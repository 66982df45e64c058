//! The vocabulary of cache evidence: owners, tiers, mutations and batches.

use vstd::prelude::*;

use crate::table::{Same, TableKey};

verus! {

/// Subject on which engine publishers announce cache evidence.
pub const KV_CACHE_EVIDENCE_SUBJECT: &'static str = "kv-cache-evidence-events";

#[derive(Clone, Copy, Debug, PartialEq, Eq, Hash, Structural)]
pub struct CacheOwner {
    pub worker_id: u64,
    pub dp_rank: u32,
}

#[derive(Clone, Copy, Debug, PartialEq, Eq, Hash, Structural)]
pub enum CacheTier {
    Gpu,
    Cpu,
}

#[derive(Clone, Copy, Debug, PartialEq, Eq, Structural)]
pub enum KnownBool {
    Yes,
    No,
    Unknown,
}

#[derive(Clone, Copy, Debug, PartialEq, Eq, Hash, Structural)]
pub enum CacheEvidenceApplyIntegrityFailure {
    IncompleteBatch,
    MissingGroup,
    MissingParent,
    ConflictingMapping,
}

impl CacheEvidenceApplyIntegrityFailure {
    pub open spec fn label(self) -> Seq<char> {
        match self {
            Self::IncompleteBatch => "incomplete_batch"@,
            Self::MissingGroup => "missing_group"@,
            Self::MissingParent => "missing_parent"@,
            Self::ConflictingMapping => "conflicting_mapping"@,
        }
    }

    pub fn metric_label(self) -> (label: &'static str)
        ensures
            label@ == self.label(),
    {
        match self {
            Self::IncompleteBatch => "incomplete_batch",
            Self::MissingGroup => "missing_group",
            Self::MissingParent => "missing_parent",
            Self::ConflictingMapping => "conflicting_mapping",
        }
    }
}

/// What went wrong while one batch was applied. Each kind of failure is
/// reported once however often it occurred.
#[derive(Clone, Copy, Debug, PartialEq, Eq, Structural)]
pub struct CacheEvidenceApplyResult {
    incomplete_batch: bool,
    missing_group: bool,
    missing_parent: bool,
    conflicting_mapping: bool,
}

impl View for CacheEvidenceApplyResult {
    type V = Set<CacheEvidenceApplyIntegrityFailure>;

    closed spec fn view(&self) -> Set<CacheEvidenceApplyIntegrityFailure> {
        Set::new(
            |failure: CacheEvidenceApplyIntegrityFailure|
                match failure {
                    CacheEvidenceApplyIntegrityFailure::IncompleteBatch => self.incomplete_batch,
                    CacheEvidenceApplyIntegrityFailure::MissingGroup => self.missing_group,
                    CacheEvidenceApplyIntegrityFailure::MissingParent => self.missing_parent,
                    CacheEvidenceApplyIntegrityFailure::ConflictingMapping =>
                        self.conflicting_mapping,
                },
        )
    }
}

impl CacheEvidenceApplyResult {
    /// A result without failures.
    pub fn new() -> (result: Self)
        ensures
            result@ == Set::<CacheEvidenceApplyIntegrityFailure>::empty(),
    {
        let result = CacheEvidenceApplyResult {
            incomplete_batch: false,
            missing_group: false,
            missing_parent: false,
            conflicting_mapping: false,
        };
        assert(result@ =~= Set::<CacheEvidenceApplyIntegrityFailure>::empty());
        result
    }

    pub(crate) fn record(&mut self, failure: CacheEvidenceApplyIntegrityFailure)
        ensures
            final(self)@ == old(self)@.insert(failure),
    {
        match failure {
            CacheEvidenceApplyIntegrityFailure::IncompleteBatch => {
                self.incomplete_batch = true;
            },
            CacheEvidenceApplyIntegrityFailure::MissingGroup => {
                self.missing_group = true;
            },
            CacheEvidenceApplyIntegrityFailure::MissingParent => {
                self.missing_parent = true;
            },
            CacheEvidenceApplyIntegrityFailure::ConflictingMapping => {
                self.conflicting_mapping = true;
            },
        }
        assert(self@ =~= old(self)@.insert(failure));
    }

    pub fn is_complete(&self) -> (complete: bool)
        ensures
            complete == (self@ == Set::<CacheEvidenceApplyIntegrityFailure>::empty()),
    {
        let complete = !self.incomplete_batch && !self.missing_group && !self.missing_parent
            && !self.conflicting_mapping;
        proof {
            if complete {
                assert(self@ =~= Set::<CacheEvidenceApplyIntegrityFailure>::empty());
            } else {
                assert(self@.contains(CacheEvidenceApplyIntegrityFailure::IncompleteBatch)
                    || self@.contains(CacheEvidenceApplyIntegrityFailure::MissingGroup)
                    || self@.contains(CacheEvidenceApplyIntegrityFailure::MissingParent)
                    || self@.contains(CacheEvidenceApplyIntegrityFailure::ConflictingMapping));
            }
        }
        complete
    }

    /// Every kind of failure that occurred, once each.
    pub fn failures(&self) -> (list: Vec<CacheEvidenceApplyIntegrityFailure>)
        ensures
            list@.no_duplicates(),
            list@.to_set() == self@,
            list@ == ordered_failures(self@),
    {
        let mut list: Vec<CacheEvidenceApplyIntegrityFailure> = Vec::new();
        if self.incomplete_batch {
            list.push(CacheEvidenceApplyIntegrityFailure::IncompleteBatch);
        }
        if self.missing_group {
            list.push(CacheEvidenceApplyIntegrityFailure::MissingGroup);
        }
        if self.missing_parent {
            list.push(CacheEvidenceApplyIntegrityFailure::MissingParent);
        }
        if self.conflicting_mapping {
            list.push(CacheEvidenceApplyIntegrityFailure::ConflictingMapping);
        }
        proof {
            let n1: int = if self.incomplete_batch { 1int } else { 0int };
            let n2: int = n1 + if self.missing_group { 1int } else { 0int };
            let n3: int = n2 + if self.missing_parent { 1int } else { 0int };
            assert forall|f: CacheEvidenceApplyIntegrityFailure| self@.contains(f) implies list@.contains(
                f,
            ) by {
                match f {
                    CacheEvidenceApplyIntegrityFailure::IncompleteBatch => {
                        assert(list@[0] == f);
                    },
                    CacheEvidenceApplyIntegrityFailure::MissingGroup => {
                        assert(list@[n1] == f);
                    },
                    CacheEvidenceApplyIntegrityFailure::MissingParent => {
                        assert(list@[n2] == f);
                    },
                    CacheEvidenceApplyIntegrityFailure::ConflictingMapping => {
                        assert(list@[n3] == f);
                    },
                }
            }
            assert(list@.to_set() =~= self@);
            assert(list@ =~= ordered_failures(self@));
        }
        list
    }
}

/// The failure, if it occurred.
pub open spec fn if_occurred(
    failures: Set<CacheEvidenceApplyIntegrityFailure>,
    failure: CacheEvidenceApplyIntegrityFailure,
) -> Seq<CacheEvidenceApplyIntegrityFailure> {
    if failures.contains(failure) {
        seq![failure]
    } else {
        Seq::empty()
    }
}

/// The failures that occurred, in the order of their declaration.
pub open spec fn ordered_failures(failures: Set<CacheEvidenceApplyIntegrityFailure>) -> Seq<
    CacheEvidenceApplyIntegrityFailure,
> {
    if_occurred(failures, CacheEvidenceApplyIntegrityFailure::IncompleteBatch) + if_occurred(
        failures,
        CacheEvidenceApplyIntegrityFailure::MissingGroup,
    ) + if_occurred(failures, CacheEvidenceApplyIntegrityFailure::MissingParent) + if_occurred(
        failures,
        CacheEvidenceApplyIntegrityFailure::ConflictingMapping,
    )
}

/// One ordered change that an engine announces to its caches.
#[allow(inconsistent_fields)]
#[derive(Clone, Debug, PartialEq, Eq)]
pub enum CacheEvidenceMutation {
    Store {
        tier: CacheTier,
        group_idx: Option<u32>,
        parent_external_hash: Option<u64>,
        blocks: Vec<CacheEvidenceStoredBlock>,
    },
    Remove { tier: CacheTier, group_idx: Option<u32>, block_hashes: Vec<u64> },
    /// Without a tier, every tier of the owner is cleared.
    Clear { tier: Option<CacheTier> },
}

#[derive(Clone, Copy, Debug, PartialEq, Eq, Structural)]
pub struct CacheEvidenceStoredBlock {
    /// Engine sequence hash used by later removal events.
    pub external_hash: u64,
    /// Token-derived hash computed with this cache group's real block size.
    pub tokens_hash: u64,
}

#[derive(Clone, Copy, Debug, PartialEq, Eq, Structural)]
pub struct CacheGroupBlockQuery {
    pub group_idx: u32,
    pub tokens_hash: u64,
}

#[derive(Clone, Copy, Debug, PartialEq, Eq, Structural)]
pub struct CacheEvidenceStats {
    pub history_blocks: usize,
    pub history_saturated: bool,
    pub history_complete: bool,
    pub gpu_physical_blocks: usize,
    pub cpu_physical_blocks: usize,
    pub expected_owners: usize,
    pub cataloged_owners: usize,
    pub physical_scope_complete: bool,
    pub physical_telemetry_complete: bool,
}

/// One engine publisher batch. Empty mutation batches are retained so the
/// router can detect a missing source cursor even when a batch contained no
/// routing-indexable cache event.
#[derive(Clone, Debug, PartialEq, Eq)]
pub struct CacheEvidenceBatch {
    pub owner: CacheOwner,
    pub source_cursor: u64,
    /// Incarnation advertised by the source membership record. Missing on
    /// legacy publishers, whose evidence cannot be freshness-fenced.
    pub source_incarnation_id: Option<u64>,
    /// An ordered heartbeat proves that every source batch through this cursor
    /// was admitted to the evidence queue before this batch.
    pub heartbeat: bool,
    pub watermark_source_cursor: Option<u64>,
    /// False when one or more events in this source batch could not be
    /// represented as local GPU/CPU residency evidence.
    pub telemetry_complete: bool,
    pub mutations: Vec<CacheEvidenceMutation>,
    /// Ordered route-time cut emitted by a barrier-capable engine. Missing on
    /// legacy batches and ordinary mutations.
    pub barrier_id: Option<u64>,
    pub epoch_id: Option<String>,
}

/// Where one physical copy of a block lives.
#[derive(Clone, Copy, Debug, PartialEq, Eq, Hash, Structural)]
pub struct PhysicalCopy {
    pub owner: CacheOwner,
    pub tier: CacheTier,
    pub group: u32,
}

/// A block, by some hash, together with where a copy of it lives.
#[derive(Clone, Copy, Debug, PartialEq, Eq, Hash, Structural)]
pub struct BlockCopy {
    pub hash: u64,
    pub copy: PhysicalCopy,
}

/// One cache tier of one owner.
#[derive(Clone, Copy, Debug, PartialEq, Eq, Hash, Structural)]
pub struct OwnerTier {
    pub owner: CacheOwner,
    pub tier: CacheTier,
}

impl Same for CacheOwner {
    fn same(self, other: Self) -> (b: bool) {
        self == other
    }
}

impl TableKey for CacheOwner {
    open spec fn bucket_of(self) -> u64 {
        self.worker_id
    }

    fn bucket(self) -> (b: u64) {
        self.worker_id
    }
}

impl Same for OwnerTier {
    fn same(self, other: Self) -> (b: bool) {
        self == other
    }
}

impl TableKey for OwnerTier {
    open spec fn bucket_of(self) -> u64 {
        self.owner.worker_id
    }

    fn bucket(self) -> (b: u64) {
        self.owner.worker_id
    }
}

impl Same for BlockCopy {
    fn same(self, other: Self) -> (b: bool) {
        self == other
    }
}

impl TableKey for BlockCopy {
    open spec fn bucket_of(self) -> u64 {
        self.hash
    }

    fn bucket(self) -> (b: u64) {
        self.hash
    }
}

} // verus!
