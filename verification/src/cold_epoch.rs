//! Evidence that all owners have started over with empty caches.
//!
//! A cold epoch asks every owner to clear its caches under one epoch id. The
//! history may start anew once each owner's stream has shown exactly the
//! expected clears, directly followed by its marker, and every owner has
//! accepted the request.

use vstd::prelude::*;

use crate::evidence::{CacheEvidenceBatch, CacheEvidenceMutation, CacheOwner, CacheTier};
use crate::owner_map::pairs_map;
use crate::table::Table;
use crate::text::same_text;

verus! {

/// Why a cold epoch cannot be completed.
#[derive(Clone, Copy, Debug, PartialEq, Eq, Structural)]
pub enum ColdEpochFailure {
    InvalidClear,
    InvalidMarker,
    MembershipChanged,
    CatalogChanged,
    MutationAfterClear,
    SubscriberClosed,
    DecodeError,
    LegacyBatch,
    Gap,
    Restart,
    IncompleteBatch,
    UnresolvedMutation,
    ApplyIntegrityFailure,
    BeginFailed,
    ResidualPhysicalState,
    SnapshotChanged,
    Cancelled,
}

impl ColdEpochFailure {
    pub open spec fn reason_label(self) -> Seq<char> {
        match self {
            Self::InvalidClear => "cold_epoch_invalid_clear"@,
            Self::InvalidMarker => "cold_epoch_invalid_marker"@,
            Self::MembershipChanged => "cold_epoch_membership_changed"@,
            Self::CatalogChanged => "cold_epoch_catalog_changed"@,
            Self::MutationAfterClear => "cold_epoch_mutation_after_clear"@,
            Self::SubscriberClosed => "cold_epoch_subscriber_closed"@,
            Self::DecodeError => "cold_epoch_decode_error"@,
            Self::LegacyBatch => "cold_epoch_legacy_batch"@,
            Self::Gap => "cold_epoch_gap"@,
            Self::Restart => "cold_epoch_restart"@,
            Self::IncompleteBatch => "cold_epoch_incomplete_batch"@,
            Self::UnresolvedMutation => "cold_epoch_unresolved_mutation"@,
            Self::ApplyIntegrityFailure => "cold_epoch_apply_integrity_failure"@,
            Self::BeginFailed => "cold_epoch_begin_failed"@,
            Self::ResidualPhysicalState => "cold_epoch_residual_physical_state"@,
            Self::SnapshotChanged => "cold_epoch_snapshot_changed"@,
            Self::Cancelled => "cold_epoch_cancelled"@,
        }
    }

    pub fn reason(self) -> (reason: &'static str)
        ensures
            reason@ == self.reason_label(),
    {
        match self {
            Self::InvalidClear => "cold_epoch_invalid_clear",
            Self::InvalidMarker => "cold_epoch_invalid_marker",
            Self::MembershipChanged => "cold_epoch_membership_changed",
            Self::CatalogChanged => "cold_epoch_catalog_changed",
            Self::MutationAfterClear => "cold_epoch_mutation_after_clear",
            Self::SubscriberClosed => "cold_epoch_subscriber_closed",
            Self::DecodeError => "cold_epoch_decode_error",
            Self::LegacyBatch => "cold_epoch_legacy_batch",
            Self::Gap => "cold_epoch_gap",
            Self::Restart => "cold_epoch_restart",
            Self::IncompleteBatch => "cold_epoch_incomplete_batch",
            Self::UnresolvedMutation => "cold_epoch_unresolved_mutation",
            Self::ApplyIntegrityFailure => "cold_epoch_apply_integrity_failure",
            Self::BeginFailed => "cold_epoch_begin_failed",
            Self::ResidualPhysicalState => "cold_epoch_residual_physical_state",
            Self::SnapshotChanged => "cold_epoch_snapshot_changed",
            Self::Cancelled => "cold_epoch_cancelled",
        }
    }
}

#[derive(Clone, Copy, Debug, PartialEq, Eq, Structural)]
pub enum ColdEpochOutcome {
    Pending,
    EvidenceReady,
    Incomplete(ColdEpochFailure),
}

#[derive(Clone, Copy, Debug, PartialEq, Eq, Structural)]
pub enum ColdEpochBeginError {
    NoEligibleOwners,
    AlreadyActive,
}

/// A set of cache tiers.
#[derive(Clone, Copy, Debug, PartialEq, Eq, Structural)]
pub struct TierSet {
    pub gpu: bool,
    pub cpu: bool,
}

impl TierSet {
    pub open spec fn contains(self, tier: CacheTier) -> bool {
        match tier {
            CacheTier::Gpu => self.gpu,
            CacheTier::Cpu => self.cpu,
        }
    }

    pub open spec fn size(self) -> nat {
        (if self.gpu {
            1nat
        } else {
            0nat
        }) + (if self.cpu {
            1nat
        } else {
            0nat
        })
    }

    /// The listed tiers.
    pub fn of(tiers: &[CacheTier]) -> (set: TierSet)
        ensures
            forall|tier: CacheTier| #[trigger] set.contains(tier) <==> tiers@.contains(tier),
    {
        let mut set = TierSet { gpu: false, cpu: false };
        let mut i: usize = 0;
        while i < tiers.len()
            invariant
                i <= tiers@.len(),
                forall|tier: CacheTier| #[trigger]
                    set.contains(tier) <==> tiers@.take(i as int).contains(tier),
            decreases tiers@.len() - i,
        {
            let ghost before = set;
            match tiers[i] {
                CacheTier::Gpu => {
                    set.gpu = true;
                },
                CacheTier::Cpu => {
                    set.cpu = true;
                },
            }
            i = i + 1;
            proof {
                let now = tiers@.take(i as int);
                let earlier = tiers@.take(i - 1);
                assert(now =~= earlier.push(tiers@[i - 1]));
                assert forall|tier: CacheTier| #[trigger]
                    set.contains(tier) <==> now.contains(tier) by {
                    assert(before.contains(tier) <==> earlier.contains(tier));
                    if earlier.contains(tier) {
                        let j = choose|j: int| 0 <= j < earlier.len() && earlier[j] == tier;
                        assert(now[j] == tier);
                    }
                    if now.contains(tier) && tier != tiers@[i - 1] {
                        let j = choose|j: int| 0 <= j < now.len() && now[j] == tier;
                        assert(earlier[j] == tier);
                    }
                    assert(now[i - 1] == tiers@[i - 1]);
                }
            }
        }
        assert(tiers@.take(i as int) =~= tiers@);
        set
    }

    pub fn len(self) -> (n: usize)
        ensures
            n == self.size(),
    {
        let gpu: usize = if self.gpu {
            1
        } else {
            0
        };
        let cpu: usize = if self.cpu {
            1
        } else {
            0
        };
        gpu + cpu
    }
}

/// What an owner must be, and must clear, for the epoch to count.
#[derive(Clone, Copy, Debug, PartialEq, Eq, Structural)]
pub struct ColdEpochOwnerFence {
    pub evidence_incarnation: u64,
    pub serving_incarnation: u64,
    pub expected_tiers: TierSet,
}

#[derive(Clone, Copy, Debug, PartialEq, Eq, Structural)]
pub struct ColdEpochOwnerProgress {
    pub fence: ColdEpochOwnerFence,
    pub clear_cursor: Option<u64>,
    pub marker_seen: bool,
}

// ---- model ----

#[verifier::ext_equal]
pub struct ColdRoundView {
    pub epoch_id: Seq<char>,
    pub barrier_id: u64,
    pub owners: Map<CacheOwner, ColdEpochOwnerProgress>,
    pub controls_succeeded: bool,
}

/// The epoch under way, and the outcome of the one begun last.
#[verifier::ext_equal]
pub struct ColdEpochView {
    pub active: Option<ColdRoundView>,
    pub outcome: ColdEpochOutcome,
}

pub open spec fn clears(mutation: CacheEvidenceMutation, tier: CacheTier) -> bool {
    mutation matches CacheEvidenceMutation::Clear { tier: Some(cleared) } && cleared == tier
}

/// Some mutation clears the tier.
pub open spec fn clears_tier(mutations: Seq<CacheEvidenceMutation>, tier: CacheTier) -> bool {
    exists|i: int| 0 <= i < mutations.len() && clears(#[trigger] mutations[i], tier)
}

/// The mutations clear each expected tier once and do nothing else.
pub open spec fn clears_exactly(mutations: Seq<CacheEvidenceMutation>, tiers: TierSet) -> bool {
    &&& mutations.len() == tiers.size()
    &&& clears_tier(mutations, CacheTier::Gpu) == tiers.gpu
    &&& clears_tier(mutations, CacheTier::Cpu) == tiers.cpu
}

impl ColdEpochOwnerProgress {
    /// The batch is the owner's clear: from its fenced incarnation, not seen
    /// before, and clearing exactly the expected tiers.
    pub open spec fn accepts_clear(self, batch: CacheEvidenceBatch) -> bool {
        &&& batch.source_incarnation_id == Some(self.fence.evidence_incarnation)
        &&& self.clear_cursor is None
        &&& clears_exactly(batch.mutations@, self.fence.expected_tiers)
    }

    /// The batch is the owner's marker: it directly follows the clear.
    pub open spec fn accepts_marker(self, batch: CacheEvidenceBatch) -> bool {
        &&& batch.source_incarnation_id == Some(self.fence.evidence_incarnation)
        &&& self.clear_cursor is Some
        &&& self.clear_cursor->0 + 1 == batch.source_cursor
        &&& !self.marker_seen
    }

    pub open spec fn is_done(self) -> bool {
        self.clear_cursor is Some && self.marker_seen
    }
}

impl ColdRoundView {
    pub open spec fn is_ready(self) -> bool {
        self.controls_succeeded && forall|owner: CacheOwner| #[trigger]
            self.owners.contains_key(owner) ==> self.owners[owner].is_done()
    }

    pub open spec fn is_of(self, batch: CacheEvidenceBatch) -> bool {
        batch.epoch_id matches Some(epoch_id) && epoch_id@ == self.epoch_id
    }
}

impl ColdEpochView {
    pub open spec fn initial() -> ColdEpochView {
        ColdEpochView { active: None, outcome: ColdEpochOutcome::Pending }
    }

    pub open spec fn begin(
        self,
        epoch_id: Seq<char>,
        barrier_id: u64,
        owners: Map<CacheOwner, ColdEpochOwnerFence>,
    ) -> ColdEpochView {
        ColdEpochView {
            active: Some(
                ColdRoundView {
                    epoch_id,
                    barrier_id,
                    owners: owners.map_values(
                        |fence: ColdEpochOwnerFence|
                            ColdEpochOwnerProgress {
                                fence,
                                clear_cursor: None,
                                marker_seen: false,
                            },
                    ),
                    controls_succeeded: false,
                },
            ),
            outcome: ColdEpochOutcome::Pending,
        }
    }

    pub open spec fn fail(self, failure: ColdEpochFailure) -> ColdEpochView {
        match self.active {
            None => self,
            Some(_) => ColdEpochView {
                active: None,
                outcome: ColdEpochOutcome::Incomplete(failure),
            },
        }
    }

    /// The round goes on in the given state; its evidence may now be ready.
    pub open spec fn proceed(self, round: ColdRoundView) -> ColdEpochView {
        ColdEpochView {
            active: Some(round),
            outcome: if round.is_ready() {
                ColdEpochOutcome::EvidenceReady
            } else {
                self.outcome
            },
        }
    }

    pub open spec fn controls_succeeded(self, epoch_id: Seq<char>) -> ColdEpochView {
        match self.active {
            Some(round) => if round.epoch_id == epoch_id {
                self.proceed(ColdRoundView { controls_succeeded: true, ..round })
            } else {
                self
            },
            None => self,
        }
    }

    pub open spec fn accepts_clear_baseline(self, batch: CacheEvidenceBatch) -> bool {
        match self.active {
            None => false,
            Some(round) => {
                &&& round.is_of(batch)
                &&& batch.barrier_id is None
                &&& batch.telemetry_complete
                &&& round.owners.contains_key(batch.owner)
                &&& round.owners[batch.owner].accepts_clear(batch)
            },
        }
    }

    /// A batch with an epoch id and mutations. Anything but the owner's clear
    /// of the epoch under way fails the epoch.
    pub open spec fn observe_clear_batch(self, batch: CacheEvidenceBatch) -> ColdEpochView {
        match self.active {
            None => self,
            Some(round) => if batch.epoch_id is None {
                self
            } else if !round.is_of(batch) || batch.barrier_id is Some || !batch.telemetry_complete {
                self.fail(ColdEpochFailure::InvalidClear)
            } else if !round.owners.contains_key(batch.owner) {
                self.fail(ColdEpochFailure::MembershipChanged)
            } else if !round.owners[batch.owner].accepts_clear(batch) {
                self.fail(ColdEpochFailure::InvalidClear)
            } else {
                let progress = ColdEpochOwnerProgress {
                    clear_cursor: Some(batch.source_cursor),
                    ..round.owners[batch.owner]
                };
                ColdEpochView {
                    active: Some(
                        ColdRoundView {
                            owners: round.owners.insert(batch.owner, progress),
                            ..round
                        },
                    ),
                    ..self
                }
            },
        }
    }

    /// A batch with an epoch id and no mutations. Anything but the owner's
    /// marker of the epoch under way fails the epoch.
    pub open spec fn observe_marker(self, batch: CacheEvidenceBatch) -> ColdEpochView {
        match self.active {
            None => self,
            Some(round) => if batch.epoch_id is None {
                self
            } else if !round.is_of(batch) || batch.barrier_id != Some(round.barrier_id)
                || batch.mutations@.len() > 0 || !batch.telemetry_complete {
                self.fail(ColdEpochFailure::InvalidMarker)
            } else if !round.owners.contains_key(batch.owner) {
                self.fail(ColdEpochFailure::MembershipChanged)
            } else if !round.owners[batch.owner].accepts_marker(batch) {
                self.fail(ColdEpochFailure::InvalidMarker)
            } else {
                let progress = ColdEpochOwnerProgress {
                    marker_seen: true,
                    ..round.owners[batch.owner]
                };
                self.proceed(
                    ColdRoundView { owners: round.owners.insert(batch.owner, progress), ..round },
                )
            },
        }
    }

    /// An ordinary event of an owner between its clear and its marker.
    pub open spec fn unexpected_mutation(self, owner: CacheOwner) -> ColdEpochView {
        match self.active {
            None => self,
            Some(round) => if round.owners.contains_key(owner) && round.owners[owner].clear_cursor
                is Some && !round.owners[owner].marker_seen {
                self.fail(ColdEpochFailure::MutationAfterClear)
            } else {
                self
            },
        }
    }

    pub open spec fn complete(self, epoch_id: Seq<char>) -> ColdEpochView {
        match self.active {
            Some(round) => if round.epoch_id == epoch_id {
                ColdEpochView { active: None, ..self }
            } else {
                self
            },
            None => self,
        }
    }
}

// ---- coordinator ----

struct ColdEpochRound {
    epoch_id: String,
    barrier_id: u64,
    owners: Table<CacheOwner, ColdEpochOwnerProgress>,
    controls_succeeded: bool,
}

impl View for ColdEpochRound {
    type V = ColdRoundView;

    closed spec fn view(&self) -> ColdRoundView {
        ColdRoundView {
            epoch_id: self.epoch_id@,
            barrier_id: self.barrier_id,
            owners: self.owners@,
            controls_succeeded: self.controls_succeeded,
        }
    }
}

pub struct ColdEpochCoordinator {
    active: Option<ColdEpochRound>,
    outcome: ColdEpochOutcome,
}

impl View for ColdEpochCoordinator {
    type V = ColdEpochView;

    closed spec fn view(&self) -> ColdEpochView {
        ColdEpochView {
            active: match self.active {
                None => None,
                Some(round) => Some(round@),
            },
            outcome: self.outcome,
        }
    }
}

impl Default for ColdEpochCoordinator {
    fn default() -> (coordinator: Self)
        ensures
            coordinator.wf(),
            coordinator@ == ColdEpochView::initial(),
    {
        ColdEpochCoordinator { active: None, outcome: ColdEpochOutcome::Pending }
    }
}

fn clears_a_tier(mutations: &Vec<CacheEvidenceMutation>, wanted: CacheTier) -> (found: bool)
    ensures
        found == clears_tier(mutations@, wanted),
{
    let mut i: usize = 0;
    while i < mutations.len()
        invariant
            i <= mutations@.len(),
            forall|j: int| 0 <= j < i ==> !clears(#[trigger] mutations@[j], wanted),
        decreases mutations@.len() - i,
    {
        if let CacheEvidenceMutation::Clear { tier: Some(tier) } = &mutations[i] {
            if *tier == wanted {
                assert(clears(mutations@[i as int], wanted));
                return true;
            }
        }
        i = i + 1;
    }
    false
}

impl ColdEpochOwnerProgress {
    fn takes_clear(&self, batch: &CacheEvidenceBatch) -> (accepted: bool)
        ensures
            accepted == self.accepts_clear(*batch),
    {
        let tiers = self.fence.expected_tiers;
        batch.source_incarnation_id == Some(self.fence.evidence_incarnation)
            && self.clear_cursor.is_none() && batch.mutations.len() == tiers.len()
            && clears_a_tier(&batch.mutations, CacheTier::Gpu) == tiers.gpu && clears_a_tier(
            &batch.mutations,
            CacheTier::Cpu,
        ) == tiers.cpu
    }

    fn takes_marker(&self, batch: &CacheEvidenceBatch) -> (accepted: bool)
        ensures
            accepted == self.accepts_marker(*batch),
    {
        let follows = match self.clear_cursor {
            None => false,
            Some(cursor) => match cursor.checked_add(1) {
                None => false,
                Some(next) => next == batch.source_cursor,
            },
        };
        batch.source_incarnation_id == Some(self.fence.evidence_incarnation) && follows
            && !self.marker_seen
    }
}

impl ColdEpochRound {
    fn names(&self, batch: &CacheEvidenceBatch) -> (same: bool)
        ensures
            same == self@.is_of(*batch),
    {
        match &batch.epoch_id {
            None => false,
            Some(epoch_id) => *epoch_id == self.epoch_id,
        }
    }

    fn ready(&self) -> (ready: bool)
        requires
            self.owners.wf(),
        ensures
            ready == self@.is_ready(),
    {
        let owners = &self.owners;
        let unfinished = |owner: CacheOwner| -> (r: bool)
            requires
                owners.wf(),
            ensures
                r == !(owners@.contains_key(owner) && owners@[owner].is_done()),
            {
                match owners.get(owner) {
                    None => true,
                    Some(progress) => !(progress.clear_cursor.is_some() && progress.marker_seen),
                }
            };
        let ghost waiting = |owner: CacheOwner|
            !(owners@.contains_key(owner) && owners@[owner].is_done());
        let any_unfinished = owners.any(unfinished, Ghost(waiting));
        proof {
            assert forall|owner: CacheOwner| #[trigger]
                self@.owners.contains_key(owner) && !any_unfinished implies self@.owners[owner].is_done() by {
                assert(owners@.contains_key(owner));
                assert(!waiting(owner));
            }
            if any_unfinished {
                let owner = choose|owner: CacheOwner| #[trigger]
                    owners@.contains_key(owner) && waiting(owner);
                assert(self@.owners.contains_key(owner));
            }
        }
        self.controls_succeeded && !any_unfinished
    }
}

impl ColdEpochCoordinator {
    pub closed spec fn wf(&self) -> bool {
        match self.active {
            None => true,
            Some(round) => round.owners.wf(),
        }
    }

    /// Starts an epoch for the given owners.
    pub fn begin(
        &mut self,
        epoch_id: String,
        barrier_id: u64,
        owners: &[(CacheOwner, ColdEpochOwnerFence)],
    ) -> (result: Result<(), ColdEpochBeginError>)
        requires
            old(self).wf(),
        ensures
            final(self).wf(),
            match result {
                Err(ColdEpochBeginError::NoEligibleOwners) => owners@.len() == 0,
                Err(ColdEpochBeginError::AlreadyActive) => owners@.len() > 0
                    && old(self)@.active is Some,
                Ok(()) => owners@.len() > 0 && old(self)@.active is None,
            },
            final(self)@ == if result is Ok {
                old(self)@.begin(epoch_id@, barrier_id, pairs_map(owners@))
            } else {
                old(self)@
            },
    {
        if owners.len() == 0 {
            return Err(ColdEpochBeginError::NoEligibleOwners);
        }
        if self.active.is_some() {
            return Err(ColdEpochBeginError::AlreadyActive);
        }
        let mut progress: Table<CacheOwner, ColdEpochOwnerProgress> = Table::new();
        let ghost started = |fence: ColdEpochOwnerFence|
            ColdEpochOwnerProgress { fence, clear_cursor: None, marker_seen: false };
        assert(progress@ =~= pairs_map(owners@.take(0)).map_values(started));
        let mut i: usize = 0;
        while i < owners.len()
            invariant
                i <= owners@.len(),
                progress.wf(),
                started == (|fence: ColdEpochOwnerFence|
                    ColdEpochOwnerProgress { fence, clear_cursor: None, marker_seen: false }),
                progress@ == pairs_map(owners@.take(i as int)).map_values(started),
            decreases owners@.len() - i,
        {
            progress.insert(
                owners[i].0,
                ColdEpochOwnerProgress {
                    fence: owners[i].1,
                    clear_cursor: None,
                    marker_seen: false,
                },
            );
            i = i + 1;
            proof {
                assert(owners@.take(i as int).drop_last() =~= owners@.take(i - 1));
                assert(progress@ =~= pairs_map(owners@.take(i as int)).map_values(started));
            }
        }
        assert(owners@.take(i as int) =~= owners@);
        self.active = Some(
            ColdEpochRound { epoch_id, barrier_id, owners: progress, controls_succeeded: false },
        );
        self.outcome = ColdEpochOutcome::Pending;
        assert(self@ =~= old(self)@.begin(epoch_id@, barrier_id, pairs_map(owners@)));
        Ok(())
    }

    /// The outcome of the epoch begun last.
    pub fn outcome(&self) -> (outcome: ColdEpochOutcome)
        ensures
            outcome == self@.outcome,
    {
        self.outcome
    }

    /// Gives up the epoch under way, if there is one.
    pub fn fail(&mut self, failure: ColdEpochFailure)
        requires
            old(self).wf(),
        ensures
            final(self).wf(),
            final(self)@ == old(self)@.fail(failure),
    {
        if self.active.is_some() {
            self.active = None;
            self.outcome = ColdEpochOutcome::Incomplete(failure);
        }
    }

    /// The round goes on; its evidence may now be ready.
    fn proceed(&mut self, round: ColdEpochRound)
        requires
            round.owners.wf(),
        ensures
            final(self).wf(),
            final(self)@ == old(self)@.proceed(round@),
    {
        if round.ready() {
            self.outcome = ColdEpochOutcome::EvidenceReady;
        }
        self.active = Some(round);
    }

    /// Every owner has accepted the request to start the epoch.
    pub fn controls_succeeded(&mut self, epoch_id: &str)
        requires
            old(self).wf(),
        ensures
            final(self).wf(),
            final(self)@ == old(self)@.controls_succeeded(epoch_id@),
    {
        match self.active.take() {
            None => {},
            Some(mut round) => {
                if same_text(round.epoch_id.as_str(), epoch_id) {
                    round.controls_succeeded = true;
                    self.proceed(round);
                } else {
                    self.active = Some(round);
                }
            },
        }
    }

    /// The batch is a clear of the epoch under way, which may stand at the
    /// start of a publisher's stream wherever its cursor is.
    pub fn accepts_clear_baseline(&self, batch: &CacheEvidenceBatch) -> (accepted: bool)
        requires
            self.wf(),
        ensures
            accepted == self@.accepts_clear_baseline(*batch),
    {
        match &self.active {
            None => false,
            Some(round) => {
                if !round.names(batch) || batch.barrier_id.is_some() || !batch.telemetry_complete {
                    return false;
                }
                match round.owners.get(batch.owner) {
                    None => false,
                    Some(progress) => progress.takes_clear(batch),
                }
            },
        }
    }

    /// Takes note of a batch with an epoch id and mutations; false if the
    /// batch has no epoch id.
    pub fn observe_clear_batch(&mut self, batch: &CacheEvidenceBatch) -> (handled: bool)
        requires
            old(self).wf(),
        ensures
            final(self).wf(),
            handled == (batch.epoch_id is Some),
            final(self)@ == old(self)@.observe_clear_batch(*batch),
    {
        if batch.epoch_id.is_none() {
            return false;
        }
        match self.active.take() {
            None => {},
            Some(mut round) => {
                let mut failure: Option<ColdEpochFailure> = None;
                if !round.names(batch) || batch.barrier_id.is_some() || !batch.telemetry_complete {
                    failure = Some(ColdEpochFailure::InvalidClear);
                } else {
                    let progress: Option<ColdEpochOwnerProgress> = match round.owners.get(
                        batch.owner,
                    ) {
                        None => None,
                        Some(progress) => Some(*progress),
                    };
                    match progress {
                        None => {
                            failure = Some(ColdEpochFailure::MembershipChanged);
                        },
                        Some(mut progress) => {
                            if progress.takes_clear(batch) {
                                progress.clear_cursor = Some(batch.source_cursor);
                                round.owners.insert(batch.owner, progress);
                            } else {
                                failure = Some(ColdEpochFailure::InvalidClear);
                            }
                        },
                    }
                }
                self.active = Some(round);
                if let Some(failure) = failure {
                    self.fail(failure);
                }
            },
        }
        assert(self@ =~= old(self)@.observe_clear_batch(*batch));
        true
    }

    /// Takes note of a batch with an epoch id and no mutations; false if the
    /// batch has no epoch id.
    pub fn observe_marker(&mut self, batch: &CacheEvidenceBatch) -> (handled: bool)
        requires
            old(self).wf(),
        ensures
            final(self).wf(),
            handled == (batch.epoch_id is Some),
            final(self)@ == old(self)@.observe_marker(*batch),
    {
        if batch.epoch_id.is_none() {
            return false;
        }
        match self.active.take() {
            None => {},
            Some(mut round) => {
                let mut failure: Option<ColdEpochFailure> = None;
                if !round.names(batch) || batch.barrier_id != Some(round.barrier_id)
                    || batch.mutations.len() > 0 || !batch.telemetry_complete {
                    failure = Some(ColdEpochFailure::InvalidMarker);
                } else {
                    let progress: Option<ColdEpochOwnerProgress> = match round.owners.get(
                        batch.owner,
                    ) {
                        None => None,
                        Some(progress) => Some(*progress),
                    };
                    match progress {
                        None => {
                            failure = Some(ColdEpochFailure::MembershipChanged);
                        },
                        Some(mut progress) => {
                            if progress.takes_marker(batch) {
                                progress.marker_seen = true;
                                round.owners.insert(batch.owner, progress);
                            } else {
                                failure = Some(ColdEpochFailure::InvalidMarker);
                            }
                        },
                    }
                }
                match failure {
                    None => {
                        self.proceed(round);
                    },
                    Some(failure) => {
                        self.active = Some(round);
                        self.fail(failure);
                    },
                }
            },
        }
        assert(self@ =~= old(self)@.observe_marker(*batch));
        true
    }

    /// An ordinary event of an owner. Between its clear and its marker there
    /// must be none.
    pub fn unexpected_mutation(&mut self, owner: CacheOwner)
        requires
            old(self).wf(),
        ensures
            final(self).wf(),
            final(self)@ == old(self)@.unexpected_mutation(owner),
    {
        let raced = match &self.active {
            None => false,
            Some(round) => match round.owners.get(owner) {
                None => false,
                Some(progress) => progress.clear_cursor.is_some() && !progress.marker_seen,
            },
        };
        if raced {
            self.fail(ColdEpochFailure::MutationAfterClear);
        }
    }

    /// Ends the epoch with the given id.
    pub fn complete(&mut self, epoch_id: &str)
        requires
            old(self).wf(),
        ensures
            final(self).wf(),
            final(self)@ == old(self)@.complete(epoch_id@),
    {
        let named = match &self.active {
            None => false,
            Some(round) => same_text(round.epoch_id.as_str(), epoch_id),
        };
        if named {
            self.active = None;
        }
    }
}

// ---- laws ----

/// What a cold epoch under way has proved: nothing is marked that was not
/// cleared, and ready evidence is complete evidence.
pub open spec fn consistent(state: ColdEpochView) -> bool {
    match state.active {
        None => true,
        Some(round) => {
            &&& round.owners.dom() != Set::<CacheOwner>::empty()
            &&& forall|owner: CacheOwner| #[trigger]
                round.owners.contains_key(owner) && round.owners[owner].marker_seen
                    ==> round.owners[owner].clear_cursor is Some
            &&& state.outcome == ColdEpochOutcome::EvidenceReady ==> round.is_ready()
            &&& state.outcome is Incomplete ==> false
        },
    }
}

proof fn lemma_pairs_nonempty<V>(pairs: Seq<(CacheOwner, V)>)
    requires
        pairs.len() > 0,
    ensures
        pairs_map(pairs).dom() != Set::<CacheOwner>::empty(),
{
    assert(pairs_map(pairs).dom().contains(pairs.last().0));
}

/// Evidence is reported ready only while every owner of the epoch has been
/// cleared and marked and all controls have succeeded; every step keeps that.
pub proof fn law_ready_evidence_is_complete(
    state: ColdEpochView,
    batch: CacheEvidenceBatch,
    epoch_id: Seq<char>,
    barrier_id: u64,
    owners: Seq<(CacheOwner, ColdEpochOwnerFence)>,
    owner: CacheOwner,
    failure: ColdEpochFailure,
)
    requires
        consistent(state),
    ensures
        consistent(state.observe_clear_batch(batch)),
        consistent(state.observe_marker(batch)),
        consistent(state.controls_succeeded(epoch_id)),
        consistent(state.unexpected_mutation(owner)),
        consistent(state.fail(failure)),
        consistent(state.complete(epoch_id)),
        owners.len() > 0 && state.active is None ==> consistent(
            state.begin(epoch_id, barrier_id, pairs_map(owners)),
        ),
{
    if owners.len() > 0 && state.active is None {
        lemma_pairs_nonempty(owners);
        let begun = state.begin(epoch_id, barrier_id, pairs_map(owners));
        assert(begun.active->0.owners.dom() =~= pairs_map(owners).dom());
    }
    if let Some(round) = state.active {
        if round.owners.contains_key(batch.owner) {
            assert(round.owners.insert(batch.owner, round.owners[batch.owner]).dom()
                =~= round.owners.dom());
            let cleared = state.observe_clear_batch(batch);
            if let Some(next) = cleared.active {
                assert(next.owners.dom() =~= round.owners.dom());
                if state.outcome == ColdEpochOutcome::EvidenceReady {
                    assert(round.owners[batch.owner].is_done());
                }
            }
            let marked = state.observe_marker(batch);
            if let Some(next) = marked.active {
                assert(next.owners.dom() =~= round.owners.dom());
                if state.outcome == ColdEpochOutcome::EvidenceReady {
                    assert(round.owners[batch.owner].is_done());
                }
            }
        }
    }
}

/// A failed epoch is over: no later evidence can make it ready.
pub proof fn law_failed_epoch_stays_failed(
    state: ColdEpochView,
    failure: ColdEpochFailure,
    batch: CacheEvidenceBatch,
    epoch_id: Seq<char>,
)
    requires
        state.active is Some,
    ensures
        ({
            let failed = state.fail(failure);
            &&& failed.outcome == ColdEpochOutcome::Incomplete(failure)
            &&& failed.observe_clear_batch(batch) == failed
            &&& failed.observe_marker(batch) == failed
            &&& failed.controls_succeeded(epoch_id) == failed
        }),
{
}

} // verus!
