//! One attempt to start the history over with cold caches.
//!
//! The caller talks to the workers and the clock; what each step means for the
//! evidence is decided here. Requests must not be dispatched from the moment
//! the epoch is fenced until it has been released.

use vstd::prelude::*;
use vstd::string::StringExecFns;

use crate::catalog::{CatalogGroup, GroupCatalogs};
use crate::cold_epoch::{ColdEpochFailure, ColdEpochOutcome, ColdEpochOwnerFence};
use crate::evidence::CacheOwner;
use crate::membership::{
    all_fenced, cold_epoch_owners, fence_pairs, member_owners, owners_of, MembershipView,
};
use crate::owner_map::pairs_map;
use crate::random::{random_id, random_u128};
use crate::subscription::CacheEvidenceSubscription;
use crate::subscription_model::{history_fences, SubscriptionView};

verus! {

/// How an attempt, or a step of it, is counted.
#[derive(Clone, Copy, Debug, PartialEq, Eq, Structural)]
pub enum ColdEpochLabel {
    Cancelled,
    ReadinessTimeout,
    Membership,
    Control,
    DispatchDrain,
    Catalog,
    Init,
    Evidence,
    ResidualPhysicalState,
    Snapshot,
    Release,
    Success,
}

impl ColdEpochLabel {
    pub open spec fn label(self) -> Seq<char> {
        match self {
            Self::Cancelled => "cancelled"@,
            Self::ReadinessTimeout => "readiness_timeout"@,
            Self::Membership => "membership"@,
            Self::Control => "control"@,
            Self::DispatchDrain => "dispatch_drain"@,
            Self::Catalog => "catalog"@,
            Self::Init => "init"@,
            Self::Evidence => "evidence"@,
            Self::ResidualPhysicalState => "residual_physical_state"@,
            Self::Snapshot => "snapshot"@,
            Self::Release => "release"@,
            Self::Success => "success"@,
        }
    }

    pub fn metric_label(self) -> (label: &'static str)
        ensures
            label@ == self.label(),
    {
        match self {
            Self::Cancelled => "cancelled",
            Self::ReadinessTimeout => "readiness_timeout",
            Self::Membership => "membership",
            Self::Control => "control",
            Self::DispatchDrain => "dispatch_drain",
            Self::Catalog => "catalog",
            Self::Init => "init",
            Self::Evidence => "evidence",
            Self::ResidualPhysicalState => "residual_physical_state",
            Self::Snapshot => "snapshot",
            Self::Release => "release",
            Self::Success => "success",
        }
    }
}

// ---- epoch ids ----

pub open spec fn hex_digit(value: int) -> Seq<char> {
    if value == 0 {
        "0"@
    } else if value == 1 {
        "1"@
    } else if value == 2 {
        "2"@
    } else if value == 3 {
        "3"@
    } else if value == 4 {
        "4"@
    } else if value == 5 {
        "5"@
    } else if value == 6 {
        "6"@
    } else if value == 7 {
        "7"@
    } else if value == 8 {
        "8"@
    } else if value == 9 {
        "9"@
    } else if value == 10 {
        "a"@
    } else if value == 11 {
        "b"@
    } else if value == 12 {
        "c"@
    } else if value == 13 {
        "d"@
    } else if value == 14 {
        "e"@
    } else {
        "f"@
    }
}

/// The last `width` hexadecimal digits of a number.
pub open spec fn hex_text(number: nat, width: nat) -> Seq<char>
    decreases width,
{
    if width == 0 {
        Seq::empty()
    } else {
        hex_text(number / 16, (width - 1) as nat) + hex_digit((number % 16) as int)
    }
}

fn digit(value: u128) -> (text: &'static str)
    requires
        value < 16,
    ensures
        text@ == hex_digit(value as int),
{
    if value == 0 {
        "0"
    } else if value == 1 {
        "1"
    } else if value == 2 {
        "2"
    } else if value == 3 {
        "3"
    } else if value == 4 {
        "4"
    } else if value == 5 {
        "5"
    } else if value == 6 {
        "6"
    } else if value == 7 {
        "7"
    } else if value == 8 {
        "8"
    } else if value == 9 {
        "9"
    } else if value == 10 {
        "a"
    } else if value == 11 {
        "b"
    } else if value == 12 {
        "c"
    } else if value == 13 {
        "d"
    } else if value == 14 {
        "e"
    } else {
        "f"
    }
}

fn hex(number: u128, width: u32) -> (text: String)
    ensures
        text@ == hex_text(number as nat, width as nat),
    decreases width,
{
    if width == 0 {
        String::new()
    } else {
        let mut text = hex(number / 16, width - 1);
        text.append(digit(number % 16));
        text
    }
}

/// The id of an epoch: a number as 32 lower-case hexadecimal digits.
pub fn epoch_id_text(number: u128) -> (text: String)
    ensures
        text@ == hex_text(number as nat, 32),
{
    hex(number, 32)
}

// ---- model ----

impl SubscriptionView {
    /// Every source can take part, has declared its catalog, and is expected
    /// by the ledger.
    pub open spec fn epoch_catalogs_ready(self, view: MembershipView) -> bool {
        let owners = member_owners(view.sources@).to_set();
        self.catalogs.dom() == owners && self.ledger.expected_owners == Some(owners)
    }

    pub open spec fn epoch_ready(self, view: MembershipView) -> bool {
        all_fenced(view.sources@) && self.epoch_catalogs_ready(view)
    }

    /// The attempt is given up.
    pub open spec fn abandon_epoch(self) -> SubscriptionView {
        SubscriptionView { ledger: self.ledger.mark_history_incomplete(), ..self }
    }

    /// Why the epoch cannot be fenced now, if it cannot.
    pub open spec fn fence_refusal(
        self,
        view: MembershipView,
        prepared: Map<CacheOwner, ColdEpochOwnerFence>,
    ) -> Option<ColdEpochLabel> {
        if history_fences(view.sources@) != Some(prepared) {
            Some(ColdEpochLabel::Membership)
        } else if !self.epoch_catalogs_ready(view) {
            Some(ColdEpochLabel::Catalog)
        } else if self.cold_epoch.active is Some {
            Some(ColdEpochLabel::Init)
        } else {
            None
        }
    }

    /// Nothing that the epoch was fenced with has changed.
    pub open spec fn snapshot_holds(
        self,
        view: MembershipView,
        owners: Seq<(CacheOwner, ColdEpochOwnerFence)>,
        catalogs: Map<CacheOwner, Seq<CatalogGroup>>,
    ) -> bool {
        &&& history_fences(view.sources@) == Some(pairs_map(owners))
        &&& self.catalogs == catalogs
        &&& self.ledger.expected_owners == Some(listed_owners(owners).to_set())
    }
}

pub open spec fn listed_owners(owners: Seq<(CacheOwner, ColdEpochOwnerFence)>) -> Seq<CacheOwner> {
    Seq::new(owners.len(), |i: int| owners[i].0)
}

fn list_owners(owners: &Vec<(CacheOwner, ColdEpochOwnerFence)>) -> (list: Vec<CacheOwner>)
    ensures
        list@ == listed_owners(owners@),
{
    let mut list: Vec<CacheOwner> = Vec::new();
    let mut i: usize = 0;
    while i < owners.len()
        invariant
            i <= owners@.len(),
            list@.len() == i,
            forall|j: int| 0 <= j < i ==> #[trigger] list@[j] == owners@[j].0,
        decreases owners@.len() - i,
    {
        list.push(owners[i].0);
        i = i + 1;
    }
    assert(list@ =~= listed_owners(owners@));
    list
}

/// How an epoch that failed for the given reason is counted.
pub open spec fn failure_label(failure: ColdEpochFailure) -> ColdEpochLabel {
    match failure {
        ColdEpochFailure::MembershipChanged => ColdEpochLabel::Membership,
        ColdEpochFailure::CatalogChanged => ColdEpochLabel::Catalog,
        ColdEpochFailure::Cancelled => ColdEpochLabel::Cancelled,
        _ => ColdEpochLabel::Evidence,
    }
}

// ---- steps before the fence ----

impl CacheEvidenceSubscription {
    /// An epoch can be prepared.
    pub fn epoch_ready(&self, view: &MembershipView) -> (ready: bool)
        requires
            self.wf(),
        ensures
            ready == self@.epoch_ready(*view),
    {
        cold_epoch_owners(view).is_some() && self.epoch_catalogs_ready(view)
    }

    fn epoch_catalogs_ready(&self, view: &MembershipView) -> (ready: bool)
        requires
            self.wf(),
        ensures
            ready == self@.epoch_catalogs_ready(*view),
    {
        let owners = owners_of(view);
        self.catalogs_are_of(&owners) && self.ledger.expected_owners_match(owners.as_slice())
    }

    /// Exactly the listed owners have declared a catalog.
    fn catalogs_are_of(&self, owners: &Vec<CacheOwner>) -> (same: bool)
        requires
            self.wf(),
        ensures
            same == (self@.catalogs.dom() == owners@.to_set()),
    {
        let mut i: usize = 0;
        while i < owners.len()
            invariant
                i <= owners@.len(),
                self.wf(),
                forall|j: int| 0 <= j < i ==> self@.catalogs.contains_key(#[trigger] owners@[j]),
            decreases owners@.len() - i,
        {
            if self.catalogs.get(owners[i]).is_none() {
                proof {
                    assert(owners@.to_set().contains(owners@[i as int]));
                }
                return false;
            }
            i = i + 1;
        }
        let declared = self.catalogs.owners();
        let mut n: usize = 0;
        while n < declared.len()
            invariant
                n <= declared@.len(),
                declared@.to_set() == self@.catalogs.dom(),
                forall|j: int| 0 <= j < owners@.len() ==> self@.catalogs.contains_key(
                    #[trigger] owners@[j],
                ),
                forall|k: int| 0 <= k < n ==> owners@.contains(#[trigger] declared@[k]),
            decreases declared@.len() - n,
        {
            if !lists_owner(owners, declared[n]) {
                proof {
                    assert(declared@.to_set().contains(declared@[n as int]));
                }
                return false;
            }
            n = n + 1;
        }
        proof {
            assert forall|o: CacheOwner| self@.catalogs.dom().contains(o)
                == owners@.to_set().contains(o) by {
                if owners@.contains(o) {
                    let j = choose|j: int| 0 <= j < owners@.len() && owners@[j] == o;
                    assert(self@.catalogs.contains_key(owners@[j]));
                }
                if self@.catalogs.dom().contains(o) {
                    assert(declared@.to_set().contains(o));
                    let k = choose|k: int| 0 <= k < declared@.len() && declared@[k] == o;
                    assert(owners@.contains(declared@[k]));
                }
            }
            assert(self@.catalogs.dom() =~= owners@.to_set());
        }
        true
    }

    /// Gives up an attempt before it was fenced.
    pub fn abandon_epoch(&mut self)
        requires
            old(self).wf(),
        ensures
            final(self).wf(),
            final(self)@ == old(self)@.abandon_epoch(),
    {
        self.ledger.mark_history_incomplete();
    }

    /// Fences the epoch under a random id. Whether that succeeds does not
    /// depend on the id.
    pub fn begin_cold_epoch(
        &mut self,
        view: &MembershipView,
        prepared: &Vec<(CacheOwner, ColdEpochOwnerFence)>,
    ) -> (run: Result<ColdEpochRun, ColdEpochLabel>)
        requires
            old(self).wf(),
        ensures
            final(self).wf(),
            match run {
                Err(label) => old(self)@.fence_refusal(*view, pairs_map(prepared@)) == Some(label)
                    && final(self)@ == old(self)@.abandon_epoch(),
                Ok(run) => {
                    &&& old(self)@.fence_refusal(*view, pairs_map(prepared@)) is None
                    &&& run.wf()
                    &&& exists|number: nat| run.id() == #[trigger] hex_text(number, 32)
                    &&& run.barrier() >= 1
                    &&& run.is_new()
                    &&& run.fenced() == fence_pairs(view.sources@)
                    &&& run.declared() == old(self)@.catalogs
                    &&& final(self)@ == (SubscriptionView {
                        cold_epoch: old(self)@.cold_epoch.begin(
                            run.id(),
                            run.barrier(),
                            pairs_map(prepared@),
                        ),
                        ..old(self)@
                    })
                },
            },
    {
        let number: u128 = random_u128();
        let epoch_id = epoch_id_text(number);
        assert(epoch_id@ == hex_text(number as nat, 32));
        let barrier_id = random_id();
        self.fence_cold_epoch(view, prepared, epoch_id, barrier_id)
    }

    /// Fences the epoch if the membership is still the prepared one and all
    /// catalogs are in; otherwise the attempt is given up.
    pub fn fence_cold_epoch(
        &mut self,
        view: &MembershipView,
        prepared: &Vec<(CacheOwner, ColdEpochOwnerFence)>,
        epoch_id: String,
        barrier_id: u64,
    ) -> (run: Result<ColdEpochRun, ColdEpochLabel>)
        requires
            old(self).wf(),
        ensures
            final(self).wf(),
            match run {
                Err(label) => old(self)@.fence_refusal(*view, pairs_map(prepared@)) == Some(label)
                    && final(self)@ == old(self)@.abandon_epoch(),
                Ok(run) => {
                    &&& old(self)@.fence_refusal(*view, pairs_map(prepared@)) is None
                    &&& run.wf()
                    &&& run.id() == epoch_id@
                    &&& run.barrier() == barrier_id
                    &&& run.is_new()
                    &&& run.fenced() == fence_pairs(view.sources@)
                    &&& run.declared() == old(self)@.catalogs
                    &&& final(self)@ == (SubscriptionView {
                        cold_epoch: old(self)@.cold_epoch.begin(
                            epoch_id@,
                            barrier_id,
                            pairs_map(prepared@),
                        ),
                        ..old(self)@
                    })
                },
            },
    {
        let current = cold_epoch_owners(view);
        let owners: Vec<(CacheOwner, ColdEpochOwnerFence)> = match current {
            None => {
                self.abandon_epoch();
                return Err(ColdEpochLabel::Membership);
            },
            Some(owners) => owners,
        };
        if !same_fences(&owners, prepared) {
            self.abandon_epoch();
            return Err(ColdEpochLabel::Membership);
        }
        if !self.epoch_catalogs_ready(view) {
            self.abandon_epoch();
            return Err(ColdEpochLabel::Catalog);
        }
        let catalogs = self.catalogs.copied();
        match self.cold_epoch.begin(epoch_id.clone(), barrier_id, owners.as_slice()) {
            Err(_) => {
                self.abandon_epoch();
                Err(ColdEpochLabel::Init)
            },
            Ok(()) => Ok(
                ColdEpochRun {
                    epoch_id,
                    barrier_id,
                    owners,
                    catalogs,
                    began: false,
                    evidence: None,
                    committed: false,
                },
            ),
        }
    }
}

fn lists_owner(owners: &Vec<CacheOwner>, owner: CacheOwner) -> (found: bool)
    ensures
        found == owners@.contains(owner),
{
    let mut i: usize = 0;
    while i < owners.len()
        invariant
            i <= owners@.len(),
            forall|j: int| 0 <= j < i ==> #[trigger] owners@[j] != owner,
        decreases owners@.len() - i,
    {
        if owners[i] == owner {
            return true;
        }
        i = i + 1;
    }
    false
}

fn same_fences(
    a: &Vec<(CacheOwner, ColdEpochOwnerFence)>,
    b: &Vec<(CacheOwner, ColdEpochOwnerFence)>,
) -> (same: bool)
    ensures
        same == (pairs_map(a@) == pairs_map(b@)),
{
    let left = crate::owner_map::table_of(a.as_slice());
    let right = crate::owner_map::table_of(b.as_slice());
    crate::owner_map::same_tables(&left, &right)
}

// ---- the fenced epoch ----

/// A fenced epoch, and how far it has come.
pub struct ColdEpochRun {
    epoch_id: String,
    barrier_id: u64,
    owners: Vec<(CacheOwner, ColdEpochOwnerFence)>,
    catalogs: GroupCatalogs,
    began: bool,
    evidence: Option<ColdEpochOutcome>,
    committed: bool,
}

/// What has been decided on the evidence of an epoch. Nothing is evidence
/// before all owners have started the epoch.
pub open spec fn evidence_decision(
    state: SubscriptionView,
    run: ColdEpochRun,
    view: MembershipView,
    reported: Option<ColdEpochOutcome>,
) -> (SubscriptionView, bool, Option<ColdEpochLabel>) {
    let evidence = run.counted_evidence(reported);
    let owners = listed_owners(run.fenced()).to_set();
    let committed = state.ledger.commit_cold_history_epoch(owners);
    if evidence != Some(ColdEpochOutcome::EvidenceReady) {
        (
            state.abandon_epoch(),
            false,
            match evidence {
                Some(ColdEpochOutcome::Incomplete(failure)) => Some(failure_label(failure)),
                _ => None,
            },
        )
    } else if !state.snapshot_holds(view, run.fenced(), run.declared()) {
        (
            SubscriptionView {
                cold_epoch: state.cold_epoch.fail(ColdEpochFailure::SnapshotChanged),
                ..state.abandon_epoch()
            },
            false,
            Some(ColdEpochLabel::Snapshot),
        )
    } else if !state.ledger.is_cold(owners) {
        (
            SubscriptionView {
                cold_epoch: state.cold_epoch.fail(ColdEpochFailure::ResidualPhysicalState),
                ledger: committed,
                ..state
            },
            false,
            Some(ColdEpochLabel::ResidualPhysicalState),
        )
    } else {
        (SubscriptionView { ledger: committed, ..state }, true, None)
    }
}

/// What the end of an epoch comes to: only a committed and released one
/// leaves the history complete.
pub open spec fn release_decision(state: SubscriptionView, run: ColdEpochRun, released: bool) -> (
    SubscriptionView,
    Option<ColdEpochLabel>,
) {
    (
        SubscriptionView {
            cold_epoch: state.cold_epoch.complete(run.id()),
            ledger: if run.has_committed() && released {
                state.ledger
            } else {
                state.ledger.mark_history_incomplete()
            },
            ..state
        },
        if !released {
            Some(ColdEpochLabel::Release)
        } else if run.has_committed() {
            Some(ColdEpochLabel::Success)
        } else if run.has_begun() && run.heard() is None {
            Some(ColdEpochLabel::Evidence)
        } else {
            None
        },
    )
}

impl ColdEpochRun {
    pub closed spec fn wf(&self) -> bool {
        self.catalogs.wf()
    }

    pub closed spec fn id(self) -> Seq<char> {
        self.epoch_id@
    }

    pub closed spec fn barrier(self) -> u64 {
        self.barrier_id
    }

    pub closed spec fn fenced(self) -> Seq<(CacheOwner, ColdEpochOwnerFence)> {
        self.owners@
    }

    pub closed spec fn declared(self) -> Map<CacheOwner, Seq<CatalogGroup>> {
        self.catalogs@
    }

    /// All owners have started the epoch.
    pub closed spec fn has_begun(self) -> bool {
        self.began
    }

    /// The evidence that was decided on.
    pub closed spec fn heard(self) -> Option<ColdEpochOutcome> {
        self.evidence
    }

    /// The decision was to start the history over.
    pub closed spec fn has_committed(self) -> bool {
        self.committed
    }

    /// Fenced, and nothing more yet.
    pub open spec fn is_new(self) -> bool {
        !self.has_begun() && self.heard() is None && !self.has_committed()
    }

    pub open spec fn counted_evidence(self, reported: Option<ColdEpochOutcome>) -> Option<
        ColdEpochOutcome,
    > {
        if self.has_begun() {
            reported
        } else {
            None
        }
    }

    /// The same epoch, possibly further on.
    pub open spec fn same_epoch(self, other: ColdEpochRun) -> bool {
        &&& self.wf() == other.wf()
        &&& self.id() == other.id()
        &&& self.barrier() == other.barrier()
        &&& self.fenced() == other.fenced()
        &&& self.declared() == other.declared()
    }

    pub fn epoch_id(&self) -> (id: &str)
        ensures
            id@ == self.id(),
    {
        self.epoch_id.as_str()
    }

    pub fn barrier_id(&self) -> (id: u64)
        ensures
            id == self.barrier(),
    {
        self.barrier_id
    }

    /// The owners to send requests to, with their fences.
    pub fn owners(&self) -> (owners: &Vec<(CacheOwner, ColdEpochOwnerFence)>)
        ensures
            owners@ == self.fenced(),
    {
        &self.owners
    }

    /// The request to start the epoch has been answered by all owners, or has
    /// failed.
    pub fn controls_answered(
        &mut self,
        subscription: &mut CacheEvidenceSubscription,
        began: bool,
        cancelled: bool,
    ) -> (label: Option<ColdEpochLabel>)
        requires
            old(subscription).wf(),
            !old(self).has_committed(),
        ensures
            final(self).same_epoch(*old(self)),
            final(self).has_begun() == began,
            final(self).heard() == old(self).heard(),
            !final(self).has_committed(),
            final(subscription).wf(),
            final(subscription)@ == (SubscriptionView {
                cold_epoch: if began {
                    old(subscription)@.cold_epoch.controls_succeeded(old(self).id())
                } else {
                    old(subscription)@.cold_epoch.fail(ColdEpochFailure::BeginFailed)
                },
                ..old(subscription)@
            }),
            label == if began {
                None
            } else if cancelled {
                Some(ColdEpochLabel::Cancelled)
            } else {
                Some(ColdEpochLabel::Control)
            },
    {
        self.began = began;
        if began {
            subscription.cold_epoch.controls_succeeded(self.epoch_id.as_str());
            None
        } else {
            subscription.cold_epoch.fail(ColdEpochFailure::BeginFailed);
            if cancelled {
                Some(ColdEpochLabel::Cancelled)
            } else {
                Some(ColdEpochLabel::Control)
            }
        }
    }

    /// Decides on the evidence; `None` if it was never complete. Returns
    /// whether the new history was committed, and what to count.
    pub fn decide(
        &mut self,
        subscription: &mut CacheEvidenceSubscription,
        view: &MembershipView,
        reported: Option<ColdEpochOutcome>,
    ) -> (r: (bool, Option<ColdEpochLabel>))
        requires
            old(self).wf(),
            old(subscription).wf(),
            !old(self).has_committed(),
        ensures
            final(self).same_epoch(*old(self)),
            final(self).has_begun() == old(self).has_begun(),
            final(self).heard() == old(self).counted_evidence(reported),
            final(self).has_committed() == r.0,
            final(subscription).wf(),
            (final(subscription)@, r.0, r.1) == evidence_decision(
                old(subscription)@,
                *old(self),
                *view,
                reported,
            ),
    {
        self.evidence = if self.began {
            reported
        } else {
            None
        };
        match self.evidence {
            Some(ColdEpochOutcome::EvidenceReady) => {},
            Some(ColdEpochOutcome::Incomplete(failure)) => {
                subscription.abandon_epoch();
                let label = match failure {
                    ColdEpochFailure::MembershipChanged => ColdEpochLabel::Membership,
                    ColdEpochFailure::CatalogChanged => ColdEpochLabel::Catalog,
                    ColdEpochFailure::Cancelled => ColdEpochLabel::Cancelled,
                    _ => ColdEpochLabel::Evidence,
                };
                return (false, Some(label));
            },
            _ => {
                subscription.abandon_epoch();
                return (false, None);
            },
        }
        let list = list_owners(&self.owners);
        let same_members = match cold_epoch_owners(view) {
            None => false,
            Some(current) => same_fences(&current, &self.owners),
        };
        let holds = same_members && subscription.catalogs.same_as(&self.catalogs)
            && subscription.ledger.expected_owners_match(list.as_slice());
        if !holds {
            subscription.cold_epoch.fail(ColdEpochFailure::SnapshotChanged);
            subscription.ledger.mark_history_incomplete();
            return (false, Some(ColdEpochLabel::Snapshot));
        }
        if subscription.ledger.commit_cold_history_epoch(list.as_slice()).is_none() {
            subscription.cold_epoch.fail(ColdEpochFailure::ResidualPhysicalState);
            return (false, Some(ColdEpochLabel::ResidualPhysicalState));
        }
        self.committed = true;
        (true, None)
    }

    /// The owners have been told to go on, or could not be. Only a committed
    /// and released epoch leaves the history complete.
    pub fn release(self, subscription: &mut CacheEvidenceSubscription, released: bool) -> (label:
        Option<ColdEpochLabel>)
        requires
            old(subscription).wf(),
        ensures
            final(subscription).wf(),
            (final(subscription)@, label) == release_decision(old(subscription)@, self, released),
    {
        subscription.cold_epoch.complete(self.epoch_id.as_str());
        if !(self.committed && released) {
            subscription.ledger.mark_history_incomplete();
        }
        if !released {
            Some(ColdEpochLabel::Release)
        } else if self.committed {
            Some(ColdEpochLabel::Success)
        } else if self.began && self.evidence.is_none() {
            Some(ColdEpochLabel::Evidence)
        } else {
            None
        }
    }
}

// ---- laws ----

/// The history starts over only on ready evidence of an epoch that all owners
/// have started, with the membership and the catalogs as they were fenced,
/// while no owner holds a copy.
pub proof fn law_commit_needs_cold_owners(
    state: SubscriptionView,
    run: ColdEpochRun,
    view: MembershipView,
    evidence: Option<ColdEpochOutcome>,
)
    ensures
        ({
            let (after, committed, label) = evidence_decision(state, run, view, evidence);
            let owners = listed_owners(run.fenced()).to_set();
            if committed {
                &&& run.has_begun()
                &&& evidence == Some(ColdEpochOutcome::EvidenceReady)
                &&& state.snapshot_holds(view, run.fenced(), run.declared())
                &&& state.ledger.is_cold(owners)
                &&& after.ledger == state.ledger.advance_history_epoch()
            } else {
                &&& !after.ledger.history_complete
                &&& after.ledger.history_epoch == state.ledger.history_epoch
            }
        }),
{
}

/// An epoch leaves the history complete only if the history was started over
/// for it and all owners were told to go on, and it counts as a success
/// exactly then.
pub proof fn law_complete_history_needs_a_committed_release(
    state: SubscriptionView,
    run: ColdEpochRun,
    released: bool,
)
    ensures
        ({
            let (after, label) = release_decision(state, run, released);
            &&& after.ledger.history_complete ==> run.has_committed() && released
            &&& label == Some(ColdEpochLabel::Success) <==> run.has_committed() && released
            &&& run.has_committed() && released ==> after.ledger == state.ledger
        }),
{
}

} // verus!
