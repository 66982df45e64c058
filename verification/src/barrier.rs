//! Ordered route-time cuts.
//!
//! A route snapshot is exact if every owner's event stream is known to have
//! been applied up to a marker that was requested after the snapshot, and no
//! relevant event was met on the way. Cuts that are requested close together
//! share one round of markers.

use std::collections::{HashMap, HashSet};
use vstd::prelude::*;
use vstd::std_specs::iter::IteratorSpec;

use crate::evidence::CacheOwner;
use crate::owner_map::{
    copy_table, key_list, key_set, keys_of, lists_pairs, pair_list, pairs_map, same_tables,
    table_of,
};
use crate::random::random_id;
use crate::table::Table;

verus! {

broadcast use vstd::std_specs::hash::group_hash_axioms;

/// Why a cut cannot become exact.
#[derive(Clone, Copy, Debug, PartialEq, Eq, Structural)]
pub enum BarrierFailure {
    MissingCapability,
    JournalOverflow,
    MembershipChanged,
    PermanentlyUnavailable,
    ControlUnavailable,
    ControlFailed,
    Timeout,
    CoordinatorClosed,
    SubscriberClosed,
    DecodeError,
    InvalidWatermark,
    WatermarkAhead,
    Gap,
    Restart,
    InvalidMarker,
    IncompleteBatch,
    UnresolvedMutation,
    RelevantMutation,
    Clear,
    CatalogChanged,
    ApplyIntegrityFailure,
}

impl BarrierFailure {
    pub open spec fn label(self) -> Seq<char> {
        match self {
            Self::MissingCapability => "missing_capability"@,
            Self::JournalOverflow => "journal_overflow"@,
            Self::MembershipChanged => "membership_changed"@,
            Self::PermanentlyUnavailable => "permanently_unavailable"@,
            Self::ControlUnavailable => "control_unavailable"@,
            Self::ControlFailed => "control_failed"@,
            Self::Timeout => "timeout"@,
            Self::CoordinatorClosed => "coordinator_closed"@,
            Self::SubscriberClosed => "subscriber_closed"@,
            Self::DecodeError => "decode_error"@,
            Self::InvalidWatermark => "invalid_watermark"@,
            Self::WatermarkAhead => "watermark_ahead"@,
            Self::Gap => "gap"@,
            Self::Restart => "restart"@,
            Self::InvalidMarker => "invalid_marker"@,
            Self::IncompleteBatch => "incomplete_batch"@,
            Self::UnresolvedMutation => "unresolved_mutation"@,
            Self::RelevantMutation => "relevant_mutation"@,
            Self::Clear => "clear"@,
            Self::CatalogChanged => "catalog_changed"@,
            Self::ApplyIntegrityFailure => "apply_integrity_failure"@,
        }
    }

    /// The label under which an incomplete cut is counted.
    pub fn metric_label(self) -> (label: &'static str)
        ensures
            label@ == self.label(),
    {
        match self {
            Self::MissingCapability => "missing_capability",
            Self::JournalOverflow => "journal_overflow",
            Self::MembershipChanged => "membership_changed",
            Self::PermanentlyUnavailable => "permanently_unavailable",
            Self::ControlUnavailable => "control_unavailable",
            Self::ControlFailed => "control_failed",
            Self::Timeout => "timeout",
            Self::CoordinatorClosed => "coordinator_closed",
            Self::SubscriberClosed => "subscriber_closed",
            Self::DecodeError => "decode_error",
            Self::InvalidWatermark => "invalid_watermark",
            Self::WatermarkAhead => "watermark_ahead",
            Self::Gap => "gap",
            Self::Restart => "restart",
            Self::InvalidMarker => "invalid_marker",
            Self::IncompleteBatch => "incomplete_batch",
            Self::UnresolvedMutation => "unresolved_mutation",
            Self::RelevantMutation => "relevant_mutation",
            Self::Clear => "clear",
            Self::CatalogChanged => "catalog_changed",
            Self::ApplyIntegrityFailure => "apply_integrity_failure",
        }
    }

    pub open spec fn reason_label(self) -> Seq<char> {
        match self {
            Self::MissingCapability => "barrier_missing_capability"@,
            Self::JournalOverflow => "barrier_journal_overflow"@,
            Self::MembershipChanged => "barrier_membership_changed"@,
            Self::PermanentlyUnavailable => "barrier_permanently_unavailable"@,
            Self::ControlUnavailable => "barrier_control_unavailable"@,
            Self::ControlFailed => "barrier_control_failed"@,
            Self::Timeout => "barrier_timeout"@,
            Self::CoordinatorClosed => "barrier_coordinator_closed"@,
            Self::SubscriberClosed => "barrier_subscriber_closed"@,
            Self::DecodeError => "barrier_decode_error"@,
            Self::InvalidWatermark => "barrier_invalid_watermark"@,
            Self::WatermarkAhead => "barrier_watermark_ahead"@,
            Self::Gap => "barrier_gap"@,
            Self::Restart => "barrier_restart"@,
            Self::InvalidMarker => "barrier_invalid_marker"@,
            Self::IncompleteBatch => "barrier_incomplete_batch"@,
            Self::UnresolvedMutation => "barrier_unresolved_mutation"@,
            Self::RelevantMutation => "barrier_relevant_mutation"@,
            Self::Clear => "barrier_clear"@,
            Self::CatalogChanged => "barrier_catalog_changed"@,
            Self::ApplyIntegrityFailure => "barrier_apply_integrity_failure"@,
        }
    }

    /// The reason given to the holder of the cut.
    pub fn reason(self) -> (reason: &'static str)
        ensures
            reason@ == self.reason_label(),
    {
        match self {
            Self::MissingCapability => "barrier_missing_capability",
            Self::JournalOverflow => "barrier_journal_overflow",
            Self::MembershipChanged => "barrier_membership_changed",
            Self::PermanentlyUnavailable => "barrier_permanently_unavailable",
            Self::ControlUnavailable => "barrier_control_unavailable",
            Self::ControlFailed => "barrier_control_failed",
            Self::Timeout => "barrier_timeout",
            Self::CoordinatorClosed => "barrier_coordinator_closed",
            Self::SubscriberClosed => "barrier_subscriber_closed",
            Self::DecodeError => "barrier_decode_error",
            Self::InvalidWatermark => "barrier_invalid_watermark",
            Self::WatermarkAhead => "barrier_watermark_ahead",
            Self::Gap => "barrier_gap",
            Self::Restart => "barrier_restart",
            Self::InvalidMarker => "barrier_invalid_marker",
            Self::IncompleteBatch => "barrier_incomplete_batch",
            Self::UnresolvedMutation => "barrier_unresolved_mutation",
            Self::RelevantMutation => "barrier_relevant_mutation",
            Self::Clear => "barrier_clear",
            Self::CatalogChanged => "barrier_catalog_changed",
            Self::ApplyIntegrityFailure => "barrier_apply_integrity_failure",
        }
    }
}

#[derive(Clone, Copy, Debug, PartialEq, Eq, Structural)]
pub enum BarrierOutcome {
    Pending,
    Exact,
    Incomplete(BarrierFailure),
}

// ---- model ----

/// A cut that waits for markers.
#[verifier::ext_equal]
pub struct CutView {
    pub round: u64,
    pub relevant_hashes: Set<u64>,
    pub unmarked_owners: Set<CacheOwner>,
}

/// One round of markers. Times are nanoseconds on the caller's clock.
#[verifier::ext_equal]
pub struct RoundView {
    pub owners: Map<CacheOwner, u64>,
    pub controls_pending: bool,
    /// Cuts that ever joined the round.
    pub cuts: nat,
    pub started_at: u64,
}

#[verifier::ext_equal]
pub struct BarrierView {
    pub owners: Map<CacheOwner, u64>,
    pub serving_incarnations: Map<CacheOwner, u64>,
    pub permanently_unavailable: Map<CacheOwner, u64>,
    pub rounds: Map<u64, RoundView>,
    /// Cuts without an outcome yet, by ticket.
    pub cuts: Map<u64, CutView>,
    /// Outcomes of the tickets that are still held.
    pub outcomes: Map<u64, BarrierOutcome>,
    pub open_round: Option<u64>,
    pub next_id: u64,
    pub next_ticket: u64,
    pub max_pending: nat,
}

/// The lapse between two times, zero if they are reversed.
pub open spec fn lapse(from: u64, to: u64) -> u64 {
    if to >= from {
        (to - from) as u64
    } else {
        0
    }
}

impl BarrierView {
    pub open spec fn initial(max_pending: nat, first_id: u64) -> BarrierView {
        BarrierView {
            owners: Map::empty(),
            serving_incarnations: Map::empty(),
            permanently_unavailable: Map::empty(),
            rounds: Map::empty(),
            cuts: Map::empty(),
            outcomes: Map::empty(),
            open_round: None,
            next_id: first_id,
            next_ticket: 0,
            max_pending,
        }
    }

    /// Some waiting cut belongs to the round.
    pub open spec fn awaited(self, id: u64) -> bool {
        exists|ticket: u64| #[trigger]
            self.cuts.contains_key(ticket) && self.cuts[ticket].round == id
    }

    pub open spec fn inv(self) -> bool {
        &&& self.cuts.dom().finite()
        &&& self.cuts.dom().len() <= self.max_pending
        &&& forall|ticket: u64| #[trigger]
            self.cuts.contains_key(ticket) ==> {
                let cut = self.cuts[ticket];
                &&& ticket < self.next_ticket
                &&& self.rounds.contains_key(cut.round)
                &&& cut.unmarked_owners.subset_of(self.rounds[cut.round].owners.dom())
                &&& self.rounds[cut.round].controls_pending || cut.unmarked_owners != Set::<
                    CacheOwner,
                >::empty()
            }
        &&& forall|id: u64| #[trigger]
            self.rounds.contains_key(id) ==> self.awaited(id) && self.rounds[id].cuts
                <= self.next_ticket
        &&& forall|ticket: u64| #[trigger]
            self.outcomes.contains_key(ticket) ==> ticket < self.next_ticket && (
            self.outcomes[ticket] == BarrierOutcome::Pending <==> self.cuts.contains_key(ticket))
        &&& match self.open_round {
            None => true,
            Some(id) => self.rounds.contains_key(id) && self.rounds[id].controls_pending,
        }
    }

    /// Identifiers for another cut are left.
    pub open spec fn ids_available(self) -> bool {
        self.next_ticket < u64::MAX && !self.rounds.contains_key(self.next_id)
    }

    /// The waiting cuts among `tickets` get their outcome. Rounds that nobody
    /// awaits any more are dropped.
    pub open spec fn resolve(self, tickets: Set<u64>, outcome: BarrierOutcome) -> BarrierView {
        let left = BarrierView {
            cuts: self.cuts.remove_keys(tickets),
            outcomes: Map::new(
                |ticket: u64| self.outcomes.contains_key(ticket),
                |ticket: u64|
                    if tickets.contains(ticket) && self.cuts.contains_key(ticket) {
                        outcome
                    } else {
                        self.outcomes[ticket]
                    },
            ),
            ..self
        };
        left.sweep()
    }

    pub open spec fn sweep(self) -> BarrierView {
        let rounds = self.rounds.restrict(Set::new(|id: u64| self.awaited(id)));
        BarrierView {
            rounds,
            open_round: match self.open_round {
                Some(id) => if rounds.contains_key(id) {
                    Some(id)
                } else {
                    None
                },
                None => None,
            },
            ..self
        }
    }

    pub open spec fn pending(self) -> nat {
        self.cuts.dom().len()
    }

    pub open spec fn is_capable(self) -> bool {
        &&& self.owners.dom() != Set::<CacheOwner>::empty()
        &&& forall|owner: CacheOwner| #[trigger]
            self.permanently_unavailable.contains_key(owner) ==> !(self.owners.contains_key(owner)
                && self.owners[owner] == self.permanently_unavailable[owner])
    }

    /// A ticket whose cut is refused at once.
    pub open spec fn refuse(self, failure: BarrierFailure) -> BarrierView {
        BarrierView {
            outcomes: self.outcomes.insert(self.next_ticket, BarrierOutcome::Incomplete(failure)),
            next_ticket: (self.next_ticket + 1) as u64,
            ..self
        }
    }

    /// A cut joins the open round, or opens a new one.
    pub open spec fn join(self, relevant_hashes: Set<u64>, now: u64) -> BarrierView {
        let opened = match self.open_round {
            Some(_) => self,
            None => BarrierView {
                rounds: self.rounds.insert(
                    self.next_id,
                    RoundView {
                        owners: self.owners,
                        controls_pending: true,
                        cuts: 0,
                        started_at: now,
                    },
                ),
                open_round: Some(self.next_id),
                next_id: if self.next_id == u64::MAX {
                    1
                } else {
                    (self.next_id + 1) as u64
                },
                ..self
            },
        };
        let id = opened.open_round->0;
        let round = opened.rounds[id];
        BarrierView {
            rounds: opened.rounds.insert(id, RoundView { cuts: round.cuts + 1, ..round }),
            cuts: opened.cuts.insert(
                self.next_ticket,
                CutView { round: id, relevant_hashes, unmarked_owners: round.owners.dom() },
            ),
            outcomes: opened.outcomes.insert(self.next_ticket, BarrierOutcome::Pending),
            next_ticket: (self.next_ticket + 1) as u64,
            ..opened
        }
    }

    pub open spec fn begin(self, relevant_hashes: Set<u64>, now: u64) -> BarrierView {
        if !self.is_capable() {
            self.refuse(BarrierFailure::MissingCapability)
        } else if self.pending() >= self.max_pending {
            self.refuse(BarrierFailure::JournalOverflow)
        } else {
            self.join(relevant_hashes, now)
        }
    }

    /// The round that a cut opens, if it opens one.
    pub open spec fn opens(self) -> Option<u64> {
        if self.is_capable() && self.pending() < self.max_pending && self.open_round is None {
            Some(self.next_id)
        } else {
            None
        }
    }

    /// The owner's marker is passed: its events can no longer void the cuts.
    pub open spec fn pass_marker(self, owner: CacheOwner, id: u64) -> BarrierView {
        BarrierView {
            cuts: Map::new(
                |ticket: u64| self.cuts.contains_key(ticket),
                |ticket: u64|
                    if self.cuts[ticket].round == id {
                        CutView {
                            unmarked_owners: self.cuts[ticket].unmarked_owners.remove(owner),
                            ..self.cuts[ticket]
                        }
                    } else {
                        self.cuts[ticket]
                    },
            ),
            ..self
        }
    }

    /// Cuts of the round that wait for no marker.
    pub open spec fn marked(self, id: u64) -> Set<u64> {
        Set::new(
            |ticket: u64|
                self.cuts.contains_key(ticket) && self.cuts[ticket].round == id
                    && self.cuts[ticket].unmarked_owners == Set::<CacheOwner>::empty(),
        )
    }

    pub open spec fn marker(self, owner: CacheOwner, id: u64) -> BarrierView {
        if !self.rounds.contains_key(id) || !self.rounds[id].owners.contains_key(owner) {
            self
        } else {
            let passed = self.pass_marker(owner, id);
            if self.rounds[id].controls_pending {
                passed
            } else {
                passed.resolve(passed.marked(id), BarrierOutcome::Exact)
            }
        }
    }

    pub open spec fn controls_succeeded(self, id: u64) -> BarrierView {
        if !self.rounds.contains_key(id) {
            self
        } else {
            let confirmed = BarrierView {
                rounds: self.rounds.insert(
                    id,
                    RoundView { controls_pending: false, ..self.rounds[id] },
                ),
                ..self
            };
            confirmed.resolve(self.marked(id), BarrierOutcome::Exact)
        }
    }

    /// Cuts that an event of the owner voids: those still waiting for its
    /// marker, if the event clears the cache or touches a relevant block.
    pub open spec fn voided(self, owner: CacheOwner, hashes: Set<u64>, clear: bool) -> Set<u64> {
        Set::new(
            |ticket: u64|
                self.cuts.contains_key(ticket) && self.cuts[ticket].unmarked_owners.contains(owner)
                    && (clear || !self.cuts[ticket].relevant_hashes.disjoint(hashes)),
        )
    }

    pub open spec fn mutation(self, owner: CacheOwner, hashes: Set<u64>, clear: bool)
        -> BarrierView {
        self.resolve(
            self.voided(owner, hashes, clear),
            BarrierOutcome::Incomplete(
                if clear {
                    BarrierFailure::Clear
                } else {
                    BarrierFailure::RelevantMutation
                },
            ),
        )
    }

    /// Cuts still waiting for the owner's marker.
    pub open spec fn awaiting(self, owner: CacheOwner) -> Set<u64> {
        Set::new(
            |ticket: u64|
                self.cuts.contains_key(ticket) && self.cuts[ticket].unmarked_owners.contains(owner),
        )
    }

    pub open spec fn fail_owner(self, owner: CacheOwner, failure: BarrierFailure) -> BarrierView {
        self.resolve(self.awaiting(owner), BarrierOutcome::Incomplete(failure))
    }

    pub open spec fn in_round(self, id: u64) -> Set<u64> {
        Set::new(|ticket: u64| self.cuts.contains_key(ticket) && self.cuts[ticket].round == id)
    }

    pub open spec fn fail_round(self, id: u64, failure: BarrierFailure) -> BarrierView {
        self.resolve(self.in_round(id), BarrierOutcome::Incomplete(failure))
    }

    pub open spec fn fail_all(self, failure: BarrierFailure) -> BarrierView {
        self.resolve(self.cuts.dom(), BarrierOutcome::Incomplete(failure))
    }

    pub open spec fn mark_permanently_unavailable(self, owner: CacheOwner, incarnation: u64)
        -> BarrierView {
        if self.owners.contains_key(owner) && self.owners[owner] == incarnation {
            BarrierView {
                permanently_unavailable: self.permanently_unavailable.insert(owner, incarnation),
                ..self
            }.fail_owner(owner, BarrierFailure::PermanentlyUnavailable)
        } else {
            self
        }
    }

    /// The round no longer takes cuts.
    pub open spec fn dispatch(self, id: u64) -> BarrierView {
        if self.open_round == Some(id) {
            BarrierView { open_round: None, ..self }
        } else {
            self
        }
    }

    /// A change of membership voids every cut. An owner stays unavailable
    /// until it serves under another incarnation.
    pub open spec fn set_owner_incarnations(
        self,
        owners: Map<CacheOwner, u64>,
        serving_incarnations: Map<CacheOwner, u64>,
    ) -> BarrierView {
        if self.owners == owners && self.serving_incarnations == serving_incarnations {
            self
        } else {
            BarrierView {
                owners,
                serving_incarnations,
                permanently_unavailable: self.permanently_unavailable.restrict(
                    Set::new(
                        |owner: CacheOwner|
                            owners.contains_key(owner) ==> owners[owner]
                                == self.permanently_unavailable[owner],
                    ),
                ),
                ..self.fail_all(BarrierFailure::MembershipChanged)
            }
        }
    }

    pub open spec fn release(self, ticket: u64) -> BarrierView {
        BarrierView { outcomes: self.outcomes.remove(ticket), ..self }
    }
}

// ---- coordinator ----

struct PendingCut {
    round: u64,
    relevant_hashes: HashSet<u64>,
    unmarked_owners: Table<CacheOwner, ()>,
}

impl View for PendingCut {
    type V = CutView;

    closed spec fn view(&self) -> CutView {
        CutView {
            round: self.round,
            relevant_hashes: self.relevant_hashes@,
            unmarked_owners: self.unmarked_owners@.dom(),
        }
    }
}

struct BarrierRound {
    owners: Table<CacheOwner, u64>,
    controls_pending: bool,
    cuts: u64,
    started_at: u64,
}

impl View for BarrierRound {
    type V = RoundView;

    closed spec fn view(&self) -> RoundView {
        RoundView {
            owners: self.owners@,
            controls_pending: self.controls_pending,
            cuts: self.cuts as nat,
            started_at: self.started_at,
        }
    }
}

/// Coordinates the cuts of route snapshots with the owners' event streams.
pub struct BarrierCoordinator {
    owners: Table<CacheOwner, u64>,
    serving_incarnations: Table<CacheOwner, u64>,
    permanently_unavailable: Table<CacheOwner, u64>,
    rounds: HashMap<u64, BarrierRound>,
    cuts: HashMap<u64, PendingCut>,
    outcomes: HashMap<u64, BarrierOutcome>,
    open_round: Option<u64>,
    next_id: u64,
    next_ticket: u64,
    max_pending: usize,
}

impl View for BarrierCoordinator {
    type V = BarrierView;

    closed spec fn view(&self) -> BarrierView {
        BarrierView {
            owners: self.owners@,
            serving_incarnations: self.serving_incarnations@,
            permanently_unavailable: self.permanently_unavailable@,
            rounds: self.rounds@.map_values(|round: BarrierRound| round@),
            cuts: self.cuts@.map_values(|cut: PendingCut| cut@),
            outcomes: self.outcomes@,
            open_round: self.open_round,
            next_id: self.next_id,
            next_ticket: self.next_ticket,
            max_pending: self.max_pending as nat,
        }
    }
}

impl BarrierCoordinator {
    spec fn tables_wf(&self) -> bool {
        &&& self.owners.wf()
        &&& self.serving_incarnations.wf()
        &&& self.permanently_unavailable.wf()
        &&& forall|id: u64| #[trigger]
            self.rounds@.contains_key(id) ==> self.rounds@[id].owners.wf()
        &&& forall|ticket: u64| #[trigger]
            self.cuts@.contains_key(ticket) ==> self.cuts@[ticket].unmarked_owners.wf()
    }

    pub closed spec fn wf(&self) -> bool {
        self.tables_wf() && self@.inv()
    }

    /// A coordinator without owners.
    ///
    /// Barrier ids share the workers' event stream across router replicas. A
    /// random starting point prevents one replica's marker satisfying another
    /// replica's round after simultaneous startup.
    pub fn new(max_pending: usize) -> (coordinator: Self)
        ensures
            coordinator.wf(),
            coordinator@.next_id >= 1,
            coordinator@ == BarrierView::initial(max_pending as nat, coordinator@.next_id),
    {
        Self::with_first_id(max_pending, random_id())
    }

    /// A coordinator whose first round has the given id.
    pub fn with_first_id(max_pending: usize, first_id: u64) -> (coordinator: Self)
        ensures
            coordinator.wf(),
            coordinator@ == BarrierView::initial(max_pending as nat, first_id),
    {
        let coordinator = BarrierCoordinator {
            owners: Table::new(),
            serving_incarnations: Table::new(),
            permanently_unavailable: Table::new(),
            rounds: HashMap::new(),
            cuts: HashMap::new(),
            outcomes: HashMap::new(),
            open_round: None,
            next_id: first_id,
            next_ticket: 0,
            max_pending,
        };
        assert(coordinator@ =~= BarrierView::initial(max_pending as nat, first_id));
        coordinator
    }

    /// Drops the rounds that no waiting cut belongs to.
    fn sweep(&mut self)
        requires
            old(self).tables_wf(),
        ensures
            final(self).tables_wf(),
            final(self)@ == old(self)@.sweep(),
    {
        let mut awaited: HashSet<u64> = HashSet::new();
        let tickets = keys_of(&self.cuts);
        let mut i: usize = 0;
        while i < tickets.len()
            invariant
                i <= tickets@.len(),
                self == old(self),
                tickets@.to_set() == self.cuts@.dom(),
                forall|id: u64| #[trigger]
                    awaited@.contains(id) <==> exists|j: int|
                        0 <= j < i && self.cuts@[#[trigger] tickets@[j]].round == id,
            decreases tickets@.len() - i,
        {
            let ticket: u64 = tickets[i];
            proof {
                assert(tickets@.to_set().contains(tickets@[i as int]));
                assert(self.cuts@.contains_key(ticket));
            }
            if let Some(cut) = self.cuts.get(&ticket) {
                awaited.insert(cut.round);
            }
            i = i + 1;
        }
        proof {
            assert forall|id: u64| awaited@.contains(id) == self@.awaited(id) by {
                if awaited@.contains(id) {
                    let j = choose|j: int|
                        0 <= j < i && self.cuts@[#[trigger] tickets@[j]].round == id;
                    assert(tickets@.to_set().contains(tickets@[j]));
                    assert(self@.cuts.contains_key(tickets@[j]));
                }
                if self@.awaited(id) {
                    let ticket = choose|ticket: u64| #[trigger]
                        self@.cuts.contains_key(ticket) && self@.cuts[ticket].round == id;
                    assert(tickets@.to_set().contains(ticket));
                    let j = choose|j: int| 0 <= j < tickets@.len() && tickets@[j] == ticket;
                    assert(self.cuts@[tickets@[j]].round == id);
                }
            }
        }
        let ids = keys_of(&self.rounds);
        let mut n: usize = 0;
        while n < ids.len()
            invariant
                n <= ids@.len(),
                self.tables_wf(),
                ids@.no_duplicates(),
                ids@.to_set() == old(self).rounds@.dom(),
                forall|id: u64| awaited@.contains(id) == #[trigger] old(self)@.awaited(id),
                self.owners == old(self).owners,
                self.serving_incarnations == old(self).serving_incarnations,
                self.permanently_unavailable == old(self).permanently_unavailable,
                self.cuts == old(self).cuts,
                self.outcomes == old(self).outcomes,
                self.open_round == old(self).open_round,
                self.next_id == old(self).next_id,
                self.next_ticket == old(self).next_ticket,
                self.max_pending == old(self).max_pending,
                forall|id: u64| #[trigger]
                    self.rounds@.contains_key(id) <==> old(self).rounds@.contains_key(id) && (
                    awaited@.contains(id) || !(exists|j: int|
                        0 <= j < n && #[trigger] ids@[j] == id)),
                forall|id: u64| #[trigger]
                    self.rounds@.contains_key(id) ==> self.rounds@[id] == old(self).rounds@[id],
            decreases ids@.len() - n,
        {
            let id: u64 = ids[n];
            if !awaited.contains(&id) {
                self.rounds.remove(&id);
            }
            n = n + 1;
        }
        proof {
            assert forall|id: u64| self.rounds@.contains_key(id) == (
            old(self).rounds@.contains_key(id) && old(self)@.awaited(id)) by {
                if old(self).rounds@.contains_key(id) {
                    assert(ids@.to_set().contains(id));
                    let j = choose|j: int| 0 <= j < ids@.len() && ids@[j] == id;
                    assert(ids@[j] == id);
                }
            }
        }
        if let Some(id) = self.open_round {
            if !self.rounds.contains_key(&id) {
                self.open_round = None;
            }
        }
        assert(self@ =~= old(self)@.sweep());
    }

    /// Gives the listed waiting cuts their outcome.
    fn resolve(&mut self, tickets: &Vec<u64>, outcome: BarrierOutcome)
        requires
            old(self).tables_wf(),
            forall|j: int| 0 <= j < tickets@.len() ==> old(self)@.cuts.contains_key(
                #[trigger] tickets@[j],
            ),
        ensures
            final(self).tables_wf(),
            final(self)@ == old(self)@.resolve(tickets@.to_set(), outcome),
    {
        let mut i: usize = 0;
        while i < tickets.len()
            invariant
                i <= tickets@.len(),
                self.tables_wf(),
                self.owners == old(self).owners,
                self.serving_incarnations == old(self).serving_incarnations,
                self.permanently_unavailable == old(self).permanently_unavailable,
                self.rounds == old(self).rounds,
                self.open_round == old(self).open_round,
                self.next_id == old(self).next_id,
                self.next_ticket == old(self).next_ticket,
                self.max_pending == old(self).max_pending,
                forall|t: u64| #[trigger]
                    self.cuts@.contains_key(t) <==> old(self).cuts@.contains_key(t) && !(exists|
                        j: int,
                    | 0 <= j < i && #[trigger] tickets@[j] == t),
                forall|t: u64| #[trigger]
                    self.cuts@.contains_key(t) ==> self.cuts@[t] == old(self).cuts@[t],
                forall|t: u64| #[trigger]
                    self.outcomes@.contains_key(t) == old(self).outcomes@.contains_key(t),
                forall|t: u64| #[trigger]
                    self.outcomes@.contains_key(t) ==> self.outcomes@[t] == if exists|j: int|
                        0 <= j < i && #[trigger] tickets@[j] == t {
                        outcome
                    } else {
                        old(self).outcomes@[t]
                    },
            decreases tickets@.len() - i,
        {
            let ticket: u64 = tickets[i];
            self.cuts.remove(&ticket);
            if self.outcomes.contains_key(&ticket) {
                self.outcomes.insert(ticket, outcome);
            }
            i = i + 1;
        }
        let ghost set = tickets@.to_set();
        let ghost left = BarrierView {
            cuts: old(self)@.cuts.remove_keys(set),
            outcomes: Map::new(
                |ticket: u64| old(self)@.outcomes.contains_key(ticket),
                |ticket: u64|
                    if set.contains(ticket) && old(self)@.cuts.contains_key(ticket) {
                        outcome
                    } else {
                        old(self)@.outcomes[ticket]
                    },
            ),
            ..old(self)@
        };
        proof {
            assert forall|t: u64| set.contains(t) == (exists|j: int|
                0 <= j < i && #[trigger] tickets@[j] == t) by {
                if set.contains(t) {
                    let j = choose|j: int| 0 <= j < tickets@.len() && tickets@[j] == t;
                    assert(tickets@[j] == t);
                }
            }
            assert(self@.cuts =~= left.cuts);
            assert(self@.outcomes =~= left.outcomes);
            assert(self@ =~= left);
        }
        self.sweep();
    }

    /// The waiting cuts that the selection picks.
    fn select(&self, selection: &Selection) -> (tickets: Vec<u64>)
        requires
            self.tables_wf(),
        ensures
            tickets@.no_duplicates(),
            tickets@.to_set() == Set::new(
                |t: u64| self@.cuts.contains_key(t) && selection.picks(self@.cuts[t]),
            ),
            forall|j: int| 0 <= j < tickets@.len() ==> self@.cuts.contains_key(
                #[trigger] tickets@[j],
            ),
    {
        let all = keys_of(&self.cuts);
        let mut tickets: Vec<u64> = Vec::new();
        let mut i: usize = 0;
        while i < all.len()
            invariant
                i <= all@.len(),
                self.tables_wf(),
                all@.no_duplicates(),
                all@.to_set() == self.cuts@.dom(),
                tickets@.no_duplicates(),
                forall|t: u64| #[trigger]
                    tickets@.contains(t) <==> self@.cuts.contains_key(t) && selection.picks(
                        self@.cuts[t],
                    ) && exists|j: int| 0 <= j < i && #[trigger] all@[j] == t,
            decreases all@.len() - i,
        {
            let ticket: u64 = all[i];
            let ghost before = tickets@;
            proof {
                assert(all@.to_set().contains(all@[i as int]));
                assert(self.cuts@.contains_key(ticket));
            }
            if let Some(cut) = self.cuts.get(&ticket) {
                if selection.picks_cut(cut) {
                    proof {
                        if before.contains(ticket) {
                            let j = choose|j: int| 0 <= j < i && #[trigger] all@[j] == ticket;
                            assert(all@[j] != all@[i as int]);
                        }
                    }
                    tickets.push(ticket);
                    assert(tickets@[before.len() as int] == ticket);
                }
            }
            proof {
                assert forall|t: u64| #[trigger]
                    tickets@.contains(t) <==> self@.cuts.contains_key(t) && selection.picks(
                        self@.cuts[t],
                    ) && exists|j: int| 0 <= j < i + 1 && #[trigger] all@[j] == t by {
                    if before.contains(t) {
                        let n = choose|n: int| 0 <= n < before.len() && before[n] == t;
                        assert(tickets@[n] == t);
                    }
                    if tickets@.contains(t) && t != ticket {
                        let n = choose|n: int| 0 <= n < tickets@.len() && tickets@[n] == t;
                        assert(before[n] == t);
                        assert(before.contains(t));
                    }
                    if tickets@.contains(t) && t == ticket && !before.contains(t) {
                        assert(all@[i as int] == t);
                    }
                    if exists|j: int| 0 <= j < i + 1 && #[trigger] all@[j] == t {
                        let j = choose|j: int| 0 <= j < i + 1 && #[trigger] all@[j] == t;
                        if j < i && self@.cuts.contains_key(t) && selection.picks(self@.cuts[t]) {
                            assert(before.contains(t));
                        }
                    }
                }
            }
            i = i + 1;
        }
        proof {
            let picked = Set::new(
                |t: u64| self@.cuts.contains_key(t) && selection.picks(self@.cuts[t]),
            );
            assert forall|t: u64| tickets@.to_set().contains(t) == picked.contains(t) by {
                if picked.contains(t) {
                    assert(all@.to_set().contains(t));
                    let j = choose|j: int| 0 <= j < all@.len() && all@[j] == t;
                    assert(all@[j] == t);
                    assert(tickets@.contains(t));
                }
            }
            assert(tickets@.to_set() =~= picked);
            assert forall|j: int| 0 <= j < tickets@.len() implies self@.cuts.contains_key(
                #[trigger] tickets@[j],
            ) by {
                assert(tickets@.contains(tickets@[j]));
            }
        }
        tickets
    }

    /// Gives the selected cuts their outcome and counts them.
    fn resolve_selected(&mut self, selection: &Selection, outcome: BarrierOutcome) -> (count: usize)
        requires
            old(self).wf(),
            outcome != BarrierOutcome::Pending,
        ensures
            final(self).wf(),
            ({
                let tickets = Set::new(
                    |t: u64|
                        old(self)@.cuts.contains_key(t) && selection.picks(old(self)@.cuts[t]),
                );
                &&& final(self)@ == old(self)@.resolve(tickets, outcome)
                &&& tickets.finite()
                &&& count == tickets.len()
            }),
    {
        let tickets = self.select(selection);
        proof {
            tickets@.unique_seq_to_set();
            lemma_resolve_inv(self@, tickets@.to_set(), outcome);
        }
        self.resolve(&tickets, outcome);
        tickets.len()
    }

    /// Replaces the membership. Any change voids every waiting cut.
    pub fn set_owner_incarnations(
        &mut self,
        owners: &[(CacheOwner, u64)],
        serving_incarnations: &[(CacheOwner, u64)],
    )
        requires
            old(self).wf(),
        ensures
            final(self).wf(),
            final(self)@ == old(self)@.set_owner_incarnations(
                pairs_map(owners@),
                pairs_map(serving_incarnations@),
            ),
    {
        let owners = table_of(owners);
        let serving = table_of(serving_incarnations);
        let same = same_tables(&self.owners, &owners) && same_tables(
            &self.serving_incarnations,
            &serving,
        );
        if same {
            return;
        }
        self.fail_all(BarrierFailure::MembershipChanged);
        let ghost failed = self@;
        proof {
            assert(failed.permanently_unavailable == old(self)@.permanently_unavailable);
        }
        self.owners = owners;
        self.serving_incarnations = serving;
        let unavailable = copy_table(&self.permanently_unavailable);
        let active = &self.owners;
        let still = |owner: CacheOwner| -> (r: bool)
            requires
                active.wf(),
                unavailable.wf(),
            ensures
                unavailable@.contains_key(owner) ==> r == (active@.contains_key(owner)
                    ==> active@[owner] == unavailable@[owner]),
                !unavailable@.contains_key(owner) ==> r,
            {
                match (active.get(owner), unavailable.get(owner)) {
                    (Some(incarnation), Some(gone)) => *incarnation == *gone,
                    _ => true,
                }
            };
        let ghost kept = |owner: CacheOwner|
            unavailable@.contains_key(owner) ==> (active@.contains_key(owner) ==> active@[owner]
                == unavailable@[owner]);
        self.permanently_unavailable.retain(still, Ghost(kept));
        proof {
            let model = old(self)@.set_owner_incarnations(owners@, serving@);
            assert(self@.permanently_unavailable =~= model.permanently_unavailable);
            assert(self@ =~= model);
        }
    }

    /// Requests a cut for a snapshot that depends on the given blocks. Hands
    /// out a ticket and, if a new round was opened, the id of that round, which
    /// the caller dispatches.
    pub fn begin(&mut self, relevant_hashes: HashSet<u64>, now: u64) -> (r: (u64, Option<u64>))
        requires
            old(self).wf(),
            old(self)@.ids_available(),
        ensures
            final(self).wf(),
            final(self)@ == old(self)@.begin(relevant_hashes@, now),
            r.0 == old(self)@.next_ticket,
            r.1 == old(self)@.opens(),
    {
        let ticket: u64 = self.next_ticket;
        if !self.is_capable() {
            self.refuse(BarrierFailure::MissingCapability);
            return (ticket, None);
        }
        proof {
            assert(self@.cuts.dom() =~= self.cuts@.dom());
        }
        if self.cuts.len() >= self.max_pending {
            self.refuse(BarrierFailure::JournalOverflow);
            return (ticket, None);
        }
        let created: Option<u64> = match self.open_round {
            Some(_) => None,
            None => {
                let id: u64 = self.next_id;
                let owners = copy_table(&self.owners);
                let round = BarrierRound {
                    owners,
                    controls_pending: true,
                    cuts: 0,
                    started_at: now,
                };
                self.rounds.insert(id, round);
                self.open_round = Some(id);
                self.next_id = if id == u64::MAX {
                    1
                } else {
                    id + 1
                };
                Some(id)
            },
        };
        let ghost opened = self@;
        let id: u64 = match self.open_round {
            Some(id) => id,
            None => 0,
        };
        proof {
            assert(self.rounds@.contains_key(id));
            assert(opened.rounds[id] == self.rounds@[id]@);
        }
        if let Some(mut round) = self.rounds.remove(&id) {
            let unmarked_owners = key_set(&round.owners);
            assert(opened.rounds[id].cuts <= self.next_ticket);
            round.cuts = round.cuts + 1;
            let cut = PendingCut { round: id, relevant_hashes, unmarked_owners };
            self.rounds.insert(id, round);
            self.cuts.insert(ticket, cut);
        }
        self.outcomes.insert(ticket, BarrierOutcome::Pending);
        self.next_ticket = ticket + 1;
        proof {
            let model = old(self)@.join(relevant_hashes@, now);
            if old(self)@.open_round is None {
                assert(opened.rounds =~= old(self)@.rounds.insert(
                    old(self)@.next_id,
                    RoundView {
                        owners: old(self)@.owners,
                        controls_pending: true,
                        cuts: 0,
                        started_at: now,
                    },
                ));
            }
            assert(self@.rounds =~= model.rounds);
            assert(self@.cuts =~= model.cuts);
            assert(self@.outcomes =~= model.outcomes);
            assert(self@ =~= model);
            lemma_join_inv(old(self)@, relevant_hashes@, now);
        }
        (ticket, created)
    }

    fn refuse(&mut self, failure: BarrierFailure)
        requires
            old(self).wf(),
            old(self)@.ids_available(),
        ensures
            final(self).wf(),
            final(self)@ == old(self)@.refuse(failure),
    {
        let ticket: u64 = self.next_ticket;
        self.outcomes.insert(ticket, BarrierOutcome::Incomplete(failure));
        self.next_ticket = ticket + 1;
        proof {
            assert(self@ =~= old(self)@.refuse(failure));
            assert forall|id: u64| #[trigger] self@.rounds.contains_key(id) implies self@.awaited(
                id,
            ) by {
                assert(old(self)@.rounds.contains_key(id));
                let t = choose|t: u64| #[trigger]
                    old(self)@.cuts.contains_key(t) && old(self)@.cuts[t].round == id;
                assert(self@.cuts.contains_key(t));
            }
        }
    }

    fn is_capable(&self) -> (capable: bool)
        requires
            self.wf(),
        ensures
            capable == self@.is_capable(),
    {
        let owners = &self.owners;
        let unavailable = &self.permanently_unavailable;
        let gone = |owner: CacheOwner| -> (r: bool)
            requires
                owners.wf(),
                unavailable.wf(),
            ensures
                r == (owners@.contains_key(owner) && unavailable@.contains_key(owner)
                    && owners@[owner] == unavailable@[owner]),
            {
                match (owners.get(owner), unavailable.get(owner)) {
                    (Some(incarnation), Some(gone)) => *incarnation == *gone,
                    _ => false,
                }
            };
        let ghost lost = |owner: CacheOwner|
            owners@.contains_key(owner) && unavailable@.contains_key(owner) && owners@[owner]
                == unavailable@[owner];
        let any_gone = unavailable.any(gone, Ghost(lost));
        let count = owners.len();
        proof {
            if count == 0 {
                owners@.dom().lemma_len0_is_empty();
            }
            if any_gone {
                let owner = choose|owner: CacheOwner| #[trigger]
                    unavailable@.contains_key(owner) && lost(owner);
                assert(self@.permanently_unavailable.contains_key(owner));
            }
            assert forall|owner: CacheOwner| #[trigger]
                self@.permanently_unavailable.contains_key(owner) && !any_gone implies !(
            self@.owners.contains_key(owner) && self@.owners[owner]
                == self@.permanently_unavailable[owner]) by {
                assert(unavailable@.contains_key(owner));
                assert(!lost(owner));
            }
        }
        count > 0 && !any_gone
    }

    /// Identifiers for another cut are left.
    pub fn ids_available(&self) -> (available: bool)
        ensures
            available == self@.ids_available(),
    {
        self.next_ticket < u64::MAX && !self.rounds.contains_key(&self.next_id)
    }

    /// Cuts without an outcome yet.
    pub fn pending(&self) -> (count: usize)
        requires
            self.wf(),
        ensures
            count == self@.pending(),
    {
        assert(self@.cuts.dom() =~= self.cuts@.dom());
        self.cuts.len()
    }

    /// The owners whose markers a cut needs.
    pub fn owners(&self) -> (owners: Vec<CacheOwner>)
        requires
            self.wf(),
        ensures
            owners@.no_duplicates(),
            owners@.to_set() == self@.owners.dom(),
    {
        key_list(&self.owners)
    }

    /// The outcome of a ticket that is still held.
    pub fn outcome(&self, ticket: u64) -> (outcome: Option<BarrierOutcome>)
        ensures
            outcome == if self@.outcomes.contains_key(ticket) {
                Some(self@.outcomes[ticket])
            } else {
                None
            },
    {
        match self.outcomes.get(&ticket) {
            Some(outcome) => Some(*outcome),
            None => None,
        }
    }

    /// What waiting for a cut has come to; nothing while it is still pending.
    /// A cut that nobody can decide any more is void.
    pub fn awaited_outcome(&self, ticket: u64) -> (outcome: Option<BarrierOutcome>)
        ensures
            outcome == if !self@.outcomes.contains_key(ticket) {
                Some(BarrierOutcome::Incomplete(BarrierFailure::CoordinatorClosed))
            } else if self@.outcomes[ticket] == BarrierOutcome::Pending {
                None
            } else {
                Some(self@.outcomes[ticket])
            },
    {
        match self.outcome(ticket) {
            None => Some(BarrierOutcome::Incomplete(BarrierFailure::CoordinatorClosed)),
            Some(BarrierOutcome::Pending) => None,
            Some(outcome) => Some(outcome),
        }
    }

    /// Forgets the outcome of a ticket that nobody holds any more. Its cut, if
    /// it still waits, runs on unheard.
    pub fn release(&mut self, ticket: u64)
        requires
            old(self).wf(),
        ensures
            final(self).wf(),
            final(self)@ == old(self)@.release(ticket),
    {
        self.outcomes.remove(&ticket);
        proof {
            assert(self@ =~= old(self)@.release(ticket));
            assert forall|id: u64| #[trigger] self@.rounds.contains_key(id) implies self@.awaited(
                id,
            ) by {
                assert(old(self)@.rounds.contains_key(id));
                let t = choose|t: u64| #[trigger]
                    old(self)@.cuts.contains_key(t) && old(self)@.cuts[t].round == id;
                assert(self@.cuts.contains_key(t));
            }
        }
    }

    /// The selected worker still serves under the fenced incarnation.
    pub fn matches_selected_incarnation(
        &self,
        owner: CacheOwner,
        serving_incarnation: Option<u64>,
    ) -> (matches: bool)
        requires
            self.wf(),
        ensures
            matches == (serving_incarnation is Some && self@.serving_incarnations.contains_key(owner)
                && self@.serving_incarnations[owner] == serving_incarnation->0),
    {
        match (self.serving_incarnations.get(owner), serving_incarnation) {
            (Some(active), Some(selected)) => *active == selected,
            _ => false,
        }
    }

    /// An owner that cannot emit markers voids its cuts, and all further ones
    /// until it serves under another incarnation. Returns how many were voided.
    pub fn mark_permanently_unavailable(&mut self, owner: CacheOwner, incarnation: u64) -> (failed:
        usize)
        requires
            old(self).wf(),
        ensures
            final(self).wf(),
            final(self)@ == old(self)@.mark_permanently_unavailable(owner, incarnation),
            failed == if old(self)@.owners.contains_key(owner) && old(self)@.owners[owner]
                == incarnation {
                old(self)@.awaiting(owner).len()
            } else {
                0
            },
    {
        let current = match self.owners.get(owner) {
            Some(active) => *active == incarnation,
            None => false,
        };
        if !current {
            return 0;
        }
        self.permanently_unavailable.insert(owner, incarnation);
        let ghost marked = BarrierView {
            permanently_unavailable: old(self)@.permanently_unavailable.insert(
                owner,
                incarnation,
            ),
            ..old(self)@
        };
        proof {
            assert(self@ =~= marked);
            assert(marked.awaiting(owner) =~= old(self)@.awaiting(owner));
            assert forall|id: u64| #[trigger] self@.rounds.contains_key(id) implies self@.awaited(
                id,
            ) by {
                assert(old(self)@.rounds.contains_key(id));
                let t = choose|t: u64| #[trigger]
                    old(self)@.cuts.contains_key(t) && old(self)@.cuts[t].round == id;
                assert(self@.cuts.contains_key(t));
            }
        }
        self.fail_owner(owner, BarrierFailure::PermanentlyUnavailable)
    }

    /// Closes a round to further cuts. Returns the owners to ask for markers,
    /// with their incarnations, and the number of cuts that joined.
    pub fn dispatch(&mut self, id: u64) -> (r: Option<(Vec<(CacheOwner, u64)>, u64)>)
        requires
            old(self).wf(),
        ensures
            final(self).wf(),
            match r {
                Some((owners, cuts)) => {
                    &&& old(self)@.rounds.contains_key(id)
                    &&& final(self)@ == old(self)@.dispatch(id)
                    &&& lists_pairs(owners@, old(self)@.rounds[id].owners)
                    &&& cuts == old(self)@.rounds[id].cuts
                },
                None => !old(self)@.rounds.contains_key(id) && final(self)@ == old(self)@,
            },
    {
        let ghost model = old(self)@.rounds;
        let (owners, cuts): (Vec<(CacheOwner, u64)>, u64) = match self.rounds.get(&id) {
            None => {
                return None;
            },
            Some(round) => (pair_list(&round.owners), round.cuts),
        };
        if self.open_round == Some(id) {
            self.open_round = None;
        }
        proof {
            assert(self@ =~= old(self)@.dispatch(id));
            assert forall|id: u64| #[trigger] self@.rounds.contains_key(id) implies self@.awaited(
                id,
            ) by {
                assert(old(self)@.rounds.contains_key(id));
                let t = choose|t: u64| #[trigger]
                    old(self)@.cuts.contains_key(t) && old(self)@.cuts[t].round == id;
                assert(self@.cuts.contains_key(t));
            }
            assert(model[id] == old(self).rounds@[id]@);
        }
        Some((owners, cuts))
    }

    /// Takes the owner off the waiting lists of a round's cuts.
    fn pass_marker(&mut self, owner: CacheOwner, id: u64)
        requires
            old(self).tables_wf(),
        ensures
            final(self).tables_wf(),
            final(self)@ == old(self)@.pass_marker(owner, id),
    {
        let selection = Selection::Round { round: id };
        let tickets = self.select(&selection);
        let mut i: usize = 0;
        while i < tickets.len()
            invariant
                i <= tickets@.len(),
                self.tables_wf(),
                tickets@.no_duplicates(),
                forall|j: int| 0 <= j < tickets@.len() ==> old(self).cuts@.contains_key(
                    #[trigger] tickets@[j],
                ),
                self.owners == old(self).owners,
                self.serving_incarnations == old(self).serving_incarnations,
                self.permanently_unavailable == old(self).permanently_unavailable,
                self.rounds == old(self).rounds,
                self.outcomes == old(self).outcomes,
                self.open_round == old(self).open_round,
                self.next_id == old(self).next_id,
                self.next_ticket == old(self).next_ticket,
                self.max_pending == old(self).max_pending,
                forall|t: u64| #[trigger]
                    self.cuts@.contains_key(t) == old(self).cuts@.contains_key(t),
                forall|t: u64| #[trigger]
                    self.cuts@.contains_key(t) ==> if exists|j: int|
                        0 <= j < i && #[trigger] tickets@[j] == t {
                        self.cuts@[t]@ == (CutView {
                            unmarked_owners: old(self).cuts@[t]@.unmarked_owners.remove(owner),
                            ..old(self).cuts@[t]@
                        })
                    } else {
                        self.cuts@[t] == old(self).cuts@[t]
                    },
            decreases tickets@.len() - i,
        {
            let ticket: u64 = tickets[i];
            let ghost before = self.cuts@;
            proof {
                assert(self.cuts@.contains_key(ticket));
                if exists|j: int| 0 <= j < i && #[trigger] tickets@[j] == ticket {
                    let j = choose|j: int| 0 <= j < i && #[trigger] tickets@[j] == ticket;
                    assert(tickets@[j] != tickets@[i as int]);
                }
            }
            if let Some(mut cut) = self.cuts.remove(&ticket) {
                cut.unmarked_owners.remove(owner);
                assert(cut@ =~= (CutView {
                    unmarked_owners: before[ticket]@.unmarked_owners.remove(owner),
                    ..before[ticket]@
                }));
                self.cuts.insert(ticket, cut);
            }
            i = i + 1;
            proof {
                assert(tickets@[i - 1] == ticket);
            }
        }
        proof {
            let model = old(self)@.pass_marker(owner, id);
            assert forall|t: u64| self@.cuts.contains_key(t) implies self@.cuts[t]
                == model.cuts[t] by {
                assert(self.cuts@.contains_key(t));
                if old(self)@.cuts[t].round == id {
                    assert(tickets@.to_set().contains(t));
                    let j = choose|j: int| 0 <= j < tickets@.len() && tickets@[j] == t;
                    assert(tickets@[j] == t);
                } else if exists|j: int| 0 <= j < i && #[trigger] tickets@[j] == t {
                    let j = choose|j: int| 0 <= j < i && #[trigger] tickets@[j] == t;
                    assert(tickets@.to_set().contains(tickets@[j]));
                }
            }
            assert(self@.cuts =~= model.cuts);
            assert(self@ =~= model);
        }
    }

    /// The owner's marker for a round has been applied. Returns how long the
    /// round took if this completed it.
    pub fn marker(&mut self, owner: CacheOwner, barrier_id: u64, now: u64) -> (rtt: Option<u64>)
        requires
            old(self).wf(),
        ensures
            final(self).wf(),
            final(self)@ == old(self)@.marker(owner, barrier_id),
            rtt == completion(old(self)@, final(self)@, barrier_id, now),
    {
        let (known, controls_pending, started_at): (bool, bool, u64) = match self.rounds.get(
            &barrier_id,
        ) {
            None => {
                return None;
            },
            Some(round) => (
                round.owners.contains_key(owner),
                round.controls_pending,
                round.started_at,
            ),
        };
        if !known {
            return None;
        }
        proof {
            lemma_pass_marker(old(self)@, owner, barrier_id);
            lemma_marker_inv(old(self)@, owner, barrier_id);
        }
        self.pass_marker(owner, barrier_id);
        if controls_pending {
            return None;
        }
        let ghost passed = self@;
        let selection = Selection::Marked { round: barrier_id };
        let tickets = self.select(&selection);
        proof {
            assert(tickets@.to_set() =~= passed.marked(barrier_id));
            lemma_marker_inv(old(self)@, owner, barrier_id);
        }
        self.resolve(&tickets, BarrierOutcome::Exact);
        if self.rounds.contains_key(&barrier_id) {
            None
        } else {
            Some(now.saturating_sub(started_at))
        }
    }

    /// Every owner has accepted the request for markers. Returns how long the
    /// round took if all markers had been applied already.
    pub fn controls_succeeded(&mut self, barrier_id: u64, now: u64) -> (rtt: Option<u64>)
        requires
            old(self).wf(),
            old(self)@.open_round != Some(barrier_id),
        ensures
            final(self).wf(),
            final(self)@ == old(self)@.controls_succeeded(barrier_id),
            rtt == completion(old(self)@, final(self)@, barrier_id, now),
    {
        let started_at: u64 = match self.rounds.remove(&barrier_id) {
            None => {
                assert(self.rounds@ =~= old(self).rounds@);
                assert(self@ =~= old(self)@);
                return None;
            },
            Some(mut round) => {
                let started_at: u64 = round.started_at;
                round.controls_pending = false;
                self.rounds.insert(barrier_id, round);
                started_at
            },
        };
        let ghost confirmed = BarrierView {
            rounds: old(self)@.rounds.insert(
                barrier_id,
                RoundView { controls_pending: false, ..old(self)@.rounds[barrier_id] },
            ),
            ..old(self)@
        };
        proof {
            assert(old(self)@.rounds[barrier_id] == old(self).rounds@[barrier_id]@);
            assert(self@.rounds =~= confirmed.rounds);
            assert(self@ =~= confirmed);
            assert(confirmed.marked(barrier_id) =~= old(self)@.marked(barrier_id));
        }
        let selection = Selection::Marked { round: barrier_id };
        let tickets = self.select(&selection);
        proof {
            assert(tickets@.to_set() =~= old(self)@.marked(barrier_id));
            lemma_controls_inv(old(self)@, barrier_id);
        }
        self.resolve(&tickets, BarrierOutcome::Exact);
        if self.rounds.contains_key(&barrier_id) {
            None
        } else {
            Some(now.saturating_sub(started_at))
        }
    }

    /// An event of the owner changed the given blocks, or cleared its cache.
    /// Returns how many waiting cuts it voids.
    pub fn mutation(&mut self, owner: CacheOwner, hashes: &HashSet<u64>, clear: bool) -> (failed:
        usize)
        requires
            old(self).wf(),
        ensures
            final(self).wf(),
            final(self)@ == old(self)@.mutation(owner, hashes@, clear),
            failed == old(self)@.voided(owner, hashes@, clear).len(),
    {
        let failure = if clear {
            BarrierFailure::Clear
        } else {
            BarrierFailure::RelevantMutation
        };
        let selection = Selection::Voided { owner, hashes, clear };
        proof {
            assert(Set::new(
                |t: u64| self@.cuts.contains_key(t) && selection.picks(self@.cuts[t]),
            ) =~= self@.voided(owner, hashes@, clear));
        }
        self.resolve_selected(&selection, BarrierOutcome::Incomplete(failure))
    }

    /// The owner's stream is not reliable: every cut waiting for its marker is
    /// void. Returns how many.
    pub fn fail_owner(&mut self, owner: CacheOwner, failure: BarrierFailure) -> (failed: usize)
        requires
            old(self).wf(),
        ensures
            final(self).wf(),
            final(self)@ == old(self)@.fail_owner(owner, failure),
            failed == old(self)@.awaiting(owner).len(),
    {
        let selection = Selection::Awaiting { owner };
        proof {
            assert(Set::new(
                |t: u64| self@.cuts.contains_key(t) && selection.picks(self@.cuts[t]),
            ) =~= self@.awaiting(owner));
        }
        self.resolve_selected(&selection, BarrierOutcome::Incomplete(failure))
    }

    /// Voids the cuts of one round and returns how many there were.
    pub fn fail_round(&mut self, id: u64, failure: BarrierFailure) -> (failed: usize)
        requires
            old(self).wf(),
        ensures
            final(self).wf(),
            final(self)@ == old(self)@.fail_round(id, failure),
            failed == old(self)@.in_round(id).len(),
    {
        let selection = Selection::Round { round: id };
        proof {
            assert(Set::new(
                |t: u64| self@.cuts.contains_key(t) && selection.picks(self@.cuts[t]),
            ) =~= self@.in_round(id));
        }
        self.resolve_selected(&selection, BarrierOutcome::Incomplete(failure))
    }

    /// Voids every waiting cut and returns how many there were.
    pub fn fail_all(&mut self, failure: BarrierFailure) -> (failed: usize)
        requires
            old(self).wf(),
        ensures
            final(self).wf(),
            final(self)@ == old(self)@.fail_all(failure),
            failed == old(self)@.pending(),
    {
        let selection = Selection::All;
        proof {
            assert(Set::new(
                |t: u64| self@.cuts.contains_key(t) && selection.picks(self@.cuts[t]),
            ) =~= self@.cuts.dom());
        }
        self.resolve_selected(&selection, BarrierOutcome::Incomplete(failure))
    }

    /// The round still has waiting cuts.
    pub fn has_round(&self, id: u64) -> (found: bool)
        ensures
            found == self@.rounds.contains_key(id),
    {
        self.rounds.contains_key(&id)
    }

    pub fn is_open(&self, id: u64) -> (open: bool)
        ensures
            open == (self@.open_round == Some(id)),
    {
        self.open_round == Some(id)
    }
}

/// How long a round took, if it has just been completed.
pub open spec fn completion(before: BarrierView, after: BarrierView, id: u64, now: u64) -> Option<
    u64,
> {
    if before.rounds.contains_key(id) && !after.rounds.contains_key(id) {
        Some(lapse(before.rounds[id].started_at, now))
    } else {
        None
    }
}

/// Which waiting cuts an operation is about.
enum Selection<'a> {
    All,
    Round { round: u64 },
    Marked { round: u64 },
    Awaiting { owner: CacheOwner },
    Voided { owner: CacheOwner, hashes: &'a HashSet<u64>, clear: bool },
}

impl<'a> Selection<'a> {
    spec fn picks(self, cut: CutView) -> bool {
        match self {
            Selection::All => true,
            Selection::Round { round } => cut.round == round,
            Selection::Marked { round } => cut.round == round && cut.unmarked_owners == Set::<
                CacheOwner,
            >::empty(),
            Selection::Awaiting { owner } => cut.unmarked_owners.contains(owner),
            Selection::Voided { owner, hashes, clear } => cut.unmarked_owners.contains(owner) && (
            clear || !cut.relevant_hashes.disjoint(hashes@)),
        }
    }

    fn picks_cut(&self, cut: &PendingCut) -> (picked: bool)
        requires
            cut.unmarked_owners.wf(),
        ensures
            picked == self.picks(cut@),
    {
        match self {
            Selection::All => true,
            Selection::Round { round } => cut.round == *round,
            Selection::Marked { round } => {
                let count = cut.unmarked_owners.len();
                proof {
                    if count == 0 {
                        cut.unmarked_owners@.dom().lemma_len0_is_empty();
                    }
                }
                cut.round == *round && count == 0
            },
            Selection::Awaiting { owner } => cut.unmarked_owners.contains_key(*owner),
            Selection::Voided { owner, hashes, clear } => cut.unmarked_owners.contains_key(*owner)
                && (*clear || intersects(&cut.relevant_hashes, hashes)),
        }
    }
}

/// The two sets have a common element.
fn intersects(a: &HashSet<u64>, b: &HashSet<u64>) -> (common: bool)
    ensures
        common == !a@.disjoint(b@),
{
    for x in it: a.iter()
        invariant
            it.seq().unref().to_set() == a@,
            forall|j: int| 0 <= j < it.index() ==> !b@.contains(*#[trigger] it.seq()[j]),
    {
        if b.contains(x) {
            proof {
                assert(it.seq().unref()[it.index()] == *x);
                assert(it.seq().unref().to_set().contains(*x));
            }
            return true;
        }
    }
    proof {
        let all = vstd::std_specs::hash::spec_hash_keys_iter(a).remaining();
        assert forall|x: u64| a@.contains(x) implies !b@.contains(x) by {
            assert(all.unref().to_set().contains(x));
            let j = choose|j: int| 0 <= j < all.unref().len() && all.unref()[j] == x;
            assert(*all[j] == x);
        }
    }
    false
}

proof fn lemma_join_inv(before: BarrierView, relevant_hashes: Set<u64>, now: u64)
    requires
        before.inv(),
        before.ids_available(),
        before.is_capable(),
        before.pending() < before.max_pending,
    ensures
        before.join(relevant_hashes, now).inv(),
{
    let after = before.join(relevant_hashes, now);
    let ticket = before.next_ticket;
    let id = after.open_round->0;
    assert(!before.cuts.contains_key(ticket));
    assert(after.cuts.dom() =~= before.cuts.dom().insert(ticket));
    assert forall|t: u64| #[trigger] after.cuts.contains_key(t) implies ({
        let cut = after.cuts[t];
        &&& t < after.next_ticket
        &&& after.rounds.contains_key(cut.round)
        &&& cut.unmarked_owners.subset_of(after.rounds[cut.round].owners.dom())
        &&& after.rounds[cut.round].controls_pending || cut.unmarked_owners != Set::<
            CacheOwner,
        >::empty()
    }) by {
        if t != ticket {
            assert(before.cuts.contains_key(t));
        }
    }
    assert forall|r: u64| #[trigger] after.rounds.contains_key(r) implies after.awaited(r)
        && after.rounds[r].cuts <= after.next_ticket by {
        if r == id {
            assert(after.cuts.contains_key(ticket));
        } else {
            assert(before.rounds.contains_key(r));
            let t = choose|t: u64| #[trigger]
                before.cuts.contains_key(t) && before.cuts[t].round == r;
            assert(after.cuts.contains_key(t));
        }
    }
    assert forall|t: u64| #[trigger] after.outcomes.contains_key(t) implies t < after.next_ticket
        && (after.outcomes[t] == BarrierOutcome::Pending <==> after.cuts.contains_key(t)) by {
        if t != ticket {
            assert(before.outcomes.contains_key(t));
        }
    }
}

/// What remains of a round after its settled cuts are resolved is consistent.
proof fn lemma_settled_inv(before: BarrierView, id: u64)
    requires
        before.cuts.dom().finite(),
        before.cuts.dom().len() <= before.max_pending,
        forall|ticket: u64| #[trigger]
            before.cuts.contains_key(ticket) ==> {
                let cut = before.cuts[ticket];
                &&& ticket < before.next_ticket
                &&& before.rounds.contains_key(cut.round)
                &&& cut.unmarked_owners.subset_of(before.rounds[cut.round].owners.dom())
                &&& cut.round != id ==> before.rounds[cut.round].controls_pending
                    || cut.unmarked_owners != Set::<CacheOwner>::empty()
            },
        forall|r: u64| #[trigger]
            before.rounds.contains_key(r) ==> before.awaited(r) && before.rounds[r].cuts
                <= before.next_ticket,
        forall|ticket: u64| #[trigger]
            before.outcomes.contains_key(ticket) ==> ticket < before.next_ticket && (
            before.outcomes[ticket] == BarrierOutcome::Pending <==> before.cuts.contains_key(
                ticket,
            )),
        match before.open_round {
            None => true,
            Some(r) => before.rounds.contains_key(r) && before.rounds[r].controls_pending,
        },
    ensures
        before.resolve(before.marked(id), BarrierOutcome::Exact).inv(),
{
    let tickets = before.marked(id);
    let after = before.resolve(tickets, BarrierOutcome::Exact);
    assert(after.cuts.dom() =~= before.cuts.dom().difference(tickets));
    vstd::set_lib::lemma_len_difference(before.cuts.dom(), tickets);
    assert forall|ticket: u64| #[trigger] after.cuts.contains_key(ticket) implies ({
        let cut = after.cuts[ticket];
        &&& ticket < after.next_ticket
        &&& after.rounds.contains_key(cut.round)
        &&& cut.unmarked_owners.subset_of(after.rounds[cut.round].owners.dom())
        &&& after.rounds[cut.round].controls_pending || cut.unmarked_owners != Set::<
            CacheOwner,
        >::empty()
    }) by {
        assert(before.cuts.contains_key(ticket));
        assert(!tickets.contains(ticket));
    }
    assert forall|r: u64| #[trigger] after.rounds.contains_key(r) implies after.awaited(r)
        && after.rounds[r].cuts <= after.next_ticket by {
        assert(before.rounds.contains_key(r));
        let t = choose|t: u64| #[trigger] after.cuts.contains_key(t) && after.cuts[t].round == r;
        assert(after.cuts.contains_key(t));
    }
    assert forall|ticket: u64| #[trigger] after.outcomes.contains_key(ticket) implies ticket
        < after.next_ticket && (after.outcomes[ticket] == BarrierOutcome::Pending
        <==> after.cuts.contains_key(ticket)) by {
        assert(before.outcomes.contains_key(ticket));
    }
    if let Some(r) = after.open_round {
        assert(before.rounds.contains_key(r));
    }
}

proof fn lemma_pass_marker(before: BarrierView, owner: CacheOwner, id: u64)
    requires
        before.inv(),
    ensures
        ({
            let passed = before.pass_marker(owner, id);
            &&& passed.cuts.dom() == before.cuts.dom()
            &&& forall|r: u64| #[trigger]
                passed.rounds.contains_key(r) ==> passed.awaited(r)
            &&& before.rounds.contains_key(id) && before.rounds[id].controls_pending
                ==> passed.inv()
        }),
{
    let passed = before.pass_marker(owner, id);
    assert(passed.cuts.dom() =~= before.cuts.dom());
    assert forall|r: u64| #[trigger] passed.rounds.contains_key(r) implies passed.awaited(r) by {
        assert(before.rounds.contains_key(r));
        let t = choose|t: u64| #[trigger] before.cuts.contains_key(t) && before.cuts[t].round == r;
        assert(passed.cuts.contains_key(t));
    }
    if before.rounds.contains_key(id) && before.rounds[id].controls_pending {
        assert forall|ticket: u64| #[trigger] passed.cuts.contains_key(ticket) implies ({
            let cut = passed.cuts[ticket];
            &&& ticket < passed.next_ticket
            &&& passed.rounds.contains_key(cut.round)
            &&& cut.unmarked_owners.subset_of(passed.rounds[cut.round].owners.dom())
            &&& passed.rounds[cut.round].controls_pending || cut.unmarked_owners != Set::<
                CacheOwner,
            >::empty()
        }) by {
            assert(before.cuts.contains_key(ticket));
        }
        assert forall|ticket: u64| #[trigger] passed.outcomes.contains_key(ticket) implies ticket
            < passed.next_ticket && (passed.outcomes[ticket] == BarrierOutcome::Pending
            <==> passed.cuts.contains_key(ticket)) by {
            assert(before.outcomes.contains_key(ticket));
        }
    }
}

proof fn lemma_marker_inv(before: BarrierView, owner: CacheOwner, id: u64)
    requires
        before.inv(),
    ensures
        before.marker(owner, id).inv(),
{
    if before.rounds.contains_key(id) && before.rounds[id].owners.contains_key(owner) {
        lemma_pass_marker(before, owner, id);
        let passed = before.pass_marker(owner, id);
        if !before.rounds[id].controls_pending {
            assert forall|ticket: u64| #[trigger] passed.cuts.contains_key(ticket) implies ({
                let cut = passed.cuts[ticket];
                &&& ticket < passed.next_ticket
                &&& passed.rounds.contains_key(cut.round)
                &&& cut.unmarked_owners.subset_of(passed.rounds[cut.round].owners.dom())
                &&& cut.round != id ==> passed.rounds[cut.round].controls_pending
                    || cut.unmarked_owners != Set::<CacheOwner>::empty()
            }) by {
                assert(before.cuts.contains_key(ticket));
            }
            assert forall|ticket: u64| #[trigger] passed.outcomes.contains_key(ticket) implies ticket
                < passed.next_ticket && (passed.outcomes[ticket] == BarrierOutcome::Pending
                <==> passed.cuts.contains_key(ticket)) by {
                assert(before.outcomes.contains_key(ticket));
            }
            lemma_settled_inv(passed, id);
        }
    }
}

proof fn lemma_controls_inv(before: BarrierView, id: u64)
    requires
        before.inv(),
        before.open_round != Some(id),
    ensures
        before.controls_succeeded(id).inv(),
{
    if before.rounds.contains_key(id) {
        let confirmed = BarrierView {
            rounds: before.rounds.insert(
                id,
                RoundView { controls_pending: false, ..before.rounds[id] },
            ),
            ..before
        };
        assert forall|r: u64| #[trigger] confirmed.rounds.contains_key(r) implies confirmed.awaited(
            r,
        ) by {
            assert(before.rounds.contains_key(r));
            let t = choose|t: u64| #[trigger]
                before.cuts.contains_key(t) && before.cuts[t].round == r;
            assert(confirmed.cuts.contains_key(t));
        }
        assert(confirmed.marked(id) =~= before.marked(id));
        lemma_settled_inv(confirmed, id);
    }
}

/// Resolving waiting cuts keeps the coordinator consistent.
proof fn lemma_resolve_inv(before: BarrierView, tickets: Set<u64>, outcome: BarrierOutcome)
    requires
        before.inv(),
        outcome != BarrierOutcome::Pending,
    ensures
        before.resolve(tickets, outcome).inv(),
{
    let after = before.resolve(tickets, outcome);
    assert(after.cuts.dom() =~= before.cuts.dom().difference(tickets));
    vstd::set_lib::lemma_len_difference(before.cuts.dom(), tickets);
    assert forall|ticket: u64| #[trigger] after.cuts.contains_key(ticket) implies ({
        let cut = after.cuts[ticket];
        &&& ticket < after.next_ticket
        &&& after.rounds.contains_key(cut.round)
        &&& cut.unmarked_owners.subset_of(after.rounds[cut.round].owners.dom())
        &&& after.rounds[cut.round].controls_pending || cut.unmarked_owners != Set::<
            CacheOwner,
        >::empty()
    }) by {
        assert(before.cuts.contains_key(ticket));
    }
    assert forall|id: u64| #[trigger] after.rounds.contains_key(id) implies after.awaited(id)
        && after.rounds[id].cuts <= after.next_ticket by {
        assert(before.rounds.contains_key(id));
        let left = BarrierView { cuts: before.cuts.remove_keys(tickets), ..before };
        let ticket = choose|ticket: u64| #[trigger]
            after.cuts.contains_key(ticket) && after.cuts[ticket].round == id;
        assert(after.cuts.contains_key(ticket));
    }
    assert forall|ticket: u64| #[trigger] after.outcomes.contains_key(ticket) implies ticket
        < after.next_ticket && (after.outcomes[ticket] == BarrierOutcome::Pending
        <==> after.cuts.contains_key(ticket)) by {
        assert(before.outcomes.contains_key(ticket));
    }
    if let Some(id) = after.open_round {
        assert(before.rounds.contains_key(id));
    }
}

} // verus!
