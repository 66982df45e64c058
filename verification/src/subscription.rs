//! A subscription to cache evidence: the state that all evidence flows into.

use vstd::prelude::*;

use crate::barrier::{BarrierCoordinator, BarrierFailure, BarrierView};
use crate::catalog::{
    catalog_is_valid, copy_catalog, group_indexes, normalize, shapes, CacheGroupObservation,
    GroupCatalogs,
};
use crate::cold_epoch::{ColdEpochCoordinator, ColdEpochFailure, ColdEpochOwnerFence, ColdEpochView};
use crate::evidence::{CacheEvidenceBatch, CacheEvidenceMutation, CacheOwner, CacheTier};
use crate::freshness::{EvidenceFreshness, FreshnessView};
use crate::ledger::CacheEvidenceLedger;
use crate::membership::{
    barrier_owners, cold_epoch_owners, expected_incarnations, fence_map, member_owners, owners_of,
    reconcile_history_membership, same_membership, MembershipView, SourceMember,
};
use crate::metrics::{mutation_label, BatchLabel, EvidenceMetric, MutationLabel};
use crate::model::LedgerView;
use crate::sequence::{
    observe_watermark, EvidenceSequenceObservation, EvidenceSequenceTracker,
    EvidenceWatermarkObservation, SequenceView,
};
use crate::subscription_model::{
    history_fences, is_unresolved, lemma_sync_frame, live_owners, Step, SubscriptionView,
};
use crate::table::Table;

verus! {

broadcast use vstd::std_specs::hash::group_hash_axioms;

/// All evidence about one routing domain.
pub struct CacheEvidenceSubscription {
    pub(crate) ledger: CacheEvidenceLedger,
    pub(crate) catalogs: GroupCatalogs,
    pub(crate) barriers: BarrierCoordinator,
    pub(crate) cold_epoch: ColdEpochCoordinator,
    pub(crate) freshness: EvidenceFreshness,
    pub(crate) sequences: EvidenceSequenceTracker,
    pub(crate) active: Table<CacheOwner, ()>,
    pub(crate) history_membership: Option<Vec<(CacheOwner, ColdEpochOwnerFence)>>,
    pub(crate) endpoint: Option<String>,
}

impl View for CacheEvidenceSubscription {
    type V = SubscriptionView;

    open(crate) spec fn view(&self) -> SubscriptionView {
        SubscriptionView {
            ledger: self.ledger@,
            catalogs: self.catalogs@,
            barriers: self.barriers@,
            cold_epoch: self.cold_epoch@,
            freshness: self.freshness@,
            sequences: self.sequences@,
            active: self.active@.dom(),
            history_membership: fence_map(self.history_membership),
            endpoint: match self.endpoint {
                None => None,
                Some(endpoint) => Some(endpoint@),
            },
        }
    }
}

impl CacheEvidenceSubscription {
    pub open(crate) spec fn wf(&self) -> bool {
        &&& self.ledger.wf()
        &&& self.catalogs.wf()
        &&& self.barriers.wf()
        &&& self.cold_epoch.wf()
        &&& self.freshness.wf()
        &&& self.sequences.wf()
        &&& self.active.wf()
    }

    /// The state and what was counted up to it.
    pub open spec fn at(&self, events: Seq<EvidenceMetric>) -> Step {
        Step { state: self@, events }
    }

    /// A subscription that has seen nothing yet. Watermarks count as fresh for
    /// `max_watermark_age` nanoseconds.
    pub fn new(history_capacity: usize, max_watermark_age: u64, max_pending_cuts: usize)
        -> (subscription: Self)
        requires
            history_capacity > 0,
        ensures
            subscription.wf(),
            subscription@ == (SubscriptionView {
                ledger: LedgerView::empty(history_capacity as nat),
                catalogs: Map::empty(),
                barriers: BarrierView::initial(
                    max_pending_cuts as nat,
                    subscription@.barriers.next_id,
                ),
                cold_epoch: ColdEpochView::initial(),
                freshness: FreshnessView::initial(max_watermark_age),
                sequences: SequenceView::initial(),
                active: Set::empty(),
                history_membership: None,
                endpoint: None,
            }),
    {
        let subscription = CacheEvidenceSubscription {
            ledger: CacheEvidenceLedger::new(history_capacity),
            catalogs: GroupCatalogs::new(),
            barriers: BarrierCoordinator::new(max_pending_cuts),
            cold_epoch: ColdEpochCoordinator::default(),
            freshness: EvidenceFreshness::new(max_watermark_age),
            sequences: EvidenceSequenceTracker::default(),
            active: Table::new(),
            history_membership: None,
            endpoint: None,
        };
        assert(subscription@.active =~= Set::<CacheOwner>::empty());
        subscription
    }

    pub fn ledger(&self) -> (ledger: &CacheEvidenceLedger)
        requires
            self.wf(),
        ensures
            ledger.wf(),
            ledger@ == self@.ledger,
    {
        &self.ledger
    }

    /// The route-time cuts, to dispatch them and to ask for their outcome.
    pub fn barriers(&mut self) -> (barriers: &mut BarrierCoordinator)
        requires
            old(self).wf(),
        ensures
            barriers.wf(),
            barriers@ == old(self)@.barriers,
            final(barriers).wf() ==> final(self).wf(),
            final(self)@ == (SubscriptionView { barriers: final(barriers)@, ..old(self)@ }),
    {
        &mut self.barriers
    }

    /// How fresh the evidence of all expected owners is.
    pub fn freshness(&self) -> (freshness: &EvidenceFreshness)
        requires
            self.wf(),
        ensures
            freshness.wf(),
            freshness@ == self@.freshness,
    {
        &self.freshness
    }

    /// The cold epoch that is under way, if any.
    pub fn cold_epoch(&self) -> (epoch: &ColdEpochCoordinator)
        requires
            self.wf(),
        ensures
            epoch.wf(),
            epoch@ == self@.cold_epoch,
    {
        &self.cold_epoch
    }

    // ---- catalogs ----

    fn catalog_changed(&mut self)
        requires
            old(self).wf(),
        ensures
            final(self).wf(),
            final(self)@ == old(self)@.catalog_changed(),
    {
        self.barriers.fail_all(BarrierFailure::CatalogChanged);
        self.cold_epoch.fail(ColdEpochFailure::CatalogChanged);
    }

    fn catalog_rejected(&mut self)
        requires
            old(self).wf(),
        ensures
            final(self).wf(),
            final(self)@ == old(self)@.catalog_rejected(),
    {
        self.catalog_changed();
        self.ledger.mark_physical_telemetry_incomplete();
    }

    /// Declares an owner's cache groups. A catalog that is not usable, or that
    /// differs from another owner's, is rejected.
    pub fn record_group_catalog(
        &mut self,
        owner: CacheOwner,
        groups: &[CacheGroupObservation],
        events: &mut Vec<EvidenceMetric>,
    ) -> (accepted: bool)
        requires
            old(self).wf(),
        ensures
            final(self).wf(),
            accepted == old(self)@.accepts_catalog(shapes(groups@)),
            final(self).at(final(events)@) == old(self).at(old(events)@).record_group_catalog(
                owner,
                shapes(groups@),
            ),
    {
        let ghost shape = shapes(groups@);
        if !catalog_is_valid(groups) {
            self.catalog_rejected();
            return false;
        }
        let sorted = normalize(groups);
        if !self.catalogs.all_declare(&sorted) {
            self.catalog_rejected();
            return false;
        }
        let declared = match self.catalogs.get(owner) {
            None => false,
            Some(existing) => crate::catalog::same_catalog(existing, &sorted),
        };
        let list = group_indexes(&sorted);
        self.catalogs.insert(owner, sorted);
        if !declared {
            self.catalog_changed();
            events.push(EvidenceMetric::BarrierIncomplete(BarrierFailure::CatalogChanged));
        }
        self.ledger.record_group_catalog(owner, CacheTier::Gpu, list.as_slice());
        self.ledger.record_group_catalog(owner, CacheTier::Cpu, list.as_slice());
        true
    }

    /// The declared cache groups of an owner.
    pub fn group_catalog(&self, owner: CacheOwner) -> (groups: Option<Vec<CacheGroupObservation>>)
        requires
            self.wf(),
        ensures
            match groups {
                Some(groups) => self@.catalogs.contains_key(owner) && self@.catalogs[owner]
                    == shapes(groups@),
                None => !self@.catalogs.contains_key(owner),
            },
    {
        match self.catalogs.get(owner) {
            None => None,
            Some(groups) => Some(copy_catalog(groups.as_slice())),
        }
    }

    fn sync_source(&mut self, source: &SourceMember, events: &mut Vec<EvidenceMetric>)
        requires
            old(self).wf(),
        ensures
            final(self).wf(),
            final(self).at(final(events)@) == old(self).at(old(events)@).sync_source(*source),
    {
        if !source.active {
            return;
        }
        let accepted = match &source.catalog {
            None => false,
            Some(groups) => self.record_group_catalog(source.owner, groups.as_slice(), events),
        };
        if !accepted {
            let ghost before = self@;
            if self.catalogs.remove(source.owner) {
                self.catalog_rejected();
            } else {
                assert(self.catalogs@ =~= before.catalogs);
            }
        }
    }

    /// Takes over what the live sources attest of their cache groups.
    pub fn sync_attested_group_catalogs(
        &mut self,
        view: &MembershipView,
        events: &mut Vec<EvidenceMetric>,
    )
        requires
            old(self).wf(),
        ensures
            final(self).wf(),
            final(self).at(final(events)@) == old(self).at(
                old(events)@,
            ).sync_attested_group_catalogs(view.sources@),
    {
        let sources = &view.sources;
        let mut live: Table<CacheOwner, ()> = Table::new();
        let mut i: usize = 0;
        while i < sources.len()
            invariant
                i <= sources@.len(),
                self.wf(),
                live.wf(),
                self.at(events@) == old(self).at(old(events)@).sync_sources(sources@, i as int),
                forall|o: CacheOwner| #[trigger]
                    live@.contains_key(o) <==> exists|j: int|
                        0 <= j < i && (#[trigger] sources@[j]).active && sources@[j].owner == o,
            decreases sources@.len() - i,
        {
            self.sync_source(&sources[i], events);
            if sources[i].active {
                live.insert(sources[i].owner, ());
            }
            i = i + 1;
        }
        self.catalogs.retain(&live);
        proof {
            assert(live@.dom() =~= live_owners(sources@));
        }
    }

    // ---- membership ----

    fn set_barrier_owners(&mut self, view: &MembershipView)
        requires
            old(self).wf(),
        ensures
            final(self).wf(),
            final(self)@ == old(self)@.set_barrier_owners(view.sources@),
    {
        let (owners, serving) = barrier_owners(view);
        self.barriers.set_owner_incarnations(owners.as_slice(), serving.as_slice());
    }

    /// Starts to take evidence for the current membership. Returns whether
    /// there is an endpoint to take it from, and what to count.
    pub fn begin_subscription(&mut self, view: &MembershipView) -> (r: (bool, Vec<EvidenceMetric>))
        requires
            old(self).wf(),
        ensures
            final(self).wf(),
            r.0 == (view.endpoint is Some),
            final(self).at(r.1@) == old(self)@.begin_subscription(*view),
    {
        let mut events: Vec<EvidenceMetric> = Vec::new();
        self.set_barrier_owners(view);
        let owners = owners_of(view);
        self.active = owner_table(&owners);
        self.history_membership = cold_epoch_owners(view);
        proof {
            assert(fence_map(self.history_membership) == history_fences(view.sources@));
            assert(events@ =~= Seq::<EvidenceMetric>::empty());
        }
        self.sync_attested_group_catalogs(view, &mut events);
        let expected = expected_incarnations(view);
        let _changed = self.freshness.set_expected(expected.as_slice());
        self.ledger.set_expected_owners(owners.as_slice());
        match &view.endpoint {
            None => {
                self.ledger.mark_physical_telemetry_incomplete();
                self.endpoint = None;
                (false, events)
            },
            Some(endpoint) => {
                self.endpoint = Some(endpoint.clone());
                (true, events)
            },
        }
    }

    /// Evidence cannot be taken at present.
    pub fn subscription_failed(&mut self)
        requires
            old(self).wf(),
        ensures
            final(self).wf(),
            final(self)@ == old(self)@.lose_telemetry(),
    {
        self.ledger.mark_physical_telemetry_incomplete();
    }

    /// The owners that published and left, or changed incarnation.
    fn list_reset(&self, owners: &Table<CacheOwner, ()>, restarted: &Vec<CacheOwner>) -> (reset: Vec<
        CacheOwner,
    >)
        requires
            self.wf(),
            owners.wf(),
        ensures
            reset@.to_set() == self@.sequences.owner_publishers.dom().difference(
                owners@.dom(),
            ).union(restarted@.to_set()),
    {
        let mut reset: Vec<CacheOwner> = Vec::new();
        let publishing = self.sequences.owners();
        let mut i: usize = 0;
        while i < publishing.len()
            invariant
                i <= publishing@.len(),
                owners.wf(),
                forall|o: CacheOwner| #[trigger]
                    reset@.contains(o) <==> !owners@.contains_key(o) && exists|j: int|
                        0 <= j < i && #[trigger] publishing@[j] == o,
            decreases publishing@.len() - i,
        {
            let ghost before = reset@;
            let owner = publishing[i];
            if !owners.contains_key(owner) {
                reset.push(owner);
                assert(reset@[before.len() as int] == owner);
            }
            proof {
                assert forall|o: CacheOwner| #[trigger]
                    reset@.contains(o) <==> !owners@.contains_key(o) && exists|j: int|
                        0 <= j < i + 1 && #[trigger] publishing@[j] == o by {
                    if before.contains(o) {
                        let n = choose|n: int| 0 <= n < before.len() && before[n] == o;
                        assert(reset@[n] == o);
                    }
                    if reset@.contains(o) && o != owner {
                        let n = choose|n: int| 0 <= n < reset@.len() && reset@[n] == o;
                        assert(before[n] == o);
                        assert(before.contains(o));
                    }
                    if reset@.contains(o) && o == owner {
                        if owners@.contains_key(o) {
                            assert(reset@ == before);
                        }
                        assert(publishing@[i as int] == o);
                    }
                    if exists|j: int| 0 <= j < i + 1 && #[trigger] publishing@[j] == o {
                        let j = choose|j: int| 0 <= j < i + 1 && #[trigger] publishing@[j] == o;
                        if j < i && !owners@.contains_key(o) {
                            assert(before.contains(o));
                        }
                    }
                }
            }
            i = i + 1;
        }
        let ghost gone = reset@;
        reset.extend_from_slice(restarted.as_slice());
        proof {
            assert(reset@ =~= gone + restarted@);
            let model = self@.sequences.owner_publishers.dom().difference(owners@.dom()).union(
                restarted@.to_set(),
            );
            assert forall|o: CacheOwner| reset@.to_set().contains(o) == model.contains(o) by {
                if reset@.contains(o) {
                    let n = choose|n: int| 0 <= n < reset@.len() && reset@[n] == o;
                    if n < gone.len() {
                        assert(gone[n] == o);
                        assert(gone.contains(o));
                        let j = choose|j: int| 0 <= j < i && #[trigger] publishing@[j] == o;
                        assert(publishing@.to_set().contains(publishing@[j]));
                    } else {
                        assert(restarted@[n - gone.len()] == o);
                    }
                }
                if self@.sequences.owner_publishers.dom().contains(o) && !owners@.dom().contains(
                    o,
                ) {
                    assert(publishing@.to_set().contains(o));
                    let j = choose|j: int| 0 <= j < publishing@.len() && publishing@[j] == o;
                    assert(publishing@[j] == o);
                    assert(gone.contains(o));
                    let n = choose|n: int| 0 <= n < gone.len() && gone[n] == o;
                    assert(reset@[n] == o);
                }
                if restarted@.contains(o) {
                    let n = choose|n: int| 0 <= n < restarted@.len() && restarted@[n] == o;
                    assert(reset@[gone.len() + n] == o);
                }
            }
            assert(reset@.to_set() =~= model);
        }
        reset
    }

    /// The membership has changed. Returns whether the subscription goes on,
    /// and what to count; if not, it has to be begun anew.
    pub fn membership_changed(&mut self, view: &MembershipView) -> (r: (bool, Vec<EvidenceMetric>))
        requires
            old(self).wf(),
        ensures
            final(self).wf(),
            r.0 == old(self)@.same_endpoint(*view),
            final(self).at(r.1@) == old(self)@.membership_changed(*view),
    {
        let mut events: Vec<EvidenceMetric> = Vec::new();
        let next_membership = cold_epoch_owners(view);
        proof {
            assert(fence_map(next_membership) == history_fences(view.sources@));
            assert(events@ =~= Seq::<EvidenceMetric>::empty());
        }
        if !same_membership(&self.history_membership, &next_membership) {
            self.cold_epoch.fail(ColdEpochFailure::MembershipChanged);
        }
        self.set_barrier_owners(view);
        let same_endpoint = match (&self.endpoint, &view.endpoint) {
            (Some(current), Some(next)) => *current == *next,
            _ => false,
        };
        if !same_endpoint {
            self.cold_epoch.fail(ColdEpochFailure::MembershipChanged);
            self.barriers.fail_all(BarrierFailure::MembershipChanged);
            self.ledger.mark_history_incomplete();
            return (false, events);
        }
        let owners = owners_of(view);
        let next_active = owner_table(&owners);
        let expected = expected_incarnations(view);
        let restarted = self.freshness.set_expected(expected.as_slice());
        let reset = self.list_reset(&next_active, &restarted);
        proof {
            assert(reset@.to_set() =~= old(self)@.reset_owners(*view));
        }
        let ghost set = reset@.to_set();
        self.forget_publishers(&reset);
        let ghost before_sync = self.at(events@);
        self.sync_attested_group_catalogs(view, &mut events);
        let ghost synced = self@;
        proof {
            lemma_sync_frame(before_sync, view.sources@, view.sources@.len() as int);
        }
        let _changed = reconcile_history_membership(
            &mut self.history_membership,
            next_membership,
            &mut self.ledger,
        );
        self.ledger.set_expected_owners(owners.as_slice());
        let ghost expecting = self.ledger@;
        let mut i: usize = 0;
        proof {
            assert(member_owners(view.sources@).to_set() == owners@.to_set());
            let reconciled = if old(self)@.fences_changed(*view) {
                synced.ledger.mark_history_incomplete()
            } else {
                synced.ledger
            };
            assert(expecting == reconciled.set_expected_owners(owners@.to_set()));
            lemma_retire_none(expecting);
            assert(reset@.take(0).to_set() =~= Set::<CacheOwner>::empty());
        }
        while i < reset.len()
            invariant
                i <= reset@.len(),
                self.wf(),
                self.ledger@ == expecting.retire_all(reset@.take(i as int).to_set()),
                self@ == (SubscriptionView {
                    ledger: self.ledger@,
                    history_membership: history_fences(view.sources@),
                    ..synced
                }),
                expecting.expected_owners is Some,
            decreases reset@.len() - i,
        {
            self.ledger.retire_owner(reset[i]);
            proof {
                let before = reset@.take(i as int).to_set();
                lemma_retire_one(expecting, before, reset@[i as int]);
                assert(reset@.take(i + 1) =~= reset@.take(i as int).push(reset@[i as int]));
                assert(reset@.take(i + 1).to_set() =~= before.insert(reset@[i as int])) by {
                    lemma_push_set(reset@.take(i as int), reset@[i as int]);
                }
            }
            i = i + 1;
        }
        self.active = next_active;
        proof {
            assert(reset@.take(i as int) =~= reset@);
        }
        (true, events)
    }

    /// Fences off the publishers of the listed owners and drops their catalogs.
    fn forget_publishers(&mut self, owners: &Vec<CacheOwner>)
        requires
            old(self).wf(),
        ensures
            final(self).wf(),
            final(self)@ == (SubscriptionView {
                sequences: old(self)@.sequences.retire_all(owners@.to_set()),
                catalogs: old(self)@.catalogs.remove_keys(owners@.to_set()),
                ..old(self)@
            }),
    {
        let ghost sequences = self@.sequences;
        let ghost catalogs = self@.catalogs;
        let mut i: usize = 0;
        proof {
            assert(owners@.take(0).to_set() =~= Set::<CacheOwner>::empty());
            assert(sequences =~= sequences.retire_all(owners@.take(0).to_set()));
            assert(catalogs =~= catalogs.remove_keys(owners@.take(0).to_set()));
        }
        while i < owners.len()
            invariant
                i <= owners@.len(),
                self.wf(),
                self.sequences@ == sequences.retire_all(owners@.take(i as int).to_set()),
                self.catalogs@ == catalogs.remove_keys(owners@.take(i as int).to_set()),
                self@ == (SubscriptionView {
                    sequences: self.sequences@,
                    catalogs: self.catalogs@,
                    ..old(self)@
                }),
            decreases owners@.len() - i,
        {
            let owner = owners[i];
            self.sequences.retire(owner);
            self.catalogs.remove(owner);
            proof {
                let before = owners@.take(i as int).to_set();
                assert(owners@.take(i + 1) =~= owners@.take(i as int).push(owner));
                lemma_push_set(owners@.take(i as int), owner);
                assert(owners@.take(i + 1).to_set() =~= before.insert(owner));
                assert(self.sequences@ =~= sequences.retire_all(before.insert(owner)));
                assert(self.catalogs@ =~= catalogs.remove_keys(before.insert(owner)));
            }
            i = i + 1;
        }
        assert(owners@.take(i as int) =~= owners@);
    }

    /// The stream of evidence has ended.
    pub fn subscriber_closed(&mut self)
        requires
            old(self).wf(),
        ensures
            final(self).wf(),
            final(self)@ == old(self)@.subscriber_closed(),
    {
        self.barriers.fail_all(BarrierFailure::SubscriberClosed);
        self.ledger.mark_physical_telemetry_incomplete();
        self.cold_epoch.fail(ColdEpochFailure::SubscriberClosed);
    }

    /// A batch could not be decoded.
    pub fn decode_error(&mut self) -> (events: Vec<EvidenceMetric>)
        requires
            old(self).wf(),
        ensures
            final(self).wf(),
            final(self).at(events@) == old(self)@.decode_error(),
    {
        self.ledger.mark_physical_telemetry_incomplete();
        self.barriers.fail_all(BarrierFailure::DecodeError);
        self.cold_epoch.fail(ColdEpochFailure::DecodeError);
        let mut events: Vec<EvidenceMetric> = Vec::new();
        events.push(EvidenceMetric::Batch(BatchLabel::DecodeError));
        assert(events@ =~= old(self)@.decode_error().events);
        events
    }

    // ---- batches ----

    fn void_cuts(
        &mut self,
        owner: CacheOwner,
        failure: BarrierFailure,
        events: &mut Vec<EvidenceMetric>,
    ) -> (voided: bool)
        requires
            old(self).wf(),
        ensures
            final(self).wf(),
            voided == (old(self)@.barriers.awaiting(owner).len() > 0),
            final(self).at(final(events)@) == old(self).at(old(events)@).void_cuts(owner, failure),
    {
        if self.barriers.fail_owner(owner, failure) > 0 {
            events.push(EvidenceMetric::BarrierIncomplete(failure));
            true
        } else {
            false
        }
    }

    fn on_heartbeat(&mut self, batch: &CacheEvidenceBatch, incarnation: u64, now: u64) -> (events:
        Vec<EvidenceMetric>)
        requires
            old(self).wf(),
        ensures
            final(self).wf(),
            final(self).at(events@) == old(self)@.on_heartbeat(*batch, incarnation, now),
    {
        let mut events: Vec<EvidenceMetric> = Vec::new();
        let ghost none = events@;
        assert(none =~= Seq::<EvidenceMetric>::empty());
        if batch.mutations.len() > 0 || !batch.telemetry_complete {
            self.ledger.mark_physical_telemetry_incomplete();
            self.barriers.fail_owner(batch.owner, BarrierFailure::InvalidWatermark);
            events.push(EvidenceMetric::Batch(BatchLabel::InvalidWatermark));
            return events;
        }
        match observe_watermark(
            self.sequences.last_cursor(incarnation),
            batch.watermark_source_cursor,
        ) {
            EvidenceWatermarkObservation::Current => {
                self.freshness.observe(batch.owner, incarnation, now);
                events.push(EvidenceMetric::Batch(BatchLabel::Watermark));
            },
            EvidenceWatermarkObservation::Stale => {
                events.push(EvidenceMetric::Batch(BatchLabel::StaleWatermark));
            },
            EvidenceWatermarkObservation::Ahead => {
                self.ledger.mark_physical_telemetry_incomplete();
                self.barriers.fail_owner(batch.owner, BarrierFailure::WatermarkAhead);
                events.push(EvidenceMetric::Batch(BatchLabel::WatermarkAhead));
            },
        }
        events
    }

    /// Places the batch in its publisher's sequence; false if it is stale.
    fn sequence(
        &mut self,
        batch: &CacheEvidenceBatch,
        incarnation: u64,
        events: &mut Vec<EvidenceMetric>,
    ) -> (admitted: bool)
        requires
            old(self).wf(),
            old(events)@.len() == 0,
        ensures
            final(self).wf(),
            admitted == (old(self)@.continuity(*batch, incarnation)
                != EvidenceSequenceObservation::Stale),
            final(self).at(final(events)@) == old(self)@.sequenced(*batch, incarnation),
    {
        proof {
            assert(events@ =~= Seq::<EvidenceMetric>::empty());
        }
        let owner = batch.owner;
        let baseline = self.cold_epoch.accepts_clear_baseline(batch);
        let observation = self.sequences.observe_with_initial_baseline(
            owner,
            incarnation,
            batch.source_cursor,
            baseline,
        );
        match observation {
            EvidenceSequenceObservation::Contiguous => true,
            EvidenceSequenceObservation::Gap => {
                self.ledger.mark_physical_telemetry_incomplete();
                self.cold_epoch.fail(ColdEpochFailure::Gap);
                self.void_cuts(owner, BarrierFailure::Gap, events);
                events.push(EvidenceMetric::Batch(BatchLabel::Gap));
                true
            },
            EvidenceSequenceObservation::Stale => {
                events.push(EvidenceMetric::Batch(BatchLabel::Stale));
                false
            },
            EvidenceSequenceObservation::PublisherRestart => {
                self.catalogs.remove(owner);
                self.cold_epoch.fail(ColdEpochFailure::Restart);
                self.ledger.mark_history_incomplete();
                self.void_cuts(owner, BarrierFailure::Restart, events);
                events.push(EvidenceMetric::Batch(BatchLabel::PublisherRestart));
                self.ledger.retire_owner(owner);
                if batch.source_cursor != 0 {
                    self.ledger.mark_physical_telemetry_incomplete();
                }
                true
            },
        }
    }

    fn on_epoch_batch(&mut self, batch: &CacheEvidenceBatch, events: &mut Vec<EvidenceMetric>)
        requires
            old(self).wf(),
        ensures
            final(self).wf(),
            final(self).at(final(events)@) == old(self).at(old(events)@).on_epoch_batch(*batch),
    {
        if batch.mutations.len() == 0 {
            self.cold_epoch.observe_marker(batch);
            events.push(EvidenceMetric::Batch(BatchLabel::ColdEpochMarker));
            return;
        }
        self.cold_epoch.observe_clear_batch(batch);
        self.barriers.fail_owner(batch.owner, BarrierFailure::Clear);
        if !self.ledger.apply_evidence_batch(batch) {
            self.cold_epoch.fail(ColdEpochFailure::ApplyIntegrityFailure);
        }
        events.push(EvidenceMetric::Batch(BatchLabel::ColdEpochClear));
    }

    fn on_barrier_batch(
        &mut self,
        batch: &CacheEvidenceBatch,
        barrier_id: u64,
        now: u64,
        events: &mut Vec<EvidenceMetric>,
    )
        requires
            old(self).wf(),
        ensures
            final(self).wf(),
            final(self).at(final(events)@) == old(self).at(old(events)@).on_barrier_batch(
                *batch,
                barrier_id,
                now,
            ),
    {
        if batch.mutations.len() > 0 || !batch.telemetry_complete {
            self.void_cuts(batch.owner, BarrierFailure::InvalidMarker, events);
            events.push(EvidenceMetric::Batch(BatchLabel::InvalidBarrier));
            return;
        }
        if let Some(rtt) = self.barriers.marker(batch.owner, barrier_id, now) {
            events.push(EvidenceMetric::BarrierRtt(rtt));
        }
        events.push(EvidenceMetric::Batch(BatchLabel::Barrier));
    }

    fn fence_mutation(
        &mut self,
        owner: CacheOwner,
        mutation: &CacheEvidenceMutation,
        events: &mut Vec<EvidenceMetric>,
    )
        requires
            old(self).wf(),
        ensures
            final(self).wf(),
            final(self).at(final(events)@) == old(self).at(old(events)@).fence_mutation(
                owner,
                *mutation,
            ),
    {
        self.cold_epoch.unexpected_mutation(owner);
        let hashes = self.ledger.affected_sequence_hashes(owner, mutation);
        let clear = match mutation {
            CacheEvidenceMutation::Clear { tier: None } => true,
            _ => false,
        };
        let named = match mutation {
            CacheEvidenceMutation::Store { blocks, .. } => blocks.len() > 0,
            CacheEvidenceMutation::Remove { block_hashes, .. } => block_hashes.len() > 0,
            CacheEvidenceMutation::Clear { .. } => false,
        };
        let unresolved = named && hashes.is_empty();
        proof {
            if hashes@.is_empty() {
                assert(hashes@ =~= Set::<u64>::empty());
            }
            assert(unresolved == is_unresolved(*mutation, hashes@));
        }
        if unresolved {
            self.ledger.mark_history_incomplete();
            self.cold_epoch.fail(ColdEpochFailure::UnresolvedMutation);
            self.void_cuts(owner, BarrierFailure::UnresolvedMutation, events);
        } else if self.barriers.mutation(owner, &hashes, clear) > 0 {
            let failure = if clear {
                BarrierFailure::Clear
            } else {
                BarrierFailure::RelevantMutation
            };
            events.push(EvidenceMetric::BarrierIncomplete(failure));
        }
    }

    fn apply(&mut self, batch: &CacheEvidenceBatch, events: &mut Vec<EvidenceMetric>)
        requires
            old(self).wf(),
        ensures
            final(self).wf(),
            final(self).at(final(events)@) == old(self).at(old(events)@).apply(*batch),
    {
        let result = self.ledger.apply_evidence_batch_with_diagnostics(batch);
        if result.is_complete() {
            return;
        }
        let failures = result.failures();
        let ghost start = events@;
        let ghost counted = Seq::new(
            failures@.len(),
            |i: int| EvidenceMetric::ApplyIntegrityFailure(failures@[i]),
        );
        let mut i: usize = 0;
        assert(events@ =~= start + counted.take(0));
        while i < failures.len()
            invariant
                i <= failures@.len(),
                counted == Seq::new(
                    failures@.len(),
                    |i: int| EvidenceMetric::ApplyIntegrityFailure(failures@[i]),
                ),
                events@ == start + counted.take(i as int),
            decreases failures@.len() - i,
        {
            events.push(EvidenceMetric::ApplyIntegrityFailure(failures[i]));
            i = i + 1;
            assert(events@ =~= start + counted.take(i as int));
        }
        assert(counted.take(i as int) =~= counted);
        if self.void_cuts(batch.owner, BarrierFailure::ApplyIntegrityFailure, events) {
            self.cold_epoch.fail(ColdEpochFailure::ApplyIntegrityFailure);
        }
    }

    fn on_mutation_batch(&mut self, batch: &CacheEvidenceBatch, events: &mut Vec<EvidenceMetric>)
        requires
            old(self).wf(),
        ensures
            final(self).wf(),
            final(self).at(final(events)@) == old(self).at(old(events)@).on_mutation_batch(*batch),
    {
        let owner = batch.owner;
        let mutations = &batch.mutations;
        if !batch.telemetry_complete && self.void_cuts(
            owner,
            BarrierFailure::IncompleteBatch,
            events,
        ) {
            self.cold_epoch.fail(ColdEpochFailure::IncompleteBatch);
        }
        let ghost screened = self.at(events@);
        let mut i: usize = 0;
        while i < mutations.len()
            invariant
                i <= mutations@.len(),
                self.wf(),
                self.at(events@) == screened.fence_mutations(owner, mutations@, i as int),
            decreases mutations@.len() - i,
        {
            self.fence_mutation(owner, &mutations[i], events);
            i = i + 1;
        }
        events.push(EvidenceMetric::Batch(BatchLabel::Applied));
        let ghost start = events@;
        let ghost labels = Seq::new(
            mutations@.len(),
            |i: int| EvidenceMetric::Mutation(mutation_label(mutations@[i])),
        );
        let mut n: usize = 0;
        assert(events@ =~= start + labels.take(0));
        while n < mutations.len()
            invariant
                n <= mutations@.len(),
                labels == Seq::new(
                    mutations@.len(),
                    |i: int| EvidenceMetric::Mutation(mutation_label(mutations@[i])),
                ),
                events@ == start + labels.take(n as int),
            decreases mutations@.len() - n,
        {
            events.push(EvidenceMetric::Mutation(MutationLabel::of(&mutations[n])));
            n = n + 1;
            assert(events@ =~= start + labels.take(n as int));
        }
        assert(labels.take(n as int) =~= labels);
        self.apply(batch, events);
    }

    /// Takes one evidence batch.
    pub fn on_batch(&mut self, batch: &CacheEvidenceBatch, now: u64) -> (events: Vec<EvidenceMetric>)
        requires
            old(self).wf(),
        ensures
            final(self).wf(),
            final(self).at(events@) == old(self)@.on_batch(*batch, now),
    {
        let mut events: Vec<EvidenceMetric> = Vec::new();
        let ghost none = events@;
        assert(none =~= Seq::<EvidenceMetric>::empty());
        if !self.active.contains_key(batch.owner) {
            assert(!self@.active.contains(batch.owner));
            events.push(EvidenceMetric::Batch(BatchLabel::InactiveOwner));
            return events;
        }
        assert(self@.active.contains(batch.owner));
        let incarnation: u64 = match batch.source_incarnation_id {
            None => {
                self.ledger.mark_physical_telemetry_incomplete();
                self.cold_epoch.fail(ColdEpochFailure::LegacyBatch);
                events.push(EvidenceMetric::Batch(BatchLabel::Legacy));
                return events;
            },
            Some(incarnation) => incarnation,
        };
        if !self.freshness.accepts(batch.owner, incarnation) {
            events.push(EvidenceMetric::Batch(BatchLabel::WrongIncarnation));
            return events;
        }
        if batch.heartbeat {
            return self.on_heartbeat(batch, incarnation, now);
        }
        if !self.sequence(batch, incarnation, &mut events) {
            return events;
        }
        if batch.epoch_id.is_some() {
            self.on_epoch_batch(batch, &mut events);
        } else {
            match batch.barrier_id {
                Some(barrier_id) => {
                    self.on_barrier_batch(batch, barrier_id, now, &mut events);
                },
                None => {
                    self.on_mutation_batch(batch, &mut events);
                },
            }
        }
        events
    }
}

/// The set of the listed owners.
fn owner_table(owners: &Vec<CacheOwner>) -> (set: Table<CacheOwner, ()>)
    ensures
        set.wf(),
        set@.dom() == owners@.to_set(),
{
    let mut set: Table<CacheOwner, ()> = Table::new();
    let mut i: usize = 0;
    while i < owners.len()
        invariant
            i <= owners@.len(),
            set.wf(),
            forall|o: CacheOwner| #[trigger]
                set@.dom().contains(o) <==> exists|j: int| 0 <= j < i && #[trigger] owners@[j] == o,
        decreases owners@.len() - i,
    {
        set.insert(owners[i], ());
        i = i + 1;
    }
    assert(set@.dom() =~= owners@.to_set());
    set
}

proof fn lemma_push_set(list: Seq<CacheOwner>, owner: CacheOwner)
    ensures
        list.push(owner).to_set() == list.to_set().insert(owner),
{
    let pushed = list.push(owner);
    assert forall|o: CacheOwner| pushed.to_set().contains(o) == list.to_set().insert(
        owner,
    ).contains(o) by {
        if pushed.contains(o) && o != owner {
            let i = choose|i: int| 0 <= i < pushed.len() && pushed[i] == o;
            assert(list[i] == o);
        }
        if list.contains(o) {
            let i = choose|i: int| 0 <= i < list.len() && list[i] == o;
            assert(pushed[i] == o);
        }
        assert(pushed[list.len() as int] == owner);
    }
    assert(pushed.to_set() =~= list.to_set().insert(owner));
}

/// Judging the scope again changes nothing.
proof fn lemma_retire_none(ledger: LedgerView)
    requires
        ledger == ledger.refresh_scope(),
    ensures
        ledger.retire_all(Set::empty()) == ledger,
{
    let after = ledger.retire_all(Set::empty());
    assert(after.copies =~= ledger.copies);
    assert(after.external_copies =~= ledger.external_copies);
    assert(after.required_groups =~= ledger.required_groups);
    assert(after =~= ledger);
}

proof fn lemma_retire_one(ledger: LedgerView, owners: Set<CacheOwner>, owner: CacheOwner)
    ensures
        ledger.retire_all(owners).retire_owner(owner) == ledger.retire_all(owners.insert(owner)),
{
    let left = ledger.retire_all(owners).retire_owner(owner);
    let right = ledger.retire_all(owners.insert(owner));
    assert(left.copies =~= right.copies);
    assert(left.external_copies =~= right.external_copies);
    assert(left.required_groups =~= right.required_groups);
    assert(left =~= right);
}

} // verus!
