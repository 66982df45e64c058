//! What a subscription to cache evidence does, as mathematics.

use vstd::prelude::*;

use crate::barrier::{completion, BarrierFailure, BarrierView};
use crate::catalog::{indexes, is_valid_catalog, normalized, shapes, CatalogGroup};
use crate::cold_epoch::{ColdEpochFailure, ColdEpochOwnerFence, ColdEpochView};
use crate::evidence::{
    ordered_failures, CacheEvidenceApplyIntegrityFailure, CacheEvidenceBatch,
    CacheEvidenceMutation, CacheOwner, CacheTier, OwnerTier, BlockCopy,
};
use crate::freshness::FreshnessView;
use crate::membership::{
    all_fenced, evidence_pairs, fence_pairs, incarnation_pairs, member_owners, serving_pairs,
    MembershipView, SourceMember,
};
use crate::metrics::{mutation_label, BatchLabel, EvidenceMetric};
use crate::model::{apply_batch, LedgerView};
use crate::owner_map::pairs_map;
use crate::sequence::{
    watermark_observation, EvidenceSequenceObservation, EvidenceWatermarkObservation,
    OwnerPublisher, SequenceView,
};

verus! {

#[verifier::ext_equal]
pub struct SubscriptionView {
    pub ledger: LedgerView,
    pub catalogs: Map<CacheOwner, Seq<CatalogGroup>>,
    pub barriers: BarrierView,
    pub cold_epoch: ColdEpochView,
    pub freshness: FreshnessView,
    pub sequences: SequenceView,
    /// The owners whose batches are taken.
    pub active: Set<CacheOwner>,
    pub history_membership: Option<Map<CacheOwner, ColdEpochOwnerFence>>,
    /// Where the evidence that is taken comes from.
    pub endpoint: Option<Seq<char>>,
}

/// A state and what was counted on the way to it.
#[verifier::ext_equal]
pub struct Step {
    pub state: SubscriptionView,
    pub events: Seq<EvidenceMetric>,
}

impl Step {
    pub open spec fn emit(self, event: EvidenceMetric) -> Step {
        Step { events: self.events.push(event), ..self }
    }

    pub open spec fn emit_if(self, condition: bool, event: EvidenceMetric) -> Step {
        if condition {
            self.emit(event)
        } else {
            self
        }
    }

    pub open spec fn received(self, label: BatchLabel) -> Step {
        self.emit(EvidenceMetric::Batch(label))
    }

    /// The cuts that wait for the owner are void, and that is counted if there
    /// are any.
    pub open spec fn void_cuts(self, owner: CacheOwner, failure: BarrierFailure) -> Step {
        Step {
            state: SubscriptionView {
                barriers: self.state.barriers.fail_owner(owner, failure),
                ..self.state
            },
            ..self
        }.emit_if(
            self.state.barriers.awaiting(owner).len() > 0,
            EvidenceMetric::BarrierIncomplete(failure),
        )
    }
}

// ---- catalogs ----

impl SubscriptionView {
    pub open spec fn step(self) -> Step {
        Step { state: self, events: Seq::empty() }
    }

    /// Cuts and epochs rest on a catalog that no longer holds.
    pub open spec fn catalog_changed(self) -> SubscriptionView {
        SubscriptionView {
            barriers: self.barriers.fail_all(BarrierFailure::CatalogChanged),
            cold_epoch: self.cold_epoch.fail(ColdEpochFailure::CatalogChanged),
            ..self
        }
    }

    pub open spec fn catalog_rejected(self) -> SubscriptionView {
        SubscriptionView {
            ledger: self.ledger.mark_telemetry_incomplete(),
            ..self.catalog_changed()
        }
    }

    /// The catalog is usable and agrees with that of every owner.
    pub open spec fn accepts_catalog(self, groups: Seq<CatalogGroup>) -> bool {
        is_valid_catalog(groups) && forall|owner: CacheOwner| #[trigger]
            self.catalogs.contains_key(owner) ==> self.catalogs[owner] == normalized(groups)
    }

    pub open spec fn declares(self, owner: CacheOwner, groups: Seq<CatalogGroup>) -> bool {
        self.catalogs.contains_key(owner) && self.catalogs[owner] == normalized(groups)
    }
}

impl Step {
    pub open spec fn record_group_catalog(self, owner: CacheOwner, groups: Seq<CatalogGroup>)
        -> Step {
        let state = self.state;
        if !state.accepts_catalog(groups) {
            Step { state: state.catalog_rejected(), ..self }
        } else {
            let news = !state.declares(owner, groups);
            let base = if news {
                state.catalog_changed()
            } else {
                state
            };
            let declared = indexes(normalized(groups));
            Step {
                state: SubscriptionView {
                    catalogs: state.catalogs.insert(owner, normalized(groups)),
                    ledger: state.ledger.record_group_catalog(
                        owner,
                        CacheTier::Gpu,
                        declared,
                    ).record_group_catalog(owner, CacheTier::Cpu, declared),
                    ..base
                },
                ..self
            }.emit_if(news, EvidenceMetric::BarrierIncomplete(BarrierFailure::CatalogChanged))
        }
    }

    /// What one source attests is recorded; what it no longer attests, or
    /// attests in vain, is withdrawn.
    pub open spec fn sync_source(self, source: SourceMember) -> Step {
        if !source.active {
            self
        } else {
            let accepted = source.catalog is Some && self.state.accepts_catalog(
                shapes(source.catalog->0@),
            );
            let recorded = match source.catalog {
                None => self,
                Some(groups) => self.record_group_catalog(source.owner, shapes(groups@)),
            };
            if !accepted && recorded.state.catalogs.contains_key(source.owner) {
                Step {
                    state: SubscriptionView {
                        catalogs: recorded.state.catalogs.remove(source.owner),
                        ..recorded.state
                    }.catalog_rejected(),
                    ..recorded
                }
            } else {
                recorded
            }
        }
    }

    pub open spec fn sync_sources(self, sources: Seq<SourceMember>, count: int) -> Step
        decreases count,
    {
        if count <= 0 {
            self
        } else {
            self.sync_sources(sources, count - 1).sync_source(sources[count - 1])
        }
    }

    pub open spec fn sync_attested_group_catalogs(self, sources: Seq<SourceMember>) -> Step {
        let synced = self.sync_sources(sources, sources.len() as int);
        Step {
            state: SubscriptionView {
                catalogs: synced.state.catalogs.restrict(live_owners(sources)),
                ..synced.state
            },
            ..synced
        }
    }
}

/// Catalogs concern neither membership nor the order of evidence.
pub proof fn lemma_sync_frame(step: Step, sources: Seq<SourceMember>, count: int)
    ensures
        ({
            let after = step.sync_sources(sources, count).state;
            &&& after.history_membership == step.state.history_membership
            &&& after.freshness == step.state.freshness
            &&& after.sequences == step.state.sequences
            &&& after.active == step.state.active
            &&& after.endpoint == step.state.endpoint
        }),
    decreases count,
{
    if count > 0 {
        lemma_sync_frame(step, sources, count - 1);
    }
}

/// The owners with a live source.
pub open spec fn live_owners(sources: Seq<SourceMember>) -> Set<CacheOwner> {
    Set::new(
        |owner: CacheOwner|
            exists|i: int|
                0 <= i < sources.len() && (#[trigger] sources[i]).active && sources[i].owner
                    == owner,
    )
}

// ---- membership ----

pub open spec fn history_fences(sources: Seq<SourceMember>) -> Option<
    Map<CacheOwner, ColdEpochOwnerFence>,
> {
    if all_fenced(sources) {
        Some(pairs_map(fence_pairs(sources)))
    } else {
        None
    }
}

pub open spec fn endpoint_of(view: MembershipView) -> Option<Seq<char>> {
    match view.endpoint {
        None => None,
        Some(endpoint) => Some(endpoint@),
    }
}

impl SequenceView {
    /// The publishers of all these owners are fenced off.
    pub open spec fn retire_all(self, owners: Set<CacheOwner>) -> SequenceView {
        SequenceView {
            owner_publishers: self.owner_publishers.remove_keys(owners),
            retired: Set::new(
                |key: OwnerPublisher|
                    self.retired.contains(key) || (owners.contains(key.owner)
                        && self.owner_publishers.contains_key(key.owner)
                        && self.owner_publishers[key.owner] == key.publisher_id),
            ),
            ..self
        }
    }
}

impl LedgerView {
    /// These owners have left with all their copies and declarations.
    pub open spec fn retire_all(self, owners: Set<CacheOwner>) -> LedgerView {
        let kept = |key: BlockCopy| !owners.contains(key.copy.owner);
        LedgerView {
            copies: self.copies.restrict(Set::new(kept)),
            external_copies: self.external_copies.restrict(Set::new(kept)),
            required_groups: self.required_groups.restrict(
                Set::new(|key: OwnerTier| !owners.contains(key.owner)),
            ),
            ..self
        }.refresh_scope()
    }
}

impl SubscriptionView {
    pub open spec fn set_barrier_owners(self, sources: Seq<SourceMember>) -> SubscriptionView {
        SubscriptionView {
            barriers: self.barriers.set_owner_incarnations(
                pairs_map(evidence_pairs(sources)),
                pairs_map(serving_pairs(sources)),
            ),
            ..self
        }
    }

    /// A subscription starts with the membership as it is. Without a resolved
    /// endpoint there is no evidence to take.
    pub open spec fn begin_subscription(self, view: MembershipView) -> Step {
        let sources = view.sources@;
        let owners = member_owners(sources).to_set();
        let synced = SubscriptionView {
            active: owners,
            history_membership: history_fences(sources),
            ..self.set_barrier_owners(sources)
        }.step().sync_attested_group_catalogs(sources);
        let expecting = synced.state.ledger.set_expected_owners(owners);
        Step {
            state: SubscriptionView {
                freshness: synced.state.freshness.set_expected(
                    pairs_map(incarnation_pairs(sources)),
                ),
                ledger: if view.endpoint is None {
                    expecting.mark_telemetry_incomplete()
                } else {
                    expecting
                },
                endpoint: endpoint_of(view),
                ..synced.state
            },
            ..synced
        }
    }

    /// Owners that published and left, or changed incarnation.
    pub open spec fn reset_owners(self, view: MembershipView) -> Set<CacheOwner> {
        let expected = pairs_map(incarnation_pairs(view.sources@));
        self.sequences.owner_publishers.dom().difference(
            member_owners(view.sources@).to_set(),
        ).union(self.freshness.changed(expected))
    }

    pub open spec fn fences_changed(self, view: MembershipView) -> bool {
        self.history_membership != history_fences(view.sources@)
    }

    /// The subscription goes on only at the same endpoint.
    pub open spec fn same_endpoint(self, view: MembershipView) -> bool {
        view.endpoint is Some && self.endpoint == endpoint_of(view)
    }

    pub open spec fn membership_changed(self, view: MembershipView) -> Step {
        let sources = view.sources@;
        let owners = member_owners(sources).to_set();
        let fenced = SubscriptionView {
            cold_epoch: if self.fences_changed(view) {
                self.cold_epoch.fail(ColdEpochFailure::MembershipChanged)
            } else {
                self.cold_epoch
            },
            ..self.set_barrier_owners(sources)
        };
        if !self.same_endpoint(view) {
            SubscriptionView {
                cold_epoch: fenced.cold_epoch.fail(ColdEpochFailure::MembershipChanged),
                barriers: fenced.barriers.fail_all(BarrierFailure::MembershipChanged),
                ledger: fenced.ledger.mark_history_incomplete(),
                ..fenced
            }.step()
        } else {
            let reset = self.reset_owners(view);
            let synced = SubscriptionView {
                freshness: fenced.freshness.set_expected(pairs_map(incarnation_pairs(sources))),
                sequences: fenced.sequences.retire_all(reset),
                catalogs: fenced.catalogs.remove_keys(reset),
                ..fenced
            }.step().sync_attested_group_catalogs(sources);
            let reconciled = if self.fences_changed(view) {
                synced.state.ledger.mark_history_incomplete()
            } else {
                synced.state.ledger
            };
            Step {
                state: SubscriptionView {
                    ledger: reconciled.set_expected_owners(owners).retire_all(reset),
                    history_membership: history_fences(sources),
                    active: owners,
                    ..synced.state
                },
                ..synced
            }
        }
    }

    /// The stream of evidence has ended.
    pub open spec fn subscriber_closed(self) -> SubscriptionView {
        SubscriptionView {
            barriers: self.barriers.fail_all(BarrierFailure::SubscriberClosed),
            ledger: self.ledger.mark_telemetry_incomplete(),
            cold_epoch: self.cold_epoch.fail(ColdEpochFailure::SubscriberClosed),
            ..self
        }
    }

    /// A batch was lost to a decoding error.
    pub open spec fn decode_error(self) -> Step {
        SubscriptionView {
            barriers: self.barriers.fail_all(BarrierFailure::DecodeError),
            ledger: self.ledger.mark_telemetry_incomplete(),
            cold_epoch: self.cold_epoch.fail(ColdEpochFailure::DecodeError),
            ..self
        }.step().received(BatchLabel::DecodeError)
    }
}

// ---- batches ----

impl SubscriptionView {
    pub open spec fn lose_telemetry(self) -> SubscriptionView {
        SubscriptionView { ledger: self.ledger.mark_telemetry_incomplete(), ..self }
    }

    pub open spec fn fail_epoch(self, failure: ColdEpochFailure) -> SubscriptionView {
        SubscriptionView { cold_epoch: self.cold_epoch.fail(failure), ..self }
    }

    /// The last cursor applied from a publisher.
    pub open spec fn last_cursor(self, publisher_id: u64) -> Option<u64> {
        if self.sequences.publishers.contains_key(publisher_id) {
            Some(self.sequences.publishers[publisher_id])
        } else {
            None
        }
    }

    pub open spec fn on_heartbeat(self, batch: CacheEvidenceBatch, incarnation: u64, now: u64)
        -> Step {
        if batch.mutations@.len() > 0 || !batch.telemetry_complete {
            SubscriptionView {
                barriers: self.barriers.fail_owner(batch.owner, BarrierFailure::InvalidWatermark),
                ..self.lose_telemetry()
            }.step().received(BatchLabel::InvalidWatermark)
        } else {
            match watermark_observation(
                self.last_cursor(incarnation),
                batch.watermark_source_cursor,
            ) {
                EvidenceWatermarkObservation::Current => SubscriptionView {
                    freshness: self.freshness.observe(batch.owner, incarnation, now),
                    ..self
                }.step().received(BatchLabel::Watermark),
                EvidenceWatermarkObservation::Stale => self.step().received(
                    BatchLabel::StaleWatermark,
                ),
                EvidenceWatermarkObservation::Ahead => SubscriptionView {
                    barriers: self.barriers.fail_owner(batch.owner, BarrierFailure::WatermarkAhead),
                    ..self.lose_telemetry()
                }.step().received(BatchLabel::WatermarkAhead),
            }
        }
    }

    /// How the batch continues its publisher's sequence.
    pub open spec fn continuity(self, batch: CacheEvidenceBatch, incarnation: u64)
        -> EvidenceSequenceObservation {
        self.sequences.observation(
            batch.owner,
            incarnation,
            batch.source_cursor,
            self.cold_epoch.accepts_clear_baseline(batch),
        )
    }

    /// The batch takes its place in the sequence; a gap or a new publisher
    /// costs what rested on the evidence before it.
    pub open spec fn sequenced(self, batch: CacheEvidenceBatch, incarnation: u64) -> Step {
        let owner = batch.owner;
        let noted = SubscriptionView {
            sequences: self.sequences.observe(
                owner,
                incarnation,
                batch.source_cursor,
                self.cold_epoch.accepts_clear_baseline(batch),
            ),
            ..self
        };
        match self.continuity(batch, incarnation) {
            EvidenceSequenceObservation::Contiguous => noted.step(),
            EvidenceSequenceObservation::Gap => noted.lose_telemetry().fail_epoch(
                ColdEpochFailure::Gap,
            ).step().void_cuts(owner, BarrierFailure::Gap).received(BatchLabel::Gap),
            EvidenceSequenceObservation::Stale => noted.step().received(BatchLabel::Stale),
            EvidenceSequenceObservation::PublisherRestart => {
                let retired = noted.ledger.mark_history_incomplete().retire_owner(owner);
                SubscriptionView {
                    catalogs: noted.catalogs.remove(owner),
                    ledger: if batch.source_cursor != 0 {
                        retired.mark_telemetry_incomplete()
                    } else {
                        retired
                    },
                    ..noted.fail_epoch(ColdEpochFailure::Restart)
                }.step().void_cuts(owner, BarrierFailure::Restart).received(
                    BatchLabel::PublisherRestart,
                )
            },
        }
    }
}

/// The mutation names blocks but none of them can be resolved.
pub open spec fn is_unresolved(mutation: CacheEvidenceMutation, hashes: Set<u64>) -> bool {
    hashes == Set::<u64>::empty() && match mutation {
        CacheEvidenceMutation::Store { blocks, .. } => blocks@.len() > 0,
        CacheEvidenceMutation::Remove { block_hashes, .. } => block_hashes@.len() > 0,
        CacheEvidenceMutation::Clear { .. } => false,
    }
}

pub open spec fn clears_owner(mutation: CacheEvidenceMutation) -> bool {
    mutation matches CacheEvidenceMutation::Clear { tier: None }
}

impl Step {
    pub open spec fn on_epoch_batch(self, batch: CacheEvidenceBatch) -> Step {
        let state = self.state;
        if batch.mutations@.len() == 0 {
            Step {
                state: SubscriptionView {
                    cold_epoch: state.cold_epoch.observe_marker(batch),
                    ..state
                },
                ..self
            }.received(BatchLabel::ColdEpochMarker)
        } else {
            let applied = apply_batch(
                state.ledger,
                batch.owner,
                batch.telemetry_complete,
                batch.mutations@,
            );
            let observed = state.cold_epoch.observe_clear_batch(batch);
            Step {
                state: SubscriptionView {
                    cold_epoch: if applied.failures == Set::<
                        CacheEvidenceApplyIntegrityFailure,
                    >::empty() {
                        observed
                    } else {
                        observed.fail(ColdEpochFailure::ApplyIntegrityFailure)
                    },
                    barriers: state.barriers.fail_owner(batch.owner, BarrierFailure::Clear),
                    ledger: applied.ledger,
                    ..state
                },
                ..self
            }.received(BatchLabel::ColdEpochClear)
        }
    }

    pub open spec fn on_barrier_batch(self, batch: CacheEvidenceBatch, id: u64, now: u64) -> Step {
        let state = self.state;
        if batch.mutations@.len() > 0 || !batch.telemetry_complete {
            self.void_cuts(batch.owner, BarrierFailure::InvalidMarker).received(
                BatchLabel::InvalidBarrier,
            )
        } else {
            let marked = state.barriers.marker(batch.owner, id);
            let rtt = completion(state.barriers, marked, id, now);
            Step { state: SubscriptionView { barriers: marked, ..state }, ..self }.emit_if(
                rtt is Some,
                EvidenceMetric::BarrierRtt(rtt->0),
            ).received(BatchLabel::Barrier)
        }
    }

    /// A mutation is about to be applied: the cuts that it concerns are void.
    pub open spec fn fence_mutation(self, owner: CacheOwner, mutation: CacheEvidenceMutation)
        -> Step {
        let cold_epoch = self.state.cold_epoch.unexpected_mutation(owner);
        let state = SubscriptionView { cold_epoch, ..self.state };
        let hashes = state.ledger.affected_sequence_hashes(owner, mutation);
        let clear = clears_owner(mutation);
        if is_unresolved(mutation, hashes) {
            Step {
                state: SubscriptionView {
                    ledger: state.ledger.mark_history_incomplete(),
                    ..state.fail_epoch(ColdEpochFailure::UnresolvedMutation)
                },
                ..self
            }.void_cuts(owner, BarrierFailure::UnresolvedMutation)
        } else {
            Step {
                state: SubscriptionView {
                    barriers: state.barriers.mutation(owner, hashes, clear),
                    ..state
                },
                ..self
            }.emit_if(
                state.barriers.voided(owner, hashes, clear).len() > 0,
                EvidenceMetric::BarrierIncomplete(
                    if clear {
                        BarrierFailure::Clear
                    } else {
                        BarrierFailure::RelevantMutation
                    },
                ),
            )
        }
    }

    pub open spec fn fence_mutations(
        self,
        owner: CacheOwner,
        mutations: Seq<CacheEvidenceMutation>,
        count: int,
    ) -> Step
        decreases count,
    {
        if count <= 0 {
            self
        } else {
            self.fence_mutations(owner, mutations, count - 1).fence_mutation(
                owner,
                mutations[count - 1],
            )
        }
    }

    pub open spec fn count_mutations(self, mutations: Seq<CacheEvidenceMutation>) -> Step {
        Step {
            events: self.events + Seq::new(
                mutations.len(),
                |i: int| EvidenceMetric::Mutation(mutation_label(mutations[i])),
            ),
            ..self
        }
    }

    pub open spec fn count_failures(self, failures: Set<CacheEvidenceApplyIntegrityFailure>)
        -> Step {
        let list = ordered_failures(failures);
        Step {
            events: self.events + Seq::new(
                list.len(),
                |i: int| EvidenceMetric::ApplyIntegrityFailure(list[i]),
            ),
            ..self
        }
    }

    /// The ledger takes the batch; what it cannot apply voids the owner's cuts.
    pub open spec fn apply(self, batch: CacheEvidenceBatch) -> Step {
        let owner = batch.owner;
        let applied = apply_batch(
            self.state.ledger,
            owner,
            batch.telemetry_complete,
            batch.mutations@,
        );
        let taken = Step {
            state: SubscriptionView { ledger: applied.ledger, ..self.state },
            ..self
        };
        if applied.failures == Set::<CacheEvidenceApplyIntegrityFailure>::empty() {
            taken
        } else {
            let counted = taken.count_failures(applied.failures);
            let voided = counted.void_cuts(owner, BarrierFailure::ApplyIntegrityFailure);
            if counted.state.barriers.awaiting(owner).len() > 0 {
                Step {
                    state: voided.state.fail_epoch(ColdEpochFailure::ApplyIntegrityFailure),
                    ..voided
                }
            } else {
                voided
            }
        }
    }

    pub open spec fn on_mutation_batch(self, batch: CacheEvidenceBatch) -> Step {
        let owner = batch.owner;
        let mutations = batch.mutations@;
        let screened = if batch.telemetry_complete {
            self
        } else {
            let voided = self.void_cuts(owner, BarrierFailure::IncompleteBatch);
            if self.state.barriers.awaiting(owner).len() > 0 {
                Step {
                    state: voided.state.fail_epoch(ColdEpochFailure::IncompleteBatch),
                    ..voided
                }
            } else {
                voided
            }
        };
        screened.fence_mutations(owner, mutations, mutations.len() as int).received(
            BatchLabel::Applied,
        ).count_mutations(mutations).apply(batch)
    }

    /// A batch that is in sequence.
    pub open spec fn on_admitted(self, batch: CacheEvidenceBatch, now: u64) -> Step {
        if batch.epoch_id is Some {
            self.on_epoch_batch(batch)
        } else {
            match batch.barrier_id {
                Some(id) => self.on_barrier_batch(batch, id, now),
                None => self.on_mutation_batch(batch),
            }
        }
    }
}

impl SubscriptionView {
    pub open spec fn on_batch(self, batch: CacheEvidenceBatch, now: u64) -> Step {
        if !self.active.contains(batch.owner) {
            self.step().received(BatchLabel::InactiveOwner)
        } else {
            match batch.source_incarnation_id {
                None => self.lose_telemetry().fail_epoch(
                    ColdEpochFailure::LegacyBatch,
                ).step().received(BatchLabel::Legacy),
                Some(incarnation) => if !self.freshness.accepts(batch.owner, incarnation) {
                    self.step().received(BatchLabel::WrongIncarnation)
                } else if batch.heartbeat {
                    self.on_heartbeat(batch, incarnation, now)
                } else if self.continuity(batch, incarnation)
                    == EvidenceSequenceObservation::Stale {
                    self.sequenced(batch, incarnation)
                } else {
                    self.sequenced(batch, incarnation).on_admitted(batch, now)
                },
            }
        }
    }
}

} // verus!
