//! Route snapshots and request history.

use std::collections::HashSet;
use vstd::prelude::*;

use crate::barrier::{BarrierFailure, BarrierOutcome};
use crate::catalog::{
    all_supported, cache_group_hashes, collect_hashes, flat_hashes, hashes_any, hashes_catalog,
};
use crate::evidence::CacheOwner;
use crate::freshness::EvidenceFreshnessStatus;
use crate::metrics::EvidenceMetric;
use crate::prefix::{CacheGroupHashSequence, KnownPrefixLength};
use crate::route::{CacheEvidenceQuality, CacheLossRouteObservation, IncompleteReason};
use crate::subscription::CacheEvidenceSubscription;
use crate::subscription_model::SubscriptionView;

verus! {

broadcast use vstd::std_specs::hash::group_hash_axioms;

/// The smaller of two token counts.
pub open spec fn at_most(tokens: u64, limit: u64) -> u64 {
    if tokens <= limit {
        tokens
    } else {
        limit
    }
}

/// The last prompt token is always computed.
pub open spec fn max_hit_tokens(prompt_tokens: u64) -> u64 {
    if prompt_tokens == 0 {
        0
    } else {
        (prompt_tokens - 1) as u64
    }
}

/// An observation that attributes nothing.
pub open spec fn incomplete_route(prompt_tokens: u64, reason: IncompleteReason)
    -> CacheLossRouteObservation {
    CacheLossRouteObservation {
        prompt_tokens,
        reusable_prefix_tokens: None,
        physical_prefix_tokens: None,
        router_visible_prefix_tokens: None,
        selected_physical_prefix_tokens: None,
        group_hashes: None,
        quality: CacheEvidenceQuality::Incomplete,
        complete: false,
        incomplete_reason: Some(reason),
        barrier: None,
    }
}

/// An observation that attributes nothing but knows what was asked.
pub open spec fn hashed_route(
    prompt_tokens: u64,
    router_visible_prefix_tokens: u64,
    group_hashes: Vec<CacheGroupHashSequence>,
    reason: IncompleteReason,
) -> CacheLossRouteObservation {
    CacheLossRouteObservation {
        router_visible_prefix_tokens: Some(
            at_most(router_visible_prefix_tokens, max_hit_tokens(prompt_tokens)),
        ),
        group_hashes: Some(group_hashes),
        ..incomplete_route(prompt_tokens, reason)
    }
}

impl SubscriptionView {
    /// Why a route cannot even be hashed, if it cannot.
    pub open spec fn route_refusal(
        self,
        multimodal: bool,
        selected: CacheOwner,
        serving_incarnation: Option<u64>,
    ) -> Option<IncompleteReason> {
        if !(serving_incarnation is Some && self.barriers.serving_incarnations.contains_key(selected)
            && self.barriers.serving_incarnations[selected] == serving_incarnation->0) {
            Some(IncompleteReason::MembershipMismatch)
        } else if self.catalogs.dom() != self.barriers.owners.dom() {
            Some(IncompleteReason::CatalogMembershipMismatch)
        } else if !self.catalogs.contains_key(selected) {
            Some(IncompleteReason::MissingCacheGroupCatalog)
        } else if multimodal {
            Some(IncompleteReason::MultimodalNotSupported)
        } else if !all_supported(self.catalogs[selected]) {
            Some(IncompleteReason::UnsupportedCacheGroupShape)
        } else {
            None
        }
    }

    /// Why a hashed route attributes nothing, if it does not: the evidence is
    /// not fresh, belongs to another membership, or leaves a prefix open.
    pub open spec fn evidence_refusal(
        self,
        prompt_tokens: u64,
        groups: Seq<CacheGroupHashSequence>,
        selected: CacheOwner,
        now: u64,
    ) -> Option<IncompleteReason> {
        let limit = max_hit_tokens(prompt_tokens);
        match self.freshness.status(now) {
            EvidenceFreshnessStatus::Missing => Some(IncompleteReason::MissingWatermark),
            EvidenceFreshnessStatus::Stale => Some(IncompleteReason::StaleWatermark),
            EvidenceFreshnessStatus::BoundedFresh => if self.ledger.expected_owners != Some(
                self.barriers.owners.dom(),
            ) {
                Some(IncompleteReason::LedgerMembershipMismatch)
            } else if self.ledger.reusable_prefix(groups, limit) is Unknown
                || self.ledger.resident_prefix_anywhere(groups, limit) is Unknown
                || self.ledger.resident_prefix_on(groups, limit, selected) is Unknown {
                Some(IncompleteReason::IncompleteEvidence)
            } else {
                None
            },
        }
    }

    /// The state after a snapshot with complete evidence: a cut is requested
    /// that will prove or void it.
    pub open spec fn with_cut(self, groups: Seq<CacheGroupHashSequence>, now: u64)
        -> SubscriptionView {
        SubscriptionView {
            barriers: self.barriers.begin(flat_hashes(groups).to_set(), now),
            ..self
        }
    }

    /// What is counted when a cut is requested.
    pub open spec fn cut_events(self) -> Seq<EvidenceMetric> {
        if !self.barriers.is_capable() {
            seq![EvidenceMetric::BarrierIncomplete(BarrierFailure::MissingCapability)]
        } else if self.barriers.pending() >= self.barriers.max_pending {
            seq![EvidenceMetric::BarrierIncomplete(BarrierFailure::JournalOverflow)]
        } else {
            Seq::empty()
        }
    }

    /// The observation of a hashed route.
    pub open spec fn observed_route(
        self,
        prompt_tokens: u64,
        group_hashes: Vec<CacheGroupHashSequence>,
        selected: CacheOwner,
        router_visible_prefix_tokens: u64,
        now: u64,
    ) -> CacheLossRouteObservation {
        let limit = max_hit_tokens(prompt_tokens);
        let groups = group_hashes@;
        match self.evidence_refusal(prompt_tokens, groups, selected, now) {
            Some(IncompleteReason::LedgerMembershipMismatch) => incomplete_route(
                prompt_tokens,
                IncompleteReason::LedgerMembershipMismatch,
            ),
            Some(reason) => hashed_route(
                prompt_tokens,
                router_visible_prefix_tokens,
                group_hashes,
                reason,
            ),
            None => CacheLossRouteObservation {
                prompt_tokens,
                reusable_prefix_tokens: Some(self.ledger.reusable_prefix(groups, limit)->Known_0),
                physical_prefix_tokens: Some(
                    self.ledger.resident_prefix_anywhere(groups, limit)->Known_0,
                ),
                router_visible_prefix_tokens: Some(at_most(router_visible_prefix_tokens, limit)),
                selected_physical_prefix_tokens: Some(
                    self.ledger.resident_prefix_on(groups, limit, selected)->Known_0,
                ),
                group_hashes: Some(group_hashes),
                quality: CacheEvidenceQuality::BoundedPhysical,
                complete: true,
                incomplete_reason: None,
                barrier: Some(self.barriers.next_ticket),
            },
        }
    }
}

fn hash_set(hashes: &Vec<u64>) -> (set: HashSet<u64>)
    ensures
        set@ == hashes@.to_set(),
{
    let mut set: HashSet<u64> = HashSet::new();
    let mut i: usize = 0;
    while i < hashes.len()
        invariant
            i <= hashes@.len(),
            forall|h: u64| #[trigger]
                set@.contains(h) <==> exists|j: int| 0 <= j < i && #[trigger] hashes@[j] == h,
        decreases hashes@.len() - i,
    {
        set.insert(hashes[i]);
        i = i + 1;
    }
    assert(set@ =~= hashes@.to_set());
    set
}

impl CacheEvidenceSubscription {
    /// Identifiers for another route-time cut are left.
    pub fn ids_available(&self) -> (available: bool)
        ensures
            available == self@.barriers.ids_available(),
    {
        self.barriers.ids_available()
    }

    /// Observes a route whose request has been hashed. If the evidence is
    /// complete, a cut is requested; the returned id, if any, is that of a new
    /// round to dispatch.
    pub fn snapshot_groups(
        &mut self,
        prompt_tokens: u64,
        group_hashes: Vec<CacheGroupHashSequence>,
        selected: CacheOwner,
        router_visible_prefix_tokens: u64,
        now: u64,
        events: &mut Vec<EvidenceMetric>,
    ) -> (r: (CacheLossRouteObservation, Option<u64>))
        requires
            old(self).wf(),
            old(self)@.barriers.ids_available(),
        ensures
            final(self).wf(),
            r.0 == old(self)@.observed_route(
                prompt_tokens,
                group_hashes,
                selected,
                router_visible_prefix_tokens,
                now,
            ),
            ({
                let refused = old(self)@.evidence_refusal(
                    prompt_tokens,
                    group_hashes@,
                    selected,
                    now,
                ) is Some;
                if refused {
                    &&& final(self)@ == old(self)@
                    &&& r.1 is None
                    &&& final(events)@ == old(events)@
                } else {
                    &&& final(self)@ == old(self)@.with_cut(group_hashes@, now)
                    &&& r.1 == old(self)@.barriers.opens()
                    &&& final(events)@ == old(events)@ + old(self)@.cut_events()
                }
            }),
    {
        let limit: u64 = prompt_tokens.saturating_sub(1);
        let visible: u64 = if router_visible_prefix_tokens <= limit {
            router_visible_prefix_tokens
        } else {
            limit
        };
        let stale: Option<IncompleteReason> = match self.freshness.status(now).0 {
            EvidenceFreshnessStatus::BoundedFresh => None,
            EvidenceFreshnessStatus::Missing => Some(IncompleteReason::MissingWatermark),
            EvidenceFreshnessStatus::Stale => Some(IncompleteReason::StaleWatermark),
        };
        if let Some(reason) = stale {
            let mut route = CacheLossRouteObservation::incomplete(prompt_tokens, reason);
            route.router_visible_prefix_tokens = Some(visible);
            route.group_hashes = Some(group_hashes);
            return (route, None);
        }
        let owners = self.barriers.owners();
        if !self.ledger.expected_owners_match(owners.as_slice()) {
            return (
                CacheLossRouteObservation::incomplete(
                    prompt_tokens,
                    IncompleteReason::LedgerMembershipMismatch,
                ),
                None,
            );
        }
        let reusable = self.ledger.reusable_prefix(group_hashes.as_slice(), limit);
        let physical = self.ledger.resident_prefix_anywhere(group_hashes.as_slice(), limit);
        let on_selected = self.ledger.resident_prefix_on(group_hashes.as_slice(), limit, selected);
        match (reusable, physical, on_selected) {
            (
                KnownPrefixLength::Known(reusable),
                KnownPrefixLength::Known(physical),
                KnownPrefixLength::Known(on_selected),
            ) => {
                let hashes = collect_hashes(&group_hashes);
                let relevant = hash_set(&hashes);
                let ghost start = events@;
                let (ticket, command) = self.barriers.begin(relevant, now);
                match self.barriers.outcome(ticket) {
                    Some(BarrierOutcome::Incomplete(failure)) => {
                        events.push(EvidenceMetric::BarrierIncomplete(failure));
                    },
                    _ => {},
                }
                assert(events@ =~= start + old(self)@.cut_events());
                (
                    CacheLossRouteObservation {
                        prompt_tokens,
                        reusable_prefix_tokens: Some(reusable),
                        physical_prefix_tokens: Some(physical),
                        router_visible_prefix_tokens: Some(visible),
                        selected_physical_prefix_tokens: Some(on_selected),
                        group_hashes: Some(group_hashes),
                        quality: CacheEvidenceQuality::BoundedPhysical,
                        complete: true,
                        incomplete_reason: None,
                        barrier: Some(ticket),
                    },
                    command,
                )
            },
            _ => {
                let mut route = CacheLossRouteObservation::incomplete(
                    prompt_tokens,
                    IncompleteReason::IncompleteEvidence,
                );
                route.router_visible_prefix_tokens = Some(visible);
                route.group_hashes = Some(group_hashes);
                (route, None)
            },
        }
    }

    /// Observes the reusable prefix of a request at the moment it is routed.
    /// `hash_tokens` gives the request's rolling hashes for a block size, with
    /// or without speculative decoding.
    #[allow(clippy::too_many_arguments)]
    pub fn snapshot_route<F: Fn(u32, bool) -> Vec<u64>>(
        &mut self,
        prompt_tokens: u64,
        multimodal: bool,
        selected: CacheOwner,
        selected_serving_incarnation: Option<u64>,
        router_visible_prefix_tokens: u64,
        now: u64,
        hash_tokens: F,
        events: &mut Vec<EvidenceMetric>,
    ) -> (r: (CacheLossRouteObservation, Option<u64>))
        requires
            old(self).wf(),
            old(self)@.barriers.ids_available(),
            hashes_any(hash_tokens),
        ensures
            final(self).wf(),
            match old(self)@.route_refusal(multimodal, selected, selected_serving_incarnation) {
                Some(reason) => {
                    &&& r.0 == incomplete_route(prompt_tokens, reason)
                    &&& r.1 is None
                    &&& final(self)@ == old(self)@
                    &&& final(events)@ == old(events)@
                },
                None => exists|group_hashes: Vec<CacheGroupHashSequence>|
                    {
                        &&& #[trigger] hashes_catalog(
                            hash_tokens,
                            old(self)@.catalogs[selected],
                            group_hashes@,
                        )
                        &&& r.0 == old(self)@.observed_route(
                            prompt_tokens,
                            group_hashes,
                            selected,
                            router_visible_prefix_tokens,
                            now,
                        )
                        &&& if old(self)@.evidence_refusal(
                            prompt_tokens,
                            group_hashes@,
                            selected,
                            now,
                        ) is Some {
                            &&& final(self)@ == old(self)@
                            &&& r.1 is None
                            &&& final(events)@ == old(events)@
                        } else {
                            &&& final(self)@ == old(self)@.with_cut(group_hashes@, now)
                            &&& r.1 == old(self)@.barriers.opens()
                            &&& final(events)@ == old(events)@ + old(self)@.cut_events()
                        }
                    },
            },
    {
        if !self.barriers.matches_selected_incarnation(selected, selected_serving_incarnation) {
            return (
                CacheLossRouteObservation::incomplete(
                    prompt_tokens,
                    IncompleteReason::MembershipMismatch,
                ),
                None,
            );
        }
        if !self.catalogs_match_barriers() {
            return (
                CacheLossRouteObservation::incomplete(
                    prompt_tokens,
                    IncompleteReason::CatalogMembershipMismatch,
                ),
                None,
            );
        }
        let group_hashes: Option<Vec<CacheGroupHashSequence>> = match self.catalogs.get(selected) {
            None => {
                return (
                    CacheLossRouteObservation::incomplete(
                        prompt_tokens,
                        IncompleteReason::MissingCacheGroupCatalog,
                    ),
                    None,
                );
            },
            Some(catalog) => {
                if multimodal {
                    return (
                        CacheLossRouteObservation::incomplete(
                            prompt_tokens,
                            IncompleteReason::MultimodalNotSupported,
                        ),
                        None,
                    );
                }
                cache_group_hashes(catalog, hash_tokens)
            },
        };
        match group_hashes {
            None => (
                CacheLossRouteObservation::incomplete(
                    prompt_tokens,
                    IncompleteReason::UnsupportedCacheGroupShape,
                ),
                None,
            ),
            Some(group_hashes) => {
                assert(hashes_catalog(hash_tokens, old(self)@.catalogs[selected], group_hashes@));
                self.snapshot_groups(
                    prompt_tokens,
                    group_hashes,
                    selected,
                    router_visible_prefix_tokens,
                    now,
                    events,
                )
            },
        }
    }

    /// Exactly the owners of route-time cuts have declared a catalog.
    fn catalogs_match_barriers(&self) -> (matches: bool)
        requires
            self.wf(),
        ensures
            matches == (self@.catalogs.dom() == self@.barriers.owners.dom()),
    {
        let declared = self.catalogs.owners();
        let expected = self.barriers.owners();
        proof {
            declared@.unique_seq_to_set();
            expected@.unique_seq_to_set();
        }
        let mut i: usize = 0;
        while i < expected.len()
            invariant
                i <= expected@.len(),
                self.wf(),
                declared@.to_set() == self@.catalogs.dom(),
                expected@.to_set() == self@.barriers.owners.dom(),
                forall|j: int| 0 <= j < i ==> self@.catalogs.contains_key(#[trigger] expected@[j]),
            decreases expected@.len() - i,
        {
            if self.catalogs.get(expected[i]).is_none() {
                proof {
                    assert(expected@.to_set().contains(expected@[i as int]));
                }
                return false;
            }
            i = i + 1;
        }
        proof {
            let catalogs = self@.catalogs.dom();
            let owners = self@.barriers.owners.dom();
            assert forall|o: CacheOwner| owners.contains(o) implies catalogs.contains(o) by {
                assert(expected@.to_set().contains(o));
                let j = choose|j: int| 0 <= j < expected@.len() && expected@[j] == o;
                assert(self@.catalogs.contains_key(expected@[j]));
            }
            if declared@.len() == expected@.len() {
                vstd::set_lib::lemma_subset_equality(owners, catalogs);
            }
        }
        declared.len() == expected.len()
    }

    pub fn history_epoch(&self) -> (epoch: u64)
        ensures
            epoch == self@.ledger.history_epoch,
    {
        self.ledger.history_epoch()
    }

    /// Adds hashed request tokens to the history of the given epoch.
    pub fn record_group_hashes(&mut self, history_epoch: u64, groups: &Vec<CacheGroupHashSequence>)
        -> (recorded: bool)
        requires
            old(self).wf(),
        ensures
            final(self).wf(),
            recorded == (old(self)@.ledger.history_epoch == history_epoch),
            final(self)@ == if recorded {
                (SubscriptionView {
                    ledger: old(self)@.ledger.see_all(flat_hashes(groups@)),
                    ..old(self)@
                })
            } else {
                old(self)@
            },
    {
        let hashes = collect_hashes(groups);
        self.ledger.record_seen_blocks_for_epoch(history_epoch, hashes.as_slice())
    }

    /// Adds the tokens of a completed request to the history of the epoch in
    /// which it was routed. Tokens that cannot be hashed leave the history
    /// incomplete.
    pub fn record_completed_token_history<F: Fn(u32, bool) -> Vec<u64>>(
        &mut self,
        owner: CacheOwner,
        history_epoch: u64,
        hash_tokens: F,
    ) -> (recorded: bool)
        requires
            old(self).wf(),
            hashes_any(hash_tokens),
        ensures
            final(self).wf(),
            recorded == (old(self)@.ledger.history_epoch == history_epoch
                && old(self)@.catalogs.contains_key(owner) && all_supported(
                old(self)@.catalogs[owner],
            )),
            if old(self)@.ledger.history_epoch != history_epoch {
                final(self)@ == old(self)@
            } else if !recorded {
                final(self)@ == (SubscriptionView {
                    ledger: old(self)@.ledger.mark_history_incomplete(),
                    ..old(self)@
                })
            } else {
                exists|groups: Seq<CacheGroupHashSequence>| #[trigger]
                    hashes_catalog(hash_tokens, old(self)@.catalogs[owner], groups)
                        && final(self)@ == (SubscriptionView {
                        ledger: old(self)@.ledger.see_all(flat_hashes(groups)),
                        ..old(self)@
                    })
            },
    {
        if self.ledger.history_epoch() != history_epoch {
            return false;
        }
        let groups: Option<Vec<CacheGroupHashSequence>> = match self.catalogs.get(owner) {
            None => None,
            Some(catalog) => cache_group_hashes(catalog, hash_tokens),
        };
        match groups {
            None => {
                self.ledger.mark_history_incomplete();
                false
            },
            Some(groups) => {
                assert(hashes_catalog(hash_tokens, old(self)@.catalogs[owner], groups@));
                self.record_group_hashes(history_epoch, &groups)
            },
        }
    }

    pub fn mark_history_incomplete(&mut self)
        requires
            old(self).wf(),
        ensures
            final(self).wf(),
            final(self)@ == (SubscriptionView {
                ledger: old(self)@.ledger.mark_history_incomplete(),
                ..old(self)@
            }),
    {
        self.ledger.mark_history_incomplete();
    }

    pub fn mark_history_incomplete_for_epoch(&mut self, epoch: u64) -> (marked: bool)
        requires
            old(self).wf(),
        ensures
            final(self).wf(),
            marked == (epoch == old(self)@.ledger.history_epoch),
            final(self)@ == if marked {
                (SubscriptionView {
                    ledger: old(self)@.ledger.mark_history_incomplete(),
                    ..old(self)@
                })
            } else {
                old(self)@
            },
    {
        self.ledger.mark_history_incomplete_for_epoch(epoch)
    }
}

} // verus!
