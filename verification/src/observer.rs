//! Evidence taken directly from an engine's raw events.

use vstd::prelude::*;

use crate::event::{cache_tier, medium_tier, EventMedium, RawKvEvent};
use crate::evidence::{CacheOwner, CacheTier};
use crate::ledger::CacheEvidenceLedger;
use crate::model::LedgerView;

verus! {

/// Keeps a ledger up to date with raw events, without any order or integrity
/// beyond the events themselves.
pub struct CacheEvidenceObserver {
    ledger: CacheEvidenceLedger,
}

impl LedgerView {
    /// Each block is announced under its own hash.
    pub open spec fn store_hashes(
        self,
        owner: CacheOwner,
        tier: CacheTier,
        group: u32,
        hashes: Seq<u64>,
    ) -> LedgerView
        decreases hashes.len(),
    {
        if hashes.len() == 0 {
            self
        } else {
            self.store_hashes(owner, tier, group, hashes.drop_last()).store_mapped(
                owner,
                tier,
                group,
                hashes.last(),
                hashes.last(),
            )
        }
    }

    /// The cache group of an event; one that names none counts as the first
    /// group and proves that telemetry is missing.
    pub open spec fn with_group(self, group_idx: Option<u32>) -> (LedgerView, u32) {
        match group_idx {
            Some(group) => (self, group),
            None => (self.mark_telemetry_incomplete(), 0),
        }
    }

    pub open spec fn observe(self, event: RawKvEvent, owner: CacheOwner) -> LedgerView {
        if !event.is_local() {
            self.mark_telemetry_incomplete()
        } else {
            match event {
                RawKvEvent::BlockStored { block_hashes, medium, group_idx, .. } =>
                    match medium_tier(medium) {
                        None => self.mark_telemetry_incomplete(),
                        Some(tier) => {
                            let (ledger, group) = self.with_group(group_idx);
                            ledger.store_hashes(owner, tier, group, block_hashes@)
                        },
                    },
                RawKvEvent::BlockRemoved { block_hashes, medium, group_idx, .. } =>
                    match medium_tier(medium) {
                        None => self.mark_telemetry_incomplete(),
                        Some(tier) => {
                            let (ledger, group) = self.with_group(group_idx);
                            ledger.remove_all(owner, tier, group, block_hashes@)
                        },
                    },
                RawKvEvent::AllBlocksCleared { medium, .. } => match medium {
                    EventMedium::Unspecified => self.clear(owner, None),
                    _ => match medium_tier(medium) {
                        Some(tier) => self.clear(owner, Some(tier)),
                        None => self.mark_telemetry_incomplete(),
                    },
                },
                RawKvEvent::Ignored => self,
            }
        }
    }
}

impl CacheEvidenceObserver {
    pub closed spec fn wf(&self) -> bool {
        self.ledger.wf()
    }

    pub closed spec fn state(&self) -> LedgerView {
        self.ledger@
    }

    pub fn new(history_capacity: usize) -> (observer: Self)
        requires
            history_capacity > 0,
        ensures
            observer.wf(),
            observer.state() == LedgerView::empty(history_capacity as nat),
    {
        CacheEvidenceObserver { ledger: CacheEvidenceLedger::new(history_capacity) }
    }

    /// The ledger, to query it or to declare what the observer cannot see.
    pub fn ledger(&mut self) -> (ledger: &mut CacheEvidenceLedger)
        requires
            old(self).wf(),
        ensures
            ledger.wf(),
            ledger@ == old(self).state(),
            final(self).state() == final(ledger)@,
            final(ledger).wf() ==> final(self).wf(),
    {
        &mut self.ledger
    }

    pub fn observe(&mut self, event: &RawKvEvent, owner: CacheOwner)
        requires
            old(self).wf(),
        ensures
            final(self).wf(),
            final(self).state() == old(self).state().observe(*event, owner),
    {
        if !event.local() {
            self.ledger.mark_physical_telemetry_incomplete();
            return;
        }
        match event {
            RawKvEvent::BlockStored { block_hashes, medium, group_idx, .. } => {
                match cache_tier(*medium) {
                    None => {
                        self.ledger.mark_physical_telemetry_incomplete();
                    },
                    Some(tier) => {
                        let group = self.group(*group_idx);
                        let ghost start = self.ledger@;
                        let mut i: usize = 0;
                        assert(block_hashes@.take(0) =~= Seq::<u64>::empty());
                        while i < block_hashes.len()
                            invariant
                                i <= block_hashes@.len(),
                                self.ledger.wf(),
                                self.ledger@ == start.store_hashes(
                                    owner,
                                    tier,
                                    group,
                                    block_hashes@.take(i as int),
                                ),
                            decreases block_hashes@.len() - i,
                        {
                            self.ledger.store(owner, tier, group, block_hashes[i]);
                            i = i + 1;
                            assert(block_hashes@.take(i as int).drop_last() =~= block_hashes@.take(
                                i - 1,
                            ));
                        }
                        assert(block_hashes@.take(i as int) =~= block_hashes@);
                    },
                }
            },
            RawKvEvent::BlockRemoved { block_hashes, medium, group_idx, .. } => {
                match cache_tier(*medium) {
                    None => {
                        self.ledger.mark_physical_telemetry_incomplete();
                    },
                    Some(tier) => {
                        let group = self.group(*group_idx);
                        let ghost start = self.ledger@;
                        let mut i: usize = 0;
                        assert(block_hashes@.take(0) =~= Seq::<u64>::empty());
                        while i < block_hashes.len()
                            invariant
                                i <= block_hashes@.len(),
                                self.ledger.wf(),
                                self.ledger@ == start.remove_all(
                                    owner,
                                    tier,
                                    group,
                                    block_hashes@.take(i as int),
                                ),
                            decreases block_hashes@.len() - i,
                        {
                            self.ledger.remove(owner, tier, group, block_hashes[i]);
                            i = i + 1;
                            assert(block_hashes@.take(i as int).drop_last() =~= block_hashes@.take(
                                i - 1,
                            ));
                        }
                        assert(block_hashes@.take(i as int) =~= block_hashes@);
                    },
                }
            },
            RawKvEvent::AllBlocksCleared { medium, .. } => {
                match *medium {
                    EventMedium::Unspecified => {
                        self.ledger.clear_owner(owner);
                    },
                    _ => match cache_tier(*medium) {
                        Some(tier) => {
                            self.ledger.clear_owner_tier(owner, tier);
                        },
                        None => {
                            self.ledger.mark_physical_telemetry_incomplete();
                        },
                    },
                }
            },
            RawKvEvent::Ignored => {},
        }
    }

    fn group(&mut self, group_idx: Option<u32>) -> (group: u32)
        requires
            old(self).wf(),
        ensures
            final(self).wf(),
            (final(self).state(), group) == old(self).state().with_group(group_idx),
    {
        match group_idx {
            Some(group) => group,
            None => {
                self.ledger.mark_physical_telemetry_incomplete();
                0
            },
        }
    }
}

} // verus!
