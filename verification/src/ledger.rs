//! Bounded evidence ledger used to build the first two funnel gates.

use std::collections::{HashMap, HashSet, VecDeque};
use vstd::prelude::*;

use crate::announcements::{
    lemma_empty_is_backed, lemma_kept_is_backed, lemma_remove_is_backed, lemma_store_is_backed,
};
use crate::evidence::{
    BlockCopy, CacheEvidenceApplyIntegrityFailure, CacheEvidenceApplyResult, CacheEvidenceBatch,
    CacheEvidenceMutation, CacheEvidenceStats, CacheEvidenceStoredBlock, CacheGroupBlockQuery,
    CacheOwner, CacheTier, KnownBool, OwnerTier, PhysicalCopy,
};
use crate::model::{
    apply_batch, apply_mutations, apply_store_run, asks_for, bump, chain, covers, dependents,
    depends_on, drain, is_store, lacks_group, lemma_best_prefix_is_unique, lemma_unlock_len,
    positions, run_end, unlock, Applied, LedgerView, StoreMutationResult,
};
use crate::prefix::{computes, hybrid_prefix, CacheGroupHashSequence, KnownPrefixLength};
use crate::protocols::{compute_next_seq_hash, LocalBlockHash};
use crate::table::{lists_entries, Table};

verus! {

broadcast use vstd::std_specs::hash::group_hash_axioms;

/// Bounded evidence ledger.
///
/// History never evicts silently. Once its capacity is exhausted, absent
/// hashes become unknown while hashes already retained remain positive facts.
/// Physical copies are reference-counted because chunked offload events can
/// announce the same logical block more than once.
pub struct CacheEvidenceLedger {
    history_capacity: usize,
    seen_blocks: HashSet<u64>,
    history_saturated: bool,
    history_complete: bool,
    history_epoch: u64,
    copies: Table<BlockCopy, u32>,
    external_copies: Table<BlockCopy, (u64, u32)>,
    required_groups: Table<OwnerTier, Vec<u32>>,
    expected_owners: Option<Table<CacheOwner, ()>>,
    physical_scope_complete: bool,
    physical_telemetry_complete: bool,
}

impl View for CacheEvidenceLedger {
    type V = LedgerView;

    closed spec fn view(&self) -> LedgerView {
        LedgerView {
            history_capacity: self.history_capacity as nat,
            seen_blocks: self.seen_blocks@,
            history_saturated: self.history_saturated,
            history_complete: self.history_complete,
            history_epoch: self.history_epoch,
            copies: self.copies@,
            external_copies: self.external_copies@,
            required_groups: self.required_groups@.map_values(|groups: Vec<u32>| groups@.to_set()),
            expected_owners: match self.expected_owners {
                None => None,
                Some(owners) => Some(owners@.dom()),
            },
            physical_scope_complete: self.physical_scope_complete,
            physical_telemetry_complete: self.physical_telemetry_complete,
        }
    }
}

/// The set of the listed owners.
fn owner_set(owners: &[CacheOwner]) -> (set: Table<CacheOwner, ()>)
    ensures
        set.wf(),
        set@.dom() == owners@.to_set(),
{
    let mut set: Table<CacheOwner, ()> = Table::new();
    let mut i: usize = 0;
    while i < owners.len()
        invariant
            i <= owners@.len(),
            set.wf(),
            forall|o: CacheOwner| #[trigger]
                set@.dom().contains(o) <==> exists|j: int| 0 <= j < i && #[trigger] owners@[j] == o,
        decreases owners@.len() - i,
    {
        set.insert(owners[i], ());
        i = i + 1;
    }
    assert(set@.dom() =~= owners@.to_set());
    set
}

impl CacheEvidenceLedger {
    pub open spec fn wf(&self) -> bool {
        &&& self@.inv()
        &&& self.tabled()
    }

    /// The tables that hold the ledger are well-formed.
    pub closed spec fn tabled(&self) -> bool {
        &&& self.copies.wf()
        &&& self.external_copies.wf()
        &&& self.required_groups.wf()
        &&& match self.expected_owners {
            None => true,
            Some(owners) => owners.wf(),
        }
    }

    pub fn new(history_capacity: usize) -> (ledger: Self)
        requires
            history_capacity > 0,
        ensures
            ledger.wf(),
            ledger@ == LedgerView::empty(history_capacity as nat),
    {
        let ledger = CacheEvidenceLedger {
            history_capacity,
            seen_blocks: HashSet::new(),
            history_saturated: false,
            // A new router can reconstruct current residency, but not blocks
            // that warm workers saw and evicted before it subscribed. Absence
            // therefore remains unknown until a proven all-owner cold epoch.
            history_complete: false,
            history_epoch: 0,
            copies: Table::new(),
            external_copies: Table::new(),
            required_groups: Table::new(),
            expected_owners: None,
            physical_scope_complete: false,
            physical_telemetry_complete: true,
        };
        assert(ledger@ =~= LedgerView::empty(history_capacity as nat));
        proof {
            lemma_empty_is_backed();
        }
        ledger
    }

    fn record_seen_block(&mut self, hash: u64)
        requires
            old(self).wf(),
        ensures
            final(self).wf(),
            final(self)@ == old(self)@.see(hash),
    {
        if self.seen_blocks.contains(&hash) {
            return;
        }
        if self.seen_blocks.len() == self.history_capacity {
            self.history_saturated = true;
        } else {
            self.seen_blocks.insert(hash);
        }
        assert(self@ =~= old(self)@.see(hash));
    }

    /// Adds hashes to the history, in order. A hash that no longer fits is not
    /// retained and saturates the history.
    pub fn record_seen_blocks(&mut self, hashes: &[u64])
        requires
            old(self).wf(),
        ensures
            final(self).wf(),
            final(self)@ == old(self)@.see_all(hashes@),
    {
        let mut i: usize = 0;
        while i < hashes.len()
            invariant
                i <= hashes@.len(),
                self.wf(),
                self@ == old(self)@.see_all(hashes@.take(i as int)),
            decreases hashes@.len() - i,
        {
            self.record_seen_block(hashes[i]);
            i = i + 1;
            assert(hashes@.take(i as int).drop_last() =~= hashes@.take(i - 1));
        }
        assert(hashes@.take(i as int) =~= hashes@);
    }

    pub fn record_seen_blocks_for_epoch(&mut self, epoch: u64, hashes: &[u64]) -> (recorded: bool)
        requires
            old(self).wf(),
        ensures
            final(self).wf(),
            recorded == (epoch == old(self)@.history_epoch),
            final(self)@ == if recorded {
                old(self)@.see_all(hashes@)
            } else {
                old(self)@
            },
    {
        if epoch != self.history_epoch {
            return false;
        }
        self.record_seen_blocks(hashes);
        true
    }

    pub fn history_epoch(&self) -> (epoch: u64)
        ensures
            epoch == self@.history_epoch,
    {
        self.history_epoch
    }

    /// Starts a new, empty and complete history.
    pub fn advance_history_epoch(&mut self) -> (epoch: u64)
        requires
            old(self).wf(),
        ensures
            final(self).wf(),
            final(self)@ == old(self)@.advance_history_epoch(),
            epoch == final(self)@.history_epoch,
    {
        self.history_epoch = if self.history_epoch == u64::MAX {
            1
        } else {
            self.history_epoch + 1
        };
        self.seen_blocks.clear();
        self.history_saturated = false;
        self.history_complete = true;
        self.physical_telemetry_complete = true;
        assert(self@ =~= old(self)@.advance_history_epoch());
        self.history_epoch
    }

    /// Starts a new history if the owners are provably cold; otherwise the
    /// current history is marked incomplete.
    pub fn commit_cold_history_epoch(&mut self, owners: &[CacheOwner]) -> (epoch: Option<u64>)
        requires
            old(self).wf(),
        ensures
            final(self).wf(),
            final(self)@ == old(self)@.commit_cold_history_epoch(owners@.to_set()),
            epoch == if old(self)@.is_cold(owners@.to_set()) {
                Some(final(self)@.history_epoch)
            } else {
                None
            },
    {
        let set = owner_set(owners);
        let matches = self.expected_owners_match(owners);
        let ghost owned = |key: BlockCopy| set@.contains_key(key.copy.owner);
        let owns = |key: BlockCopy| -> (r: bool)
            requires
                set.wf(),
            ensures
                r == set@.contains_key(key.copy.owner),
            { set.contains_key(key.copy.owner) };
        let resident = self.copies.any(owns, Ghost(owned));
        let announced = self.external_copies.any(owns, Ghost(owned));
        proof {
            assert forall|o: CacheOwner| set@.contains_key(o) == owners@.to_set().contains(o) by {
                assert(set@.dom().contains(o) == owners@.to_set().contains(o));
            }
        }
        if !matches || !self.physical_scope_complete || resident || announced {
            self.mark_history_incomplete();
            return None;
        }
        Some(self.advance_history_epoch())
    }

    pub fn reusable(&self, hash: u64) -> (known: KnownBool)
        ensures
            known == self@.reusable(hash),
    {
        if self.seen_blocks.contains(&hash) {
            KnownBool::Yes
        } else if self.history_saturated || !self.history_complete {
            KnownBool::Unknown
        } else {
            KnownBool::No
        }
    }

    pub fn mark_history_incomplete(&mut self)
        requires
            old(self).wf(),
        ensures
            final(self).wf(),
            final(self)@ == old(self)@.mark_history_incomplete(),
    {
        self.history_complete = false;
        assert(self@ =~= old(self)@.mark_history_incomplete());
    }

    pub fn mark_history_incomplete_for_epoch(&mut self, epoch: u64) -> (marked: bool)
        requires
            old(self).wf(),
        ensures
            final(self).wf(),
            marked == (epoch == old(self)@.history_epoch),
            final(self)@ == if marked {
                old(self)@.mark_history_incomplete()
            } else {
                old(self)@
            },
    {
        if epoch != self.history_epoch {
            return false;
        }
        self.mark_history_incomplete();
        true
    }

    /// Declares the cache groups of one tier of an owner.
    pub fn record_group_catalog(&mut self, owner: CacheOwner, tier: CacheTier, groups: &[u32])
        requires
            old(self).wf(),
        ensures
            final(self).wf(),
            final(self)@ == old(self)@.record_group_catalog(owner, tier, groups@.to_set()),
    {
        let mut declared: Vec<u32> = Vec::new();
        declared.extend_from_slice(groups);
        assert(declared@ =~= groups@);
        self.required_groups.insert(OwnerTier { owner, tier }, declared);
        proof {
            assert(self@ =~= (LedgerView {
                required_groups: old(self)@.required_groups.insert(
                    OwnerTier { owner, tier },
                    groups@.to_set(),
                ),
                ..old(self)@
            }));
        }
        self.refresh_physical_scope();
    }

    /// Fixes the measured routing domain. Owners outside it that had declared
    /// a cache are retired.
    pub fn set_expected_owners(&mut self, owners: &[CacheOwner])
        requires
            old(self).wf(),
        ensures
            final(self).wf(),
            final(self)@ == old(self)@.set_expected_owners(owners@.to_set()),
    {
        let set = owner_set(owners);
        let ghost start = self@;
        let ghost kept = |key: BlockCopy|
            set@.contains_key(key.copy.owner) || !start.cataloged(key.copy.owner);
        {
            let groups = &self.required_groups;
            let keep = |key: BlockCopy| -> (r: bool)
                requires
                    groups.wf(),
                    set.wf(),
                ensures
                    r == (set@.contains_key(key.copy.owner) || !(groups@.contains_key(
                        OwnerTier { owner: key.copy.owner, tier: CacheTier::Gpu },
                    ) || groups@.contains_key(
                        OwnerTier { owner: key.copy.owner, tier: CacheTier::Cpu },
                    ))),
                {
                    set.contains_key(key.copy.owner) || !(groups.contains_key(
                        OwnerTier { owner: key.copy.owner, tier: CacheTier::Gpu },
                    ) || groups.contains_key(
                        OwnerTier { owner: key.copy.owner, tier: CacheTier::Cpu },
                    ))
                };
            proof {
                assert forall|key: BlockCopy, r: bool| #[trigger]
                    call_ensures(keep, (key,), r) implies r == kept(key) by {
                    lemma_cataloged(self, key.copy.owner);
                }
            }
            self.copies.retain(keep, Ghost(kept));
            self.external_copies.retain(keep, Ghost(kept));
        }
        let expected = |key: OwnerTier| -> (r: bool)
            requires
                set.wf(),
            ensures
                r == set@.contains_key(key.owner),
            { set.contains_key(key.owner) };
        let ghost declared = |key: OwnerTier| set@.contains_key(key.owner);
        self.required_groups.retain(expected, Ghost(declared));
        self.expected_owners = Some(set);
        proof {
            assert forall|o: CacheOwner| set@.contains_key(o) == owners@.to_set().contains(o) by {
                assert(set@.dom().contains(o) == owners@.to_set().contains(o));
            }
            let model = LedgerView {
                copies: start.copies.restrict(
                    Set::new(
                        |key: BlockCopy|
                            owners@.to_set().contains(key.copy.owner) || !start.cataloged(
                                key.copy.owner,
                            ),
                    ),
                ),
                external_copies: start.external_copies.restrict(
                    Set::new(
                        |key: BlockCopy|
                            owners@.to_set().contains(key.copy.owner) || !start.cataloged(
                                key.copy.owner,
                            ),
                    ),
                ),
                required_groups: start.required_groups.restrict(
                    Set::new(|key: OwnerTier| owners@.to_set().contains(key.owner)),
                ),
                expected_owners: Some(owners@.to_set()),
                ..start
            };
            assert(self@ =~= model);
            lemma_kept_is_backed(
                start.copies,
                start.external_copies,
                |key: BlockCopy|
                    owners@.to_set().contains(key.copy.owner) || !start.cataloged(key.copy.owner),
            );
        }
        self.refresh_physical_scope();
    }

    pub fn expected_owners_match(&self, owners: &[CacheOwner]) -> (matches: bool)
        requires
            self.wf(),
        ensures
            matches == (self@.expected_owners == Some(owners@.to_set())),
    {
        match &self.expected_owners {
            None => false,
            Some(expected) => {
                let set = owner_set(owners);
                let unexpected = |o: CacheOwner| -> (r: bool)
                    requires
                        expected.wf(),
                    ensures
                        r == !expected@.contains_key(o),
                    { !expected.contains_key(o) };
                let unlisted = |o: CacheOwner| -> (r: bool)
                    requires
                        set.wf(),
                    ensures
                        r == !set@.contains_key(o),
                    { !set.contains_key(o) };
                let ghost not_expected = |o: CacheOwner| !expected@.contains_key(o);
                let ghost not_listed = |o: CacheOwner| !set@.contains_key(o);
                let missing = set.any(unexpected, Ghost(not_expected));
                let extra = expected.any(unlisted, Ghost(not_listed));
                proof {
                    if !missing && !extra {
                        assert forall|o: CacheOwner| expected@.dom().contains(o)
                            == owners@.to_set().contains(o) by {
                            assert(set@.dom().contains(o) == owners@.to_set().contains(o));
                            assert(set@.contains_key(o) ==> expected@.contains_key(o));
                            assert(expected@.contains_key(o) ==> set@.contains_key(o));
                        }
                        assert(expected@.dom() =~= owners@.to_set());
                    } else if missing {
                        let o = choose|o: CacheOwner| #[trigger]
                            set@.contains_key(o) && !expected@.contains_key(o);
                        assert(set@.dom().contains(o) && !expected@.dom().contains(o));
                    } else {
                        let o = choose|o: CacheOwner| #[trigger]
                            expected@.contains_key(o) && !set@.contains_key(o);
                        assert(expected@.dom().contains(o) && !set@.dom().contains(o));
                    }
                }
                !missing && !extra
            },
        }
    }

    /// Declares that every cache owner/tier in the measured routing domain has
    /// supplied its group catalog. Before this point, negative residency is
    /// unknown rather than false.
    pub fn seal_physical_scope(&mut self)
        requires
            old(self).wf(),
        ensures
            final(self).wf(),
            final(self)@ == (LedgerView { physical_scope_complete: true, ..old(self)@ }),
    {
        self.physical_scope_complete = true;
        assert(self@ =~= (LedgerView { physical_scope_complete: true, ..old(self)@ }));
    }

    /// The ordered stream that carries residency also carries the stores that
    /// extend the history: once an event may be missing, absence is evidence
    /// of neither.
    pub fn mark_physical_telemetry_incomplete(&mut self)
        requires
            old(self).wf(),
        ensures
            final(self).wf(),
            final(self)@ == old(self)@.mark_telemetry_incomplete(),
    {
        self.physical_telemetry_complete = false;
        self.history_complete = false;
        assert(self@ =~= old(self)@.mark_telemetry_incomplete());
    }

    fn declares_groups(&self, owner: CacheOwner) -> (declares: bool)
        requires
            self.wf(),
        ensures
            declares == self@.declares_groups(owner),
    {
        let gpu = match self.required_groups.get(OwnerTier { owner, tier: CacheTier::Gpu }) {
            Some(groups) => groups.len() > 0,
            None => false,
        };
        let cpu = match self.required_groups.get(OwnerTier { owner, tier: CacheTier::Cpu }) {
            Some(groups) => groups.len() > 0,
            None => false,
        };
        proof {
            lemma_declares_groups(self, owner);
        }
        gpu || cpu
    }

    fn refresh_physical_scope(&mut self)
        requires
            old(self).wf(),
        ensures
            final(self).wf(),
            final(self)@ == old(self)@.refresh_scope(),
    {
        let complete: bool = match &self.expected_owners {
            None => {
                return;
            },
            Some(expected) => {
                let this: &CacheEvidenceLedger = &*self;
                let silent = |o: CacheOwner| -> (r: bool)
                    requires
                        this.wf(),
                    ensures
                        r == !this@.declares_groups(o),
                    { !this.declares_groups(o) };
                let ghost undeclared = |o: CacheOwner| !this@.declares_groups(o);
                let unknown = expected.any(silent, Ghost(undeclared));
                let count = expected.len();
                proof {
                    if count == 0 {
                        expected@.dom().lemma_len0_is_empty();
                    }
                    assert forall|o: CacheOwner| expected@.dom().contains(o)
                        == expected@.contains_key(o) by {}
                }
                count > 0 && !unknown
            },
        };
        self.physical_scope_complete = complete;
        assert(self@ =~= old(self)@.refresh_scope());
    }

    // ---- stores and removals ----

    pub fn store(&mut self, owner: CacheOwner, tier: CacheTier, group: u32, hash: u64)
        requires
            old(self).wf(),
        ensures
            final(self).wf(),
            final(self)@ == old(self)@.store_mapped(owner, tier, group, hash, hash),
    {
        self.store_mapped(owner, tier, group, hash, hash);
    }

    /// Announces one more copy of a block. An engine hash that already stands
    /// for another sequence hash is refused, and the telemetry is no longer
    /// complete.
    pub fn store_mapped(
        &mut self,
        owner: CacheOwner,
        tier: CacheTier,
        group: u32,
        external_hash: u64,
        sequence_hash: u64,
    )
        requires
            old(self).wf(),
        ensures
            final(self).wf(),
            final(self)@ == old(self)@.store_mapped(
                owner,
                tier,
                group,
                external_hash,
                sequence_hash,
            ),
    {
        self.try_store_mapped(owner, tier, group, external_hash, sequence_hash);
    }

    fn try_store_mapped(
        &mut self,
        owner: CacheOwner,
        tier: CacheTier,
        group: u32,
        external_hash: u64,
        sequence_hash: u64,
    ) -> (applied: bool)
        requires
            old(self).wf(),
        ensures
            final(self).wf(),
            final(self)@ == old(self)@.store_mapped(
                owner,
                tier,
                group,
                external_hash,
                sequence_hash,
            ),
            applied == !(old(self)@.mapped(owner, tier, group, external_hash) is Some
                && old(self)@.mapped(owner, tier, group, external_hash) != Some(sequence_hash)),
    {
        let copy = PhysicalCopy { owner, tier, group };
        let external_key = BlockCopy { hash: external_hash, copy };
        let key = BlockCopy { hash: sequence_hash, copy };
        let announced: u32 = match self.external_copies.get(external_key) {
            None => 0,
            Some(entry) => {
                if entry.0 != sequence_hash {
                    self.mark_physical_telemetry_incomplete();
                    return false;
                }
                entry.1
            },
        };
        self.external_copies.insert(external_key, (sequence_hash, announced.saturating_add(1)));
        let count: u32 = match self.copies.get(key) {
            None => 0,
            Some(count) => *count,
        };
        self.copies.insert(key, count.saturating_add(1));
        proof {
            assert(self@ =~= (LedgerView {
                external_copies: old(self)@.external_copies.insert(
                    external_key,
                    (sequence_hash, bump(announced)),
                ),
                copies: old(self)@.copies.insert(key, bump(count)),
                ..old(self)@
            }));
            lemma_store_is_backed(
                old(self)@.copies,
                old(self)@.external_copies,
                external_key,
                key,
                count,
                announced,
            );
        }
        // Stores also announce generated blocks as they become complete, so
        // they extend the history before any request carries those tokens.
        self.record_seen_block(sequence_hash);
        true
    }

    pub fn remove(&mut self, owner: CacheOwner, tier: CacheTier, group: u32, hash: u64)
        requires
            old(self).wf(),
        ensures
            final(self).wf(),
            final(self)@ == old(self)@.remove_external(owner, tier, group, hash),
    {
        self.remove_external(owner, tier, group, hash);
    }

    /// Withdraws one announcement of a block. A block that was never announced
    /// proves that telemetry is missing.
    pub fn remove_external(
        &mut self,
        owner: CacheOwner,
        tier: CacheTier,
        group: u32,
        external_hash: u64,
    )
        requires
            old(self).wf(),
        ensures
            final(self).wf(),
            final(self)@ == old(self)@.remove_external(owner, tier, group, external_hash),
    {
        let copy = PhysicalCopy { owner, tier, group };
        let external_key = BlockCopy { hash: external_hash, copy };
        let (sequence_hash, announced): (u64, u32) = match self.external_copies.get(external_key) {
            None => {
                self.mark_physical_telemetry_incomplete();
                return;
            },
            Some(entry) => (entry.0, entry.1),
        };
        proof {
            assert(old(self)@.external_copies.contains_key(external_key));
        }
        if announced == 1 {
            self.external_copies.remove(external_key);
        } else {
            self.external_copies.insert(external_key, (sequence_hash, announced - 1));
        }
        let key = BlockCopy { hash: sequence_hash, copy };
        proof {
            lemma_remove_is_backed(
                old(self)@.copies,
                old(self)@.external_copies,
                external_key,
                key,
            );
        }
        let count: u32 = match self.copies.get(key) {
            None => {
                self.mark_physical_telemetry_incomplete();
                assert(self@ =~= old(self)@.remove_external(owner, tier, group, external_hash));
                return;
            },
            Some(count) => *count,
        };
        proof {
            assert(old(self)@.copies.contains_key(key));
        }
        if count == 1 {
            self.copies.remove(key);
        } else {
            self.copies.insert(key, count - 1);
        }
        assert(self@ =~= old(self)@.remove_external(owner, tier, group, external_hash));
    }

    fn clear(&mut self, owner: CacheOwner, tier: Option<CacheTier>)
        requires
            old(self).wf(),
        ensures
            final(self).wf(),
            final(self)@ == old(self)@.clear(owner, tier),
    {
        let keep = |key: BlockCopy| -> (r: bool)
            ensures
                r == !covers(owner, tier, key.copy),
            {
                key.copy.owner != owner || match tier {
                    None => false,
                    Some(tier) => key.copy.tier != tier,
                }
            };
        let ghost kept = |key: BlockCopy| !covers(owner, tier, key.copy);
        self.copies.retain(keep, Ghost(kept));
        self.external_copies.retain(keep, Ghost(kept));
        proof {
            assert(self@ =~= old(self)@.clear(owner, tier));
            lemma_kept_is_backed(old(self)@.copies, old(self)@.external_copies, kept);
        }
    }

    pub fn clear_owner(&mut self, owner: CacheOwner)
        requires
            old(self).wf(),
        ensures
            final(self).wf(),
            final(self)@ == old(self)@.clear(owner, None),
    {
        self.clear(owner, None);
    }

    pub fn clear_owner_tier(&mut self, owner: CacheOwner, tier: CacheTier)
        requires
            old(self).wf(),
        ensures
            final(self).wf(),
            final(self)@ == old(self)@.clear(owner, Some(tier)),
    {
        self.clear(owner, Some(tier));
    }

    /// Removes all physical state and cache-shape declarations for a worker
    /// that has left the measured routing domain.
    pub fn retire_owner(&mut self, owner: CacheOwner)
        requires
            old(self).wf(),
        ensures
            final(self).wf(),
            final(self)@ == old(self)@.retire_owner(owner),
    {
        self.clear_owner(owner);
        let other = |key: OwnerTier| -> (r: bool)
            ensures
                r == (key.owner != owner),
            { key.owner != owner };
        let ghost others = |key: OwnerTier| key.owner != owner;
        self.required_groups.retain(other, Ghost(others));
        proof {
            assert(self@ =~= (LedgerView {
                required_groups: old(self)@.required_groups.restrict(
                    Set::new(|key: OwnerTier| key.owner != owner),
                ),
                ..old(self)@.clear(owner, None)
            }));
        }
        self.refresh_physical_scope();
    }

    fn mapped(&self, owner: CacheOwner, tier: CacheTier, group: u32, external_hash: u64) -> (hash:
        Option<u64>)
        requires
            self.wf(),
        ensures
            hash == self@.mapped(owner, tier, group, external_hash),
    {
        match self.external_copies.get(
            BlockCopy { hash: external_hash, copy: PhysicalCopy { owner, tier, group } },
        ) {
            None => None,
            Some(entry) => Some(entry.0),
        }
    }

    fn parent_sequence_hash(&self, owner: CacheOwner, group: u32, external_hash: u64) -> (hash:
        Option<u64>)
        requires
            self.wf(),
        ensures
            hash == self@.parent_sequence_hash(owner, group, external_hash),
    {
        let gpu = self.mapped(owner, CacheTier::Gpu, group, external_hash);
        let cpu = self.mapped(owner, CacheTier::Cpu, group, external_hash);
        match (gpu, cpu) {
            (None, other) => other,
            (Some(hash), None) => Some(hash),
            (Some(hash), Some(other)) => if hash == other {
                Some(hash)
            } else {
                None
            },
        }
    }

    fn apply_store_mutation(
        &mut self,
        owner: CacheOwner,
        tier: CacheTier,
        group_idx: Option<u32>,
        parent_external_hash: Option<u64>,
        blocks: &Vec<CacheEvidenceStoredBlock>,
    ) -> (result: StoreMutationResult)
        requires
            old(self).wf(),
        ensures
            final(self).wf(),
            (result, final(self)@) == old(self)@.store_mutation(
                owner,
                tier,
                group_idx,
                parent_external_hash,
                blocks@,
            ),
    {
        let group: u32 = match group_idx {
            None => {
                return StoreMutationResult::Invalid;
            },
            Some(group) => group,
        };
        let parent: Option<u64> = match parent_external_hash {
            None => None,
            Some(external_hash) => {
                let parent = self.parent_sequence_hash(owner, group, external_hash);
                if parent.is_none() {
                    return StoreMutationResult::MissingParent;
                }
                parent
            },
        };
        let hashes = chain_hashes(parent, blocks);
        let mut proposed: HashMap<u64, u64> = HashMap::new();
        let mut i: usize = 0;
        while i < blocks.len()
            invariant
                i <= blocks@.len(),
                self.wf(),
                self@ == old(self)@,
                group_idx == Some(group),
                parent == match parent_external_hash {
                    None => None,
                    Some(external_hash) => self@.parent_sequence_hash(owner, group, external_hash),
                },
                parent_external_hash is Some ==> parent is Some,
                hashes@ == chain(parent, blocks@),
                hashes@.len() == blocks@.len(),
                forall|j: int| 0 <= j < i ==> !#[trigger] self@.block_conflicts(
                    owner,
                    tier,
                    group,
                    blocks@,
                    hashes@,
                    j,
                ),
                forall|j: int| #![trigger blocks@[j]]
                    0 <= j < i ==> proposed@.contains_key(blocks@[j].external_hash)
                        && proposed@[blocks@[j].external_hash] == hashes@[j],
                forall|e: u64| #[trigger]
                    proposed@.contains_key(e) ==> exists|j: int|
                        0 <= j < i && (#[trigger] blocks@[j]).external_hash == e,
            decreases blocks@.len() - i,
        {
            let external_hash: u64 = blocks[i].external_hash;
            let hash: u64 = hashes[i];
            let refused = match self.mapped(owner, tier, group, external_hash) {
                None => false,
                Some(mapped) => mapped != hash,
            };
            let clashing = match proposed.insert(external_hash, hash) {
                None => false,
                Some(mapped) => mapped != hash,
            };
            if refused || clashing {
                proof {
                    assert(self@.block_conflicts(owner, tier, group, blocks@, hashes@, i as int));
                }
                return StoreMutationResult::RejectedMapping;
            }
            proof {
                assert(!self@.block_conflicts(owner, tier, group, blocks@, hashes@, i as int));
            }
            i = i + 1;
        }
        proof {
            assert(!self@.store_conflicts(owner, tier, group, blocks@, hashes@));
        }
        self.record_seen_blocks(hashes.as_slice());
        let ghost seen = self@;
        let mut n: usize = 0;
        while n < blocks.len()
            invariant
                n <= blocks@.len(),
                self.wf(),
                hashes@.len() == blocks@.len(),
                self@ == seen.store_each(owner, tier, group, blocks@, hashes@, n as int),
            decreases blocks@.len() - n,
        {
            self.try_store_mapped(owner, tier, group, blocks[n].external_hash, hashes[n]);
            n = n + 1;
        }
        StoreMutationResult::Applied
    }

    /// Applies a run of stores in dependency order: a store waits until the
    /// block it chains from is known.
    fn apply_store_run(
        &mut self,
        owner: CacheOwner,
        mutations: &Vec<CacheEvidenceMutation>,
        from: usize,
        end: usize,
        result: &mut CacheEvidenceApplyResult,
    )
        requires
            old(self).wf(),
            from <= end <= mutations@.len(),
            forall|i: int| from <= i < end ==> is_store(#[trigger] mutations@[i]),
        ensures
            final(self).wf(),
            (Applied { ledger: final(self)@, failures: final(result)@ }) == apply_store_run(
                Applied { ledger: old(self)@, failures: old(result)@ },
                owner,
                mutations@.subrange(from as int, end as int),
            ),
    {
        let ghost run = mutations@.subrange(from as int, end as int);
        let count: usize = end - from;
        let mut ready: VecDeque<usize> = VecDeque::new();
        let mut waiting: Vec<usize> = Vec::new();
        let mut lacking = false;
        let mut i: usize = 0;
        while i < count
            invariant
                i <= count,
                count == end - from,
                from <= end <= mutations@.len(),
                run == mutations@.subrange(from as int, end as int),
                self.wf(),
                self@ == old(self)@,
                result@ == old(result)@,
                ready@ == positions(self@, owner, run, true, i as int),
                waiting@ == positions(self@, owner, run, false, i as int),
                lacking == exists|j: int| 0 <= j < i && lacks_group(#[trigger] run[j]),
                forall|k: int| 0 <= k < ready@.len() ==> #[trigger] ready@[k] < count,
                forall|k: int| 0 <= k < waiting@.len() ==> #[trigger] waiting@[k] < count,
            decreases count - i,
        {
            assert(run[i as int] == mutations@[from + i]);
            match &mutations[from + i] {
                CacheEvidenceMutation::Store { group_idx, parent_external_hash, .. } => {
                    match *group_idx {
                        None => {
                            lacking = true;
                        },
                        Some(group) => {
                            let known = match *parent_external_hash {
                                None => true,
                                Some(parent) => self.parent_sequence_hash(
                                    owner,
                                    group,
                                    parent,
                                ).is_some(),
                            };
                            if known {
                                ready.push_back(i);
                            } else {
                                waiting.push(i);
                            }
                        },
                    }
                },
                _ => {},
            }
            i = i + 1;
        }
        let ghost ready0 = ready@;
        let ghost waiting0 = waiting@;
        assert(run.len() == count);
        if lacking {
            self.mark_physical_telemetry_incomplete();
            result.record(CacheEvidenceApplyIntegrityFailure::MissingGroup);
        }
        let ghost screened = Applied { ledger: self@, failures: result@ };
        let ghost goal = drain(screened, owner, run, ready@, waiting@);
        while ready.len() > 0
            invariant
                count == end - from,
                from <= end <= mutations@.len(),
                run == mutations@.subrange(from as int, end as int),
                self.wf(),
                goal == drain(
                    Applied { ledger: self@, failures: result@ },
                    owner,
                    run,
                    ready@,
                    waiting@,
                ),
                forall|k: int| 0 <= k < ready@.len() ==> #[trigger] ready@[k] < count,
                forall|k: int| 0 <= k < waiting@.len() ==> #[trigger] waiting@[k] < count,
            decreases ready@.len() + waiting@.len(),
        {
            let ghost queue = ready@;
            let ghost waited = waiting@;
            let ghost before = Applied { ledger: self@, failures: result@ };
            let at: usize = match ready.pop_front() {
                Some(at) => at,
                None => {
                    return;
                },
            };
            proof {
                assert(ready@ =~= queue.drop_first());
                assert(at == queue[0]);
                assert(run[at as int] == mutations@[from + at]);
            }
            match &mutations[from + at] {
                CacheEvidenceMutation::Store { tier, group_idx, parent_external_hash, blocks } => {
                    match *group_idx {
                        None => {},
                        Some(group) => {
                            let outcome = self.apply_store_mutation(
                                owner,
                                *tier,
                                Some(group),
                                *parent_external_hash,
                                blocks,
                            );
                            match outcome {
                                StoreMutationResult::Applied => {
                                    release_dependents(
                                        mutations,
                                        from,
                                        end,
                                        group,
                                        blocks,
                                        &mut ready,
                                        &mut waiting,
                                    );
                                    proof {
                                        lemma_unlock_len(
                                            run,
                                            group,
                                            blocks@,
                                            blocks@.len() as int,
                                            queue.drop_first(),
                                            waited,
                                        );
                                    }
                                },
                                StoreMutationResult::MissingParent => {
                                    self.mark_physical_telemetry_incomplete();
                                    result.record(
                                        CacheEvidenceApplyIntegrityFailure::MissingParent,
                                    );
                                },
                                StoreMutationResult::RejectedMapping => {
                                    self.mark_physical_telemetry_incomplete();
                                    result.record(
                                        CacheEvidenceApplyIntegrityFailure::ConflictingMapping,
                                    );
                                },
                                StoreMutationResult::Invalid => {
                                    self.mark_physical_telemetry_incomplete();
                                    result.record(CacheEvidenceApplyIntegrityFailure::MissingGroup);
                                },
                            }
                        },
                    }
                },
                _ => {},
            }
        }
        if waiting.len() > 0 {
            self.mark_physical_telemetry_incomplete();
            result.record(CacheEvidenceApplyIntegrityFailure::MissingParent);
        }
    }

    /// Applies one transport batch after its publisher/source ordering has been
    /// validated by the subscriber.
    pub fn apply_evidence_batch(&mut self, batch: &CacheEvidenceBatch) -> (complete: bool)
        requires
            old(self).wf(),
        ensures
            final(self).wf(),
            ({
                let applied = apply_batch(
                    old(self)@,
                    batch.owner,
                    batch.telemetry_complete,
                    batch.mutations@,
                );
                final(self)@ == applied.ledger && complete == (applied.failures == Set::<
                    CacheEvidenceApplyIntegrityFailure,
                >::empty())
            }),
    {
        self.apply_evidence_batch_with_diagnostics(batch).is_complete()
    }

    pub fn apply_evidence_batch_with_diagnostics(&mut self, batch: &CacheEvidenceBatch) -> (result:
        CacheEvidenceApplyResult)
        requires
            old(self).wf(),
        ensures
            final(self).wf(),
            (Applied { ledger: final(self)@, failures: result@ }) == apply_batch(
                old(self)@,
                batch.owner,
                batch.telemetry_complete,
                batch.mutations@,
            ),
    {
        let mut result = CacheEvidenceApplyResult::new();
        // Report this batch's integrity independently from cumulative stream
        // completeness. A verified cold epoch must be able to apply its clear
        // batches after an earlier gap, while the cumulative poison remains
        // set until the coordinator atomically commits the epoch.
        let prior_telemetry_complete = self.physical_telemetry_complete;
        self.physical_telemetry_complete = true;
        proof {
            assert(self@ =~= (LedgerView { physical_telemetry_complete: true, ..old(self)@ }));
        }
        if !batch.telemetry_complete {
            self.mark_physical_telemetry_incomplete();
            result.record(CacheEvidenceApplyIntegrityFailure::IncompleteBatch);
        }
        let mutations = &batch.mutations;
        let owner = batch.owner;
        let ghost goal = apply_mutations(
            Applied { ledger: self@, failures: result@ },
            owner,
            mutations@,
            0,
        );
        let mut i: usize = 0;
        while i < mutations.len()
            invariant
                i <= mutations@.len(),
                self.wf(),
                goal == apply_mutations(
                    Applied { ledger: self@, failures: result@ },
                    owner,
                    mutations@,
                    i as int,
                ),
            decreases mutations@.len() - i,
        {
            match &mutations[i] {
                CacheEvidenceMutation::Store { .. } => {
                    let mut end: usize = i;
                    while end < mutations.len() && is_store_mutation(&mutations[end])
                        invariant
                            i <= end <= mutations@.len(),
                            i < mutations@.len(),
                            is_store(mutations@[i as int]),
                            run_end(mutations@, i as int) == run_end(mutations@, end as int),
                            forall|j: int| i <= j < end ==> is_store(#[trigger] mutations@[j]),
                        ensures
                            end == run_end(mutations@, i as int),
                            i < end,
                        decreases mutations@.len() - end,
                    {
                        end = end + 1;
                    }
                    self.apply_store_run(owner, mutations, i, end, &mut result);
                    i = end;
                },
                CacheEvidenceMutation::Remove { tier, group_idx, block_hashes } => {
                    match *group_idx {
                        None => {
                            self.mark_physical_telemetry_incomplete();
                            result.record(CacheEvidenceApplyIntegrityFailure::MissingGroup);
                        },
                        Some(group) => {
                            self.remove_all(owner, *tier, group, block_hashes);
                        },
                    }
                    i = i + 1;
                },
                CacheEvidenceMutation::Clear { tier } => {
                    self.clear(owner, *tier);
                    i = i + 1;
                },
            }
        }
        let batch_complete = self.physical_telemetry_complete;
        let ghost end = self@;
        self.physical_telemetry_complete = prior_telemetry_complete && batch_complete;
        proof {
            assert(self@ =~= (LedgerView {
                physical_telemetry_complete: old(self)@.physical_telemetry_complete
                    && end.physical_telemetry_complete,
                ..end
            }));
        }
        result
    }

    fn remove_all(
        &mut self,
        owner: CacheOwner,
        tier: CacheTier,
        group: u32,
        external_hashes: &Vec<u64>,
    )
        requires
            old(self).wf(),
        ensures
            final(self).wf(),
            final(self)@ == old(self)@.remove_all(owner, tier, group, external_hashes@),
    {
        let mut i: usize = 0;
        while i < external_hashes.len()
            invariant
                i <= external_hashes@.len(),
                self.wf(),
                self@ == old(self)@.remove_all(
                    owner,
                    tier,
                    group,
                    external_hashes@.take(i as int),
                ),
            decreases external_hashes@.len() - i,
        {
            self.remove_external(owner, tier, group, external_hashes[i]);
            i = i + 1;
            assert(external_hashes@.take(i as int).drop_last() =~= external_hashes@.take(i - 1));
        }
        assert(external_hashes@.take(i as int) =~= external_hashes@);
    }

    /// Resolves the canonical sequence hashes changed by one mutation before it
    /// is applied. Callers use this to fence route snapshots without scanning
    /// unrelated residency.
    pub fn affected_sequence_hashes(&self, owner: CacheOwner, mutation: &CacheEvidenceMutation)
        -> (hashes: HashSet<u64>)
        requires
            self.wf(),
        ensures
            hashes@ == self@.affected_sequence_hashes(owner, *mutation),
    {
        let mut affected: HashSet<u64> = HashSet::new();
        match mutation {
            CacheEvidenceMutation::Store { group_idx, parent_external_hash, blocks, .. } => {
                let group: u32 = match *group_idx {
                    None => {
                        return affected;
                    },
                    Some(group) => group,
                };
                let parent: Option<u64> = match *parent_external_hash {
                    None => None,
                    Some(external_hash) => {
                        let parent = self.parent_sequence_hash(owner, group, external_hash);
                        if parent.is_none() {
                            return affected;
                        }
                        parent
                    },
                };
                let hashes = chain_hashes(parent, blocks);
                let mut i: usize = 0;
                while i < hashes.len()
                    invariant
                        i <= hashes@.len(),
                        forall|h: u64| #[trigger]
                            affected@.contains(h) <==> exists|j: int|
                                0 <= j < i && #[trigger] hashes@[j] == h,
                    decreases hashes@.len() - i,
                {
                    affected.insert(hashes[i]);
                    i = i + 1;
                }
                assert(affected@ =~= hashes@.to_set());
            },
            CacheEvidenceMutation::Remove { tier, group_idx, block_hashes } => {
                let group: u32 = match *group_idx {
                    None => {
                        return affected;
                    },
                    Some(group) => group,
                };
                let mut i: usize = 0;
                while i < block_hashes.len()
                    invariant
                        i <= block_hashes@.len(),
                        self.wf(),
                        forall|h: u64| #[trigger]
                            affected@.contains(h) <==> exists|j: int|
                                0 <= j < i && self@.mapped(
                                    owner,
                                    *tier,
                                    group,
                                    #[trigger] block_hashes@[j],
                                ) == Some(h),
                    decreases block_hashes@.len() - i,
                {
                    let ghost before = affected@;
                    let mapped = self.mapped(owner, *tier, group, block_hashes[i]);
                    if let Some(hash) = mapped {
                        affected.insert(hash);
                    }
                    proof {
                        assert forall|h: u64| #[trigger]
                            affected@.contains(h) <==> exists|j: int|
                                0 <= j < i + 1 && self@.mapped(
                                    owner,
                                    *tier,
                                    group,
                                    #[trigger] block_hashes@[j],
                                ) == Some(h) by {
                            if affected@.contains(h) && before.contains(h) {
                                let j = choose|j: int|
                                    0 <= j < i && self@.mapped(
                                        owner,
                                        *tier,
                                        group,
                                        #[trigger] block_hashes@[j],
                                    ) == Some(h);
                                assert(block_hashes@[j] == block_hashes@[j]);
                            } else if affected@.contains(h) {
                                assert(self@.mapped(
                                    owner,
                                    *tier,
                                    group,
                                    block_hashes@[i as int],
                                ) == Some(h));
                            }
                            if exists|j: int|
                                0 <= j < i + 1 && self@.mapped(
                                    owner,
                                    *tier,
                                    group,
                                    #[trigger] block_hashes@[j],
                                ) == Some(h) {
                                let j = choose|j: int|
                                    0 <= j < i + 1 && self@.mapped(
                                        owner,
                                        *tier,
                                        group,
                                        #[trigger] block_hashes@[j],
                                    ) == Some(h);
                                if j < i {
                                    assert(before.contains(h));
                                }
                            }
                        }
                    }
                    i = i + 1;
                }
                assert(affected@ =~= self@.affected_sequence_hashes(owner, *mutation));
            },
            CacheEvidenceMutation::Clear { tier } => {
                let list = self.external_copies.entries();
                let mut i: usize = 0;
                while i < list.len()
                    invariant
                        i <= list@.len(),
                        lists_entries(list@, self@.external_copies),
                        forall|h: u64| #[trigger]
                            affected@.contains(h) <==> exists|j: int|
                                0 <= j < i && covers(owner, *tier, (#[trigger] list@[j]).0.copy)
                                    && list@[j].1.0 == h,
                    decreases list@.len() - i,
                {
                    let copy: PhysicalCopy = list[i].0.copy;
                    let touched = copy.owner == owner && match *tier {
                        None => true,
                        Some(tier) => copy.tier == tier,
                    };
                    if touched {
                        affected.insert(list[i].1.0);
                    }
                    i = i + 1;
                }
                proof {
                    let model = self@.affected_sequence_hashes(owner, *mutation);
                    assert forall|h: u64| affected@.contains(h) == model.contains(h) by {
                        if affected@.contains(h) {
                            let j = choose|j: int|
                                0 <= j < i && covers(owner, *tier, (#[trigger] list@[j]).0.copy)
                                    && list@[j].1.0 == h;
                            assert(self@.external_copies.contains_key(list@[j].0));
                        }
                        if model.contains(h) {
                            let key = choose|key: BlockCopy|
                                #[trigger] self@.external_copies.contains_key(key) && covers(
                                    owner,
                                    *tier,
                                    key.copy,
                                ) && self@.external_copies[key].0 == h;
                            let j = choose|j: int|
                                0 <= j < list@.len() && (#[trigger] list@[j]).0 == key;
                            assert(list@[j].1.0 == h);
                        }
                    }
                    assert(affected@ =~= model);
                }
            },
        }
        affected
    }

    pub fn stats(&self) -> (stats: CacheEvidenceStats)
        requires
            self.wf(),
        ensures
            stats.history_blocks == self@.seen_blocks.len(),
            stats.history_saturated == self@.history_saturated,
            stats.history_complete == self@.history_complete,
            stats.gpu_physical_blocks == self@.physical_blocks(CacheTier::Gpu).len(),
            stats.cpu_physical_blocks == self@.physical_blocks(CacheTier::Cpu).len(),
            stats.expected_owners == match self@.expected_owners {
                None => 0,
                Some(owners) => owners.len(),
            },
            stats.cataloged_owners == self@.cataloged_owners().len(),
            stats.physical_scope_complete == self@.physical_scope_complete,
            stats.physical_telemetry_complete == self@.physical_telemetry_complete,
    {
        let on_gpu = |key: BlockCopy| -> (r: bool)
            ensures
                r == (key.copy.tier == CacheTier::Gpu),
            { key.copy.tier == CacheTier::Gpu };
        let on_cpu = |key: BlockCopy| -> (r: bool)
            ensures
                r == (key.copy.tier == CacheTier::Cpu),
            { key.copy.tier == CacheTier::Cpu };
        let ghost gpu = |key: BlockCopy| key.copy.tier == CacheTier::Gpu;
        let ghost cpu = |key: BlockCopy| key.copy.tier == CacheTier::Cpu;
        let gpu_physical_blocks = self.external_copies.count(on_gpu, Ghost(gpu));
        let cpu_physical_blocks = self.external_copies.count(on_cpu, Ghost(cpu));
        proof {
            assert(self@.external_copies.dom().filter(gpu) =~= self@.physical_blocks(
                CacheTier::Gpu,
            ));
            assert(self@.external_copies.dom().filter(cpu) =~= self@.physical_blocks(
                CacheTier::Cpu,
            ));
        }
        let expected_owners: usize = match &self.expected_owners {
            None => 0,
            Some(owners) => owners.len(),
        };
        let cataloged = self.cataloged_owners();
        let cataloged_owners = cataloged.len();
        CacheEvidenceStats {
            history_blocks: self.seen_blocks.len(),
            history_saturated: self.history_saturated,
            history_complete: self.history_complete,
            gpu_physical_blocks,
            cpu_physical_blocks,
            expected_owners,
            cataloged_owners,
            physical_scope_complete: self.physical_scope_complete,
            physical_telemetry_complete: self.physical_telemetry_complete,
        }
    }

    /// The owners that have declared a cache.
    fn cataloged_owners(&self) -> (owners: Table<CacheOwner, ()>)
        requires
            self.wf(),
        ensures
            owners.wf(),
            owners@.dom() == self@.cataloged_owners(),
    {
        let mut owners: Table<CacheOwner, ()> = Table::new();
        let list = self.required_groups.entries();
        let mut i: usize = 0;
        while i < list.len()
            invariant
                i <= list@.len(),
                owners.wf(),
                forall|o: CacheOwner| #[trigger]
                    owners@.dom().contains(o) <==> exists|j: int|
                        0 <= j < i && (#[trigger] list@[j]).0.owner == o,
            decreases list@.len() - i,
        {
            owners.insert(list[i].0.owner, ());
            i = i + 1;
        }
        proof {
            assert forall|o: CacheOwner| owners@.dom().contains(o)
                == self@.cataloged_owners().contains(o) by {
                lemma_cataloged(self, o);
                if owners@.dom().contains(o) {
                    let j = choose|j: int| 0 <= j < i && (#[trigger] list@[j]).0.owner == o;
                    assert(self.required_groups@.contains_key(list@[j].0));
                    let key = list@[j].0;
                    assert(key.tier == CacheTier::Gpu || key.tier == CacheTier::Cpu);
                    assert(key == OwnerTier { owner: o, tier: key.tier });
                }
                if self@.cataloged(o) {
                    let tier = if self.required_groups@.contains_key(
                        OwnerTier { owner: o, tier: CacheTier::Gpu },
                    ) {
                        CacheTier::Gpu
                    } else {
                        CacheTier::Cpu
                    };
                    let key = OwnerTier { owner: o, tier };
                    assert(self.required_groups@.contains_key(key));
                    let j = choose|j: int| 0 <= j < list@.len() && (#[trigger] list@[j]).0 == key;
                    assert(list@[j].0.owner == o);
                }
            }
            assert(owners@.dom() =~= self@.cataloged_owners());
        }
        owners
    }

    // ---- residency ----

    fn negative_physical_fact(&self) -> (known: KnownBool)
        ensures
            known == self@.negative_physical_fact(),
    {
        if self.physical_scope_complete && self.physical_telemetry_complete {
            KnownBool::No
        } else {
            KnownBool::Unknown
        }
    }

    fn holds_copy(&self, hash: u64, owner: CacheOwner, tier: CacheTier, group: u32) -> (held: bool)
        requires
            self.wf(),
        ensures
            held == self@.holds_copy(hash, owner, tier, group),
    {
        self.copies.contains_key(BlockCopy { hash, copy: PhysicalCopy { owner, tier, group } })
    }

    fn resident_in_declared_cache(&self, hash: u64, owner: CacheOwner, tier: CacheTier)
        -> (resident: bool)
        requires
            self.wf(),
        ensures
            resident == self@.resident_in_declared_cache(hash, owner, tier),
    {
        let key = OwnerTier { owner, tier };
        match self.required_groups.get(key) {
            None => false,
            Some(groups) => {
                proof {
                    lemma_nonempty(groups@);
                    assert(self@.required_groups[key] == groups@.to_set());
                }
                let mut i: usize = 0;
                while i < groups.len()
                    invariant
                        i <= groups@.len(),
                        self.wf(),
                        key == (OwnerTier { owner, tier }),
                        self@.required_groups.contains_key(key),
                        self@.required_groups[key] == groups@.to_set(),
                        forall|j: int| 0 <= j < i ==> self@.holds_copy(
                            hash,
                            owner,
                            tier,
                            #[trigger] groups@[j],
                        ),
                    decreases groups@.len() - i,
                {
                    if !self.holds_copy(hash, owner, tier, groups[i]) {
                        assert(self@.required_groups[key].contains(groups@[i as int]));
                        return false;
                    }
                    i = i + 1;
                }
                groups.len() > 0
            },
        }
    }

    /// Some declared cache holds the block in every one of its groups.
    pub fn resident_anywhere(&self, hash: u64) -> (known: KnownBool)
        requires
            self.wf(),
        ensures
            known == self@.resident_anywhere(hash),
    {
        let list = self.required_groups.entries();
        let mut i: usize = 0;
        while i < list.len()
            invariant
                i <= list@.len(),
                self.wf(),
                forall|j: int| #![trigger list@[j]]
                    0 <= j < i ==> !self@.resident_in_declared_cache(
                        hash,
                        list@[j].0.owner,
                        list@[j].0.tier,
                    ),
            decreases list@.len() - i,
        {
            let key = list[i].0;
            if self.resident_in_declared_cache(hash, key.owner, key.tier) {
                return KnownBool::Yes;
            }
            i = i + 1;
        }
        proof {
            assert forall|key: OwnerTier| !#[trigger] self@.resident_in_declared_cache(
                hash,
                key.owner,
                key.tier,
            ) by {
                if self@.resident_in_declared_cache(hash, key.owner, key.tier) {
                    assert(self.required_groups@.contains_key(key));
                    let j = choose|j: int| 0 <= j < list@.len() && (#[trigger] list@[j]).0 == key;
                    assert(list@[j].0 == key);
                }
            }
        }
        self.negative_physical_fact()
    }

    fn cataloged(&self, owner: CacheOwner) -> (declared: bool)
        requires
            self.wf(),
        ensures
            declared == self@.cataloged(owner),
    {
        proof {
            lemma_cataloged(self, owner);
        }
        self.required_groups.contains_key(OwnerTier { owner, tier: CacheTier::Gpu })
            || self.required_groups.contains_key(OwnerTier { owner, tier: CacheTier::Cpu })
    }

    pub fn resident_on(&self, hash: u64, owner: CacheOwner) -> (known: KnownBool)
        requires
            self.wf(),
        ensures
            known == self@.resident_on(hash, owner),
    {
        if self.resident_in_declared_cache(hash, owner, CacheTier::Gpu)
            || self.resident_in_declared_cache(hash, owner, CacheTier::Cpu) {
            KnownBool::Yes
        } else if self.cataloged(owner) {
            self.negative_physical_fact()
        } else {
            KnownBool::Unknown
        }
    }

    /// The cache groups declared on either tier of an owner.
    fn groups_of(&self, owner: CacheOwner) -> (groups: Vec<u32>)
        requires
            self.wf(),
        ensures
            forall|group: u32| #[trigger]
                groups@.contains(group) <==> self@.requires_group(owner, group),
            groups@.len() > 0 <==> self@.declares_groups(owner),
    {
        let gpu = OwnerTier { owner, tier: CacheTier::Gpu };
        let cpu = OwnerTier { owner, tier: CacheTier::Cpu };
        let mut groups: Vec<u32> = Vec::new();
        if let Some(declared) = self.required_groups.get(gpu) {
            groups.extend_from_slice(declared.as_slice());
            assert(groups@ =~= declared@);
        }
        let ghost on_gpu = groups@;
        if let Some(declared) = self.required_groups.get(cpu) {
            groups.extend_from_slice(declared.as_slice());
            assert(groups@ =~= on_gpu + declared@);
        }
        proof {
            lemma_declares_groups(self, owner);
            assert(self@.required_groups.contains_key(gpu) == self.required_groups@.contains_key(
                gpu,
            ));
            assert(self@.required_groups.contains_key(cpu) == self.required_groups@.contains_key(
                cpu,
            ));
            let on_cpu = if self.required_groups@.contains_key(cpu) {
                self.required_groups@[cpu]@
            } else {
                Seq::<u32>::empty()
            };
            assert(groups@ =~= on_gpu + on_cpu);
            assert forall|group: u32| #[trigger]
                groups@.contains(group) <==> self@.requires_group(owner, group) by {
                if groups@.contains(group) {
                    let i = choose|i: int| 0 <= i < groups@.len() && groups@[i] == group;
                    if i < on_gpu.len() {
                        assert(on_gpu[i] == group);
                        assert(self@.required_groups[gpu].contains(group));
                    } else {
                        assert(on_cpu[i - on_gpu.len()] == group);
                        assert(self@.required_groups[cpu].contains(group));
                    }
                }
                if self@.requires_group(owner, group) {
                    let tier = choose|tier: CacheTier| #[trigger]
                        self@.required_groups.contains_key(OwnerTier { owner, tier })
                            && self@.required_groups[OwnerTier { owner, tier }].contains(group);
                    if tier == CacheTier::Gpu {
                        let i = choose|i: int| 0 <= i < on_gpu.len() && on_gpu[i] == group;
                        assert(groups@[i] == group);
                    } else {
                        assert(tier == CacheTier::Cpu);
                        let i = choose|i: int| 0 <= i < on_cpu.len() && on_cpu[i] == group;
                        assert(groups@[on_gpu.len() + i] == group);
                    }
                }
            }
        }
        groups
    }

    fn holds_somewhere(&self, hash: u64, owner: CacheOwner, group: u32) -> (held: bool)
        requires
            self.wf(),
        ensures
            held == self@.holds_somewhere(hash, owner, group),
    {
        self.holds_copy(hash, owner, CacheTier::Gpu, group) || self.holds_copy(
            hash,
            owner,
            CacheTier::Cpu,
            group,
        )
    }

    /// Tests one logical prompt span against every cache group declared for a
    /// worker. Different groups may use different block sizes and therefore
    /// different token hashes for the same span.
    pub fn resident_groups_on(&self, queries: &[CacheGroupBlockQuery], owner: CacheOwner) -> (known:
        KnownBool)
        requires
            self.wf(),
        ensures
            known == self@.resident_groups_on(queries@, owner),
    {
        let required = self.groups_of(owner);
        if required.len() == 0 {
            return KnownBool::Unknown;
        }
        let mut g: usize = 0;
        while g < required.len()
            invariant
                g <= required@.len(),
                self.wf(),
                self@.declares_groups(owner),
                forall|group: u32| #[trigger]
                    required@.contains(group) <==> self@.requires_group(owner, group),
                forall|k: int| 0 <= k < g ==> asks_for(queries@, #[trigger] required@[k]),
            decreases required@.len() - g,
        {
            if !queried(queries, required[g]) {
                assert(required@.contains(required@[g as int]));
                return KnownBool::Unknown;
            }
            g = g + 1;
        }
        proof {
            assert forall|group: u32| #[trigger] self@.requires_group(owner, group) implies asks_for(
                queries@,
                group,
            ) by {
                assert(required@.contains(group));
                let k = choose|k: int| 0 <= k < required@.len() && required@[k] == group;
                assert(asks_for(queries@, required@[k]));
            }
        }
        let mut i: usize = 0;
        while i < queries.len()
            invariant
                i <= queries@.len(),
                self.wf(),
                self@.declares_groups(owner),
                forall|group: u32| #[trigger]
                    required@.contains(group) <==> self@.requires_group(owner, group),
                forall|group: u32| #[trigger]
                    self@.requires_group(owner, group) ==> asks_for(queries@, group),
                forall|j: int| #![trigger queries@[j]]
                    0 <= j < i && self@.requires_group(owner, queries@[j].group_idx)
                        ==> self@.holds_somewhere(
                        queries@[j].tokens_hash,
                        owner,
                        queries@[j].group_idx,
                    ),
            decreases queries@.len() - i,
        {
            let query = queries[i];
            if lists(&required, query.group_idx) && !self.holds_somewhere(
                query.tokens_hash,
                owner,
                query.group_idx,
            ) {
                assert(queries@[i as int] == query);
                return self.negative_physical_fact();
            }
            i = i + 1;
        }
        KnownBool::Yes
    }

    pub fn resident_groups_anywhere(&self, queries: &[CacheGroupBlockQuery]) -> (known: KnownBool)
        requires
            self.wf(),
        ensures
            known == self@.resident_groups_anywhere(queries@),
    {
        let owners = self.cataloged_owners();
        let list = owners.entries();
        let mut saw_unknown = list.len() == 0;
        let mut i: usize = 0;
        while i < list.len()
            invariant
                i <= list@.len(),
                self.wf(),
                lists_entries(list@, owners@),
                owners@.dom() == self@.cataloged_owners(),
                saw_unknown == (list@.len() == 0 || exists|j: int|
                    0 <= j < i && self@.resident_groups_on(queries@, (#[trigger] list@[j]).0)
                        == KnownBool::Unknown),
                forall|j: int| #![trigger list@[j]]
                    0 <= j < i ==> self@.resident_groups_on(queries@, list@[j].0) != KnownBool::Yes,
            decreases list@.len() - i,
        {
            let owner = list[i].0;
            proof {
                assert(owners@.contains_key(list@[i as int].0));
                assert(owners@.dom().contains(owner));
                assert(self@.cataloged(owner));
            }
            match self.resident_groups_on(queries, owner) {
                KnownBool::Yes => {
                    return KnownBool::Yes;
                },
                KnownBool::Unknown => {
                    saw_unknown = true;
                },
                KnownBool::No => {},
            }
            i = i + 1;
        }
        proof {
            assert forall|owner: CacheOwner| #[trigger] self@.cataloged(owner) implies exists|j: int|
                0 <= j < list@.len() && (#[trigger] list@[j]).0 == owner by {
                assert(owners@.dom().contains(owner));
                assert(owners@.contains_key(owner));
            }
            assert forall|j: int| #![trigger list@[j]] 0 <= j < list@.len() implies self@.cataloged(
                list@[j].0,
            ) by {
                assert(owners@.contains_key(list@[j].0));
                assert(owners@.dom().contains(list@[j].0));
            }
        }
        if saw_unknown {
            KnownBool::Unknown
        } else {
            assert(self@.cataloged(list@[0].0));
            self.negative_physical_fact()
        }
    }

    /// The cache-hit boundary over prior request history.
    pub fn reusable_prefix(&self, groups: &[CacheGroupHashSequence], max_tokens: u64) -> (length:
        KnownPrefixLength)
        ensures
            length == self@.reusable_prefix(groups@, max_tokens),
            length matches KnownPrefixLength::Known(tokens) ==> tokens <= max_tokens,
    {
        let present = |group: u32, hash: u64| -> (known: KnownBool)
            ensures
                known == self@.reusable(hash),
            { self.reusable(hash) };
        proof {
            assert(computes(present, self@.history_presence()));
        }
        hybrid_prefix(groups, max_tokens, present)
    }

    fn presence_on(&self, owner: CacheOwner, group: u32, hash: u64) -> (known: KnownBool)
        requires
            self.wf(),
        ensures
            known == self@.presence_on(owner, group, hash),
    {
        if self.holds_somewhere(hash, owner, group) {
            KnownBool::Yes
        } else if self.cataloged(owner) {
            self.negative_physical_fact()
        } else {
            KnownBool::Unknown
        }
    }

    /// Longest prefix physically reusable on one worker across its GPU and CPU
    /// copies. A group may be split across the two tiers.
    pub fn resident_prefix_on(
        &self,
        groups: &[CacheGroupHashSequence],
        max_tokens: u64,
        owner: CacheOwner,
    ) -> (length: KnownPrefixLength)
        requires
            self.wf(),
        ensures
            length == self@.resident_prefix_on(groups@, max_tokens, owner),
            length matches KnownPrefixLength::Known(tokens) ==> tokens <= max_tokens,
    {
        let present = |group: u32, hash: u64| -> (known: KnownBool)
            requires
                self.wf(),
            ensures
                known == self@.presence_on(owner, group, hash),
            { self.presence_on(owner, group, hash) };
        proof {
            assert(computes(present, self@.owner_presence(owner)));
        }
        hybrid_prefix(groups, max_tokens, present)
    }

    /// Maximum physically reusable prefix on any worker. If an incompletely
    /// observed worker could exceed the best known result, the answer remains
    /// unknown rather than becoming a false zero or lower bound.
    pub fn resident_prefix_anywhere(&self, groups: &[CacheGroupHashSequence], max_tokens: u64)
        -> (length: KnownPrefixLength)
        requires
            self.wf(),
        ensures
            length == self@.resident_prefix_anywhere(groups@, max_tokens),
            length matches KnownPrefixLength::Known(tokens) ==> tokens <= max_tokens,
    {
        let owners = self.cataloged_owners();
        let list = owners.entries();
        let mut best: u64 = 0;
        let mut unknown = list.len() == 0;
        let mut i: usize = 0;
        while i < list.len()
            invariant
                i <= list@.len(),
                self.wf(),
                best <= max_tokens,
                forall|j: int| #![trigger list@[j]]
                    0 <= j < list@.len() ==> self@.cataloged(list@[j].0),
                unknown == (list@.len() == 0 || exists|j: int|
                    0 <= j < i && self@.resident_prefix_on(
                        groups@,
                        max_tokens,
                        (#[trigger] list@[j]).0,
                    ) == KnownPrefixLength::Unknown),
                forall|j: int| #![trigger list@[j]]
                    0 <= j < i ==> match self@.resident_prefix_on(groups@, max_tokens, list@[j].0) {
                        KnownPrefixLength::Known(tokens) => tokens <= best,
                        KnownPrefixLength::Unknown => true,
                    },
                best == 0 || exists|j: int|
                    0 <= j < i && self@.resident_prefix_on(
                        groups@,
                        max_tokens,
                        (#[trigger] list@[j]).0,
                    ) == KnownPrefixLength::Known(best),
            decreases list@.len() - i,
        {
            match self.resident_prefix_on(groups, max_tokens, list[i].0) {
                KnownPrefixLength::Known(tokens) => {
                    if tokens > best {
                        best = tokens;
                    }
                },
                KnownPrefixLength::Unknown => {
                    unknown = true;
                },
            }
            i = i + 1;
        }
        proof {
            assert forall|owner: CacheOwner| #[trigger] self@.cataloged(owner) implies exists|j: int|
                0 <= j < list@.len() && (#[trigger] list@[j]).0 == owner by {
                assert(owners@.dom().contains(owner));
                assert(owners@.contains_key(owner));
            }
            assert(self@.is_best_known_prefix(groups@, max_tokens, best));
            lemma_best_prefix_is_unique(self@, groups@, max_tokens, best);
            if list@.len() > 0 {
                assert(self@.cataloged(list@[0].0));
            }
            assert(unknown == self@.prefix_undecided(groups@, max_tokens));
        }
        if best == max_tokens || !unknown {
            KnownPrefixLength::Known(best)
        } else {
            KnownPrefixLength::Unknown
        }
    }
}

/// The rolling sequence hashes of consecutive blocks below `parent`.
pub(crate) fn chain_hashes(parent: Option<u64>, blocks: &Vec<CacheEvidenceStoredBlock>) -> (hashes:
    Vec<u64>)
    ensures
        hashes@ == chain(parent, blocks@),
        hashes@.len() == blocks@.len(),
{
    let mut hashes: Vec<u64> = Vec::new();
    let mut previous: Option<u64> = parent;
    let mut i: usize = 0;
    while i < blocks.len()
        invariant
            i <= blocks@.len(),
            hashes@ == chain(parent, blocks@.take(i as int)),
            hashes@.len() == i,
            previous == if i == 0 {
                parent
            } else {
                Some(hashes@.last())
            },
        decreases blocks@.len() - i,
    {
        let tokens_hash: u64 = blocks[i].tokens_hash;
        let hash: u64 = match previous {
            None => tokens_hash,
            Some(above) => compute_next_seq_hash(above, LocalBlockHash(tokens_hash)),
        };
        hashes.push(hash);
        previous = Some(hash);
        i = i + 1;
        assert(blocks@.take(i as int).drop_last() =~= blocks@.take(i - 1));
    }
    assert(blocks@.take(i as int) =~= blocks@);
    hashes
}

fn queried(queries: &[CacheGroupBlockQuery], group: u32) -> (found: bool)
    ensures
        found == asks_for(queries@, group),
{
    let mut i: usize = 0;
    while i < queries.len()
        invariant
            i <= queries@.len(),
            forall|j: int| 0 <= j < i ==> (#[trigger] queries@[j]).group_idx != group,
        decreases queries@.len() - i,
    {
        if queries[i].group_idx == group {
            return true;
        }
        i = i + 1;
    }
    false
}

fn lists(groups: &Vec<u32>, group: u32) -> (found: bool)
    ensures
        found == groups@.contains(group),
{
    let mut i: usize = 0;
    while i < groups.len()
        invariant
            i <= groups@.len(),
            forall|j: int| 0 <= j < i ==> #[trigger] groups@[j] != group,
        decreases groups@.len() - i,
    {
        if groups[i] == group {
            return true;
        }
        i = i + 1;
    }
    false
}

fn is_store_mutation(mutation: &CacheEvidenceMutation) -> (store: bool)
    ensures
        store == is_store(*mutation),
{
    match mutation {
        CacheEvidenceMutation::Store { .. } => true,
        _ => false,
    }
}

fn chains_from(mutation: &CacheEvidenceMutation, group: u32, external_hash: u64) -> (chains: bool)
    ensures
        chains == depends_on(*mutation, group, external_hash),
{
    match mutation {
        CacheEvidenceMutation::Store { group_idx, parent_external_hash, .. } => {
            match (*group_idx, *parent_external_hash) {
                (Some(own_group), Some(parent)) => own_group == group && parent == external_hash,
                _ => false,
            }
        },
        _ => false,
    }
}

/// Moves the waiting stores that chain from freshly stored blocks to the end
/// of the ready queue.
fn release_dependents(
    mutations: &Vec<CacheEvidenceMutation>,
    from: usize,
    end: usize,
    group: u32,
    blocks: &Vec<CacheEvidenceStoredBlock>,
    ready: &mut VecDeque<usize>,
    waiting: &mut Vec<usize>,
)
    requires
        from <= end <= mutations@.len(),
        forall|k: int| 0 <= k < old(ready)@.len() ==> #[trigger] old(ready)@[k] < end - from,
        forall|k: int| 0 <= k < old(waiting)@.len() ==> #[trigger] old(waiting)@[k] < end - from,
    ensures
        (final(ready)@, final(waiting)@) == unlock(
            mutations@.subrange(from as int, end as int),
            group,
            blocks@,
            blocks@.len() as int,
            old(ready)@,
            old(waiting)@,
        ),
        forall|k: int| 0 <= k < final(ready)@.len() ==> #[trigger] final(ready)@[k] < end - from,
        forall|k: int| 0 <= k < final(waiting)@.len() ==> #[trigger] final(waiting)@[k] < end - from,
{
    let ghost run = mutations@.subrange(from as int, end as int);
    let mut n: usize = 0;
    while n < blocks.len()
        invariant
            n <= blocks@.len(),
            from <= end <= mutations@.len(),
            run == mutations@.subrange(from as int, end as int),
            (ready@, waiting@) == unlock(
                run,
                group,
                blocks@,
                n as int,
                old(ready)@,
                old(waiting)@,
            ),
            forall|k: int| 0 <= k < ready@.len() ==> #[trigger] ready@[k] < end - from,
            forall|k: int| 0 <= k < waiting@.len() ==> #[trigger] waiting@[k] < end - from,
        decreases blocks@.len() - n,
    {
        let external_hash: u64 = blocks[n].external_hash;
        let ghost queue = ready@;
        let ghost waited = waiting@;
        let mut left: Vec<usize> = Vec::new();
        let mut i: usize = 0;
        while i < waiting.len()
            invariant
                i <= waiting@.len(),
                waiting@ == waited,
                from <= end <= mutations@.len(),
                run == mutations@.subrange(from as int, end as int),
                ready@ == queue + dependents(
                    run,
                    waited.take(i as int),
                    group,
                    external_hash,
                    true,
                ),
                left@ == dependents(run, waited.take(i as int), group, external_hash, false),
                forall|k: int| 0 <= k < ready@.len() ==> #[trigger] ready@[k] < end - from,
                forall|k: int| 0 <= k < left@.len() ==> #[trigger] left@[k] < end - from,
                forall|k: int| 0 <= k < waited.len() ==> #[trigger] waited[k] < end - from,
            decreases waiting@.len() - i,
        {
            let at: usize = waiting[i];
            assert(run[at as int] == mutations@[from + at]);
            if chains_from(&mutations[from + at], group, external_hash) {
                ready.push_back(at);
            } else {
                left.push(at);
            }
            i = i + 1;
            proof {
                assert(waited.take(i as int).drop_last() =~= waited.take(i - 1));
                assert(ready@ =~= queue + dependents(
                    run,
                    waited.take(i as int),
                    group,
                    external_hash,
                    true,
                ));
            }
        }
        assert(waited.take(i as int) =~= waited);
        *waiting = left;
        n = n + 1;
    }
}

proof fn lemma_cataloged(ledger: &CacheEvidenceLedger, owner: CacheOwner)
    ensures
        ledger@.cataloged(owner) == (ledger.required_groups@.contains_key(
            OwnerTier { owner, tier: CacheTier::Gpu },
        ) || ledger.required_groups@.contains_key(OwnerTier { owner, tier: CacheTier::Cpu })),
{
    assert forall|tier: CacheTier| ledger@.required_groups.contains_key(OwnerTier { owner, tier })
        == ledger.required_groups@.contains_key(OwnerTier { owner, tier }) by {}
    if ledger@.cataloged(owner) {
        let tier = choose|tier: CacheTier| #[trigger]
            ledger@.required_groups.contains_key(OwnerTier { owner, tier });
        assert(tier == CacheTier::Gpu || tier == CacheTier::Cpu);
    }
    assert(ledger.required_groups@.contains_key(OwnerTier { owner, tier: CacheTier::Gpu })
        ==> ledger@.required_groups.contains_key(OwnerTier { owner, tier: CacheTier::Gpu }));
    assert(ledger.required_groups@.contains_key(OwnerTier { owner, tier: CacheTier::Cpu })
        ==> ledger@.required_groups.contains_key(OwnerTier { owner, tier: CacheTier::Cpu }));
}

proof fn lemma_nonempty(groups: Seq<u32>)
    ensures
        (groups.to_set() != Set::<u32>::empty()) == (groups.len() > 0),
{
    if groups.len() > 0 {
        assert(groups.to_set().contains(groups[0]));
    } else {
        assert(groups.to_set() =~= Set::<u32>::empty());
    }
}

proof fn lemma_declares_groups(ledger: &CacheEvidenceLedger, owner: CacheOwner)
    ensures
        ledger@.declares_groups(owner) == ({
            let gpu = OwnerTier { owner, tier: CacheTier::Gpu };
            let cpu = OwnerTier { owner, tier: CacheTier::Cpu };
            ||| ledger.required_groups@.contains_key(gpu)
                && ledger.required_groups@[gpu]@.len() > 0
            ||| ledger.required_groups@.contains_key(cpu)
                && ledger.required_groups@[cpu]@.len() > 0
        }),
{
    let gpu = OwnerTier { owner, tier: CacheTier::Gpu };
    let cpu = OwnerTier { owner, tier: CacheTier::Cpu };
    lemma_nonempty(ledger.required_groups@[gpu]@);
    lemma_nonempty(ledger.required_groups@[cpu]@);
    assert(ledger@.required_groups.contains_key(gpu) == ledger.required_groups@.contains_key(gpu));
    assert(ledger@.required_groups.contains_key(cpu) == ledger.required_groups@.contains_key(cpu));
    if ledger@.declares_groups(owner) {
        let tier = choose|tier: CacheTier|
            #[trigger] ledger@.required_groups.contains_key(OwnerTier { owner, tier })
                && ledger@.required_groups[OwnerTier { owner, tier }] != Set::<u32>::empty();
        assert(tier == CacheTier::Gpu || tier == CacheTier::Cpu);
    }
}

} // verus!
