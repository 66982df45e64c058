//! What the evidence ledger means, as mathematics.
//!
//! [`LedgerView`] is the abstract state of a ledger; every operation of the
//! executable ledger is described by a function on it.

use vstd::prelude::*;

use crate::announcements::backed;
use crate::evidence::{
    BlockCopy, CacheEvidenceApplyIntegrityFailure, CacheEvidenceMutation,
    CacheEvidenceStoredBlock, CacheGroupBlockQuery, CacheOwner, CacheTier, KnownBool, OwnerTier,
    PhysicalCopy,
};
use crate::prefix::{as_length, hybrid_hit, CacheGroupHashSequence, KnownPrefixLength, Presence};
use crate::protocols::next_seq_hash;

verus! {

/// Saturating increment of a 32-bit reference count.
pub open spec fn bump(count: u32) -> u32 {
    if count == u32::MAX {
        u32::MAX
    } else {
        (count + 1) as u32
    }
}

/// The epoch after `epoch`; zero is never issued again.
pub open spec fn next_epoch(epoch: u64) -> u64 {
    if epoch == u64::MAX {
        1
    } else {
        (epoch + 1) as u64
    }
}

/// Why a store was refused, or that it was applied.
#[derive(Clone, Copy, Debug, PartialEq, Eq, Structural)]
pub enum StoreMutationResult {
    Applied,
    MissingParent,
    Invalid,
    RejectedMapping,
}

#[verifier::ext_equal]
pub struct LedgerView {
    /// How many distinct hashes the history can retain.
    pub history_capacity: nat,
    pub seen_blocks: Set<u64>,
    pub history_saturated: bool,
    pub history_complete: bool,
    pub history_epoch: u64,
    /// Announcements per sequence hash and place.
    pub copies: Map<BlockCopy, u32>,
    /// Per engine hash and place: the sequence hash it stands for, and how
    /// often it was announced.
    pub external_copies: Map<BlockCopy, (u64, u32)>,
    pub required_groups: Map<OwnerTier, Set<u32>>,
    pub expected_owners: Option<Set<CacheOwner>>,
    pub physical_scope_complete: bool,
    pub physical_telemetry_complete: bool,
}

impl LedgerView {
    pub open spec fn empty(history_capacity: nat) -> LedgerView {
        LedgerView {
            history_capacity,
            seen_blocks: Set::empty(),
            history_saturated: false,
            history_complete: false,
            history_epoch: 0,
            copies: Map::empty(),
            external_copies: Map::empty(),
            required_groups: Map::empty(),
            expected_owners: None,
            physical_scope_complete: false,
            physical_telemetry_complete: true,
        }
    }

    /// What every ledger keeps: history within capacity, no copy recorded with
    /// a count of zero, and none counted that is not announced.
    pub open spec fn inv(self) -> bool {
        &&& self.history_capacity > 0
        &&& self.seen_blocks.finite()
        &&& self.seen_blocks.len() <= self.history_capacity
        &&& forall|key: BlockCopy| #[trigger]
            self.copies.contains_key(key) ==> self.copies[key] >= 1
        &&& forall|key: BlockCopy| #[trigger]
            self.external_copies.contains_key(key) ==> self.external_copies[key].1 >= 1
        &&& backed(self.copies, self.external_copies)
    }

    // ---- history ----

    pub open spec fn see(self, hash: u64) -> LedgerView {
        if self.seen_blocks.contains(hash) {
            self
        } else if self.seen_blocks.len() == self.history_capacity {
            LedgerView { history_saturated: true, ..self }
        } else {
            LedgerView { seen_blocks: self.seen_blocks.insert(hash), ..self }
        }
    }

    pub open spec fn see_all(self, hashes: Seq<u64>) -> LedgerView
        decreases hashes.len(),
    {
        if hashes.len() == 0 {
            self
        } else {
            self.see_all(hashes.drop_last()).see(hashes.last())
        }
    }

    pub open spec fn mark_history_incomplete(self) -> LedgerView {
        LedgerView { history_complete: false, ..self }
    }

    pub open spec fn advance_history_epoch(self) -> LedgerView {
        LedgerView {
            history_epoch: next_epoch(self.history_epoch),
            seen_blocks: Set::empty(),
            history_saturated: false,
            history_complete: true,
            physical_telemetry_complete: true,
            ..self
        }
    }

    pub open spec fn reusable(self, hash: u64) -> KnownBool {
        if self.seen_blocks.contains(hash) {
            KnownBool::Yes
        } else if self.history_saturated || !self.history_complete {
            KnownBool::Unknown
        } else {
            KnownBool::No
        }
    }

    // ---- declared scope ----

    pub open spec fn mark_telemetry_incomplete(self) -> LedgerView {
        LedgerView { physical_telemetry_complete: false, history_complete: false, ..self }
    }

    /// The owner has declared at least one cache tier.
    pub open spec fn cataloged(self, owner: CacheOwner) -> bool {
        exists|tier: CacheTier| #[trigger]
            self.required_groups.contains_key(OwnerTier { owner, tier })
    }

    pub open spec fn cataloged_owners(self) -> Set<CacheOwner> {
        Set::new(|owner: CacheOwner| self.cataloged(owner))
    }

    /// The blocks announced on a tier, each counted once per place.
    pub open spec fn physical_blocks(self, tier: CacheTier) -> Set<BlockCopy> {
        self.external_copies.dom().filter(|key: BlockCopy| key.copy.tier == tier)
    }

    /// Some tier of the owner declares a cache group.
    pub open spec fn declares_groups(self, owner: CacheOwner) -> bool {
        exists|tier: CacheTier|
            #[trigger] self.required_groups.contains_key(OwnerTier { owner, tier })
                && self.required_groups[OwnerTier { owner, tier }] != Set::<u32>::empty()
    }

    /// Once membership is known, the scope is complete exactly when there are
    /// owners and each of them declares a cache group.
    pub open spec fn refresh_scope(self) -> LedgerView {
        match self.expected_owners {
            None => self,
            Some(expected) => LedgerView {
                physical_scope_complete: expected != Set::<CacheOwner>::empty() && forall|
                    owner: CacheOwner,
                | #[trigger]
                    expected.contains(owner) ==> self.declares_groups(owner),
                ..self
            },
        }
    }

    pub open spec fn record_group_catalog(
        self,
        owner: CacheOwner,
        tier: CacheTier,
        groups: Set<u32>,
    ) -> LedgerView {
        LedgerView {
            required_groups: self.required_groups.insert(OwnerTier { owner, tier }, groups),
            ..self
        }.refresh_scope()
    }

    /// Drops every copy on the given owner, or on one of its tiers.
    pub open spec fn clear(self, owner: CacheOwner, tier: Option<CacheTier>) -> LedgerView {
        let kept = |key: BlockCopy| !covers(owner, tier, key.copy);
        LedgerView {
            copies: self.copies.restrict(Set::new(kept)),
            external_copies: self.external_copies.restrict(Set::new(kept)),
            ..self
        }
    }

    pub open spec fn retire_owner(self, owner: CacheOwner) -> LedgerView {
        LedgerView {
            required_groups: self.required_groups.restrict(
                Set::new(|key: OwnerTier| key.owner != owner),
            ),
            ..self.clear(owner, None)
        }.refresh_scope()
    }

    /// Declared owners outside `owners` are retired with all their copies.
    pub open spec fn set_expected_owners(self, owners: Set<CacheOwner>) -> LedgerView {
        let kept = |key: BlockCopy|
            owners.contains(key.copy.owner) || !self.cataloged(key.copy.owner);
        LedgerView {
            copies: self.copies.restrict(Set::new(kept)),
            external_copies: self.external_copies.restrict(Set::new(kept)),
            required_groups: self.required_groups.restrict(
                Set::new(|key: OwnerTier| owners.contains(key.owner)),
            ),
            expected_owners: Some(owners),
            ..self
        }.refresh_scope()
    }

    /// The owners are exactly the expected ones, each has declared its groups
    /// and none of them holds a copy.
    pub open spec fn is_cold(self, owners: Set<CacheOwner>) -> bool {
        &&& self.expected_owners == Some(owners)
        &&& self.physical_scope_complete
        &&& forall|key: BlockCopy| #[trigger]
            self.copies.contains_key(key) ==> !owners.contains(key.copy.owner)
        &&& forall|key: BlockCopy| #[trigger]
            self.external_copies.contains_key(key) ==> !owners.contains(key.copy.owner)
    }

    pub open spec fn commit_cold_history_epoch(self, owners: Set<CacheOwner>) -> LedgerView {
        if self.is_cold(owners) {
            self.advance_history_epoch()
        } else {
            self.mark_history_incomplete()
        }
    }

    // ---- stores and removals ----

    pub open spec fn mapped(self, owner: CacheOwner, tier: CacheTier, group: u32, external_hash: u64)
        -> Option<u64> {
        let key = BlockCopy {
            hash: external_hash,
            copy: PhysicalCopy { owner, tier, group },
        };
        if self.external_copies.contains_key(key) {
            Some(self.external_copies[key].0)
        } else {
            None
        }
    }

    pub open spec fn store_mapped(
        self,
        owner: CacheOwner,
        tier: CacheTier,
        group: u32,
        external_hash: u64,
        sequence_hash: u64,
    ) -> LedgerView {
        let copy = PhysicalCopy { owner, tier, group };
        let external_key = BlockCopy { hash: external_hash, copy };
        let key = BlockCopy { hash: sequence_hash, copy };
        let mapped = self.mapped(owner, tier, group, external_hash);
        if mapped is Some && mapped != Some(sequence_hash) {
            self.mark_telemetry_incomplete()
        } else {
            let announced: u32 = if mapped is Some {
                self.external_copies[external_key].1
            } else {
                0
            };
            let count: u32 = if self.copies.contains_key(key) {
                self.copies[key]
            } else {
                0
            };
            LedgerView {
                external_copies: self.external_copies.insert(
                    external_key,
                    (sequence_hash, bump(announced)),
                ),
                copies: self.copies.insert(key, bump(count)),
                ..self
            }.see(sequence_hash)
        }
    }

    pub open spec fn remove_external(
        self,
        owner: CacheOwner,
        tier: CacheTier,
        group: u32,
        external_hash: u64,
    ) -> LedgerView {
        let copy = PhysicalCopy { owner, tier, group };
        let external_key = BlockCopy { hash: external_hash, copy };
        if !self.external_copies.contains_key(external_key) {
            self.mark_telemetry_incomplete()
        } else {
            let (sequence_hash, announced) = self.external_copies[external_key];
            let key = BlockCopy { hash: sequence_hash, copy };
            let released = LedgerView {
                external_copies: if announced == 1 {
                    self.external_copies.remove(external_key)
                } else {
                    self.external_copies.insert(
                        external_key,
                        (sequence_hash, (announced - 1) as u32),
                    )
                },
                ..self
            };
            if !self.copies.contains_key(key) {
                released.mark_telemetry_incomplete()
            } else if self.copies[key] == 1 {
                LedgerView { copies: self.copies.remove(key), ..released }
            } else {
                LedgerView {
                    copies: self.copies.insert(key, (self.copies[key] - 1) as u32),
                    ..released
                }
            }
        }
    }

    pub open spec fn remove_all(
        self,
        owner: CacheOwner,
        tier: CacheTier,
        group: u32,
        external_hashes: Seq<u64>,
    ) -> LedgerView
        decreases external_hashes.len(),
    {
        if external_hashes.len() == 0 {
            self
        } else {
            self.remove_all(owner, tier, group, external_hashes.drop_last()).remove_external(
                owner,
                tier,
                group,
                external_hashes.last(),
            )
        }
    }

    /// The sequence hash of a parent block, known on either tier of the owner.
    /// Tiers that disagree resolve to nothing.
    pub open spec fn parent_sequence_hash(self, owner: CacheOwner, group: u32, external_hash: u64)
        -> Option<u64> {
        let gpu = self.mapped(owner, CacheTier::Gpu, group, external_hash);
        let cpu = self.mapped(owner, CacheTier::Cpu, group, external_hash);
        if gpu is None {
            cpu
        } else if cpu is None || cpu == gpu {
            gpu
        } else {
            None
        }
    }

    /// A store of `blocks` with the sequence hashes `hashes` would give some
    /// engine hash two meanings.
    pub open spec fn store_conflicts(
        self,
        owner: CacheOwner,
        tier: CacheTier,
        group: u32,
        blocks: Seq<CacheEvidenceStoredBlock>,
        hashes: Seq<u64>,
    ) -> bool {
        exists|i: int| #[trigger] self.block_conflicts(owner, tier, group, blocks, hashes, i)
    }

    pub open spec fn block_conflicts(
        self,
        owner: CacheOwner,
        tier: CacheTier,
        group: u32,
        blocks: Seq<CacheEvidenceStoredBlock>,
        hashes: Seq<u64>,
        i: int,
    ) -> bool {
        let mapped = self.mapped(owner, tier, group, blocks[i].external_hash);
        0 <= i < blocks.len() && (mapped is Some && mapped != Some(hashes[i]) || exists|j: int|
            0 <= j < i && (#[trigger] blocks[j]).external_hash == blocks[i].external_hash
                && hashes[j] != hashes[i])
    }

    pub open spec fn store_each(
        self,
        owner: CacheOwner,
        tier: CacheTier,
        group: u32,
        blocks: Seq<CacheEvidenceStoredBlock>,
        hashes: Seq<u64>,
        count: int,
    ) -> LedgerView
        decreases count,
    {
        if count <= 0 {
            self
        } else {
            self.store_each(owner, tier, group, blocks, hashes, count - 1).store_mapped(
                owner,
                tier,
                group,
                blocks[count - 1].external_hash,
                hashes[count - 1],
            )
        }
    }

    /// One store event: all of its blocks are recorded, or none is.
    pub open spec fn store_mutation(
        self,
        owner: CacheOwner,
        tier: CacheTier,
        group: Option<u32>,
        parent_external_hash: Option<u64>,
        blocks: Seq<CacheEvidenceStoredBlock>,
    ) -> (StoreMutationResult, LedgerView) {
        match group {
            None => (StoreMutationResult::Invalid, self),
            Some(group) => {
                let parent = match parent_external_hash {
                    None => None,
                    Some(external_hash) => self.parent_sequence_hash(owner, group, external_hash),
                };
                let hashes = chain(parent, blocks);
                if parent_external_hash is Some && parent is None {
                    (StoreMutationResult::MissingParent, self)
                } else if self.store_conflicts(owner, tier, group, blocks, hashes) {
                    (StoreMutationResult::RejectedMapping, self)
                } else {
                    (
                        StoreMutationResult::Applied,
                        self.see_all(hashes).store_each(
                            owner,
                            tier,
                            group,
                            blocks,
                            hashes,
                            blocks.len() as int,
                        ),
                    )
                }
            },
        }
    }

    /// The sequence hashes that `mutation` would change.
    pub open spec fn affected_sequence_hashes(
        self,
        owner: CacheOwner,
        mutation: CacheEvidenceMutation,
    ) -> Set<u64> {
        match mutation {
            CacheEvidenceMutation::Store { group_idx, parent_external_hash, blocks, .. } =>
                match (group_idx, parent_external_hash) {
                    (None, _) => Set::empty(),
                    (Some(_), None) => chain(None, blocks@).to_set(),
                    (Some(group), Some(external_hash)) => {
                        let parent = self.parent_sequence_hash(owner, group, external_hash);
                        if parent is None {
                            Set::empty()
                        } else {
                            chain(parent, blocks@).to_set()
                        }
                    },
                },
            CacheEvidenceMutation::Remove { tier, group_idx, block_hashes } => match group_idx {
                None => Set::empty(),
                Some(group) => Set::new(
                    |hash: u64|
                        exists|i: int|
                            0 <= i < block_hashes@.len() && self.mapped(
                                owner,
                                tier,
                                group,
                                #[trigger] block_hashes@[i],
                            ) == Some(hash),
                ),
            },
            CacheEvidenceMutation::Clear { tier } => Set::new(
                |hash: u64|
                    exists|key: BlockCopy|
                        #[trigger] self.external_copies.contains_key(key) && covers(
                            owner,
                            tier,
                            key.copy,
                        ) && self.external_copies[key].0 == hash,
            ),
        }
    }

    // ---- residency ----

    pub open spec fn negative_physical_fact(self) -> KnownBool {
        if self.physical_scope_complete && self.physical_telemetry_complete {
            KnownBool::No
        } else {
            KnownBool::Unknown
        }
    }

    pub open spec fn holds_copy(self, hash: u64, owner: CacheOwner, tier: CacheTier, group: u32)
        -> bool {
        self.copies.contains_key(BlockCopy { hash, copy: PhysicalCopy { owner, tier, group } })
    }

    /// A copy on either tier.
    pub open spec fn holds_somewhere(self, hash: u64, owner: CacheOwner, group: u32) -> bool {
        self.holds_copy(hash, owner, CacheTier::Gpu, group) || self.holds_copy(
            hash,
            owner,
            CacheTier::Cpu,
            group,
        )
    }

    pub open spec fn resident_in_declared_cache(
        self,
        hash: u64,
        owner: CacheOwner,
        tier: CacheTier,
    ) -> bool {
        let key = OwnerTier { owner, tier };
        self.required_groups.contains_key(key) && self.required_groups[key] != Set::<u32>::empty()
            && forall|group: u32| #[trigger]
            self.required_groups[key].contains(group) ==> self.holds_copy(hash, owner, tier, group)
    }

    pub open spec fn resident_anywhere(self, hash: u64) -> KnownBool {
        if exists|key: OwnerTier| #[trigger]
            self.resident_in_declared_cache(hash, key.owner, key.tier) {
            KnownBool::Yes
        } else {
            self.negative_physical_fact()
        }
    }

    pub open spec fn resident_on(self, hash: u64, owner: CacheOwner) -> KnownBool {
        if self.resident_in_declared_cache(hash, owner, CacheTier::Gpu)
            || self.resident_in_declared_cache(hash, owner, CacheTier::Cpu) {
            KnownBool::Yes
        } else if self.cataloged(owner) {
            self.negative_physical_fact()
        } else {
            KnownBool::Unknown
        }
    }

    /// The group is declared on some tier of the owner.
    pub open spec fn requires_group(self, owner: CacheOwner, group: u32) -> bool {
        exists|tier: CacheTier| #[trigger]
            self.required_groups.contains_key(OwnerTier { owner, tier })
                && self.required_groups[OwnerTier { owner, tier }].contains(group)
    }

    pub open spec fn resident_groups_on(
        self,
        queries: Seq<CacheGroupBlockQuery>,
        owner: CacheOwner,
    ) -> KnownBool {
        if !self.declares_groups(owner) {
            KnownBool::Unknown
        } else if exists|group: u32| #[trigger]
            self.requires_group(owner, group) && !asks_for(queries, group) {
            KnownBool::Unknown
        } else if forall|i: int|
            #![trigger queries[i]]
            0 <= i < queries.len() && self.requires_group(owner, queries[i].group_idx)
                ==> self.holds_somewhere(queries[i].tokens_hash, owner, queries[i].group_idx) {
            KnownBool::Yes
        } else {
            self.negative_physical_fact()
        }
    }

    pub open spec fn resident_groups_anywhere(self, queries: Seq<CacheGroupBlockQuery>)
        -> KnownBool {
        if exists|owner: CacheOwner| #[trigger]
            self.cataloged(owner) && self.resident_groups_on(queries, owner) == KnownBool::Yes {
            KnownBool::Yes
        } else if (forall|owner: CacheOwner| !#[trigger] self.cataloged(owner)) || exists|
            owner: CacheOwner,
        | #[trigger]
            self.cataloged(owner) && self.resident_groups_on(queries, owner)
                == KnownBool::Unknown {
            KnownBool::Unknown
        } else {
            self.negative_physical_fact()
        }
    }

    /// Whether a block of a cache group can be read on one owner.
    pub open spec fn presence_on(self, owner: CacheOwner, group: u32, hash: u64) -> KnownBool {
        if self.holds_somewhere(hash, owner, group) {
            KnownBool::Yes
        } else if self.cataloged(owner) {
            self.negative_physical_fact()
        } else {
            KnownBool::Unknown
        }
    }
}

/// Reusable and resident prefixes of a request.
impl LedgerView {
    pub open spec fn history_presence(self) -> Presence {
        |group: u32, hash: u64| self.reusable(hash)
    }

    pub open spec fn owner_presence(self, owner: CacheOwner) -> Presence {
        |group: u32, hash: u64| self.presence_on(owner, group, hash)
    }

    pub open spec fn reusable_prefix(self, groups: Seq<CacheGroupHashSequence>, max_tokens: u64)
        -> KnownPrefixLength {
        as_length(hybrid_hit(self.history_presence(), groups, max_tokens as int))
    }

    pub open spec fn resident_prefix_on(
        self,
        groups: Seq<CacheGroupHashSequence>,
        max_tokens: u64,
        owner: CacheOwner,
    ) -> KnownPrefixLength {
        as_length(hybrid_hit(self.owner_presence(owner), groups, max_tokens as int))
    }

    /// The longest prefix known to be resident on some owner; zero if none is.
    pub open spec fn is_best_known_prefix(
        self,
        groups: Seq<CacheGroupHashSequence>,
        max_tokens: u64,
        best: u64,
    ) -> bool {
        &&& forall|owner: CacheOwner| #[trigger]
            self.cataloged(owner) ==> match self.resident_prefix_on(groups, max_tokens, owner) {
                KnownPrefixLength::Known(tokens) => tokens <= best,
                KnownPrefixLength::Unknown => true,
            }
        &&& best == 0 || exists|owner: CacheOwner| #[trigger]
            self.cataloged(owner) && self.resident_prefix_on(groups, max_tokens, owner)
                == KnownPrefixLength::Known(best)
    }

    /// The longest prefix resident on any owner. If an owner that is not fully
    /// known could exceed the best known result, the answer is unknown.
    pub open spec fn resident_prefix_anywhere(
        self,
        groups: Seq<CacheGroupHashSequence>,
        max_tokens: u64,
    ) -> KnownPrefixLength {
        let best = choose|best: u64| self.is_best_known_prefix(groups, max_tokens, best);
        if best == max_tokens || !self.prefix_undecided(groups, max_tokens) {
            KnownPrefixLength::Known(best)
        } else {
            KnownPrefixLength::Unknown
        }
    }

    /// Some owner, or the lack of any, leaves the longest resident prefix open.
    pub open spec fn prefix_undecided(
        self,
        groups: Seq<CacheGroupHashSequence>,
        max_tokens: u64,
    ) -> bool {
        ||| forall|owner: CacheOwner| !#[trigger] self.cataloged(owner)
        ||| exists|owner: CacheOwner| #[trigger]
            self.cataloged(owner) && self.resident_prefix_on(groups, max_tokens, owner)
                == KnownPrefixLength::Unknown
    }
}

/// There is only one best known prefix.
pub proof fn lemma_best_prefix_is_unique(
    ledger: LedgerView,
    groups: Seq<CacheGroupHashSequence>,
    max_tokens: u64,
    best: u64,
)
    requires
        ledger.is_best_known_prefix(groups, max_tokens, best),
    ensures
        best == choose|b: u64| ledger.is_best_known_prefix(groups, max_tokens, b),
{
    let other = choose|b: u64| ledger.is_best_known_prefix(groups, max_tokens, b);
    assert(ledger.is_best_known_prefix(groups, max_tokens, other));
    if best > 0 {
        let owner = choose|owner: CacheOwner| #[trigger]
            ledger.cataloged(owner) && ledger.resident_prefix_on(groups, max_tokens, owner)
                == KnownPrefixLength::Known(best);
        assert(best <= other);
    }
    if other > 0 {
        let owner = choose|owner: CacheOwner| #[trigger]
            ledger.cataloged(owner) && ledger.resident_prefix_on(groups, max_tokens, owner)
                == KnownPrefixLength::Known(other);
        assert(other <= best);
    }
}

/// The place lies on the owner and, if a tier is given, on that tier.
pub open spec fn covers(owner: CacheOwner, tier: Option<CacheTier>, copy: PhysicalCopy) -> bool {
    copy.owner == owner && (tier is None || tier == Some(copy.tier))
}

/// Some query is about the group.
pub open spec fn asks_for(queries: Seq<CacheGroupBlockQuery>, group: u32) -> bool {
    exists|i: int| 0 <= i < queries.len() && (#[trigger] queries[i]).group_idx == group
}

/// The rolling hash of a block below `parent`; a root block is its own hash.
pub open spec fn chained(parent: Option<u64>, tokens_hash: u64) -> u64 {
    match parent {
        None => tokens_hash,
        Some(parent) => next_seq_hash(parent, tokens_hash),
    }
}

/// The rolling sequence hashes of consecutive blocks below `parent`.
pub open spec fn chain(parent: Option<u64>, blocks: Seq<CacheEvidenceStoredBlock>) -> Seq<u64>
    decreases blocks.len(),
{
    if blocks.len() == 0 {
        Seq::empty()
    } else {
        let above = chain(parent, blocks.drop_last());
        let previous = if above.len() == 0 {
            parent
        } else {
            Some(above.last())
        };
        above.push(chained(previous, blocks.last().tokens_hash))
    }
}

// ---- batches ----

/// A ledger and the failures met so far while a batch is applied to it.
#[verifier::ext_equal]
pub struct Applied {
    pub ledger: LedgerView,
    pub failures: Set<CacheEvidenceApplyIntegrityFailure>,
}

impl Applied {
    /// Every failure also voids the completeness of the telemetry.
    pub open spec fn fail(self, failure: CacheEvidenceApplyIntegrityFailure) -> Applied {
        Applied {
            ledger: self.ledger.mark_telemetry_incomplete(),
            failures: self.failures.insert(failure),
        }
    }
}

pub open spec fn is_store(mutation: CacheEvidenceMutation) -> bool {
    mutation is Store
}

/// Names a group that can be stored to at once: its parent is absent or known.
pub open spec fn is_ready(
    ledger: LedgerView,
    owner: CacheOwner,
    mutation: CacheEvidenceMutation,
) -> bool {
    match mutation {
        CacheEvidenceMutation::Store { group_idx: Some(group), parent_external_hash, .. } =>
            match parent_external_hash {
                None => true,
                Some(parent) => ledger.parent_sequence_hash(owner, group, parent) is Some,
            },
        _ => false,
    }
}

pub open spec fn is_waiting(
    ledger: LedgerView,
    owner: CacheOwner,
    mutation: CacheEvidenceMutation,
) -> bool {
    mutation matches CacheEvidenceMutation::Store { group_idx: Some(_), .. } && !is_ready(
        ledger,
        owner,
        mutation,
    )
}

/// The store chains from the given block of the given group.
pub open spec fn depends_on(mutation: CacheEvidenceMutation, group: u32, external_hash: u64)
    -> bool {
    match mutation {
        CacheEvidenceMutation::Store { group_idx, parent_external_hash, .. } => group_idx == Some(
            group,
        ) && parent_external_hash == Some(external_hash),
        _ => false,
    }
}

/// Positions below `count` whose mutation is ready (or waiting), in order.
pub open spec fn positions(
    ledger: LedgerView,
    owner: CacheOwner,
    run: Seq<CacheEvidenceMutation>,
    ready: bool,
    count: int,
) -> Seq<usize>
    decreases count,
{
    if count <= 0 {
        Seq::empty()
    } else {
        let before = positions(ledger, owner, run, ready, count - 1);
        let wanted = if ready {
            is_ready(ledger, owner, run[count - 1])
        } else {
            is_waiting(ledger, owner, run[count - 1])
        };
        if wanted {
            before.push((count - 1) as usize)
        } else {
            before
        }
    }
}

/// Of the waiting positions, those that chain from a block (or do not).
pub open spec fn dependents(
    run: Seq<CacheEvidenceMutation>,
    waiting: Seq<usize>,
    group: u32,
    external_hash: u64,
    dependent: bool,
) -> Seq<usize>
    decreases waiting.len(),
{
    if waiting.len() == 0 {
        Seq::empty()
    } else {
        let before = dependents(run, waiting.drop_last(), group, external_hash, dependent);
        if depends_on(run[waiting.last() as int], group, external_hash) == dependent {
            before.push(waiting.last())
        } else {
            before
        }
    }
}

/// The ready queue and the waiting list once the first `count` of the stored
/// blocks have released the stores that chain from them.
pub open spec fn unlock(
    run: Seq<CacheEvidenceMutation>,
    group: u32,
    blocks: Seq<CacheEvidenceStoredBlock>,
    count: int,
    ready: Seq<usize>,
    waiting: Seq<usize>,
) -> (Seq<usize>, Seq<usize>)
    decreases count,
{
    if count <= 0 {
        (ready, waiting)
    } else {
        let (r, w) = unlock(run, group, blocks, count - 1, ready, waiting);
        let external_hash = blocks[count - 1].external_hash;
        (
            r + dependents(run, w, group, external_hash, true),
            dependents(run, w, group, external_hash, false),
        )
    }
}

pub proof fn lemma_dependents_partition(
    run: Seq<CacheEvidenceMutation>,
    waiting: Seq<usize>,
    group: u32,
    external_hash: u64,
)
    ensures
        dependents(run, waiting, group, external_hash, true).len() + dependents(
            run,
            waiting,
            group,
            external_hash,
            false,
        ).len() == waiting.len(),
    decreases waiting.len(),
{
    if waiting.len() > 0 {
        lemma_dependents_partition(run, waiting.drop_last(), group, external_hash);
    }
}

/// Releasing stores loses none of them and invents none.
pub proof fn lemma_unlock_len(
    run: Seq<CacheEvidenceMutation>,
    group: u32,
    blocks: Seq<CacheEvidenceStoredBlock>,
    count: int,
    ready: Seq<usize>,
    waiting: Seq<usize>,
)
    ensures
        unlock(run, group, blocks, count, ready, waiting).0.len() + unlock(
            run,
            group,
            blocks,
            count,
            ready,
            waiting,
        ).1.len() == ready.len() + waiting.len(),
    decreases count,
{
    if count > 0 {
        lemma_unlock_len(run, group, blocks, count - 1, ready, waiting);
        let (_, w) = unlock(run, group, blocks, count - 1, ready, waiting);
        lemma_dependents_partition(run, w, group, blocks[count - 1].external_hash);
    }
}

/// Works off the ready queue in order. A store that is applied releases the
/// stores that chain from its blocks; a store that is refused releases none.
/// Stores that are never released have lost their parent.
pub open spec fn drain(
    state: Applied,
    owner: CacheOwner,
    run: Seq<CacheEvidenceMutation>,
    ready: Seq<usize>,
    waiting: Seq<usize>,
) -> Applied
    decreases ready.len() + waiting.len(),
    via drain_terminates
{
    if ready.len() == 0 {
        if waiting.len() == 0 {
            state
        } else {
            state.fail(CacheEvidenceApplyIntegrityFailure::MissingParent)
        }
    } else {
        let rest = ready.drop_first();
        match run[ready[0] as int] {
            CacheEvidenceMutation::Store {
                tier,
                group_idx: Some(group),
                parent_external_hash,
                blocks,
            } => {
                let (result, ledger) = state.ledger.store_mutation(
                    owner,
                    tier,
                    Some(group),
                    parent_external_hash,
                    blocks@,
                );
                match result {
                    StoreMutationResult::Applied => {
                        let (r, w) = unlock(
                            run,
                            group,
                            blocks@,
                            blocks@.len() as int,
                            rest,
                            waiting,
                        );
                        drain(Applied { ledger, ..state }, owner, run, r, w)
                    },
                    StoreMutationResult::MissingParent => drain(
                        state.fail(CacheEvidenceApplyIntegrityFailure::MissingParent),
                        owner,
                        run,
                        rest,
                        waiting,
                    ),
                    StoreMutationResult::RejectedMapping => drain(
                        state.fail(CacheEvidenceApplyIntegrityFailure::ConflictingMapping),
                        owner,
                        run,
                        rest,
                        waiting,
                    ),
                    StoreMutationResult::Invalid => drain(
                        state.fail(CacheEvidenceApplyIntegrityFailure::MissingGroup),
                        owner,
                        run,
                        rest,
                        waiting,
                    ),
                }
            },
            _ => drain(state, owner, run, rest, waiting),
        }
    }
}

#[via_fn]
proof fn drain_terminates(
    state: Applied,
    owner: CacheOwner,
    run: Seq<CacheEvidenceMutation>,
    ready: Seq<usize>,
    waiting: Seq<usize>,
) {
    if ready.len() > 0 {
        match run[ready[0] as int] {
            CacheEvidenceMutation::Store { group_idx: Some(group), blocks, .. } => {
                lemma_unlock_len(
                    run,
                    group,
                    blocks@,
                    blocks@.len() as int,
                    ready.drop_first(),
                    waiting,
                );
            },
            _ => {},
        }
    }
}

pub open spec fn lacks_group(mutation: CacheEvidenceMutation) -> bool {
    mutation matches CacheEvidenceMutation::Store { group_idx: None, .. }
}

/// A maximal run of stores. Within it the order of the events does not bind a
/// child to come after its parent.
pub open spec fn apply_store_run(
    state: Applied,
    owner: CacheOwner,
    run: Seq<CacheEvidenceMutation>,
) -> Applied {
    let screened = if exists|i: int| 0 <= i < run.len() && lacks_group(#[trigger] run[i]) {
        state.fail(CacheEvidenceApplyIntegrityFailure::MissingGroup)
    } else {
        state
    };
    drain(
        screened,
        owner,
        run,
        positions(state.ledger, owner, run, true, run.len() as int),
        positions(state.ledger, owner, run, false, run.len() as int),
    )
}

/// Where the run of stores that starts at `from` ends.
pub open spec fn run_end(mutations: Seq<CacheEvidenceMutation>, from: int) -> int
    decreases mutations.len() - from,
{
    if 0 <= from < mutations.len() && is_store(mutations[from]) {
        run_end(mutations, from + 1)
    } else {
        from
    }
}

pub proof fn lemma_run_end(mutations: Seq<CacheEvidenceMutation>, from: int)
    requires
        0 <= from <= mutations.len(),
    ensures
        from <= run_end(mutations, from) <= mutations.len(),
        from < mutations.len() && is_store(mutations[from]) ==> from < run_end(mutations, from),
    decreases mutations.len() - from,
{
    if from < mutations.len() && is_store(mutations[from]) {
        lemma_run_end(mutations, from + 1);
    }
}

/// The mutations from `from` on, in order, stores grouped into maximal runs.
pub open spec fn apply_mutations(
    state: Applied,
    owner: CacheOwner,
    mutations: Seq<CacheEvidenceMutation>,
    from: int,
) -> Applied
    decreases mutations.len() - from,
    when 0 <= from <= mutations.len()
    via apply_mutations_terminates
{
    if from >= mutations.len() {
        state
    } else {
        match mutations[from] {
            CacheEvidenceMutation::Store { .. } => {
                let end = run_end(mutations, from);
                apply_mutations(
                    apply_store_run(state, owner, mutations.subrange(from, end)),
                    owner,
                    mutations,
                    end,
                )
            },
            CacheEvidenceMutation::Remove { tier, group_idx, block_hashes } => {
                let next = match group_idx {
                    None => state.fail(CacheEvidenceApplyIntegrityFailure::MissingGroup),
                    Some(group) => Applied {
                        ledger: state.ledger.remove_all(owner, tier, group, block_hashes@),
                        ..state
                    },
                };
                apply_mutations(next, owner, mutations, from + 1)
            },
            CacheEvidenceMutation::Clear { tier } => apply_mutations(
                Applied { ledger: state.ledger.clear(owner, tier), ..state },
                owner,
                mutations,
                from + 1,
            ),
        }
    }
}

#[via_fn]
proof fn apply_mutations_terminates(
    state: Applied,
    owner: CacheOwner,
    mutations: Seq<CacheEvidenceMutation>,
    from: int,
) {
    lemma_run_end(mutations, from);
}

/// A batch before its first mutation. Its own completeness is judged apart
/// from what came before.
pub open spec fn admitted(ledger: LedgerView, telemetry_complete: bool) -> Applied {
    let start = Applied {
        ledger: LedgerView { physical_telemetry_complete: true, ..ledger },
        failures: Set::empty(),
    };
    if telemetry_complete {
        start
    } else {
        start.fail(CacheEvidenceApplyIntegrityFailure::IncompleteBatch)
    }
}

/// One batch. The telemetry stays complete only if it was and the batch is.
pub open spec fn apply_batch(
    ledger: LedgerView,
    owner: CacheOwner,
    telemetry_complete: bool,
    mutations: Seq<CacheEvidenceMutation>,
) -> Applied {
    let end = apply_mutations(admitted(ledger, telemetry_complete), owner, mutations, 0);
    Applied {
        ledger: LedgerView {
            physical_telemetry_complete: ledger.physical_telemetry_complete
                && end.ledger.physical_telemetry_complete,
            ..end.ledger
        },
        ..end
    }
}

} // verus!
