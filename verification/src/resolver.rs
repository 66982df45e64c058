//! Resolving stores that name blocks by engine hash alone.
//!
//! A store on CPU may come without tokens. Its blocks are then those that the
//! same source stored on GPU under the same engine hashes before. A hash that
//! ever stood for two different blocks is of no use to anyone.

use std::collections::{HashMap, HashSet};
use vstd::prelude::*;

use crate::evidence::{CacheEvidenceStoredBlock, CacheOwner};
use crate::table::{Same, Table, TableKey};

verus! {

broadcast use vstd::std_specs::hash::group_hash_axioms;

/// How many engine hashes a source may have at once.
pub const MAX_EVIDENCE_HASH_MAPPINGS: usize = 4_000_000;

#[derive(Clone, Copy, Debug, PartialEq, Eq, Structural)]
pub enum EvidenceHashMapping {
    Known(CacheEvidenceStoredBlock),
    Ambiguous,
}

#[derive(Clone, Copy, Debug, PartialEq, Eq, Structural)]
pub enum EvidenceMutationError {
    Invalid,
    UnresolvedHash,
    AmbiguousHash,
    MappingOverflow,
}

impl EvidenceMutationError {
    pub open spec fn label(self) -> Seq<char> {
        match self {
            Self::Invalid => "evidence_conversion_error"@,
            Self::UnresolvedHash => "evidence_hash_unresolved"@,
            Self::AmbiguousHash => "evidence_hash_ambiguous"@,
            Self::MappingOverflow => "evidence_hash_mapping_overflow"@,
        }
    }

    pub fn metric_reason(self) -> (reason: &'static str)
        ensures
            reason@ == self.label(),
    {
        match self {
            Self::Invalid => "evidence_conversion_error",
            Self::UnresolvedHash => "evidence_hash_unresolved",
            Self::AmbiguousHash => "evidence_hash_ambiguous",
            Self::MappingOverflow => "evidence_hash_mapping_overflow",
        }
    }
}

/// An engine hash in its scope. DP ranks may share one source, and hashes may
/// repeat across cache groups.
#[derive(Clone, Copy, Debug, PartialEq, Eq, Structural)]
pub struct HashScope {
    pub owner: CacheOwner,
    pub group: u32,
    pub external_hash: u64,
}

impl Same for HashScope {
    fn same(self, other: Self) -> (b: bool) {
        self == other
    }
}

impl TableKey for HashScope {
    open spec fn bucket_of(self) -> u64 {
        self.external_hash
    }

    fn bucket(self) -> (b: u64) {
        self.external_hash
    }
}

// ---- model ----

#[verifier::ext_equal]
pub struct ResolverView {
    pub mappings: Map<HashScope, EvidenceHashMapping>,
    pub capacity: nat,
}

pub open spec fn scope(owner: CacheOwner, group: u32, external_hash: u64) -> HashScope {
    HashScope { owner, group, external_hash }
}

/// Some block has the engine hash.
pub open spec fn names(blocks: Seq<CacheEvidenceStoredBlock>, external_hash: u64) -> bool {
    exists|i: int| 0 <= i < blocks.len() && (#[trigger] blocks[i]).external_hash == external_hash
}

/// Two blocks differ under one engine hash.
pub open spec fn contradicts(blocks: Seq<CacheEvidenceStoredBlock>, external_hash: u64) -> bool {
    exists|i: int, j: int|
        0 <= i < blocks.len() && 0 <= j < blocks.len() && (#[trigger] blocks[i]).external_hash
            == external_hash && (#[trigger] blocks[j]).external_hash == external_hash && blocks[i]
            != blocks[j]
}

/// The last block with the engine hash.
pub open spec fn last_named(blocks: Seq<CacheEvidenceStoredBlock>, external_hash: u64)
    -> CacheEvidenceStoredBlock
    decreases blocks.len(),
{
    if blocks.len() == 0 || blocks.last().external_hash == external_hash {
        blocks.last()
    } else {
        last_named(blocks.drop_last(), external_hash)
    }
}

impl ResolverView {
    pub open spec fn inv(self) -> bool {
        self.mappings.dom().finite() && self.mappings.dom().len() <= self.capacity
    }

    /// A block contradicts what the engine hash is known to stand for.
    pub open spec fn refutes(
        self,
        owner: CacheOwner,
        group: u32,
        blocks: Seq<CacheEvidenceStoredBlock>,
        external_hash: u64,
    ) -> bool {
        let key = scope(owner, group, external_hash);
        exists|i: int|
            0 <= i < blocks.len() && (#[trigger] blocks[i]).external_hash == external_hash
                && self.mappings.contains_key(key) && self.mappings[key]
                != EvidenceHashMapping::Known(blocks[i])
    }

    /// The engine hash cannot be given one meaning.
    pub open spec fn ambiguous(
        self,
        owner: CacheOwner,
        group: u32,
        blocks: Seq<CacheEvidenceStoredBlock>,
        external_hash: u64,
    ) -> bool {
        contradicts(blocks, external_hash) || self.refutes(owner, group, blocks, external_hash)
    }

    pub open spec fn ambiguous_hashes(
        self,
        owner: CacheOwner,
        group: u32,
        blocks: Seq<CacheEvidenceStoredBlock>,
    ) -> Set<u64> {
        Set::new(|external_hash: u64| self.ambiguous(owner, group, blocks, external_hash))
    }

    pub open spec fn is_new(self, owner: CacheOwner, group: u32, external_hash: u64) -> bool {
        !self.mappings.contains_key(scope(owner, group, external_hash))
    }

    /// How many of the hashes are new.
    pub open spec fn new_count(self, owner: CacheOwner, group: u32, hashes: Set<u64>) -> nat {
        hashes.filter(|external_hash: u64| self.is_new(owner, group, external_hash)).len()
    }

    /// So many more mappings would be too many.
    pub open spec fn overflows(self, additional: nat) -> bool {
        self.mappings.dom().len() + additional > self.capacity
    }

    /// The hashes are marked ambiguous, those that are new only if wanted.
    pub open spec fn quarantine(
        self,
        owner: CacheOwner,
        group: u32,
        hashes: Set<u64>,
        new_too: bool,
    ) -> ResolverView {
        let marked = |key: HashScope|
            key.owner == owner && key.group == group && hashes.contains(key.external_hash) && (
            new_too || self.mappings.contains_key(key));
        ResolverView {
            mappings: Map::new(
                |key: HashScope| self.mappings.contains_key(key) || marked(key),
                |key: HashScope|
                    if marked(key) {
                        EvidenceHashMapping::Ambiguous
                    } else {
                        self.mappings[key]
                    },
            ),
            ..self
        }
    }

    /// The blocks' hashes become known, as far as they were not.
    pub open spec fn remember(
        self,
        owner: CacheOwner,
        group: u32,
        blocks: Seq<CacheEvidenceStoredBlock>,
    ) -> ResolverView {
        let added = |key: HashScope|
            key.owner == owner && key.group == group && names(blocks, key.external_hash)
                && !self.mappings.contains_key(key);
        ResolverView {
            mappings: Map::new(
                |key: HashScope| self.mappings.contains_key(key) || added(key),
                |key: HashScope|
                    if added(key) {
                        EvidenceHashMapping::Known(last_named(blocks, key.external_hash))
                    } else {
                        self.mappings[key]
                    },
            ),
            ..self
        }
    }

    pub open spec fn named_hashes(blocks: Seq<CacheEvidenceStoredBlock>) -> Set<u64> {
        Set::new(|external_hash: u64| names(blocks, external_hash))
    }

    pub open spec fn learn_gpu(
        self,
        owner: CacheOwner,
        group: u32,
        blocks: Seq<CacheEvidenceStoredBlock>,
    ) -> (ResolverView, Result<(), EvidenceMutationError>) {
        let ambiguous = self.ambiguous_hashes(owner, group, blocks);
        if ambiguous != Set::<u64>::empty() {
            if self.overflows(self.new_count(owner, group, ambiguous)) {
                (
                    self.quarantine(owner, group, ambiguous, false),
                    Err(EvidenceMutationError::MappingOverflow),
                )
            } else {
                (
                    self.quarantine(owner, group, ambiguous, true),
                    Err(EvidenceMutationError::AmbiguousHash),
                )
            }
        } else if self.overflows(self.new_count(owner, group, Self::named_hashes(blocks))) {
            (self, Err(EvidenceMutationError::MappingOverflow))
        } else {
            (self.remember(owner, group, blocks), Ok(()))
        }
    }

    /// Why a hash cannot be resolved, if it cannot.
    pub open spec fn hash_error(self, owner: CacheOwner, group: u32, external_hash: u64) -> Option<
        EvidenceMutationError,
    > {
        let key = scope(owner, group, external_hash);
        if !self.mappings.contains_key(key) {
            Some(EvidenceMutationError::UnresolvedHash)
        } else {
            match self.mappings[key] {
                EvidenceHashMapping::Ambiguous => Some(EvidenceMutationError::AmbiguousHash),
                EvidenceHashMapping::Known(_) => None,
            }
        }
    }

    /// The first reason, in order, why the hashes cannot all be resolved.
    pub open spec fn first_error(
        self,
        owner: CacheOwner,
        group: u32,
        hashes: Seq<u64>,
        from: int,
    ) -> Option<EvidenceMutationError>
        decreases hashes.len() - from,
    {
        if from >= hashes.len() || from < 0 {
            None
        } else if self.hash_error(owner, group, hashes[from]) is Some {
            self.hash_error(owner, group, hashes[from])
        } else {
            self.first_error(owner, group, hashes, from + 1)
        }
    }

    pub open spec fn block_of(self, owner: CacheOwner, group: u32, external_hash: u64)
        -> CacheEvidenceStoredBlock {
        self.mappings[scope(owner, group, external_hash)]->Known_0
    }

    pub open spec fn resolve_cpu(self, owner: CacheOwner, group: u32, hashes: Seq<u64>) -> Result<
        Seq<CacheEvidenceStoredBlock>,
        EvidenceMutationError,
    > {
        match self.first_error(owner, group, hashes, 0) {
            Some(error) => Err(error),
            None => Ok(
                Seq::new(hashes.len(), |i: int| self.block_of(owner, group, hashes[i])),
            ),
        }
    }

    pub open spec fn clear_owner(self, owner: CacheOwner) -> ResolverView {
        ResolverView {
            mappings: self.mappings.restrict(Set::new(|key: HashScope| key.owner != owner)),
            ..self
        }
    }

    pub open spec fn clear(self) -> ResolverView {
        ResolverView { mappings: Map::empty(), ..self }
    }
}

// ---- resolver ----

pub struct EvidenceHashResolver {
    mappings: Table<HashScope, EvidenceHashMapping>,
    len: usize,
    capacity: usize,
}

impl View for EvidenceHashResolver {
    type V = ResolverView;

    closed spec fn view(&self) -> ResolverView {
        ResolverView { mappings: self.mappings@, capacity: self.capacity as nat }
    }
}

impl EvidenceHashResolver {
    pub closed spec fn wf(&self) -> bool {
        &&& self.mappings.wf()
        &&& self@.inv()
        &&& self.len == self.mappings@.dom().len()
    }

    pub fn new(capacity: usize) -> (resolver: Self)
        ensures
            resolver.wf(),
            resolver@ == (ResolverView { mappings: Map::empty(), capacity: capacity as nat }),
    {
        let resolver = EvidenceHashResolver { mappings: Table::new(), len: 0, capacity };
        assert(resolver@.mappings.dom() =~= Set::<HashScope>::empty());
        resolver
    }

    /// How many hashes are mapped.
    pub fn len(&self) -> (n: usize)
        requires
            self.wf(),
        ensures
            n == self@.mappings.dom().len(),
    {
        self.len
    }

    pub fn is_empty(&self) -> (empty: bool)
        requires
            self.wf(),
        ensures
            empty == (self@.mappings.dom().len() == 0),
    {
        self.len == 0
    }

    pub fn clear(&mut self)
        requires
            old(self).wf(),
        ensures
            final(self).wf(),
            final(self)@ == old(self)@.clear(),
    {
        self.mappings = Table::new();
        self.len = 0;
        assert(self@.mappings.dom() =~= Set::<HashScope>::empty());
    }

    pub fn clear_owner(&mut self, owner: CacheOwner)
        requires
            old(self).wf(),
        ensures
            final(self).wf(),
            final(self)@ == old(self)@.clear_owner(owner),
    {
        let keep = |key: HashScope| -> (r: bool)
            ensures
                r == (key.owner != owner),
            { key.owner != owner };
        let ghost kept = |key: HashScope| key.owner != owner;
        self.mappings.retain(keep, Ghost(kept));
        self.len = self.mappings.len();
        proof {
            assert(self@ =~= old(self)@.clear_owner(owner));
            assert(self@.mappings.dom().subset_of(old(self)@.mappings.dom()));
            vstd::set_lib::lemma_len_subset(self@.mappings.dom(), old(self)@.mappings.dom());
        }
    }

    /// Of distinct hashes, those without a mapping.
    fn new_hashes(&self, owner: CacheOwner, group: u32, hashes: &Vec<u64>) -> (fresh: Vec<u64>)
        requires
            self.wf(),
            hashes@.no_duplicates(),
        ensures
            fresh@.no_duplicates(),
            fresh@.to_set() == hashes@.to_set().filter(
                |external_hash: u64| self@.is_new(owner, group, external_hash),
            ),
            fresh@.len() == self@.new_count(owner, group, hashes@.to_set()),
    {
        let mut fresh: Vec<u64> = Vec::new();
        let mut i: usize = 0;
        while i < hashes.len()
            invariant
                i <= hashes@.len(),
                self.wf(),
                hashes@.no_duplicates(),
                fresh@.no_duplicates(),
                forall|h: u64| #[trigger]
                    fresh@.contains(h) <==> self@.is_new(owner, group, h) && exists|j: int|
                        0 <= j < i && #[trigger] hashes@[j] == h,
            decreases hashes@.len() - i,
        {
            let hash: u64 = hashes[i];
            let ghost before = fresh@;
            if !self.mappings.contains_key(HashScope { owner, group, external_hash: hash }) {
                proof {
                    if before.contains(hash) {
                        let j = choose|j: int| 0 <= j < i && #[trigger] hashes@[j] == hash;
                        assert(hashes@[j] != hashes@[i as int]);
                    }
                }
                fresh.push(hash);
                assert(fresh@[before.len() as int] == hash);
            }
            proof {
                assert forall|h: u64| #[trigger]
                    fresh@.contains(h) <==> self@.is_new(owner, group, h) && exists|j: int|
                        0 <= j < i + 1 && #[trigger] hashes@[j] == h by {
                    if before.contains(h) {
                        let n = choose|n: int| 0 <= n < before.len() && before[n] == h;
                        assert(fresh@[n] == h);
                    }
                    if fresh@.contains(h) && h != hash {
                        let n = choose|n: int| 0 <= n < fresh@.len() && fresh@[n] == h;
                        assert(before[n] == h);
                        assert(before.contains(h));
                    }
                    if fresh@.contains(h) && h == hash {
                        assert(hashes@[i as int] == h);
                    }
                    if exists|j: int| 0 <= j < i + 1 && #[trigger] hashes@[j] == h {
                        let j = choose|j: int| 0 <= j < i + 1 && #[trigger] hashes@[j] == h;
                        if j < i && self@.is_new(owner, group, h) {
                            assert(before.contains(h));
                        }
                    }
                }
            }
            i = i + 1;
        }
        proof {
            let wanted = hashes@.to_set().filter(
                |external_hash: u64| self@.is_new(owner, group, external_hash),
            );
            assert forall|h: u64| fresh@.to_set().contains(h) == wanted.contains(h) by {
                if wanted.contains(h) {
                    let j = choose|j: int| 0 <= j < hashes@.len() && hashes@[j] == h;
                    assert(hashes@[j] == h);
                    assert(fresh@.contains(h));
                }
                if fresh@.contains(h) {
                    let j = choose|j: int| 0 <= j < i && #[trigger] hashes@[j] == h;
                    assert(hashes@.contains(hashes@[j]));
                }
            }
            assert(fresh@.to_set() =~= wanted);
            fresh@.unique_seq_to_set();
        }
        fresh
    }

    /// Marks hashes ambiguous: those that are mapped, or those that are new.
    fn mark_ambiguous(&mut self, owner: CacheOwner, group: u32, hashes: &Vec<u64>, new: bool)
        requires
            old(self).wf(),
            hashes@.no_duplicates(),
            new ==> forall|j: int| 0 <= j < hashes@.len() ==> old(self)@.is_new(
                owner,
                group,
                #[trigger] hashes@[j],
            ),
            new ==> old(self)@.mappings.dom().len() + hashes@.len() <= old(self)@.capacity,
        ensures
            final(self).wf(),
            final(self)@ == old(self)@.quarantine(owner, group, hashes@.to_set(), new),
    {
        let mut i: usize = 0;
        while i < hashes.len()
            invariant
                i <= hashes@.len(),
                self.wf(),
                self.capacity == old(self).capacity,
                hashes@.no_duplicates(),
                new ==> forall|j: int| 0 <= j < hashes@.len() ==> old(self)@.is_new(
                    owner,
                    group,
                    #[trigger] hashes@[j],
                ),
                new ==> old(self)@.mappings.dom().len() + hashes@.len() <= old(self)@.capacity,
                self.len == old(self).len + if new { i as int } else { 0 },
                old(self).len == old(self)@.mappings.dom().len(),
                forall|key: HashScope| #[trigger]
                    self.mappings@.contains_key(key) <==> old(self).mappings@.contains_key(key) || (
                    new && key.owner == owner && key.group == group && exists|j: int|
                        0 <= j < i && #[trigger] hashes@[j] == key.external_hash),
                forall|key: HashScope| #[trigger]
                    self.mappings@.contains_key(key) ==> self.mappings@[key] == if key.owner
                        == owner && key.group == group && exists|j: int|
                        0 <= j < i && #[trigger] hashes@[j] == key.external_hash {
                        EvidenceHashMapping::Ambiguous
                    } else {
                        old(self).mappings@[key]
                    },
            decreases hashes@.len() - i,
        {
            let key = HashScope { owner, group, external_hash: hashes[i] };
            let ghost before = self.mappings@;
            proof {
                if new && before.contains_key(key) {
                    assert(old(self)@.is_new(owner, group, hashes@[i as int]));
                    let j = choose|j: int| 0 <= j < i && #[trigger] hashes@[j] == key.external_hash;
                    assert(hashes@[j] != hashes@[i as int]);
                }
            }
            if new {
                self.mappings.insert(key, EvidenceHashMapping::Ambiguous);
                self.len = self.len + 1;
                proof {
                    assert(self.mappings@.dom() =~= before.dom().insert(key));
                }
            } else if self.mappings.contains_key(key) {
                self.mappings.insert(key, EvidenceHashMapping::Ambiguous);
                proof {
                    assert(self.mappings@.dom() =~= before.dom());
                }
            }
            i = i + 1;
            proof {
                assert(hashes@[i - 1] == key.external_hash);
            }
        }
        proof {
            let set = hashes@.to_set();
            assert forall|h: u64| set.contains(h) == (exists|j: int|
                0 <= j < i && #[trigger] hashes@[j] == h) by {
                if set.contains(h) {
                    let j = choose|j: int| 0 <= j < hashes@.len() && hashes@[j] == h;
                    assert(hashes@[j] == h);
                }
            }
            assert(self@ =~= old(self)@.quarantine(owner, group, set, new));
        }
    }

    /// Learns what engine hashes stand for from a store on GPU. Nothing is
    /// learned from a store that does not fit or contradicts anything; hashes
    /// that it makes ambiguous stay so.
    pub fn learn_gpu(
        &mut self,
        owner: CacheOwner,
        group: u32,
        blocks: &Vec<CacheEvidenceStoredBlock>,
    ) -> (result: Result<(), EvidenceMutationError>)
        requires
            old(self).wf(),
        ensures
            final(self).wf(),
            (final(self)@, result) == old(self)@.learn_gpu(owner, group, blocks@),
    {
        let mut pending: HashMap<u64, CacheEvidenceStoredBlock> = HashMap::new();
        let mut named: Vec<u64> = Vec::new();
        let mut ambiguous: HashSet<u64> = HashSet::new();
        let mut ambiguous_list: Vec<u64> = Vec::new();
        let mut i: usize = 0;
        while i < blocks.len()
            invariant
                i <= blocks@.len(),
                self.wf(),
                self@ == old(self)@,
                named@.no_duplicates(),
                ambiguous_list@.no_duplicates(),
                forall|h: u64| #[trigger]
                    pending@.contains_key(h) <==> names(blocks@.take(i as int), h),
                forall|h: u64| #[trigger]
                    pending@.contains_key(h) ==> pending@[h] == last_named(
                        blocks@.take(i as int),
                        h,
                    ),
                forall|h: u64| #[trigger] named@.contains(h) <==> pending@.contains_key(h),
                forall|h: u64| #[trigger] ambiguous_list@.contains(h) <==> ambiguous@.contains(h),
                forall|h: u64| #[trigger]
                    ambiguous@.contains(h) <==> self@.ambiguous(
                        owner,
                        group,
                        blocks@.take(i as int),
                        h,
                    ),
            decreases blocks@.len() - i,
        {
            let block = blocks[i];
            let hash: u64 = block.external_hash;
            let ghost front = blocks@.take(i as int);
            let ghost whole = blocks@.take(i + 1);
            let key = HashScope { owner, group, external_hash: hash };
            proof {
                assert(whole =~= front.push(block));
                assert(whole.drop_last() =~= front);
            }
            let previous = pending.insert(hash, block);
            let changed = match previous {
                None => {
                    let ghost before = named@;
                    named.push(hash);
                    proof {
                        lemma_pushed(before, hash);
                    }
                    false
                },
                Some(previous) => previous != block,
            };
            let refuted = match self.mappings.get(key) {
                None => false,
                Some(EvidenceHashMapping::Known(existing)) => *existing != block,
                Some(EvidenceHashMapping::Ambiguous) => true,
            };
            proof {
                lemma_ambiguity_step(self@, owner, group, front, block, hash);
                assert(changed ==> last_named(front, hash) != block);
                assert forall|h: u64| #[trigger]
                    self@.ambiguous(owner, group, whole, h) == (self@.ambiguous(
                        owner,
                        group,
                        front,
                        h,
                    ) || (h == hash && (changed || refuted))) by {
                    lemma_ambiguity_step(self@, owner, group, front, block, h);
                }
                assert forall|h: u64| names(whole, h) == (names(front, h) || h == hash) by {
                    lemma_names_push(front, block, h);
                }
            }
            if changed || refuted {
                let ghost before = ambiguous_list@;
                if ambiguous.insert(hash) {
                    ambiguous_list.push(hash);
                    proof {
                        lemma_pushed(before, hash);
                    }
                }
            }
            i = i + 1;
        }
        proof {
            assert(blocks@.take(i as int) =~= blocks@);
            assert(ambiguous_list@.to_set() =~= self@.ambiguous_hashes(owner, group, blocks@));
            assert(named@.to_set() =~= ResolverView::named_hashes(blocks@));
            named@.unique_seq_to_set();
            ambiguous_list@.unique_seq_to_set();
        }
        if ambiguous_list.len() > 0 {
            let ghost set = ambiguous_list@.to_set();
            proof {
                assert(set.contains(ambiguous_list@[0]));
            }
            let fresh = self.new_hashes(owner, group, &ambiguous_list);
            self.mark_ambiguous(owner, group, &ambiguous_list, false);
            let ghost marked = self@;
            proof {
                assert(marked.mappings.dom() =~= old(self)@.mappings.dom());
            }
            if fresh.len() > self.capacity - self.len {
                return Err(EvidenceMutationError::MappingOverflow);
            }
            proof {
                assert forall|j: int| 0 <= j < fresh@.len() implies marked.is_new(
                    owner,
                    group,
                    #[trigger] fresh@[j],
                ) by {
                    assert(fresh@.to_set().contains(fresh@[j]));
                }
            }
            self.mark_ambiguous(owner, group, &fresh, true);
            proof {
                let model = old(self)@.quarantine(owner, group, set, true);
                assert(self@.mappings =~= model.mappings);
                assert(self@ =~= model);
            }
            return Err(EvidenceMutationError::AmbiguousHash);
        }
        proof {
            assert(ambiguous_list@.to_set() =~= Set::<u64>::empty());
        }
        let fresh = self.new_hashes(owner, group, &named);
        if fresh.len() > self.capacity - self.len {
            return Err(EvidenceMutationError::MappingOverflow);
        }
        proof {
            assert forall|j: int| 0 <= j < fresh@.len() implies pending@.contains_key(
                #[trigger] fresh@[j],
            ) && old(self)@.is_new(owner, group, fresh@[j]) by {
                assert(fresh@.to_set().contains(fresh@[j]));
                assert(named@.to_set().contains(fresh@[j]));
            }
        }
        let mut n: usize = 0;
        while n < fresh.len()
            invariant
                n <= fresh@.len(),
                self.wf(),
                self.capacity == old(self).capacity,
                fresh@.no_duplicates(),
                old(self)@.mappings.dom().len() + fresh@.len() <= old(self)@.capacity,
                old(self).len == old(self)@.mappings.dom().len(),
                self.len == old(self).len + n,
                forall|j: int| 0 <= j < fresh@.len() ==> pending@.contains_key(
                    #[trigger] fresh@[j],
                ) && old(self)@.is_new(owner, group, fresh@[j]),
                forall|h: u64| #[trigger]
                    pending@.contains_key(h) ==> pending@[h] == last_named(blocks@, h),
                forall|key: HashScope| #[trigger]
                    self.mappings@.contains_key(key) <==> old(self).mappings@.contains_key(key) || (
                    key.owner == owner && key.group == group && exists|j: int|
                        0 <= j < n && #[trigger] fresh@[j] == key.external_hash),
                forall|key: HashScope| #[trigger]
                    self.mappings@.contains_key(key) ==> self.mappings@[key]
                        == if old(self).mappings@.contains_key(key) {
                        old(self).mappings@[key]
                    } else {
                        EvidenceHashMapping::Known(last_named(blocks@, key.external_hash))
                    },
            decreases fresh@.len() - n,
        {
            let hash: u64 = fresh[n];
            let key = HashScope { owner, group, external_hash: hash };
            let ghost before = self.mappings@;
            proof {
                assert(pending@.contains_key(fresh@[n as int]));
                assert(old(self)@.is_new(owner, group, fresh@[n as int]));
                if before.contains_key(key) {
                    let j = choose|j: int| 0 <= j < n && #[trigger] fresh@[j] == key.external_hash;
                    assert(fresh@[j] != fresh@[n as int]);
                }
            }
            if let Some(block) = pending.get(&hash) {
                self.mappings.insert(key, EvidenceHashMapping::Known(*block));
                self.len = self.len + 1;
                proof {
                    assert(self.mappings@.dom() =~= before.dom().insert(key));
                }
            }
            n = n + 1;
            proof {
                assert(fresh@[n - 1] == key.external_hash);
            }
        }
        proof {
            let model = old(self)@.remember(owner, group, blocks@);
            assert forall|key: HashScope| self@.mappings.contains_key(key)
                == model.mappings.contains_key(key) by {
                if key.owner == owner && key.group == group && names(blocks@, key.external_hash)
                    && !old(self)@.mappings.contains_key(key) {
                    assert(named@.contains(key.external_hash));
                    assert(fresh@.to_set().contains(key.external_hash));
                    let j = choose|j: int| 0 <= j < fresh@.len() && fresh@[j] == key.external_hash;
                    assert(fresh@[j] == key.external_hash);
                }
                if self@.mappings.contains_key(key) && !old(self)@.mappings.contains_key(key) {
                    let j = choose|j: int| 0 <= j < n && #[trigger] fresh@[j] == key.external_hash;
                    assert(fresh@.to_set().contains(fresh@[j]));
                }
            }
            assert(self@.mappings =~= model.mappings);
            assert(self@ =~= model);
        }
        Ok(())
    }

    /// The blocks that engine hashes stand for.
    pub fn resolve_cpu(&self, owner: CacheOwner, group: u32, external_hashes: &Vec<u64>) -> (result:
        Result<Vec<CacheEvidenceStoredBlock>, EvidenceMutationError>)
        requires
            self.wf(),
        ensures
            match result {
                Ok(blocks) => self@.resolve_cpu(owner, group, external_hashes@) == Ok::<
                    Seq<CacheEvidenceStoredBlock>,
                    EvidenceMutationError,
                >(blocks@),
                Err(error) => self@.resolve_cpu(owner, group, external_hashes@) == Err::<
                    Seq<CacheEvidenceStoredBlock>,
                    EvidenceMutationError,
                >(error),
            },
    {
        let mut blocks: Vec<CacheEvidenceStoredBlock> = Vec::new();
        let mut i: usize = 0;
        while i < external_hashes.len()
            invariant
                i <= external_hashes@.len(),
                self.wf(),
                blocks@.len() == i,
                forall|j: int| 0 <= j < i ==> #[trigger] blocks@[j] == self@.block_of(
                    owner,
                    group,
                    external_hashes@[j],
                ),
                self@.first_error(owner, group, external_hashes@, 0) == self@.first_error(
                    owner,
                    group,
                    external_hashes@,
                    i as int,
                ),
            decreases external_hashes@.len() - i,
        {
            match self.mappings.get(
                HashScope { owner, group, external_hash: external_hashes[i] },
            ) {
                None => {
                    return Err(EvidenceMutationError::UnresolvedHash);
                },
                Some(EvidenceHashMapping::Ambiguous) => {
                    return Err(EvidenceMutationError::AmbiguousHash);
                },
                Some(EvidenceHashMapping::Known(block)) => {
                    blocks.push(*block);
                },
            }
            i = i + 1;
        }
        assert(blocks@ =~= Seq::new(
            external_hashes@.len(),
            |i: int| self@.block_of(owner, group, external_hashes@[i]),
        ));
        Ok(blocks)
    }
}

proof fn lemma_pushed(list: Seq<u64>, hash: u64)
    ensures
        forall|h: u64| #[trigger] list.push(hash).contains(h) <==> list.contains(h) || h == hash,
        list.no_duplicates() && !list.contains(hash) ==> list.push(hash).no_duplicates(),
{
    let pushed = list.push(hash);
    assert forall|h: u64| #[trigger] pushed.contains(h) <==> list.contains(h) || h == hash by {
        if pushed.contains(h) && h != hash {
            let n = choose|n: int| 0 <= n < pushed.len() && pushed[n] == h;
            assert(list[n] == h);
        }
        if list.contains(h) {
            let n = choose|n: int| 0 <= n < list.len() && list[n] == h;
            assert(pushed[n] == h);
        }
        assert(pushed[list.len() as int] == hash);
    }
}

proof fn lemma_names_push(
    front: Seq<CacheEvidenceStoredBlock>,
    block: CacheEvidenceStoredBlock,
    h: u64,
)
    ensures
        names(front.push(block), h) == (names(front, h) || h == block.external_hash),
{
    let whole = front.push(block);
    if names(whole, h) && h != block.external_hash {
        let i = choose|i: int| 0 <= i < whole.len() && (#[trigger] whole[i]).external_hash == h;
        assert(front[i].external_hash == h);
    }
    if names(front, h) {
        let i = choose|i: int| 0 <= i < front.len() && (#[trigger] front[i]).external_hash == h;
        assert(whole[i].external_hash == h);
    }
    assert(whole[front.len() as int] == block);
}

proof fn lemma_last_named(blocks: Seq<CacheEvidenceStoredBlock>, h: u64)
    requires
        names(blocks, h),
    ensures
        exists|i: int|
            0 <= i < blocks.len() && (#[trigger] blocks[i]).external_hash == h && blocks[i]
                == last_named(blocks, h),
    decreases blocks.len(),
{
    if blocks.last().external_hash == h {
        assert(blocks[blocks.len() - 1] == last_named(blocks, h));
    } else {
        let front = blocks.drop_last();
        let i = choose|i: int| 0 <= i < blocks.len() && (#[trigger] blocks[i]).external_hash == h;
        assert(front[i].external_hash == h);
        lemma_last_named(front, h);
        let j = choose|j: int|
            0 <= j < front.len() && (#[trigger] front[j]).external_hash == h && front[j]
                == last_named(front, h);
        assert(blocks[j] == last_named(blocks, h));
    }
}

/// One more block makes its own hash ambiguous if it differs from the last one
/// under that hash, or from what the hash is known to stand for.
proof fn lemma_ambiguity_step(
    state: ResolverView,
    owner: CacheOwner,
    group: u32,
    front: Seq<CacheEvidenceStoredBlock>,
    block: CacheEvidenceStoredBlock,
    h: u64,
)
    ensures
        ({
            let hash = block.external_hash;
            let key = scope(owner, group, hash);
            let changed = names(front, hash) && last_named(front, hash) != block;
            let refuted = state.mappings.contains_key(key) && state.mappings[key]
                != EvidenceHashMapping::Known(block);
            state.ambiguous(owner, group, front.push(block), h) == (state.ambiguous(
                owner,
                group,
                front,
                h,
            ) || (h == hash && (changed || refuted)))
        }),
{
    let whole = front.push(block);
    let hash = block.external_hash;
    let key = scope(owner, group, h);
    assert(whole[front.len() as int] == block);
    assert forall|i: int| 0 <= i < front.len() implies #[trigger] whole[i] == front[i] by {}
    if contradicts(front, h) {
        let (i, j) = choose|i: int, j: int|
            0 <= i < front.len() && 0 <= j < front.len() && (#[trigger] front[i]).external_hash == h
                && (#[trigger] front[j]).external_hash == h && front[i] != front[j];
        assert(whole[i] != whole[j]);
    }
    if state.refutes(owner, group, front, h) {
        let i = choose|i: int|
            0 <= i < front.len() && (#[trigger] front[i]).external_hash == h
                && state.mappings.contains_key(key) && state.mappings[key]
                != EvidenceHashMapping::Known(front[i]);
        assert(whole[i].external_hash == h);
    }
    if h == hash && names(front, hash) {
        lemma_last_named(front, hash);
        let i = choose|i: int|
            0 <= i < front.len() && (#[trigger] front[i]).external_hash == hash && front[i]
                == last_named(front, hash);
        if front[i] != block {
            assert(whole[i] != whole[front.len() as int]);
        }
    }
    if contradicts(whole, h) && !contradicts(front, h) {
        let (i, j) = choose|i: int, j: int|
            0 <= i < whole.len() && 0 <= j < whole.len() && (#[trigger] whole[i]).external_hash == h
                && (#[trigger] whole[j]).external_hash == h && whole[i] != whole[j];
        let other = if i == front.len() {
            j
        } else {
            i
        };
        if i < front.len() && j < front.len() {
            assert(front[i] != front[j]);
        } else {
            assert(front[other].external_hash == h);
            assert(h == hash);
            lemma_last_named(front, hash);
            let n = choose|n: int|
                0 <= n < front.len() && (#[trigger] front[n]).external_hash == hash && front[n]
                    == last_named(front, hash);
            if front[n] != front[other] {
                assert(contradicts(front, h));
            }
        }
    }
    if state.refutes(owner, group, whole, h) && !state.refutes(owner, group, front, h) {
        let i = choose|i: int|
            0 <= i < whole.len() && (#[trigger] whole[i]).external_hash == h
                && state.mappings.contains_key(key) && state.mappings[key]
                != EvidenceHashMapping::Known(whole[i]);
        if i < front.len() {
            assert(front[i].external_hash == h);
        }
    }
}

} // verus!
