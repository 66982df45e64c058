//! Declared shapes of an owner's cache groups.

use vstd::prelude::*;

use crate::evidence::CacheOwner;
use crate::owner_map::key_list;
use crate::prefix::{CacheGroupHashSequence, CacheGroupKind};
use crate::table::{lists_entries, Table};
use crate::text::same_text;

verus! {

/// The shape of one cache group as its engine reports it.
#[derive(Clone, Debug, PartialEq, Eq)]
pub struct CacheGroupObservation {
    pub group_idx: u32,
    pub kind: String,
    pub block_size: u32,
    pub sliding_window: Option<u32>,
    pub is_eagle: bool,
    pub alignment_tokens: Option<u32>,
}

#[verifier::ext_equal]
pub struct CatalogGroup {
    pub group_idx: u32,
    pub kind: Seq<char>,
    pub block_size: u32,
    pub sliding_window: Option<u32>,
    pub is_eagle: bool,
    pub alignment_tokens: Option<u32>,
}

impl View for CacheGroupObservation {
    type V = CatalogGroup;

    open spec fn view(&self) -> CatalogGroup {
        CatalogGroup {
            group_idx: self.group_idx,
            kind: self.kind@,
            block_size: self.block_size,
            sliding_window: self.sliding_window,
            is_eagle: self.is_eagle,
            alignment_tokens: self.alignment_tokens,
        }
    }
}

/// What a list of observations says.
pub open spec fn shapes(groups: Seq<CacheGroupObservation>) -> Seq<CatalogGroup> {
    Seq::new(groups.len(), |i: int| groups[i]@)
}

/// The attention kind that a reported name stands for.
pub open spec fn attention_kind(name: Seq<char>) -> Option<CacheGroupKind> {
    if name == "full_attention"@ || name == "mla_attention"@ || name == "sink_full_attention"@ {
        Some(CacheGroupKind::FullAttention)
    } else if name == "sliding_window"@ || name == "sliding_window_mla"@ {
        Some(CacheGroupKind::SlidingWindow)
    } else {
        None
    }
}

fn parse_kind(name: &str) -> (kind: Option<CacheGroupKind>)
    ensures
        kind == attention_kind(name@),
{
    if same_text(name, "full_attention") || same_text(name, "mla_attention") || same_text(
        name,
        "sink_full_attention",
    ) {
        Some(CacheGroupKind::FullAttention)
    } else if same_text(name, "sliding_window") || same_text(name, "sliding_window_mla") {
        Some(CacheGroupKind::SlidingWindow)
    } else {
        None
    }
}

impl CatalogGroup {
    /// The group has a known kind and its alignment is a positive multiple of
    /// its positive block size.
    pub open spec fn is_supported(self) -> bool {
        &&& attention_kind(self.kind) is Some
        &&& self.block_size > 0
        &&& self.alignment_tokens is Some
        &&& self.alignment_tokens->0 > 0
        &&& self.alignment_tokens->0 % self.block_size == 0
    }
}

pub open spec fn distinct_groups(groups: Seq<CatalogGroup>) -> bool {
    forall|i: int, j: int|
        #![trigger groups[i], groups[j]]
        0 <= i < j < groups.len() ==> groups[i].group_idx != groups[j].group_idx
}

pub open spec fn is_valid_catalog(groups: Seq<CatalogGroup>) -> bool {
    &&& groups.len() > 0
    &&& forall|i: int| 0 <= i < groups.len() ==> (#[trigger] groups[i]).is_supported()
    &&& distinct_groups(groups)
}

/// Where a group belongs among groups in ascending order.
pub open spec fn rank(groups: Seq<CatalogGroup>, group: CatalogGroup) -> int
    decreases groups.len(),
{
    if groups.len() == 0 || groups.last().group_idx < group.group_idx {
        groups.len() as int
    } else {
        rank(groups.drop_last(), group)
    }
}

/// The groups in ascending order of their index.
pub open spec fn normalized(groups: Seq<CatalogGroup>) -> Seq<CatalogGroup>
    decreases groups.len(),
{
    if groups.len() == 0 {
        groups
    } else {
        let front = normalized(groups.drop_last());
        front.insert(rank(front, groups.last()), groups.last())
    }
}

proof fn lemma_rank(groups: Seq<CatalogGroup>, group: CatalogGroup)
    ensures
        0 <= rank(groups, group) <= groups.len(),
    decreases groups.len(),
{
    if groups.len() > 0 {
        lemma_rank(groups.drop_last(), group);
    }
}

/// Normalizing reorders the groups and loses none.
pub proof fn law_normalized_is_a_sorted_permutation(groups: Seq<CatalogGroup>)
    ensures
        normalized(groups).len() == groups.len(),
        normalized(groups).to_multiset() == groups.to_multiset(),
        forall|i: int, j: int|
            #![trigger normalized(groups)[i], normalized(groups)[j]]
            0 <= i < j < groups.len() ==> normalized(groups)[i].group_idx
                <= normalized(groups)[j].group_idx,
    decreases groups.len(),
{
    broadcast use vstd::seq_lib::group_to_multiset_ensures;

    if groups.len() > 0 {
        let rest = groups.drop_last();
        let last = groups.last();
        law_normalized_is_a_sorted_permutation(rest);
        let front = normalized(rest);
        lemma_rank(front, last);
        lemma_rank_sorted(front, last);
        let at = rank(front, last);
        assert(groups =~= rest.push(last));
        vstd::seq_lib::to_multiset_build(rest, last);
        vstd::seq_lib::to_multiset_insert(front, at, last);
        let all = normalized(groups);
        assert forall|i: int, j: int|
            #![trigger all[i], all[j]]
            0 <= i < j < all.len() implies all[i].group_idx <= all[j].group_idx by {
            let a = if i < at { i } else { i - 1 };
            let b = if j < at { j } else { j - 1 };
            if i != at {
                assert(all[i] == front[a]);
            }
            if j != at {
                assert(all[j] == front[b]);
            }
        }
    }
}

proof fn lemma_rank_sorted(groups: Seq<CatalogGroup>, group: CatalogGroup)
    requires
        forall|i: int, j: int|
            #![trigger groups[i], groups[j]]
            0 <= i < j < groups.len() ==> groups[i].group_idx <= groups[j].group_idx,
    ensures
        forall|i: int|
            #![trigger groups[i]]
            0 <= i < rank(groups, group) ==> groups[i].group_idx < group.group_idx,
        forall|i: int|
            #![trigger groups[i]]
            rank(groups, group) <= i < groups.len() ==> group.group_idx <= groups[i].group_idx,
    decreases groups.len(),
{
    if groups.len() > 0 {
        let front = groups.drop_last();
        assert forall|i: int, j: int|
            #![trigger front[i], front[j]]
            0 <= i < j < front.len() implies front[i].group_idx <= front[j].group_idx by {
            assert(groups[i].group_idx <= groups[j].group_idx);
        }
        lemma_rank_sorted(front, group);
        lemma_rank(front, group);
        if groups.last().group_idx < group.group_idx {
            assert forall|i: int|
                #![trigger groups[i]]
                0 <= i < groups.len() implies groups[i].group_idx < group.group_idx by {
                if i < groups.len() - 1 {
                    assert(groups[i].group_idx <= groups[groups.len() - 1].group_idx);
                }
            }
        } else {
            assert forall|i: int|
                #![trigger groups[i]]
                0 <= i < rank(groups, group) implies groups[i].group_idx < group.group_idx by {
                assert(front[i] == groups[i]);
            }
            assert forall|i: int|
                #![trigger groups[i]]
                rank(groups, group) <= i < groups.len() implies group.group_idx
                <= groups[i].group_idx by {
                if i < front.len() {
                    assert(front[i] == groups[i]);
                }
            }
        }
    }
}

impl CacheGroupObservation {
    pub(crate) fn copied(&self) -> (copy: Self)
        ensures
            copy@ == self@,
    {
        CacheGroupObservation {
            group_idx: self.group_idx,
            kind: self.kind.clone(),
            block_size: self.block_size,
            sliding_window: self.sliding_window,
            is_eagle: self.is_eagle,
            alignment_tokens: self.alignment_tokens,
        }
    }

    fn is_supported(&self) -> (supported: bool)
        ensures
            supported == self@.is_supported(),
    {
        match self.alignment_tokens {
            None => false,
            Some(alignment) => parse_kind(self.kind.as_str()).is_some() && self.block_size > 0
                && alignment > 0 && alignment % self.block_size == 0,
        }
    }

    fn same_shape(&self, other: &CacheGroupObservation) -> (same: bool)
        ensures
            same == (self@ == other@),
    {
        self.group_idx == other.group_idx && self.kind == other.kind && self.block_size
            == other.block_size && self.sliding_window == other.sliding_window && self.is_eagle
            == other.is_eagle && self.alignment_tokens == other.alignment_tokens
    }
}

/// The two catalogs declare the same groups in the same order.
pub fn same_catalog(a: &Vec<CacheGroupObservation>, b: &Vec<CacheGroupObservation>) -> (same: bool)
    ensures
        same == (shapes(a@) == shapes(b@)),
{
    if a.len() != b.len() {
        assert(shapes(a@).len() != shapes(b@).len());
        return false;
    }
    let mut i: usize = 0;
    while i < a.len()
        invariant
            i <= a@.len(),
            a@.len() == b@.len(),
            forall|j: int| 0 <= j < i ==> (#[trigger] a@[j])@ == b@[j]@,
        decreases a@.len() - i,
    {
        if !a[i].same_shape(&b[i]) {
            assert(shapes(a@)[i as int] != shapes(b@)[i as int]);
            return false;
        }
        i = i + 1;
    }
    assert(shapes(a@) =~= shapes(b@));
    true
}

pub fn copy_catalog(groups: &[CacheGroupObservation]) -> (copy: Vec<CacheGroupObservation>)
    ensures
        shapes(copy@) == shapes(groups@),
{
    let mut copy: Vec<CacheGroupObservation> = Vec::new();
    let mut i: usize = 0;
    while i < groups.len()
        invariant
            i <= groups@.len(),
            copy@.len() == i,
            forall|j: int| 0 <= j < i ==> (#[trigger] copy@[j])@ == groups@[j]@,
        decreases groups@.len() - i,
    {
        copy.push(groups[i].copied());
        i = i + 1;
    }
    assert(shapes(copy@) =~= shapes(groups@));
    copy
}

/// The catalog can be used: every group is supported and declared once.
pub fn catalog_is_valid(groups: &[CacheGroupObservation]) -> (valid: bool)
    ensures
        valid == is_valid_catalog(shapes(groups@)),
{
    let ghost all = shapes(groups@);
    if groups.len() == 0 {
        return false;
    }
    let mut i: usize = 0;
    while i < groups.len()
        invariant
            i <= groups@.len(),
            all == shapes(groups@),
            forall|j: int| 0 <= j < i ==> (#[trigger] all[j]).is_supported(),
            forall|j: int, k: int|
                #![trigger all[j], all[k]]
                0 <= j < k < i ==> all[j].group_idx != all[k].group_idx,
        decreases groups@.len() - i,
    {
        if !groups[i].is_supported() {
            assert(!all[i as int].is_supported());
            return false;
        }
        let mut j: usize = 0;
        while j < i
            invariant
                j <= i < groups@.len(),
                all == shapes(groups@),
                forall|k: int|
                    #![trigger all[k]]
                    0 <= k < j ==> all[k].group_idx != all[i as int].group_idx,
            decreases i - j,
        {
            if groups[j].group_idx == groups[i].group_idx {
                proof {
                    assert(all[j as int].group_idx == all[i as int].group_idx);
                    assert(!distinct_groups(all));
                }
                return false;
            }
            j = j + 1;
        }
        i = i + 1;
    }
    true
}

/// The groups in ascending order of their index.
pub fn normalize(groups: &[CacheGroupObservation]) -> (sorted: Vec<CacheGroupObservation>)
    ensures
        shapes(sorted@) == normalized(shapes(groups@)),
{
    let ghost all = shapes(groups@);
    let mut sorted: Vec<CacheGroupObservation> = Vec::new();
    assert(shapes(sorted@) =~= normalized(all.take(0)));
    let mut i: usize = 0;
    while i < groups.len()
        invariant
            i <= groups@.len(),
            all == shapes(groups@),
            shapes(sorted@) == normalized(all.take(i as int)),
            sorted@.len() == i,
        decreases groups@.len() - i,
    {
        let ghost front = shapes(sorted@);
        let ghost group = all[i as int];
        let mut at: usize = sorted.len();
        assert(front.take(at as int) =~= front);
        while at > 0 && groups[i].group_idx <= sorted[at - 1].group_idx
            invariant
                at <= sorted@.len(),
                i < groups@.len(),
                front == shapes(sorted@),
                group == groups@[i as int]@,
                rank(front, group) == rank(front.take(at as int), group),
            ensures
                at <= sorted@.len(),
                rank(front, group) == at,
            decreases at,
        {
            proof {
                assert(front.take(at as int).drop_last() =~= front.take(at - 1));
                assert(front.take(at as int).last() == front[at - 1]);
            }
            at = at - 1;
        }
        proof {
            lemma_rank(front, group);
        }
        sorted.insert(at, groups[i].copied());
        i = i + 1;
        proof {
            assert(all.take(i as int).drop_last() =~= all.take(i - 1));
            assert(shapes(sorted@) =~= front.insert(at as int, group));
        }
    }
    assert(all.take(i as int) =~= all);
    sorted
}

/// The declared group indexes.
pub open spec fn indexes(groups: Seq<CatalogGroup>) -> Set<u32> {
    Set::new(
        |group: u32| exists|i: int| 0 <= i < groups.len() && (#[trigger] groups[i]).group_idx == group,
    )
}

pub fn group_indexes(groups: &Vec<CacheGroupObservation>) -> (list: Vec<u32>)
    ensures
        list@.to_set() == indexes(shapes(groups@)),
{
    let ghost all = shapes(groups@);
    let mut list: Vec<u32> = Vec::new();
    let mut i: usize = 0;
    while i < groups.len()
        invariant
            i <= groups@.len(),
            all == shapes(groups@),
            list@.len() == i,
            forall|j: int| 0 <= j < i ==> #[trigger] list@[j] == all[j].group_idx,
        decreases groups@.len() - i,
    {
        list.push(groups[i].group_idx);
        i = i + 1;
    }
    proof {
        assert forall|g: u32| list@.to_set().contains(g) == indexes(all).contains(g) by {
            if list@.contains(g) {
                let j = choose|j: int| 0 <= j < list@.len() && list@[j] == g;
                assert(all[j].group_idx == g);
            }
            if indexes(all).contains(g) {
                let j = choose|j: int| 0 <= j < all.len() && (#[trigger] all[j]).group_idx == g;
                assert(list@[j] == g);
            }
        }
        assert(list@.to_set() =~= indexes(all));
    }
    list
}

// ---- catalogs of all owners ----

/// The declared catalog of each owner.
pub struct GroupCatalogs {
    catalogs: Table<CacheOwner, Vec<CacheGroupObservation>>,
}

impl View for GroupCatalogs {
    type V = Map<CacheOwner, Seq<CatalogGroup>>;

    closed spec fn view(&self) -> Map<CacheOwner, Seq<CatalogGroup>> {
        self.catalogs@.map_values(|groups: Vec<CacheGroupObservation>| shapes(groups@))
    }
}

impl GroupCatalogs {
    pub closed spec fn wf(&self) -> bool {
        self.catalogs.wf()
    }

    pub fn new() -> (catalogs: Self)
        ensures
            catalogs.wf(),
            catalogs@ == Map::<CacheOwner, Seq<CatalogGroup>>::empty(),
    {
        let catalogs = GroupCatalogs { catalogs: Table::new() };
        assert(catalogs@ =~= Map::<CacheOwner, Seq<CatalogGroup>>::empty());
        catalogs
    }

    pub fn get<'a>(&'a self, owner: CacheOwner) -> (groups: Option<&'a Vec<CacheGroupObservation>>)
        requires
            self.wf(),
        ensures
            match groups {
                Some(groups) => self@.contains_key(owner) && self@[owner] == shapes(groups@),
                None => !self@.contains_key(owner),
            },
    {
        self.catalogs.get(owner)
    }

    pub fn insert(&mut self, owner: CacheOwner, groups: Vec<CacheGroupObservation>)
        requires
            old(self).wf(),
        ensures
            final(self).wf(),
            final(self)@ == old(self)@.insert(owner, shapes(groups@)),
    {
        self.catalogs.insert(owner, groups);
        assert(self@ =~= old(self)@.insert(owner, shapes(groups@)));
    }

    /// Forgets an owner's catalog and tells whether there was one.
    pub fn remove(&mut self, owner: CacheOwner) -> (removed: bool)
        requires
            old(self).wf(),
        ensures
            final(self).wf(),
            final(self)@ == old(self)@.remove(owner),
            removed == old(self)@.contains_key(owner),
    {
        let removed = self.catalogs.contains_key(owner);
        self.catalogs.remove(owner);
        assert(self@ =~= old(self)@.remove(owner));
        removed
    }

    /// Keeps the catalogs of the given owners alone.
    pub fn retain(&mut self, owners: &Table<CacheOwner, ()>)
        requires
            old(self).wf(),
            owners.wf(),
        ensures
            final(self).wf(),
            final(self)@ == old(self)@.restrict(owners@.dom()),
    {
        let keep = |owner: CacheOwner| -> (r: bool)
            requires
                owners.wf(),
            ensures
                r == owners@.contains_key(owner),
            { owners.contains_key(owner) };
        let ghost kept = |owner: CacheOwner| owners@.contains_key(owner);
        self.catalogs.retain(keep, Ghost(kept));
        assert(self@ =~= old(self)@.restrict(owners@.dom()));
    }

    /// The owners that have declared a catalog.
    pub fn owners(&self) -> (owners: Vec<CacheOwner>)
        requires
            self.wf(),
        ensures
            owners@.no_duplicates(),
            owners@.to_set() == self@.dom(),
    {
        assert(self@.dom() =~= self.catalogs@.dom());
        key_list(&self.catalogs)
    }

    /// Every owner declares exactly these groups.
    pub fn all_declare(&self, groups: &Vec<CacheGroupObservation>) -> (all: bool)
        requires
            self.wf(),
        ensures
            all == forall|owner: CacheOwner| #[trigger]
                self@.contains_key(owner) ==> self@[owner] == shapes(groups@),
    {
        let list = self.catalogs.entries();
        let mut i: usize = 0;
        while i < list.len()
            invariant
                i <= list@.len(),
                lists_entries(list@, self.catalogs@),
                forall|j: int| #![trigger list@[j]]
                    0 <= j < i ==> shapes(list@[j].1@) == shapes(groups@),
            decreases list@.len() - i,
        {
            if !same_catalog(list[i].1, groups) {
                proof {
                    assert(self.catalogs@.contains_key(list@[i as int].0));
                    assert(self@.contains_key(list@[i as int].0));
                }
                return false;
            }
            i = i + 1;
        }
        proof {
            assert forall|owner: CacheOwner| #[trigger] self@.contains_key(owner) implies self@[owner]
                == shapes(groups@) by {
                assert(self.catalogs@.contains_key(owner));
                let j = choose|j: int| 0 <= j < list@.len() && (#[trigger] list@[j]).0 == owner;
                assert(shapes(list@[j].1@) == shapes(groups@));
            }
        }
        true
    }

    /// A copy to compare with later.
    pub fn copied(&self) -> (copy: Self)
        requires
            self.wf(),
        ensures
            copy.wf(),
            copy@ == self@,
    {
        let list = self.catalogs.entries();
        let mut copy = GroupCatalogs::new();
        let mut i: usize = 0;
        while i < list.len()
            invariant
                i <= list@.len(),
                copy.wf(),
                lists_entries(list@, self.catalogs@),
                forall|o: CacheOwner| #[trigger]
                    copy@.contains_key(o) <==> exists|j: int|
                        0 <= j < i && (#[trigger] list@[j]).0 == o,
                forall|o: CacheOwner| #[trigger] copy@.contains_key(o) ==> copy@[o] == self@[o],
            decreases list@.len() - i,
        {
            assert(self.catalogs@.contains_key(list@[i as int].0));
            copy.insert(list[i].0, copy_catalog(list[i].1.as_slice()));
            i = i + 1;
        }
        proof {
            assert forall|o: CacheOwner| copy@.contains_key(o) == self@.contains_key(o) by {
                if copy@.contains_key(o) {
                    let j = choose|j: int| 0 <= j < i && (#[trigger] list@[j]).0 == o;
                    assert(self.catalogs@.contains_key(list@[j].0));
                }
                if self@.contains_key(o) {
                    assert(self.catalogs@.contains_key(o));
                    let j = choose|j: int| 0 <= j < list@.len() && (#[trigger] list@[j]).0 == o;
                    assert(list@[j].0 == o);
                }
            }
            assert(copy@ =~= self@);
        }
        copy
    }

    pub fn same_as(&self, other: &Self) -> (same: bool)
        requires
            self.wf(),
            other.wf(),
        ensures
            same == (self@ == other@),
    {
        let forward = self.within(other);
        let backward = other.within(self);
        proof {
            if forward && backward {
                assert(self@ =~= other@);
            }
        }
        forward && backward
    }

    /// Every catalog here is declared alike there.
    fn within(&self, other: &Self) -> (within: bool)
        requires
            self.wf(),
            other.wf(),
        ensures
            within == forall|o: CacheOwner| #[trigger]
                self@.contains_key(o) ==> other@.contains_key(o) && other@[o] == self@[o],
    {
        let list = self.catalogs.entries();
        let mut i: usize = 0;
        while i < list.len()
            invariant
                i <= list@.len(),
                other.wf(),
                lists_entries(list@, self.catalogs@),
                forall|j: int| #![trigger list@[j]]
                    0 <= j < i ==> other@.contains_key(list@[j].0) && other@[list@[j].0] == shapes(
                        list@[j].1@,
                    ),
            decreases list@.len() - i,
        {
            let found = match other.get(list[i].0) {
                None => false,
                Some(groups) => same_catalog(groups, list[i].1),
            };
            if !found {
                proof {
                    assert(self.catalogs@.contains_key(list@[i as int].0));
                    assert(self@.contains_key(list@[i as int].0));
                }
                return false;
            }
            i = i + 1;
        }
        proof {
            assert forall|o: CacheOwner| #[trigger] self@.contains_key(o) implies other@.contains_key(
                o,
            ) && other@[o] == self@[o] by {
                assert(self.catalogs@.contains_key(o));
                let j = choose|j: int| 0 <= j < list@.len() && (#[trigger] list@[j]).0 == o;
                assert(list@[j].0 == o);
            }
        }
        true
    }
}

// ---- request hashes ----

/// `hashed` is what `hash_tokens` makes of the request under a declared group.
pub open spec fn hashes_group<F: Fn(u32, bool) -> Vec<u64>>(
    hash_tokens: F,
    group: CatalogGroup,
    hashed: CacheGroupHashSequence,
) -> bool {
    &&& hashed.group_idx == group.group_idx
    &&& attention_kind(group.kind) == Some(hashed.kind)
    &&& hashed.block_size == group.block_size
    &&& hashed.sliding_window == group.sliding_window
    &&& hashed.is_eagle == group.is_eagle
    &&& group.alignment_tokens == Some(hashed.alignment_tokens)
    &&& call_ensures(hash_tokens, (group.block_size, group.is_eagle), hashed.sequence_hashes)
}

pub open spec fn hashes_catalog<F: Fn(u32, bool) -> Vec<u64>>(
    hash_tokens: F,
    catalog: Seq<CatalogGroup>,
    groups: Seq<CacheGroupHashSequence>,
) -> bool {
    &&& groups.len() == catalog.len()
    &&& forall|i: int|
        0 <= i < catalog.len() ==> hashes_group(hash_tokens, catalog[i], #[trigger] groups[i])
}

pub open spec fn hashes_any<F: Fn(u32, bool) -> Vec<u64>>(hash_tokens: F) -> bool {
    forall|block_size: u32, is_eagle: bool| #[trigger]
        call_requires(hash_tokens, (block_size, is_eagle))
}

pub open spec fn all_supported(catalog: Seq<CatalogGroup>) -> bool {
    forall|i: int| 0 <= i < catalog.len() ==> (#[trigger] catalog[i]).is_supported()
}

/// Hashes a request under each group of a catalog. `hash_tokens` gives the
/// rolling hashes for a block size, with or without speculative decoding.
/// Nothing comes of a catalog with a group that is not supported.
pub fn cache_group_hashes<F: Fn(u32, bool) -> Vec<u64>>(
    catalog: &Vec<CacheGroupObservation>,
    hash_tokens: F,
) -> (groups: Option<Vec<CacheGroupHashSequence>>)
    requires
        hashes_any(hash_tokens),
    ensures
        match groups {
            None => !all_supported(shapes(catalog@)),
            Some(groups) => all_supported(shapes(catalog@)) && hashes_catalog(
                hash_tokens,
                shapes(catalog@),
                groups@,
            ),
        },
{
    let ghost all = shapes(catalog@);
    let mut groups: Vec<CacheGroupHashSequence> = Vec::new();
    let mut i: usize = 0;
    while i < catalog.len()
        invariant
            i <= catalog@.len(),
            all == shapes(catalog@),
            hashes_any(hash_tokens),
            groups@.len() == i,
            forall|j: int| 0 <= j < i ==> (#[trigger] all[j]).is_supported(),
            forall|j: int| 0 <= j < i ==> hashes_group(hash_tokens, all[j], #[trigger] groups@[j]),
        decreases catalog@.len() - i,
    {
        let group = &catalog[i];
        assert(all[i as int] == group@);
        match (parse_kind(group.kind.as_str()), group.alignment_tokens) {
            (Some(kind), Some(alignment_tokens)) => {
                if !group.is_supported() {
                    assert(!all[i as int].is_supported());
                    return None;
                }
                let sequence_hashes = hash_tokens(group.block_size, group.is_eagle);
                groups.push(
                    CacheGroupHashSequence {
                        group_idx: group.group_idx,
                        kind,
                        block_size: group.block_size,
                        sliding_window: group.sliding_window,
                        is_eagle: group.is_eagle,
                        alignment_tokens,
                        sequence_hashes,
                    },
                );
            },
            _ => {
                assert(!all[i as int].is_supported());
                return None;
            },
        }
        i = i + 1;
    }
    Some(groups)
}

/// The hashes of all groups, one group after the other.
pub open spec fn flat_hashes(groups: Seq<CacheGroupHashSequence>) -> Seq<u64>
    decreases groups.len(),
{
    if groups.len() == 0 {
        Seq::empty()
    } else {
        flat_hashes(groups.drop_last()) + groups.last().sequence_hashes@
    }
}

pub fn collect_hashes(groups: &Vec<CacheGroupHashSequence>) -> (hashes: Vec<u64>)
    ensures
        hashes@ == flat_hashes(groups@),
{
    let mut hashes: Vec<u64> = Vec::new();
    let mut i: usize = 0;
    assert(groups@.take(0) =~= Seq::<CacheGroupHashSequence>::empty());
    while i < groups.len()
        invariant
            i <= groups@.len(),
            hashes@ == flat_hashes(groups@.take(i as int)),
        decreases groups@.len() - i,
    {
        let ghost before = hashes@;
        hashes.extend_from_slice(groups[i].sequence_hashes.as_slice());
        i = i + 1;
        proof {
            assert(groups@.take(i as int).drop_last() =~= groups@.take(i - 1));
            assert(hashes@ =~= before + groups@[i - 1].sequence_hashes@);
        }
    }
    assert(groups@.take(i as int) =~= groups@);
    hashes
}

} // verus!
