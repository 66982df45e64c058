//! What holds of engine hash resolution as a whole.

use vstd::prelude::*;

use crate::evidence::{CacheEvidenceStoredBlock, CacheOwner};
use crate::resolver::{
    contradicts, last_named, names, scope, EvidenceHashMapping, EvidenceMutationError, HashScope,
    ResolverView,
};

verus! {

/// The engine hashes of blocks.
pub open spec fn external_hashes(blocks: Seq<CacheEvidenceStoredBlock>) -> Seq<u64> {
    Seq::new(blocks.len(), |i: int| blocks[i].external_hash)
}

proof fn lemma_last_named_is_named(blocks: Seq<CacheEvidenceStoredBlock>, external_hash: u64)
    requires
        names(blocks, external_hash),
    ensures
        last_named(blocks, external_hash).external_hash == external_hash,
        blocks.contains(last_named(blocks, external_hash)),
    decreases blocks.len(),
{
    if blocks.last().external_hash == external_hash {
        assert(blocks[blocks.len() - 1] == blocks.last());
    } else {
        let shorter = blocks.drop_last();
        let i = choose|i: int|
            0 <= i < blocks.len() && (#[trigger] blocks[i]).external_hash == external_hash;
        assert(shorter[i] == blocks[i]);
        lemma_last_named_is_named(shorter, external_hash);
        let found = last_named(shorter, external_hash);
        let j = choose|j: int| 0 <= j < shorter.len() && shorter[j] == found;
        assert(blocks[j] == found);
    }
}

/// Once a store on GPU has been accepted, a store of the same hashes on CPU
/// resolves to the same blocks.
pub proof fn law_accepted_blocks_resolve(
    resolver: ResolverView,
    owner: CacheOwner,
    group: u32,
    blocks: Seq<CacheEvidenceStoredBlock>,
)
    requires
        resolver.learn_gpu(owner, group, blocks).1 is Ok,
    ensures
        ({
            let learned = resolver.learn_gpu(owner, group, blocks).0;
            learned.resolve_cpu(owner, group, external_hashes(blocks))
                == Ok::<Seq<CacheEvidenceStoredBlock>, EvidenceMutationError>(blocks)
        }),
{
    let learned = resolver.learn_gpu(owner, group, blocks).0;
    let hashes = external_hashes(blocks);
    assert forall|i: int| 0 <= i < blocks.len() implies #[trigger] learned.mappings.contains_key(
        scope(owner, group, hashes[i]),
    ) && learned.mappings[scope(owner, group, hashes[i])] == EvidenceHashMapping::Known(
        blocks[i],
    ) by {
        let hash = blocks[i].external_hash;
        assert(names(blocks, hash));
        assert(!resolver.ambiguous_hashes(owner, group, blocks).contains(hash));
        lemma_last_named_is_named(blocks, hash);
        let found = last_named(blocks, hash);
        let j = choose|j: int| 0 <= j < blocks.len() && blocks[j] == found;
        assert(blocks[j].external_hash == hash);
        assert(!contradicts(blocks, hash));
        assert(blocks[i] == blocks[j]);
    }
    lemma_all_resolve(learned, owner, group, blocks, 0);
    assert(learned.resolve_cpu(owner, group, hashes)->Ok_0 =~= blocks);
}

proof fn lemma_all_resolve(
    resolver: ResolverView,
    owner: CacheOwner,
    group: u32,
    blocks: Seq<CacheEvidenceStoredBlock>,
    from: int,
)
    requires
        0 <= from <= blocks.len(),
        forall|i: int|
            0 <= i < blocks.len() ==> #[trigger] resolver.mappings.contains_key(
                scope(owner, group, external_hashes(blocks)[i]),
            ) && resolver.mappings[scope(owner, group, external_hashes(blocks)[i])]
                == EvidenceHashMapping::Known(blocks[i]),
    ensures
        resolver.first_error(owner, group, external_hashes(blocks), from) is None,
    decreases blocks.len() - from,
{
    if from < blocks.len() {
        assert(resolver.mappings.contains_key(
            scope(owner, group, external_hashes(blocks)[from]),
        ));
        lemma_all_resolve(resolver, owner, group, blocks, from + 1);
    }
}

/// A refused store teaches nothing: every meaning that a hash has afterwards
/// it had before.
pub proof fn law_refused_store_teaches_nothing(
    resolver: ResolverView,
    owner: CacheOwner,
    group: u32,
    blocks: Seq<CacheEvidenceStoredBlock>,
)
    requires
        resolver.learn_gpu(owner, group, blocks).1 is Err,
    ensures
        ({
            let learned = resolver.learn_gpu(owner, group, blocks).0;
            forall|key: HashScope| #[trigger]
                learned.mappings.contains_key(key) && learned.mappings[key] is Known
                    ==> resolver.mappings.contains_key(key) && resolver.mappings[key]
                    == learned.mappings[key]
        }),
{
}

/// What is ambiguous stays ambiguous, whatever is stored later.
pub proof fn law_ambiguity_is_permanent(
    resolver: ResolverView,
    owner: CacheOwner,
    group: u32,
    blocks: Seq<CacheEvidenceStoredBlock>,
    key: HashScope,
)
    requires
        resolver.mappings.contains_key(key),
        resolver.mappings[key] == EvidenceHashMapping::Ambiguous,
    ensures
        ({
            let learned = resolver.learn_gpu(owner, group, blocks).0;
            learned.mappings.contains_key(key) && learned.mappings[key]
                == EvidenceHashMapping::Ambiguous
        }),
{
}

/// A store speaks of its own owner and group alone.
pub proof fn law_hash_scopes_are_independent(
    resolver: ResolverView,
    owner: CacheOwner,
    group: u32,
    blocks: Seq<CacheEvidenceStoredBlock>,
    other: CacheOwner,
    other_group: u32,
    hashes: Seq<u64>,
)
    requires
        other != owner || other_group != group,
    ensures
        resolver.learn_gpu(owner, group, blocks).0.resolve_cpu(other, other_group, hashes)
            == resolver.resolve_cpu(other, other_group, hashes),
{
    let learned = resolver.learn_gpu(owner, group, blocks).0;
    assert forall|hash: u64| #[trigger]
        learned.hash_error(other, other_group, hash) == resolver.hash_error(
            other,
            other_group,
            hash,
        ) by {
        let key = scope(other, other_group, hash);
        assert(learned.mappings.contains_key(key) == resolver.mappings.contains_key(key));
    }
    lemma_same_errors(learned, resolver, other, other_group, hashes, 0);
    if resolver.first_error(other, other_group, hashes, 0) is None {
        let blocks_after = learned.resolve_cpu(other, other_group, hashes)->Ok_0;
        let blocks_before = resolver.resolve_cpu(other, other_group, hashes)->Ok_0;
        assert forall|i: int| 0 <= i < hashes.len() implies blocks_after[i]
            == blocks_before[i] by {
            lemma_no_error(resolver, other, other_group, hashes, 0, i);
            assert(learned.hash_error(other, other_group, hashes[i]) == resolver.hash_error(
                other,
                other_group,
                hashes[i],
            ));
        }
        assert(blocks_after =~= blocks_before);
    }
}

proof fn lemma_same_errors(
    left: ResolverView,
    right: ResolverView,
    owner: CacheOwner,
    group: u32,
    hashes: Seq<u64>,
    from: int,
)
    requires
        0 <= from <= hashes.len(),
        forall|hash: u64| #[trigger]
            left.hash_error(owner, group, hash) == right.hash_error(owner, group, hash),
    ensures
        left.first_error(owner, group, hashes, from) == right.first_error(
            owner,
            group,
            hashes,
            from,
        ),
    decreases hashes.len() - from,
{
    if from < hashes.len() {
        assert(left.hash_error(owner, group, hashes[from]) == right.hash_error(
            owner,
            group,
            hashes[from],
        ));
        lemma_same_errors(left, right, owner, group, hashes, from + 1);
    }
}

proof fn lemma_no_error(
    resolver: ResolverView,
    owner: CacheOwner,
    group: u32,
    hashes: Seq<u64>,
    from: int,
    i: int,
)
    requires
        0 <= from <= i < hashes.len(),
        resolver.first_error(owner, group, hashes, from) is None,
    ensures
        resolver.hash_error(owner, group, hashes[i]) is None,
    decreases hashes.len() - from,
{
    if from < i {
        lemma_no_error(resolver, owner, group, hashes, from + 1, i);
    }
}

/// The engine hashes in scope, as scoped keys.
spec fn scoped(owner: CacheOwner, group: u32, hashes: Set<u64>) -> Set<HashScope> {
    hashes.map(|hash: u64| scope(owner, group, hash))
}

proof fn lemma_scoped_len(owner: CacheOwner, group: u32, hashes: Set<u64>)
    requires
        hashes.finite(),
    ensures
        scoped(owner, group, hashes).finite(),
        scoped(owner, group, hashes).len() == hashes.len(),
    decreases hashes.len(),
{
    if hashes.len() == 0 {
        assert(hashes =~= Set::empty());
        assert(scoped(owner, group, hashes) =~= Set::<HashScope>::empty());
    } else {
        let hash = hashes.choose();
        let rest = hashes.remove(hash);
        lemma_scoped_len(owner, group, rest);
        let key = scope(owner, group, hash);
        assert(scoped(owner, group, hashes) =~= scoped(owner, group, rest).insert(key)) by {
            assert forall|k: HashScope| #[trigger]
                scoped(owner, group, hashes).contains(k) implies scoped(
                owner,
                group,
                rest,
            ).insert(key).contains(k) by {
                let h = choose|h: u64|
                    hashes.contains(h) && #[trigger] scope(owner, group, h) == k;
                if h != hash {
                    assert(rest.contains(h));
                }
            }
            assert forall|k: HashScope| #[trigger]
                scoped(owner, group, rest).insert(key).contains(k) implies scoped(
                owner,
                group,
                hashes,
            ).contains(k) by {
                if k == key {
                    assert(hashes.contains(hash));
                } else {
                    let h = choose|h: u64|
                        rest.contains(h) && #[trigger] scope(owner, group, h) == k;
                    assert(hashes.contains(h));
                }
            }
        }
        assert(!scoped(owner, group, rest).contains(key));
    }
}

proof fn lemma_named_finite(blocks: Seq<CacheEvidenceStoredBlock>)
    ensures
        ResolverView::named_hashes(blocks).finite(),
{
    let listed = external_hashes(blocks).to_set();
    assert(ResolverView::named_hashes(blocks) =~= listed) by {
        assert forall|hash: u64| names(blocks, hash) implies #[trigger] listed.contains(hash) by {
            let i = choose|i: int|
                0 <= i < blocks.len() && (#[trigger] blocks[i]).external_hash == hash;
            assert(external_hashes(blocks)[i] == hash);
        }
    }
    vstd::seq_lib::seq_to_set_is_finite(external_hashes(blocks));
}

/// However much is stored, the mappings never exceed their capacity.
pub proof fn law_mappings_stay_within_capacity(
    resolver: ResolverView,
    owner: CacheOwner,
    group: u32,
    blocks: Seq<CacheEvidenceStoredBlock>,
)
    requires
        resolver.inv(),
    ensures
        resolver.learn_gpu(owner, group, blocks).0.inv(),
{
    let ambiguous = resolver.ambiguous_hashes(owner, group, blocks);
    let named = ResolverView::named_hashes(blocks);
    lemma_named_finite(blocks);
    assert(ambiguous.subset_of(named));
    vstd::set_lib::lemma_len_subset(ambiguous, named);
    let learned = resolver.learn_gpu(owner, group, blocks).0;
    let wanted = if ambiguous != Set::<u64>::empty() {
        ambiguous
    } else {
        named
    };
    let new = wanted.filter(|hash: u64| resolver.is_new(owner, group, hash));
    vstd::set_lib::lemma_len_subset(new, wanted);
    lemma_scoped_len(owner, group, new);
    let keys = scoped(owner, group, new);
    if resolver.overflows(resolver.new_count(owner, group, wanted)) {
        assert(learned.mappings.dom() =~= resolver.mappings.dom());
    } else {
        let all = resolver.mappings.dom().union(keys);
        assert(learned.mappings.dom() =~= all) by {
            assert forall|k: HashScope| #[trigger]
                learned.mappings.contains_key(k) implies all.contains(k) by {
                if !resolver.mappings.contains_key(k) {
                    assert(new.contains(k.external_hash));
                    assert(scope(owner, group, k.external_hash) == k);
                }
            }
            assert forall|k: HashScope| #[trigger]
                all.contains(k) implies learned.mappings.contains_key(k) by {
                if keys.contains(k) {
                    let h = choose|h: u64|
                        new.contains(h) && #[trigger] scope(owner, group, h) == k;
                    assert(wanted.contains(h));
                }
            }
        }
        vstd::set_lib::lemma_len_union(resolver.mappings.dom(), keys);
    }
}

} // verus!
