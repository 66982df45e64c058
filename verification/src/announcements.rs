//! Announcements of blocks, and the copies they stand for.
//!
//! An engine announces a block under a hash of its own; several of them may
//! stand for one rolling hash. A copy is counted while announcements of it
//! are left.

use vstd::prelude::*;

use crate::evidence::BlockCopy;
use crate::model::bump;

verus! {

/// How often the engine hash at `external` announces the block at `key`.
pub open spec fn weight(
    external_copies: Map<BlockCopy, (u64, u32)>,
    key: BlockCopy,
    external: BlockCopy,
) -> int {
    if external_copies.contains_key(external) && external.copy == key.copy
        && external_copies[external].0 == key.hash {
        external_copies[external].1 as int
    } else {
        0
    }
}

pub open spec fn total(
    external_copies: Map<BlockCopy, (u64, u32)>,
    key: BlockCopy,
    externals: Set<BlockCopy>,
) -> int
    decreases externals.len(),
{
    if externals.finite() && externals.len() > 0 {
        let external = externals.choose();
        weight(external_copies, key, external) + total(
            external_copies,
            key,
            externals.remove(external),
        )
    } else {
        0
    }
}

/// Announcements of a block under all engine hashes.
pub open spec fn announced(external_copies: Map<BlockCopy, (u64, u32)>, key: BlockCopy) -> int {
    total(external_copies, key, external_copies.dom())
}

pub open spec fn count(copies: Map<BlockCopy, u32>, key: BlockCopy) -> int {
    if copies.contains_key(key) {
        copies[key] as int
    } else {
        0
    }
}

/// No block is counted more often than it is announced. Counts are at their
/// limit at `u32::MAX`, so it may be counted less often.
#[verifier::opaque]
pub open spec fn backed(
    copies: Map<BlockCopy, u32>,
    external_copies: Map<BlockCopy, (u64, u32)>,
) -> bool {
    &&& external_copies.dom().finite()
    &&& forall|key: BlockCopy| #[trigger] count(copies, key) <= announced(external_copies, key)
}

pub(crate) proof fn lemma_total_remove(
    external_copies: Map<BlockCopy, (u64, u32)>,
    key: BlockCopy,
    externals: Set<BlockCopy>,
    external: BlockCopy,
)
    requires
        externals.finite(),
        externals.contains(external),
    ensures
        total(external_copies, key, externals) == weight(external_copies, key, external) + total(
            external_copies,
            key,
            externals.remove(external),
        ),
    decreases externals.len(),
{
    let first = externals.choose();
    assert(externals.contains(first));
    if first != external {
        lemma_total_remove(external_copies, key, externals.remove(first), external);
        lemma_total_remove(external_copies, key, externals.remove(external), first);
        assert(externals.remove(first).remove(external) =~= externals.remove(external).remove(
            first,
        ));
    }
}

pub(crate) proof fn lemma_total_same(
    before: Map<BlockCopy, (u64, u32)>,
    after: Map<BlockCopy, (u64, u32)>,
    key: BlockCopy,
    externals: Set<BlockCopy>,
)
    requires
        forall|external: BlockCopy| #[trigger]
            externals.contains(external) ==> weight(before, key, external) == weight(
                after,
                key,
                external,
            ),
    ensures
        total(before, key, externals) == total(after, key, externals),
    decreases externals.len(),
{
    if externals.finite() && externals.len() > 0 {
        let external = externals.choose();
        assert(externals.contains(external));
        lemma_total_same(before, after, key, externals.remove(external));
    }
}

pub(crate) proof fn lemma_total_bounds(
    external_copies: Map<BlockCopy, (u64, u32)>,
    key: BlockCopy,
    externals: Set<BlockCopy>,
)
    ensures
        total(external_copies, key, externals) >= 0,
        total(external_copies, key, externals) > 0 ==> exists|external: BlockCopy| #[trigger]
            externals.contains(external) && weight(external_copies, key, external) > 0,
    decreases externals.len(),
{
    if externals.finite() && externals.len() > 0 {
        let external = externals.choose();
        assert(externals.contains(external));
        lemma_total_bounds(external_copies, key, externals.remove(external));
        if total(external_copies, key, externals.remove(external)) > 0 {
            let other = choose|other: BlockCopy| #[trigger]
                externals.remove(external).contains(other) && weight(external_copies, key, other)
                    > 0;
            assert(externals.contains(other));
        }
    }
}

/// Changing one engine hash changes the announcements by its own weight.
pub(crate) proof fn lemma_announced_changed(
    before: Map<BlockCopy, (u64, u32)>,
    after: Map<BlockCopy, (u64, u32)>,
    changed: BlockCopy,
    key: BlockCopy,
)
    requires
        before.dom().finite(),
        after.dom().finite(),
        forall|external: BlockCopy|
            #![trigger after.contains_key(external)]
            #![trigger before.contains_key(external)]
            external != changed ==> before.contains_key(external)
                == after.contains_key(external) && (
            before.contains_key(external) ==> before[external]
                == after[external]),
    ensures
        announced(after, key) - announced(before, key) == weight(
            after,
            key,
            changed,
        ) - weight(before, key, changed),
{
    let rest = before.dom().remove(changed);
    assert(rest =~= after.dom().remove(changed)) by {
        assert forall|external: BlockCopy| rest.contains(external)
            == after.dom().remove(changed).contains(external) by {
            assert(external != changed ==> before.contains_key(external)
                == after.contains_key(external));
        }
    }
    assert forall|external: BlockCopy| #[trigger] rest.contains(external) implies weight(
        before,
        key,
        external,
    ) == weight(after, key, external) by {
        assert(before.contains_key(external));
    }
    lemma_total_same(before, after, key, rest);
    if before.contains_key(changed) {
        lemma_total_remove(
            before,
            key,
            before.dom(),
            changed,
        );
    } else {
        assert(rest =~= before.dom());
    }
    if after.contains_key(changed) {
        lemma_total_remove(after, key, after.dom(), changed);
    } else {
        assert(rest =~= after.dom());
    }
}

/// Removing elements that carry no weight keeps the total.
pub(crate) proof fn lemma_total_restricted(
    before: Map<BlockCopy, (u64, u32)>,
    after: Map<BlockCopy, (u64, u32)>,
    key: BlockCopy,
    externals: Set<BlockCopy>,
    kept: Set<BlockCopy>,
)
    requires
        externals.finite(),
        kept.subset_of(externals),
        forall|external: BlockCopy| #[trigger]
            externals.contains(external) ==> if kept.contains(external) {
                weight(after, key, external) == weight(before, key, external)
            } else {
                weight(before, key, external) == 0
            },
    ensures
        kept.finite(),
        total(after, key, kept) == total(before, key, externals),
    decreases externals.len(),
{
    vstd::set_lib::lemma_set_subset_finite(externals, kept);
    if externals.len() > 0 {
        let external = externals.choose();
        assert(externals.contains(external));
        lemma_total_restricted(
            before,
            after,
            key,
            externals.remove(external),
            kept.remove(external),
        );
        lemma_total_remove(before, key, externals, external);
        if kept.contains(external) {
            lemma_total_remove(after, key, kept, external);
        } else {
            assert(kept.remove(external) =~= kept);
        }
    } else {
        assert(externals =~= Set::<BlockCopy>::empty());
        assert(kept =~= Set::<BlockCopy>::empty());
    }
}

/// An engine hash announces a block at most as often as all of them.
pub(crate) proof fn lemma_weight_is_announced(
    external_copies: Map<BlockCopy, (u64, u32)>,
    key: BlockCopy,
    external: BlockCopy,
)
    requires
        external_copies.dom().finite(),
    ensures
        0 <= weight(external_copies, key, external) <= announced(external_copies, key),
{
    let externals = external_copies.dom();
    if externals.contains(external) {
        lemma_total_remove(external_copies, key, externals, external);
        lemma_total_bounds(external_copies, key, externals.remove(external));
    } else {
        lemma_total_bounds(external_copies, key, externals);
    }
}

pub(crate) proof fn lemma_empty_is_backed()
    ensures
        backed(Map::empty(), Map::empty()),
{
    reveal(backed);
    assert forall|key: BlockCopy| #[trigger]
        count(Map::empty(), key) <= announced(Map::empty(), key) by {
        lemma_total_bounds(Map::empty(), key, Map::<BlockCopy, (u64, u32)>::empty().dom());
    }
}

/// A backed copy has an engine hash that announces it.
pub(crate) proof fn lemma_backed_copy_is_announced(
    copies: Map<BlockCopy, u32>,
    external_copies: Map<BlockCopy, (u64, u32)>,
    key: BlockCopy,
) -> (external: BlockCopy)
    requires
        backed(copies, external_copies),
        copies.contains_key(key),
        copies[key] >= 1,
    ensures
        external_copies.contains_key(external),
        external.copy == key.copy,
        external_copies[external].0 == key.hash,
{
    reveal(backed);
    assert(count(copies, key) >= 1);
    lemma_total_bounds(external_copies, key, external_copies.dom());
    choose|external: BlockCopy| #[trigger]
        external_copies.dom().contains(external) && weight(external_copies, key, external) > 0
}

/// One more announcement of a block keeps the copies backed.
pub(crate) proof fn lemma_store_is_backed(
    copies: Map<BlockCopy, u32>,
    external_copies: Map<BlockCopy, (u64, u32)>,
    external: BlockCopy,
    stored: BlockCopy,
    counted: u32,
    heard: u32,
)
    requires
        backed(copies, external_copies),
        external.copy == stored.copy,
        external_copies.contains_key(external) ==> external_copies[external] == (
            stored.hash,
            heard,
        ),
        !external_copies.contains_key(external) ==> heard == 0,
        copies.contains_key(stored) ==> copies[stored] == counted,
        !copies.contains_key(stored) ==> counted == 0,
    ensures
        backed(
            copies.insert(stored, bump(counted)),
            external_copies.insert(external, (stored.hash, bump(heard))),
        ),
{
    reveal(backed);
    let kept = copies.insert(stored, bump(counted));
    let after = external_copies.insert(external, (stored.hash, bump(heard)));
    assert forall|key: BlockCopy| #[trigger] count(kept, key) <= announced(after, key) by {
        assert(count(copies, key) <= announced(external_copies, key));
        lemma_announced_changed(external_copies, after, external, key);
        lemma_weight_is_announced(after, key, external);
    }
}

/// One announcement less keeps the copies backed.
pub(crate) proof fn lemma_remove_is_backed(
    copies: Map<BlockCopy, u32>,
    external_copies: Map<BlockCopy, (u64, u32)>,
    external: BlockCopy,
    stored: BlockCopy,
)
    requires
        backed(copies, external_copies),
        external_copies.contains_key(external),
        external_copies[external].1 >= 1,
        stored == (BlockCopy { hash: external_copies[external].0, copy: external.copy }),
        copies.contains_key(stored) ==> copies[stored] >= 1,
    ensures
        ({
            let after = if external_copies[external].1 == 1 {
                external_copies.remove(external)
            } else {
                external_copies.insert(
                    external,
                    (stored.hash, (external_copies[external].1 - 1) as u32),
                )
            };
            let kept = if !copies.contains_key(stored) {
                copies
            } else if copies[stored] == 1 {
                copies.remove(stored)
            } else {
                copies.insert(stored, (copies[stored] - 1) as u32)
            };
            backed(kept, after)
        }),
{
    reveal(backed);
    let after = if external_copies[external].1 == 1 {
        external_copies.remove(external)
    } else {
        external_copies.insert(external, (stored.hash, (external_copies[external].1 - 1) as u32))
    };
    let kept = if !copies.contains_key(stored) {
        copies
    } else if copies[stored] == 1 {
        copies.remove(stored)
    } else {
        copies.insert(stored, (copies[stored] - 1) as u32)
    };
    assert forall|key: BlockCopy| #[trigger] count(kept, key) <= announced(after, key) by {
        assert(count(copies, key) <= announced(external_copies, key));
        lemma_announced_changed(external_copies, after, external, key);
        lemma_weight_is_announced(after, key, external);
    }
}

/// The predicate looks at the place of a block alone.
pub open spec fn by_place(kept: spec_fn(BlockCopy) -> bool) -> bool {
    forall|a: BlockCopy, b: BlockCopy| a.copy == b.copy ==> #[trigger] kept(a) == #[trigger] kept(b)
}

/// Dropping whole places drops their announcements and keeps all others.
pub(crate) proof fn lemma_kept_announcements(
    external_copies: Map<BlockCopy, (u64, u32)>,
    kept: spec_fn(BlockCopy) -> bool,
    key: BlockCopy,
)
    requires
        external_copies.dom().finite(),
        by_place(kept),
    ensures
        external_copies.restrict(Set::new(kept)).dom().finite(),
        announced(external_copies.restrict(Set::new(kept)), key) == if kept(key) {
            announced(external_copies, key)
        } else {
            0
        },
{
    let after = external_copies.restrict(Set::new(kept));
    let externals = external_copies.dom();
    let left = after.dom();
    vstd::set_lib::lemma_set_subset_finite(externals, left);
    if kept(key) {
        assert forall|external: BlockCopy| #[trigger] externals.contains(external) implies if
        left.contains(external) {
            weight(after, key, external) == weight(external_copies, key, external)
        } else {
            weight(external_copies, key, external) == 0
        } by {
            assert(kept(external) == kept(external));
        }
        lemma_total_restricted(external_copies, after, key, externals, left);
    } else {
        assert forall|external: BlockCopy| #[trigger] left.contains(external) implies weight(
            after,
            key,
            external,
        ) == 0 by {
            assert(kept(external));
        }
        lemma_total_bounds(after, key, left);
    }
}

/// Dropping whole places keeps the copies backed.
pub(crate) proof fn lemma_kept_is_backed(
    copies: Map<BlockCopy, u32>,
    external_copies: Map<BlockCopy, (u64, u32)>,
    kept: spec_fn(BlockCopy) -> bool,
)
    requires
        backed(copies, external_copies),
        by_place(kept),
    ensures
        backed(copies.restrict(Set::new(kept)), external_copies.restrict(Set::new(kept))),
{
    reveal(backed);
    let after = external_copies.restrict(Set::new(kept));
    let left = copies.restrict(Set::new(kept));
    assert forall|key: BlockCopy| #[trigger] count(left, key) <= announced(after, key) by {
        assert(count(copies, key) <= announced(external_copies, key));
        lemma_kept_announcements(external_copies, kept, key);
    }
    assert(after.dom().finite()) by {
        vstd::set_lib::lemma_set_subset_finite(external_copies.dom(), after.dom());
    }
}

} // verus!
