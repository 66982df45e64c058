//! What each operation of the ledger does to what is known, told from the
//! facts that it keeps.

use vstd::prelude::*;

use crate::evidence::{
    BlockCopy, CacheGroupBlockQuery, CacheOwner, CacheTier, KnownBool, OwnerTier, PhysicalCopy,
};
use crate::model::LedgerView;

verus! {

pub open spec fn place(owner: CacheOwner, tier: CacheTier, group: u32, hash: u64) -> BlockCopy {
    BlockCopy { hash, copy: PhysicalCopy { owner, tier, group } }
}

/// One more, as far as a count can hold it.
pub open spec fn one_more(count: u32) -> int {
    if count == u32::MAX {
        u32::MAX as int
    } else {
        count + 1
    }
}

// ---- history ----

/// Recorded blocks are seen from then on as long as there is room; whatever is
/// not retained leaves the history saturated. Nothing else changes.
pub proof fn law_history_sees_what_is_recorded(ledger: LedgerView, hashes: Seq<u64>)
    requires
        ledger.seen_blocks.finite(),
        ledger.seen_blocks.len() <= ledger.history_capacity,
    ensures
        ({
            let after = ledger.see_all(hashes);
            &&& after == (LedgerView {
                seen_blocks: after.seen_blocks,
                history_saturated: after.history_saturated,
                ..ledger
            })
            &&& after.seen_blocks.finite()
            &&& after.seen_blocks.len() <= ledger.history_capacity
            &&& after.seen_blocks.len() <= ledger.seen_blocks.len() + hashes.len()
            &&& forall|hash: u64| #[trigger]
                ledger.seen_blocks.contains(hash) ==> after.seen_blocks.contains(hash)
            &&& forall|hash: u64| #[trigger]
                after.seen_blocks.contains(hash) ==> ledger.seen_blocks.contains(hash)
                    || hashes.contains(hash)
            &&& after.history_saturated <==> ledger.history_saturated || exists|i: int|
                0 <= i < hashes.len() && !after.seen_blocks.contains(#[trigger] hashes[i])
            &&& after.seen_blocks.len() < ledger.history_capacity ==> forall|i: int|
                0 <= i < hashes.len() ==> after.seen_blocks.contains(#[trigger] hashes[i])
            &&& ledger.seen_blocks.len() + hashes.len() <= ledger.history_capacity ==> forall|
                i: int,
            |
                0 <= i < hashes.len() ==> after.seen_blocks.contains(#[trigger] hashes[i])
        }),
    decreases hashes.len(),
{
    if hashes.len() > 0 {
        let front = hashes.drop_last();
        let last = hashes.last();
        law_history_sees_what_is_recorded(ledger, front);
        let before = ledger.see_all(front);
        let after = ledger.see_all(hashes);
        assert(hashes[hashes.len() - 1] == last);
        assert forall|hash: u64| #[trigger] after.seen_blocks.contains(hash) implies
            ledger.seen_blocks.contains(hash) || hashes.contains(hash) by {
            if front.contains(hash) {
                let i = choose|i: int| 0 <= i < front.len() && front[i] == hash;
                assert(hashes[i] == hash);
            }
        }
        assert forall|i: int| 0 <= i < front.len() implies #[trigger] front[i] == hashes[i] by {}
        if exists|i: int|
            0 <= i < hashes.len() && !after.seen_blocks.contains(#[trigger] hashes[i]) {
            let i = choose|i: int|
                0 <= i < hashes.len() && !after.seen_blocks.contains(#[trigger] hashes[i]);
            if i < front.len() {
                assert(!before.seen_blocks.contains(front[i]));
            }
        }
        if before.history_saturated && !ledger.history_saturated {
            let i = choose|i: int|
                0 <= i < front.len() && !before.seen_blocks.contains(#[trigger] front[i]);
            assert(before.seen_blocks.len() == ledger.history_capacity);
            assert(!after.seen_blocks.contains(hashes[i]));
        }
        if after.seen_blocks.len() < ledger.history_capacity {
            assert forall|i: int| 0 <= i < hashes.len() implies after.seen_blocks.contains(
                #[trigger] hashes[i],
            ) by {
                if i < front.len() {
                    assert(before.seen_blocks.contains(front[i]));
                }
            }
        }
        if ledger.seen_blocks.len() + hashes.len() <= ledger.history_capacity {
            assert forall|i: int| 0 <= i < hashes.len() implies after.seen_blocks.contains(
                #[trigger] hashes[i],
            ) by {
                if i < front.len() {
                    assert(before.seen_blocks.contains(front[i]));
                }
            }
        }
    }
}

/// A block is reusable if it was seen. It is known not to be only if the
/// history is complete and has forgotten nothing.
pub proof fn law_reusable_is_what_was_seen(ledger: LedgerView, hash: u64)
    ensures
        ledger.reusable(hash) == KnownBool::Yes <==> ledger.seen_blocks.contains(hash),
        ledger.reusable(hash) == KnownBool::No <==> !ledger.seen_blocks.contains(hash)
            && ledger.history_complete && !ledger.history_saturated,
{
}

/// A new epoch starts with a complete and empty history. What is resident
/// stays so.
pub proof fn law_new_epoch_starts_over(ledger: LedgerView)
    ensures
        ({
            let after = ledger.advance_history_epoch();
            &&& after.history_epoch == if ledger.history_epoch == u64::MAX {
                1int
            } else {
                ledger.history_epoch + 1
            }
            &&& after.seen_blocks == Set::<u64>::empty()
            &&& !after.history_saturated
            &&& after.history_complete
            &&& after.physical_telemetry_complete
            &&& after.history_capacity == ledger.history_capacity
            &&& after.copies == ledger.copies
            &&& after.external_copies == ledger.external_copies
            &&& after.required_groups == ledger.required_groups
            &&& after.expected_owners == ledger.expected_owners
            &&& after.physical_scope_complete == ledger.physical_scope_complete
        }),
{
}

/// A cold epoch is committed exactly if the owners are those expected, all
/// have declared their groups, and nothing is announced or held on any of
/// them.
pub proof fn law_commit_needs_empty_owners(ledger: LedgerView, owners: Set<CacheOwner>)
    ensures
        ({
            let after = ledger.commit_cold_history_epoch(owners);
            let cold = ledger.expected_owners == Some(owners) && ledger.physical_scope_complete && (
            forall|key: BlockCopy|
                (#[trigger] ledger.copies.contains_key(key)) ==> !owners.contains(key.copy.owner))
                && (forall|key: BlockCopy|
                (#[trigger] ledger.external_copies.contains_key(key)) ==> !owners.contains(
                    key.copy.owner,
                ));
            &&& cold ==> after == ledger.advance_history_epoch()
            &&& !cold ==> after == (LedgerView { history_complete: false, ..ledger })
        }),
{
}

// ---- announcements ----

/// An announcement counts once more for its engine hash and for the block that
/// it stands for, and the block has been seen. An engine hash that stands for
/// another block is refused, and the evidence is no longer complete.
pub proof fn law_store_announces_a_block(
    ledger: LedgerView,
    owner: CacheOwner,
    tier: CacheTier,
    group: u32,
    external_hash: u64,
    sequence_hash: u64,
)
    ensures
        ({
            let after = ledger.store_mapped(owner, tier, group, external_hash, sequence_hash);
            let external = place(owner, tier, group, external_hash);
            let stored = place(owner, tier, group, sequence_hash);
            let taken = ledger.external_copies.contains_key(external)
                && ledger.external_copies[external].0 != sequence_hash;
            &&& after.required_groups == ledger.required_groups
            &&& after.expected_owners == ledger.expected_owners
            &&& after.history_epoch == ledger.history_epoch
            &&& taken ==> {
                &&& after.copies == ledger.copies
                &&& after.external_copies == ledger.external_copies
                &&& after.seen_blocks == ledger.seen_blocks
                &&& !after.physical_telemetry_complete
                &&& !after.history_complete
            }
            &&& !taken ==> {
                &&& after.external_copies.contains_key(external)
                &&& after.external_copies[external].0 == sequence_hash
                &&& after.external_copies[external].1 == if ledger.external_copies.contains_key(
                    external,
                ) {
                    one_more(ledger.external_copies[external].1)
                } else {
                    1
                }
                &&& after.copies.contains_key(stored)
                &&& after.copies[stored] == if ledger.copies.contains_key(stored) {
                    one_more(ledger.copies[stored])
                } else {
                    1
                }
                &&& after.seen_blocks.contains(sequence_hash) || after.history_saturated
                &&& after.physical_telemetry_complete == ledger.physical_telemetry_complete
                &&& after.history_complete == ledger.history_complete
                &&& forall|key: BlockCopy|
                    key != external ==> ((#[trigger] after.external_copies.contains_key(key))
                        <==> ledger.external_copies.contains_key(key)) && (
                    ledger.external_copies.contains_key(key) ==> after.external_copies[key]
                        == ledger.external_copies[key])
                &&& forall|key: BlockCopy|
                    key != stored ==> ((#[trigger] after.copies.contains_key(key))
                        <==> ledger.copies.contains_key(key)) && (ledger.copies.contains_key(key)
                        ==> after.copies[key] == ledger.copies[key])
            }
        }),
{
}

/// A withdrawal counts once less for the engine hash and for the block that it
/// stood for; the last one takes them away. A hash that was never announced
/// proves that evidence is missing.
pub proof fn law_remove_withdraws_a_block(
    ledger: LedgerView,
    owner: CacheOwner,
    tier: CacheTier,
    group: u32,
    external_hash: u64,
)
    requires
        ledger.inv(),
    ensures
        ({
            let after = ledger.remove_external(owner, tier, group, external_hash);
            let external = place(owner, tier, group, external_hash);
            let known = ledger.external_copies.contains_key(external);
            let stored = place(owner, tier, group, ledger.external_copies[external].0);
            &&& after.seen_blocks == ledger.seen_blocks
            &&& after.required_groups == ledger.required_groups
            &&& !known ==> {
                &&& after.copies == ledger.copies
                &&& after.external_copies == ledger.external_copies
                &&& !after.physical_telemetry_complete
                &&& !after.history_complete
            }
            &&& known ==> {
                &&& after.external_copies.contains_key(external)
                    <==> ledger.external_copies[external].1 > 1
                &&& ledger.external_copies[external].1 > 1 ==> after.external_copies[external] == (
                    ledger.external_copies[external].0,
                    (ledger.external_copies[external].1 - 1) as u32,
                )
                &&& after.copies.contains_key(stored) <==> ledger.copies.contains_key(stored)
                    && ledger.copies[stored] > 1
                &&& after.copies.contains_key(stored) ==> after.copies[stored]
                    == ledger.copies[stored] - 1
                &&& ledger.copies.contains_key(stored) ==> after.physical_telemetry_complete
                    == ledger.physical_telemetry_complete && after.history_complete
                    == ledger.history_complete
                &&& forall|key: BlockCopy|
                    key != external ==> ((#[trigger] after.external_copies.contains_key(key))
                        <==> ledger.external_copies.contains_key(key)) && (
                    ledger.external_copies.contains_key(key) ==> after.external_copies[key]
                        == ledger.external_copies[key])
                &&& forall|key: BlockCopy|
                    key != stored ==> ((#[trigger] after.copies.contains_key(key))
                        <==> ledger.copies.contains_key(key)) && (ledger.copies.contains_key(key)
                        ==> after.copies[key] == ledger.copies[key])
            }
        }),
{
}

// ---- scope ----

/// Some tier of the owner declares a group.
pub open spec fn has_groups(ledger: LedgerView, owner: CacheOwner) -> bool {
    let gpu = OwnerTier { owner, tier: CacheTier::Gpu };
    let cpu = OwnerTier { owner, tier: CacheTier::Cpu };
    ||| ledger.required_groups.contains_key(gpu) && ledger.required_groups[gpu] != Set::<
        u32,
    >::empty()
    ||| ledger.required_groups.contains_key(cpu) && ledger.required_groups[cpu] != Set::<
        u32,
    >::empty()
}

/// The scope is complete: there are owners, and each declares a group.
pub open spec fn all_have_groups(ledger: LedgerView, owners: Set<CacheOwner>) -> bool {
    &&& exists|owner: CacheOwner| #[trigger] owners.contains(owner)
    &&& forall|owner: CacheOwner| #[trigger] owners.contains(owner) ==> has_groups(ledger, owner)
}

proof fn lemma_declares(ledger: LedgerView, owner: CacheOwner)
    ensures
        ledger.declares_groups(owner) <==> has_groups(ledger, owner),
        ledger.cataloged(owner) <==> ledger.required_groups.contains_key(
            OwnerTier { owner, tier: CacheTier::Gpu },
        ) || ledger.required_groups.contains_key(OwnerTier { owner, tier: CacheTier::Cpu }),
{
    if ledger.declares_groups(owner) {
        let tier = choose|tier: CacheTier|
            #[trigger] ledger.required_groups.contains_key(OwnerTier { owner, tier })
                && ledger.required_groups[OwnerTier { owner, tier }] != Set::<u32>::empty();
        match tier {
            CacheTier::Gpu => {},
            CacheTier::Cpu => {},
        }
    }
    if ledger.cataloged(owner) {
        let tier = choose|tier: CacheTier| #[trigger]
            ledger.required_groups.contains_key(OwnerTier { owner, tier });
        match tier {
            CacheTier::Gpu => {},
            CacheTier::Cpu => {},
        }
    }
}

proof fn lemma_scope(ledger: LedgerView)
    ensures
        ledger.refresh_scope() == (LedgerView {
            physical_scope_complete: match ledger.expected_owners {
                None => ledger.physical_scope_complete,
                Some(owners) => all_have_groups(ledger, owners),
            },
            ..ledger
        }),
{
    if let Some(owners) = ledger.expected_owners {
        assert forall|owner: CacheOwner| #[trigger]
            owners.contains(owner) implies ledger.declares_groups(owner) == has_groups(
            ledger,
            owner,
        ) by {
            lemma_declares(ledger, owner);
        }
        if owners != Set::<CacheOwner>::empty() {
            assert(exists|owner: CacheOwner| #[trigger] owners.contains(owner)) by {
                if forall|owner: CacheOwner| !#[trigger] owners.contains(owner) {
                    assert(owners =~= Set::<CacheOwner>::empty());
                }
            }
        }
    }
}

/// A catalog is what the owner's tier caches from then on. Once membership is
/// known, the scope is complete exactly if each expected owner declares a
/// group.
pub proof fn law_catalog_declares_groups(
    ledger: LedgerView,
    owner: CacheOwner,
    tier: CacheTier,
    groups: Set<u32>,
)
    ensures
        ({
            let after = ledger.record_group_catalog(owner, tier, groups);
            let key = OwnerTier { owner, tier };
            &&& after.required_groups.contains_key(key)
            &&& after.required_groups[key] == groups
            &&& forall|other: OwnerTier|
                other != key ==> ((#[trigger] after.required_groups.contains_key(other))
                    <==> ledger.required_groups.contains_key(other)) && (
                ledger.required_groups.contains_key(other) ==> after.required_groups[other]
                    == ledger.required_groups[other])
            &&& ledger.expected_owners is None ==> after.physical_scope_complete
                == ledger.physical_scope_complete
            &&& ledger.expected_owners is Some ==> (after.physical_scope_complete
                <==> all_have_groups(after, ledger.expected_owners->0))
            &&& after.copies == ledger.copies
            &&& after.external_copies == ledger.external_copies
            &&& after.seen_blocks == ledger.seen_blocks
            &&& after.history_complete == ledger.history_complete
            &&& after.physical_telemetry_complete == ledger.physical_telemetry_complete
        }),
{
    let key = OwnerTier { owner, tier };
    let declared = LedgerView {
        required_groups: ledger.required_groups.insert(key, groups),
        ..ledger
    };
    lemma_scope(declared);
    assert forall|o: CacheOwner| has_groups(declared, o) == has_groups(
        ledger.record_group_catalog(owner, tier, groups),
        o,
    ) by {}
}

/// A new membership keeps what expected owners have declared and hold. An
/// owner that had declared itself and is no longer expected leaves with
/// everything.
pub proof fn law_membership_keeps_the_expected(ledger: LedgerView, owners: Set<CacheOwner>)
    ensures
        ({
            let after = ledger.set_expected_owners(owners);
            &&& after.expected_owners == Some(owners)
            &&& after.physical_scope_complete <==> all_have_groups(after, owners)
            &&& forall|key: OwnerTier|
                (#[trigger] after.required_groups.contains_key(key))
                    <==> ledger.required_groups.contains_key(key) && owners.contains(key.owner)
            &&& forall|key: OwnerTier|
                (#[trigger] after.required_groups.contains_key(key))
                    ==> after.required_groups[key] == ledger.required_groups[key]
            &&& forall|key: BlockCopy|
                (#[trigger] after.copies.contains_key(key)) <==> ledger.copies.contains_key(key)
                    && (owners.contains(key.copy.owner) || !is_declared(ledger, key.copy.owner))
            &&& forall|key: BlockCopy|
                (#[trigger] after.copies.contains_key(key)) ==> after.copies[key]
                    == ledger.copies[key]
            &&& forall|key: BlockCopy|
                (#[trigger] after.external_copies.contains_key(key))
                    <==> ledger.external_copies.contains_key(key) && (owners.contains(
                    key.copy.owner,
                ) || !is_declared(ledger, key.copy.owner))
            &&& after.seen_blocks == ledger.seen_blocks
            &&& after.history_epoch == ledger.history_epoch
            &&& after.history_complete == ledger.history_complete
            &&& after.physical_telemetry_complete == ledger.physical_telemetry_complete
        }),
{
    let after = ledger.set_expected_owners(owners);
    let kept = LedgerView {
        required_groups: after.required_groups,
        expected_owners: Some(owners),
        copies: after.copies,
        external_copies: after.external_copies,
        ..ledger
    };
    lemma_scope(kept);
    assert forall|o: CacheOwner| has_groups(kept, o) == has_groups(after, o) by {}
    assert forall|o: CacheOwner| #[trigger] ledger.cataloged(o) == is_declared(ledger, o) by {
        lemma_declares(ledger, o);
    }
    assert forall|key: BlockCopy|
        (#[trigger] after.copies.contains_key(key)) <==> ledger.copies.contains_key(key) && (
        owners.contains(key.copy.owner) || !is_declared(ledger, key.copy.owner)) by {
        assert(ledger.cataloged(key.copy.owner) == is_declared(ledger, key.copy.owner));
    }
    assert forall|key: BlockCopy|
        (#[trigger] after.external_copies.contains_key(key))
            <==> ledger.external_copies.contains_key(key) && (owners.contains(key.copy.owner)
            || !is_declared(ledger, key.copy.owner)) by {
        assert(ledger.cataloged(key.copy.owner) == is_declared(ledger, key.copy.owner));
    }
}

pub open spec fn is_declared(ledger: LedgerView, owner: CacheOwner) -> bool {
    ledger.required_groups.contains_key(OwnerTier { owner, tier: CacheTier::Gpu })
        || ledger.required_groups.contains_key(OwnerTier { owner, tier: CacheTier::Cpu })
}

/// A retired owner leaves with its copies and its catalog; nobody else is
/// touched, and the history stays.
pub proof fn law_retired_owner_leaves_nothing(ledger: LedgerView, owner: CacheOwner)
    ensures
        ({
            let after = ledger.retire_owner(owner);
            &&& forall|key: OwnerTier|
                (#[trigger] after.required_groups.contains_key(key))
                    <==> ledger.required_groups.contains_key(key) && key.owner != owner
            &&& forall|key: OwnerTier|
                (#[trigger] after.required_groups.contains_key(key))
                    ==> after.required_groups[key] == ledger.required_groups[key]
            &&& forall|key: BlockCopy|
                (#[trigger] after.copies.contains_key(key)) <==> ledger.copies.contains_key(key)
                    && key.copy.owner != owner
            &&& forall|key: BlockCopy|
                (#[trigger] after.external_copies.contains_key(key))
                    <==> ledger.external_copies.contains_key(key) && key.copy.owner != owner
            &&& after.expected_owners == ledger.expected_owners
            &&& after.expected_owners is Some ==> (after.physical_scope_complete
                <==> all_have_groups(after, after.expected_owners->0))
            &&& after.seen_blocks == ledger.seen_blocks
            &&& after.history_complete == ledger.history_complete
        }),
{
    let after = ledger.retire_owner(owner);
    let kept = LedgerView {
        required_groups: after.required_groups,
        ..ledger.clear(owner, None)
    };
    lemma_scope(kept);
    assert forall|o: CacheOwner| has_groups(kept, o) == has_groups(after, o) by {}
}

/// A clear takes the copies of one owner, on one tier or on all, and nothing
/// else.
pub proof fn law_clear_takes_the_owners_copies(
    ledger: LedgerView,
    owner: CacheOwner,
    tier: Option<CacheTier>,
)
    ensures
        ({
            let after = ledger.clear(owner, tier);
            &&& forall|key: BlockCopy|
                (#[trigger] after.copies.contains_key(key)) <==> ledger.copies.contains_key(key)
                    && !(key.copy.owner == owner && (tier is None || tier == Some(key.copy.tier)))
            &&& forall|key: BlockCopy|
                (#[trigger] after.external_copies.contains_key(key))
                    <==> ledger.external_copies.contains_key(key) && !(key.copy.owner == owner && (
                tier is None || tier == Some(key.copy.tier)))
            &&& forall|key: BlockCopy|
                (#[trigger] after.copies.contains_key(key)) ==> after.copies[key]
                    == ledger.copies[key]
            &&& forall|key: BlockCopy|
                (#[trigger] after.external_copies.contains_key(key))
                    ==> after.external_copies[key] == ledger.external_copies[key]
            &&& after.required_groups == ledger.required_groups
            &&& after.expected_owners == ledger.expected_owners
            &&& after.seen_blocks == ledger.seen_blocks
            &&& after.history_complete == ledger.history_complete
            &&& after.physical_telemetry_complete == ledger.physical_telemetry_complete
            &&& after.physical_scope_complete == ledger.physical_scope_complete
        }),
{
}

// ---- residency ----

/// The owner holds the block whole on the tier: for every group that the tier
/// declares, of which there is one at least.
pub open spec fn holds_whole(ledger: LedgerView, hash: u64, owner: CacheOwner, tier: CacheTier)
    -> bool {
    let key = OwnerTier { owner, tier };
    &&& ledger.required_groups.contains_key(key)
    &&& exists|group: u32| #[trigger] ledger.required_groups[key].contains(group)
    &&& forall|group: u32| #[trigger]
        ledger.required_groups[key].contains(group) ==> ledger.copies.contains_key(
            place(owner, tier, group, hash),
        )
}

proof fn lemma_whole(ledger: LedgerView, hash: u64, owner: CacheOwner, tier: CacheTier)
    ensures
        ledger.resident_in_declared_cache(hash, owner, tier) <==> holds_whole(
            ledger,
            hash,
            owner,
            tier,
        ),
{
    let key = OwnerTier { owner, tier };
    let groups = ledger.required_groups[key];
    if groups != Set::<u32>::empty() {
        assert(exists|group: u32| #[trigger] groups.contains(group)) by {
            if forall|group: u32| !#[trigger] groups.contains(group) {
                assert(groups =~= Set::<u32>::empty());
            }
        }
    }
    if holds_whole(ledger, hash, owner, tier) {
        assert forall|group: u32| #[trigger] groups.contains(group) implies ledger.holds_copy(
            hash,
            owner,
            tier,
            group,
        ) by {
            assert(ledger.copies.contains_key(place(owner, tier, group, hash)));
        }
    }
    if ledger.resident_in_declared_cache(hash, owner, tier) {
        assert forall|group: u32| #[trigger]
            groups.contains(group) implies ledger.copies.contains_key(
            place(owner, tier, group, hash),
        ) by {
            assert(ledger.holds_copy(hash, owner, tier, group));
        }
    }
}

/// A block is resident on an owner if one of its tiers holds it whole. It is
/// known not to be only where the owner has declared its groups and the
/// evidence is complete.
pub proof fn law_resident_is_held_whole(ledger: LedgerView, hash: u64, owner: CacheOwner)
    ensures
        ledger.resident_on(hash, owner) == KnownBool::Yes <==> holds_whole(
            ledger,
            hash,
            owner,
            CacheTier::Gpu,
        ) || holds_whole(ledger, hash, owner, CacheTier::Cpu),
        ledger.resident_on(hash, owner) == KnownBool::No <==> !holds_whole(
            ledger,
            hash,
            owner,
            CacheTier::Gpu,
        ) && !holds_whole(ledger, hash, owner, CacheTier::Cpu) && is_declared(ledger, owner)
            && ledger.physical_scope_complete && ledger.physical_telemetry_complete,
        ledger.resident_anywhere(hash) == KnownBool::Yes <==> exists|key: OwnerTier| #[trigger]
            holds_whole(ledger, hash, key.owner, key.tier),
        ledger.resident_anywhere(hash) == KnownBool::No <==> (forall|key: OwnerTier|
            !(#[trigger] holds_whole(ledger, hash, key.owner, key.tier)))
            && ledger.physical_scope_complete && ledger.physical_telemetry_complete,
{
    lemma_whole(ledger, hash, owner, CacheTier::Gpu);
    lemma_whole(ledger, hash, owner, CacheTier::Cpu);
    lemma_declares(ledger, owner);
    assert forall|key: OwnerTier| #[trigger]
        ledger.resident_in_declared_cache(hash, key.owner, key.tier) == holds_whole(
            ledger,
            hash,
            key.owner,
            key.tier,
        ) by {
        lemma_whole(ledger, hash, key.owner, key.tier);
    }
    if exists|key: OwnerTier| #[trigger] holds_whole(ledger, hash, key.owner, key.tier) {
        let key = choose|key: OwnerTier| #[trigger]
            holds_whole(ledger, hash, key.owner, key.tier);
        assert(ledger.resident_in_declared_cache(hash, key.owner, key.tier));
    }
    if exists|key: OwnerTier| #[trigger]
        ledger.resident_in_declared_cache(hash, key.owner, key.tier) {
        let key = choose|key: OwnerTier| #[trigger]
            ledger.resident_in_declared_cache(hash, key.owner, key.tier);
        assert(holds_whole(ledger, hash, key.owner, key.tier));
    }
}

/// The group is declared on a tier of the owner.
pub open spec fn caches_group(ledger: LedgerView, owner: CacheOwner, group: u32) -> bool {
    let gpu = OwnerTier { owner, tier: CacheTier::Gpu };
    let cpu = OwnerTier { owner, tier: CacheTier::Cpu };
    ||| ledger.required_groups.contains_key(gpu) && ledger.required_groups[gpu].contains(group)
    ||| ledger.required_groups.contains_key(cpu) && ledger.required_groups[cpu].contains(group)
}

/// The blocks of a request are resident on an owner if every one of a group
/// that it caches is there on either tier; the answer is open where the
/// request leaves a cached group out.
pub proof fn law_resident_groups_are_all_held(
    ledger: LedgerView,
    queries: Seq<CacheGroupBlockQuery>,
    owner: CacheOwner,
)
    ensures
        ({
            let covered = forall|group: u32| #[trigger]
                caches_group(ledger, owner, group) ==> exists|i: int|
                    0 <= i < queries.len() && (#[trigger] queries[i]).group_idx == group;
            let held = forall|i: int|
                0 <= i < queries.len() && caches_group(
                    ledger,
                    owner,
                    (#[trigger] queries[i]).group_idx,
                ) ==> ledger.copies.contains_key(
                    place(owner, CacheTier::Gpu, queries[i].group_idx, queries[i].tokens_hash),
                ) || ledger.copies.contains_key(
                    place(owner, CacheTier::Cpu, queries[i].group_idx, queries[i].tokens_hash),
                );
            let asked = has_groups(ledger, owner) && covered;
            &&& ledger.resident_groups_on(queries, owner) == KnownBool::Yes <==> asked && held
            &&& ledger.resident_groups_on(queries, owner) == KnownBool::No <==> asked && !held
                && ledger.physical_scope_complete && ledger.physical_telemetry_complete
        }),
{
    lemma_declares(ledger, owner);
    assert forall|group: u32| #[trigger]
        ledger.requires_group(owner, group) == caches_group(ledger, owner, group) by {
        if ledger.requires_group(owner, group) {
            let tier = choose|tier: CacheTier| #[trigger]
                ledger.required_groups.contains_key(OwnerTier { owner, tier })
                    && ledger.required_groups[OwnerTier { owner, tier }].contains(group);
            match tier {
                CacheTier::Gpu => {},
                CacheTier::Cpu => {},
            }
        }
    }
    if exists|group: u32| #[trigger]
        ledger.requires_group(owner, group) && !crate::model::asks_for(queries, group) {
        let group = choose|group: u32| #[trigger]
            ledger.requires_group(owner, group) && !crate::model::asks_for(queries, group);
        assert(caches_group(ledger, owner, group));
    } else {
        assert forall|group: u32| #[trigger] caches_group(ledger, owner, group) implies exists|
            i: int,
        |
            0 <= i < queries.len() && (#[trigger] queries[i]).group_idx == group by {
            assert(ledger.requires_group(owner, group));
            assert(crate::model::asks_for(queries, group));
        }
    }
}

/// A block of a group can be read on an owner that has a copy of it on either
/// tier.
pub proof fn law_present_is_held_on_a_tier(
    ledger: LedgerView,
    owner: CacheOwner,
    group: u32,
    hash: u64,
)
    ensures
        ({
            let held = ledger.copies.contains_key(place(owner, CacheTier::Gpu, group, hash))
                || ledger.copies.contains_key(place(owner, CacheTier::Cpu, group, hash));
            &&& ledger.presence_on(owner, group, hash) == KnownBool::Yes <==> held
            &&& ledger.presence_on(owner, group, hash) == KnownBool::No <==> !held && is_declared(
                ledger,
                owner,
            ) && ledger.physical_scope_complete && ledger.physical_telemetry_complete
        }),
{
    lemma_declares(ledger, owner);
}

/// What is counted on a tier is every engine hash announced there.
pub proof fn law_physical_blocks_are_announced(ledger: LedgerView, tier: CacheTier, key: BlockCopy)
    ensures
        ledger.physical_blocks(tier).contains(key) <==> ledger.external_copies.contains_key(key)
            && key.copy.tier == tier,
        ledger.cataloged_owners().contains(key.copy.owner) <==> is_declared(
            ledger,
            key.copy.owner,
        ),
{
    lemma_declares(ledger, key.copy.owner);
}

} // verus!
