//! Who takes part in cuts and cold epochs, told source by source.

use vstd::prelude::*;

use crate::catalog::{
    attention_kind, hashes_group, is_valid_catalog, CatalogGroup,
};
use crate::cold_epoch::ColdEpochOwnerFence;
use crate::evidence::CacheOwner;
use crate::membership::{
    all_fenced, evidence_pairs, fence_pairs, incarnation_pairs, member_owners, serving_pairs,
    SourceMember,
};
use crate::owner_map::pairs_map;
use crate::prefix::{CacheGroupHashSequence, CacheGroupKind};

verus! {

/// The source is live, can emit markers, and says under which incarnations it
/// publishes and serves.
pub open spec fn can_mark(source: SourceMember) -> bool {
    &&& source.active
    &&& source.evidence_incarnation is Some
    &&& source.barrier_enabled
    &&& source.serving_incarnation is Some
}

pub open spec fn all_can_mark(sources: Seq<SourceMember>) -> bool {
    forall|i: int| 0 <= i < sources.len() ==> can_mark(#[trigger] sources[i])
}

/// The media are known ones, the GPU among them.
pub open spec fn media_are_clearable(media: Seq<String>) -> bool {
    &&& forall|i: int|
        #![trigger media[i]]
        0 <= i < media.len() ==> media[i]@ == "GPU"@ || media[i]@ == "CPU"@
    &&& exists|i: int| 0 <= i < media.len() && (#[trigger] media[i])@ == "GPU"@
}

/// The source is live, can take part in a cold epoch, says under which
/// incarnations it publishes and serves, and which media it clears.
pub open spec fn can_be_cold(source: SourceMember) -> bool {
    &&& source.epoch_enabled
    &&& source.active
    &&& source.evidence_incarnation is Some
    &&& source.serving_incarnation is Some
    &&& source.epoch_media is Some
    &&& media_are_clearable(source.epoch_media->0@)
}

pub open spec fn all_can_be_cold(sources: Seq<SourceMember>) -> bool {
    forall|i: int| 0 <= i < sources.len() ==> can_be_cold(#[trigger] sources[i])
}

/// The fence is the source's own.
pub open spec fn is_fence_of(fence: ColdEpochOwnerFence, source: SourceMember) -> bool {
    &&& source.evidence_incarnation == Some(fence.evidence_incarnation)
    &&& source.serving_incarnation == Some(fence.serving_incarnation)
    &&& fence.expected_tiers.gpu
    &&& fence.expected_tiers.cpu <==> exists|i: int|
        0 <= i < source.epoch_media->0@.len() && (#[trigger] source.epoch_media->0@[i])@ == "CPU"@
}

/// Cuts are taken with all sources, each under its own incarnations, if every
/// one of them can emit markers; otherwise with none.
pub proof fn law_cuts_take_all_sources_or_none(sources: Seq<SourceMember>)
    ensures
        !all_can_mark(sources) ==> evidence_pairs(sources).len() == 0 && serving_pairs(
            sources,
        ).len() == 0,
        all_can_mark(sources) ==> {
            &&& evidence_pairs(sources).len() == sources.len()
            &&& serving_pairs(sources).len() == sources.len()
            &&& forall|i: int|
                #![trigger sources[i]]
                0 <= i < sources.len() ==> {
                    &&& evidence_pairs(sources)[i].0 == sources[i].owner
                    &&& sources[i].evidence_incarnation == Some(evidence_pairs(sources)[i].1)
                    &&& serving_pairs(sources)[i].0 == sources[i].owner
                    &&& sources[i].serving_incarnation == Some(serving_pairs(sources)[i].1)
                }
        },
{
    assert forall|i: int| 0 <= i < sources.len() implies (#[trigger] sources[i]).supports_barrier()
        == can_mark(sources[i]) by {}
    if !all_can_mark(sources) {
        let i = choose|i: int| 0 <= i < sources.len() && !can_mark(#[trigger] sources[i]);
        assert(!sources[i].supports_barrier());
    }
}

/// A cold epoch is run with all sources, each behind its own fence, if there
/// are any and every one of them can take part; otherwise not at all.
pub proof fn law_cold_epoch_takes_all_sources_or_none(sources: Seq<SourceMember>)
    ensures
        all_fenced(sources) <==> sources.len() > 0 && all_can_be_cold(sources),
        all_fenced(sources) ==> {
            &&& fence_pairs(sources).len() == sources.len()
            &&& forall|i: int|
                #![trigger sources[i]]
                0 <= i < sources.len() ==> fence_pairs(sources)[i].0 == sources[i].owner
                    && is_fence_of(fence_pairs(sources)[i].1, sources[i])
        },
{
    assert forall|i: int| 0 <= i < sources.len() implies {
        &&& (#[trigger] sources[i]).fence() is Some <==> can_be_cold(sources[i])
        &&& can_be_cold(sources[i]) ==> is_fence_of(sources[i].fence()->0, sources[i])
    } by {
        lemma_fence(sources[i]);
    }
    if sources.len() > 0 && all_can_be_cold(sources) {
        assert forall|i: int| 0 <= i < sources.len() implies (
        #[trigger] sources[i]).fence() is Some by {
            assert(can_be_cold(sources[i]));
        }
    }
    if all_fenced(sources) {
        assert forall|i: int| 0 <= i < sources.len() implies can_be_cold(#[trigger] sources[i]) by {
            assert(sources[i].fence() is Some);
        }
    }
}

proof fn lemma_fence(source: SourceMember)
    ensures
        source.fence() is Some <==> can_be_cold(source),
        can_be_cold(source) ==> is_fence_of(source.fence()->0, source),
{
    if source.epoch_media is Some {
        let media = source.epoch_media->0@;
        if media_are_clearable(media) {
            assert(crate::membership::names_medium(media, "GPU"@));
        }
        if crate::membership::media_tiers(media).gpu {
            assert(crate::membership::names_medium(media, "GPU"@));
        }
        assert(crate::membership::media_tiers(media).cpu <==> exists|i: int|
            0 <= i < media.len() && (#[trigger] media[i])@ == "CPU"@);
    }
}

/// Watermarks are expected of every source: of a live one under its
/// incarnation, and of any other under none.
pub proof fn law_watermarks_are_expected_of_every_source(sources: Seq<SourceMember>, i: int)
    requires
        0 <= i < sources.len(),
    ensures
        incarnation_pairs(sources).len() == sources.len(),
        incarnation_pairs(sources)[i].0 == sources[i].owner,
        incarnation_pairs(sources)[i].1 == if sources[i].active {
            sources[i].evidence_incarnation
        } else {
            None
        },
        member_owners(sources).len() == sources.len(),
        member_owners(sources)[i] == sources[i].owner,
{
}

/// Somebody is listed with the owner.
pub open spec fn is_listed<V>(pairs: Seq<(CacheOwner, V)>, owner: CacheOwner) -> bool {
    exists|i: int| 0 <= i < pairs.len() && (#[trigger] pairs[i]).0 == owner
}

/// The owner is listed last at `i`.
pub open spec fn is_last<V>(pairs: Seq<(CacheOwner, V)>, owner: CacheOwner, i: int) -> bool {
    &&& 0 <= i < pairs.len()
    &&& pairs[i].0 == owner
    &&& forall|j: int| i < j < pairs.len() ==> (#[trigger] pairs[j]).0 != owner
}

/// Listed pairs describe the map of the listed owners, each with its last
/// value.
pub proof fn law_last_pair_counts<V>(pairs: Seq<(CacheOwner, V)>, owner: CacheOwner, i: int)
    ensures
        pairs_map(pairs).contains_key(owner) <==> is_listed(pairs, owner),
        is_last(pairs, owner, i) ==> pairs_map(pairs)[owner] == pairs[i].1,
    decreases pairs.len(),
{
    if pairs.len() > 0 {
        let front = pairs.drop_last();
        let last = pairs.len() - 1;
        law_last_pair_counts(front, owner, i);
        if pairs[last].0 == owner {
            assert(is_listed(pairs, owner));
        } else {
            if is_listed(front, owner) {
                let k = choose|k: int| 0 <= k < front.len() && (#[trigger] front[k]).0 == owner;
                assert(pairs[k].0 == owner);
            }
            if is_listed(pairs, owner) {
                let k = choose|k: int| 0 <= k < pairs.len() && (#[trigger] pairs[k]).0 == owner;
                assert(front[k].0 == owner);
            }
            if is_last(pairs, owner, i) {
                assert(front[i] == pairs[i]);
                assert forall|j: int| i < j < front.len() implies (#[trigger] front[j]).0
                    != owner by {
                    assert(pairs[j].0 != owner);
                }
            }
        }
    }
}

// ---- catalogs ----

pub open spec fn is_full_attention(kind: Seq<char>) -> bool {
    kind == "full_attention"@ || kind == "mla_attention"@ || kind == "sink_full_attention"@
}

pub open spec fn is_windowed(kind: Seq<char>) -> bool {
    kind == "sliding_window"@ || kind == "sliding_window_mla"@
}

/// The group can be used: its attention is known, and its alignment is a whole
/// number of its blocks, one at least.
pub open spec fn is_usable_group(group: CatalogGroup) -> bool {
    &&& is_full_attention(group.kind) || is_windowed(group.kind)
    &&& group.block_size > 0
    &&& exists|blocks: int|
        blocks > 0 && group.alignment_tokens is Some && group.alignment_tokens->0
            == #[trigger] (blocks * group.block_size)
}

/// A catalog is valid if it declares something, only groups that can be used,
/// and none twice.
pub proof fn law_valid_catalogs_declare_usable_groups(groups: Seq<CatalogGroup>)
    ensures
        is_valid_catalog(groups) <==> {
            &&& groups.len() > 0
            &&& forall|i: int| 0 <= i < groups.len() ==> is_usable_group(#[trigger] groups[i])
            &&& forall|i: int, j: int|
                #![trigger groups[i], groups[j]]
                0 <= i < groups.len() && 0 <= j < groups.len() && i != j ==> groups[i].group_idx
                    != groups[j].group_idx
        },
{
    assert forall|i: int| 0 <= i < groups.len() implies is_usable_group(#[trigger] groups[i])
        == groups[i].is_supported() by {
        lemma_usable(groups[i]);
    }
    if is_valid_catalog(groups) {
        assert forall|i: int, j: int|
            #![trigger groups[i], groups[j]]
            0 <= i < groups.len() && 0 <= j < groups.len() && i != j implies groups[i].group_idx
            != groups[j].group_idx by {
            if i < j {
                assert(groups[i].group_idx != groups[j].group_idx);
            } else {
                assert(groups[j].group_idx != groups[i].group_idx);
            }
        }
    }
}

pub(crate) proof fn lemma_usable(group: CatalogGroup)
    ensures
        is_usable_group(group) <==> group.is_supported(),
{
    reveal_strlit("full_attention");
    reveal_strlit("mla_attention");
    reveal_strlit("sink_full_attention");
    reveal_strlit("sliding_window");
    reveal_strlit("sliding_window_mla");
    if group.is_supported() {
        let size = group.block_size as int;
        let alignment = group.alignment_tokens->0 as int;
        let blocks = alignment / size;
        vstd::arithmetic::div_mod::lemma_fundamental_div_mod(alignment, size);
        assert(blocks * size == size * blocks) by (nonlinear_arith);
        assert(blocks > 0) by (nonlinear_arith)
            requires
                alignment > 0,
                alignment == size * blocks,
                size > 0,
        ;
        assert(alignment == blocks * group.block_size);
    }
    if is_usable_group(group) {
        let size = group.block_size as int;
        let alignment = group.alignment_tokens->0 as int;
        let blocks = choose|blocks: int|
            blocks > 0 && group.alignment_tokens is Some && group.alignment_tokens->0
                == #[trigger] (blocks * group.block_size);
        vstd::arithmetic::div_mod::lemma_mod_multiples_basic(blocks, size);
        assert(alignment > 0) by (nonlinear_arith)
            requires
                alignment == blocks * size,
                blocks > 0,
                size > 0,
        ;
    }
}

/// The names of a group's attention stand for the kind that they tell.
pub proof fn law_attention_is_told_by_name(kind: Seq<char>)
    ensures
        attention_kind(kind) == Some(CacheGroupKind::FullAttention) <==> is_full_attention(kind),
        attention_kind(kind) == Some(CacheGroupKind::SlidingWindow) <==> is_windowed(kind),
        attention_kind(kind) is None <==> !is_full_attention(kind) && !is_windowed(kind),
{
    reveal_strlit("full_attention");
    reveal_strlit("mla_attention");
    reveal_strlit("sink_full_attention");
    reveal_strlit("sliding_window");
    reveal_strlit("sliding_window_mla");
    assert("full_attention"@.len() == 14);
    assert("sliding_window"@.len() == 14);
    assert("mla_attention"@.len() == 13);
    assert("sink_full_attention"@.len() == 19);
    assert("sliding_window_mla"@.len() == 18);
    assert("full_attention"@[0] == 'f');
    assert("sliding_window"@[0] == 's');
}

/// The hashes of a request under a group keep the group's shape, and are those
/// of its block size and of its way of decoding.
pub proof fn law_request_is_hashed_under_the_groups_own_shape<F: Fn(u32, bool) -> Vec<u64>>(
    hash_tokens: F,
    group: CatalogGroup,
    hashed: CacheGroupHashSequence,
)
    requires
        hashes_group(hash_tokens, group, hashed),
    ensures
        hashed.group_idx == group.group_idx,
        hashed.block_size == group.block_size,
        hashed.sliding_window == group.sliding_window,
        hashed.is_eagle == group.is_eagle,
        group.alignment_tokens == Some(hashed.alignment_tokens),
        hashed.kind == CacheGroupKind::FullAttention ==> is_full_attention(group.kind),
        hashed.kind == CacheGroupKind::SlidingWindow ==> is_windowed(group.kind),
        call_ensures(
            hash_tokens,
            (group.block_size, group.is_eagle),
            hashed.sequence_hashes,
        ),
{
    law_attention_is_told_by_name(group.kind);
}

} // verus!
