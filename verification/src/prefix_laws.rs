//! What holds of every prefix that the cache groups agree on.

use vstd::prelude::*;

use crate::evidence::KnownBool;
use crate::prefix::{
    align_down, all_present, block_limit, group_hit, hybrid_hit, latest_window, leading,
    lemma_align_down, narrow, pass, settle, well_shaped, window_blocks, CacheGroupHashSequence,
    CacheGroupKind, Presence,
};

verus! {

/// `later` answers every question that `earlier` could answer, and alike.
pub open spec fn refines(earlier: Presence, later: Presence) -> bool {
    forall|group: u32, hash: u64| #[trigger]
        earlier(group, hash) != KnownBool::Unknown ==> later(group, hash) == earlier(group, hash)
}

proof fn lemma_leading_refined(
    p: Presence,
    q: Presence,
    group_idx: u32,
    hashes: Seq<u64>,
    at: int,
    limit: int,
)
    requires
        refines(p, q),
    ensures
        leading(p, group_idx, hashes, at, limit) is Some ==> leading(
            q,
            group_idx,
            hashes,
            at,
            limit,
        ) == leading(p, group_idx, hashes, at, limit),
    decreases limit - at,
{
    if at < limit {
        assert(p(group_idx, hashes[at]) != KnownBool::Unknown ==> q(group_idx, hashes[at]) == p(
            group_idx,
            hashes[at],
        ));
        lemma_leading_refined(p, q, group_idx, hashes, at + 1, limit);
    }
}

proof fn lemma_all_present_refined(
    p: Presence,
    q: Presence,
    group_idx: u32,
    hashes: Seq<u64>,
    at: int,
    end: int,
)
    requires
        refines(p, q),
    ensures
        all_present(p, group_idx, hashes, at, end) != KnownBool::Unknown ==> all_present(
            q,
            group_idx,
            hashes,
            at,
            end,
        ) == all_present(p, group_idx, hashes, at, end),
    decreases end - at,
{
    if at < end {
        assert(p(group_idx, hashes[at]) != KnownBool::Unknown ==> q(group_idx, hashes[at]) == p(
            group_idx,
            hashes[at],
        ));
        lemma_all_present_refined(p, q, group_idx, hashes, at + 1, end);
    }
}

proof fn lemma_latest_window_refined(
    p: Presence,
    q: Presence,
    group: CacheGroupHashSequence,
    drop_eagle: bool,
    end: int,
)
    requires
        refines(p, q),
    ensures
        latest_window(p, group, drop_eagle, end) != Some(None::<int>) ==> latest_window(
            q,
            group,
            drop_eagle,
            end,
        ) == latest_window(p, group, drop_eagle, end),
    decreases end + 1,
{
    let needed = window_blocks(group, drop_eagle);
    if end >= 0 && end >= needed {
        lemma_latest_window_refined(p, q, group, drop_eagle, end - 1);
        lemma_all_present_refined(
            p,
            q,
            group.group_idx,
            group.sequence_hashes@,
            end - needed,
            end,
        );
    }
}

proof fn lemma_group_refined(
    p: Presence,
    q: Presence,
    group: CacheGroupHashSequence,
    max_tokens: int,
    drop_eagle: bool,
)
    requires
        refines(p, q),
    ensures
        group_hit(p, group, max_tokens, drop_eagle) is Some ==> group_hit(
            q,
            group,
            max_tokens,
            drop_eagle,
        ) == group_hit(p, group, max_tokens, drop_eagle),
{
    let limit = block_limit(group, max_tokens);
    lemma_leading_refined(p, q, group.group_idx, group.sequence_hashes@, 0, limit);
    lemma_latest_window_refined(p, q, group, drop_eagle, limit);
}

proof fn lemma_pass_refined(
    p: Presence,
    q: Presence,
    groups: Seq<CacheGroupHashSequence>,
    max_tokens: int,
    at: int,
    current: int,
    verified: Set<u32>,
)
    requires
        refines(p, q),
    ensures
        pass(p, groups, max_tokens, at, current, verified) is Some ==> pass(
            q,
            groups,
            max_tokens,
            at,
            current,
            verified,
        ) == pass(p, groups, max_tokens, at, current, verified),
    decreases groups.len() - at,
{
    if 0 <= at < groups.len() {
        let group = groups[at];
        let drop_eagle = group.is_eagle && !verified.contains(group.group_idx);
        let lookup_limit = if !drop_eagle {
            current
        } else if current + group.block_size <= max_tokens {
            current + group.block_size
        } else {
            max_tokens
        };
        lemma_group_refined(p, q, group, lookup_limit, drop_eagle);
        if let Some((next, marked)) = narrow(p, group, max_tokens, current, verified) {
            lemma_pass_refined(p, q, groups, max_tokens, at + 1, next, marked);
        }
    }
}

proof fn lemma_settle_refined(
    p: Presence,
    q: Presence,
    groups: Seq<CacheGroupHashSequence>,
    max_tokens: int,
    hit: int,
    verified: Set<u32>,
)
    requires
        refines(p, q),
    ensures
        settle(p, groups, max_tokens, hit, verified) is Some ==> settle(
            q,
            groups,
            max_tokens,
            hit,
            verified,
        ) == settle(p, groups, max_tokens, hit, verified),
    decreases hit,
{
    lemma_pass_refined(p, q, groups, max_tokens, 0, hit, verified);
    if let Some((current, marked)) = pass(p, groups, max_tokens, 0, hit, verified) {
        if hit > 0 && 0 <= current < hit {
            lemma_settle_refined(p, q, groups, max_tokens, current, marked);
        }
    }
}

/// A known prefix rests on known facts alone: it stays the same whatever the
/// unknown blocks turn out to be. Unknown evidence never becomes a hit or a
/// miss.
pub proof fn law_known_prefix_ignores_unknown_blocks(
    earlier: Presence,
    later: Presence,
    groups: Seq<CacheGroupHashSequence>,
    max_tokens: int,
)
    requires
        refines(earlier, later),
        hybrid_hit(earlier, groups, max_tokens) is Some,
    ensures
        hybrid_hit(later, groups, max_tokens) == hybrid_hit(earlier, groups, max_tokens),
{
    lemma_settle_refined(earlier, later, groups, max_tokens, max_tokens, Set::empty());
}

/// The first block that the group needs of a prefix of `tokens`: full
/// attention needs them all, a sliding window those of its last window.
pub open spec fn first_needed(group: CacheGroupHashSequence, tokens: int) -> int {
    let end = tokens / group.block_size as int;
    match group.kind {
        CacheGroupKind::FullAttention => 0,
        CacheGroupKind::SlidingWindow => if end <= window_blocks(group, false) {
            0
        } else {
            end - window_blocks(group, false)
        },
    }
}

/// The group vouches for a prefix of `tokens`: it ends on the group's
/// alignment within the hashed blocks, and every block that the group needs
/// of it is present.
pub open spec fn confirms(presence: Presence, group: CacheGroupHashSequence, tokens: int) -> bool {
    &&& tokens % group.alignment_tokens as int == 0
    &&& tokens / group.block_size as int <= group.sequence_hashes@.len()
    &&& forall|j: int|
        first_needed(group, tokens) <= j < tokens / group.block_size as int ==> presence(
            group.group_idx,
            #[trigger] group.sequence_hashes@[j],
        ) == KnownBool::Yes
}

/// Every group vouches for a prefix of `tokens`.
pub open spec fn all_confirm(
    presence: Presence,
    groups: Seq<CacheGroupHashSequence>,
    tokens: int,
) -> bool {
    forall|i: int| 0 <= i < groups.len() ==> confirms(presence, #[trigger] groups[i], tokens)
}

pub(crate) proof fn lemma_leading_present(
    presence: Presence,
    group_idx: u32,
    hashes: Seq<u64>,
    at: int,
    limit: int,
)
    requires
        0 <= at <= limit,
    ensures
        leading(presence, group_idx, hashes, at, limit) matches Some(blocks) ==> {
            &&& at <= blocks <= limit
            &&& forall|j: int|
                at <= j < blocks ==> presence(group_idx, #[trigger] hashes[j]) == KnownBool::Yes
        },
    decreases limit - at,
{
    if at < limit {
        lemma_leading_present(presence, group_idx, hashes, at + 1, limit);
    }
}

pub(crate) proof fn lemma_limit(group: CacheGroupHashSequence, max_tokens: int)
    requires
        group.block_size > 0,
        max_tokens >= 0,
    ensures
        0 <= block_limit(group, max_tokens) <= group.sequence_hashes@.len(),
        block_limit(group, max_tokens) * group.block_size <= max_tokens,
{
    let fitting = max_tokens / group.block_size as int;
    let limit = block_limit(group, max_tokens);
    let size = group.block_size as int;
    assert(0 <= fitting && fitting * size <= max_tokens) by (nonlinear_arith)
        requires
            fitting == max_tokens / size,
            size > 0,
            max_tokens >= 0,
    ;
    assert(limit * size <= fitting * size) by (nonlinear_arith)
        requires
            limit <= fitting,
            size > 0,
    ;
}

pub(crate) proof fn lemma_all_present_means(
    presence: Presence,
    group_idx: u32,
    hashes: Seq<u64>,
    at: int,
    end: int,
)
    ensures
        all_present(presence, group_idx, hashes, at, end) == KnownBool::Yes <==> forall|j: int|
            at <= j < end ==> presence(group_idx, #[trigger] hashes[j]) == KnownBool::Yes,
        all_present(presence, group_idx, hashes, at, end) == KnownBool::Unknown ==> exists|j: int|
            at <= j < end && presence(group_idx, #[trigger] hashes[j]) == KnownBool::Unknown,
    decreases end - at,
{
    if at < end {
        lemma_all_present_means(presence, group_idx, hashes, at + 1, end);
        assert(presence(group_idx, hashes[at]) == presence(group_idx, hashes[at]));
    }
}

/// A multiple of the alignment is a whole number of blocks.
pub(crate) proof fn lemma_whole_blocks(tokens: int, alignment: int, size: int)
    requires
        tokens >= 0,
        alignment > 0,
        size > 0,
        tokens % alignment == 0,
        alignment % size == 0,
    ensures
        0 <= tokens / size,
        tokens == (tokens / size) * size,
{
    vstd::arithmetic::div_mod::lemma_fundamental_div_mod(tokens, alignment);
    vstd::arithmetic::div_mod::lemma_fundamental_div_mod(alignment, size);
    let blocks = (tokens / alignment) * (alignment / size);
    assert(tokens == blocks * size) by (nonlinear_arith)
        requires
            tokens == alignment * (tokens / alignment),
            alignment == size * (alignment / size),
            blocks == (tokens / alignment) * (alignment / size),
    ;
    vstd::arithmetic::div_mod::lemma_div_by_multiple(blocks, size);
    vstd::arithmetic::div_mod::lemma_div_pos_is_pos(tokens, size);
}

pub(crate) proof fn lemma_window_blocks(group: CacheGroupHashSequence)
    requires
        well_shaped(group),
        group.kind is SlidingWindow,
    ensures
        window_blocks(group, false) >= 0,
        window_blocks(group, true) == window_blocks(group, false) + 1,
{
    let size = group.block_size as int;
    let span = group.sliding_window->0 - 1 + size - 1;
    assert(span / size >= 0) by (nonlinear_arith)
        requires
            span >= 0,
            size > 0,
    ;
}

proof fn lemma_latest_window_confirms(
    presence: Presence,
    group: CacheGroupHashSequence,
    drop_eagle: bool,
    end: int,
)
    requires
        well_shaped(group),
        group.kind is SlidingWindow,
        end <= group.sequence_hashes@.len(),
    ensures
        latest_window(presence, group, drop_eagle, end) matches Some(Some(tokens)) ==> {
            &&& 0 <= tokens
            &&& tokens + (if drop_eagle {
                group.block_size as int
            } else {
                0
            }) <= end * group.block_size
            &&& confirms(presence, group, tokens)
        },
    decreases end + 1,
{
    let needed = window_blocks(group, drop_eagle);
    let size = group.block_size as int;
    lemma_window_blocks(group);
    if end >= 0 && end >= needed {
        lemma_latest_window_confirms(presence, group, drop_eagle, end - 1);
        let blocks = if drop_eagle {
            end - 1
        } else {
            end
        };
        assert((end - 1) * size <= end * size && (end - 1) * size + size == end * size)
            by (nonlinear_arith)
            requires
                size > 0,
        ;
        assert(blocks * size >= 0) by (nonlinear_arith)
            requires
                blocks >= 0,
                size > 0,
        ;
        vstd::arithmetic::div_mod::lemma_div_by_multiple(blocks, size);
        lemma_all_present_means(
            presence,
            group.group_idx,
            group.sequence_hashes@,
            end - needed,
            end,
        );
    }
}

/// What one group reports stays within its limit, leaves room for a dropped
/// speculative block, and is vouched for by the group.
pub(crate) proof fn lemma_group_confirms(
    presence: Presence,
    group: CacheGroupHashSequence,
    max_tokens: int,
    drop_eagle: bool,
)
    requires
        well_shaped(group),
        max_tokens >= 0,
    ensures
        group_hit(presence, group, max_tokens, drop_eagle) matches Some(tokens) ==> {
            &&& 0 <= tokens <= max_tokens
            &&& drop_eagle && tokens > 0 ==> tokens + group.block_size <= max_tokens
            &&& confirms(presence, group, tokens)
        },
{
    let limit = block_limit(group, max_tokens);
    let size = group.block_size as int;
    let alignment = group.alignment_tokens as int;
    let hashes = group.sequence_hashes@;
    lemma_limit(group, max_tokens);
    lemma_leading_present(presence, group.group_idx, hashes, 0, limit);
    if let Some(blocks) = leading(presence, group.group_idx, hashes, 0, limit) {
        assert(0 <= blocks * size <= limit * size) by (nonlinear_arith)
            requires
                0 <= blocks <= limit,
                size > 0,
        ;
        assert(blocks > 0 <==> blocks * size > 0) by (nonlinear_arith)
            requires
                blocks >= 0,
                size > 0,
        ;
        assert((blocks - 1) * size == blocks * size - size) by (nonlinear_arith);
        let kept = if drop_eagle && blocks > 0 {
            blocks - 1
        } else {
            blocks
        };
        assert(kept * size >= 0) by (nonlinear_arith)
            requires
                kept >= 0,
                size > 0,
        ;
        lemma_align_down(kept * size, alignment);
        let tokens = align_down(kept * size, alignment);
        lemma_whole_blocks(tokens, alignment, size);
        assert(tokens / size <= kept) by (nonlinear_arith)
            requires
                tokens == (tokens / size) * size,
                tokens <= kept * size,
                size > 0,
        ;
        if group.kind is SlidingWindow {
            lemma_window_blocks(group);
        }
        assert(confirms(presence, group, tokens));
    }
    if group.kind is SlidingWindow {
        lemma_latest_window_confirms(presence, group, drop_eagle, limit);
    }
}

proof fn lemma_pass_confirms(
    presence: Presence,
    groups: Seq<CacheGroupHashSequence>,
    max_tokens: int,
    at: int,
    current: int,
    verified: Set<u32>,
)
    requires
        0 <= at <= groups.len(),
        0 <= current <= max_tokens,
        forall|i: int| 0 <= i < groups.len() ==> well_shaped(#[trigger] groups[i]),
    ensures
        pass(presence, groups, max_tokens, at, current, verified) matches Some((end, _)) ==> {
            &&& 0 <= end <= current
            &&& end == current ==> forall|i: int|
                at <= i < groups.len() ==> confirms(presence, #[trigger] groups[i], current)
        },
    decreases groups.len() - at,
{
    if at < groups.len() {
        let group = groups[at];
        let drop_eagle = group.is_eagle && !verified.contains(group.group_idx);
        let lookup_limit = if !drop_eagle {
            current
        } else if current + group.block_size <= max_tokens {
            current + group.block_size
        } else {
            max_tokens
        };
        lemma_group_confirms(presence, group, lookup_limit, drop_eagle);
        if let Some((next, marked)) = narrow(presence, group, max_tokens, current, verified) {
            lemma_pass_confirms(presence, groups, max_tokens, at + 1, next, marked);
        }
    }
}

proof fn lemma_settle_confirms(
    presence: Presence,
    groups: Seq<CacheGroupHashSequence>,
    max_tokens: int,
    hit: int,
    verified: Set<u32>,
)
    requires
        0 <= hit <= max_tokens,
        forall|i: int| 0 <= i < groups.len() ==> well_shaped(#[trigger] groups[i]),
    ensures
        settle(presence, groups, max_tokens, hit, verified) matches Some(tokens) ==> {
            &&& 0 <= tokens <= hit
            &&& forall|i: int|
                0 <= i < groups.len() ==> confirms(presence, #[trigger] groups[i], tokens)
        },
    decreases hit,
{
    lemma_pass_confirms(presence, groups, max_tokens, 0, hit, verified);
    if let Some((current, marked)) = pass(presence, groups, max_tokens, 0, hit, verified) {
        if hit > 0 && current < hit {
            lemma_settle_confirms(presence, groups, max_tokens, current, marked);
        }
    }
}

/// A known prefix is never longer than asked for and every group vouches for
/// it: it is aligned for each group, each full-attention group holds all of
/// its blocks and each sliding-window group those of its last window.
pub proof fn law_known_prefix_is_confirmed_by_every_group(
    presence: Presence,
    groups: Seq<CacheGroupHashSequence>,
    max_tokens: int,
)
    requires
        max_tokens >= 0,
    ensures
        hybrid_hit(presence, groups, max_tokens) matches Some(tokens) ==> {
            &&& 0 <= tokens <= max_tokens
            &&& all_confirm(presence, groups, tokens)
        },
{
    if hybrid_hit(presence, groups, max_tokens) is Some {
        lemma_settle_confirms(presence, groups, max_tokens, max_tokens, Set::empty());
    }
}

/// Nothing of what the group's hashes ask for is unknown.
pub open spec fn all_known(presence: Presence, group: CacheGroupHashSequence) -> bool {
    forall|j: int|
        0 <= j < group.sequence_hashes@.len() ==> presence(
            group.group_idx,
            #[trigger] group.sequence_hashes@[j],
        ) != KnownBool::Unknown
}

proof fn lemma_leading_longest(
    presence: Presence,
    group_idx: u32,
    hashes: Seq<u64>,
    at: int,
    limit: int,
)
    requires
        0 <= at <= limit <= hashes.len(),
        forall|j: int|
            0 <= j < hashes.len() ==> presence(group_idx, #[trigger] hashes[j])
                != KnownBool::Unknown,
    ensures
        leading(presence, group_idx, hashes, at, limit) matches Some(blocks) && (blocks < limit
            ==> presence(group_idx, hashes[blocks]) != KnownBool::Yes),
    decreases limit - at,
{
    if at < limit {
        assert(presence(group_idx, hashes[at]) != KnownBool::Unknown);
        lemma_leading_longest(presence, group_idx, hashes, at + 1, limit);
    }
}

/// Among the ends up to `end`, the latest window is at or behind every end
/// that the group confirms.
proof fn lemma_latest_window_longest(
    presence: Presence,
    group: CacheGroupHashSequence,
    end: int,
    tokens: int,
)
    requires
        well_shaped(group),
        group.kind is SlidingWindow,
        all_known(presence, group),
        end <= group.sequence_hashes@.len(),
        0 <= tokens,
        confirms(presence, group, tokens),
        tokens / group.block_size as int <= end,
    ensures
        match latest_window(presence, group, false, end) {
            None => tokens / (group.block_size as int) < window_blocks(group, false),
            Some(None) => false,
            Some(Some(latest)) => tokens <= latest,
        },
    decreases end + 1,
{
    let needed = window_blocks(group, false);
    let size = group.block_size as int;
    let blocks = tokens / size;
    let hashes = group.sequence_hashes@;
    lemma_window_blocks(group);
    lemma_whole_blocks(tokens, group.alignment_tokens as int, size);
    if end >= needed {
        lemma_all_present_means(presence, group.group_idx, hashes, end - needed, end);
        if blocks < end {
            lemma_latest_window_longest(presence, group, end - 1, tokens);
            assert(blocks * size <= end * size) by (nonlinear_arith)
                requires
                    blocks <= end,
                    size > 0,
            ;
        }
    }
}

/// Without a speculative tail or unknown blocks, a group reports the longest
/// prefix within its limit that it confirms.
proof fn lemma_group_longest(
    presence: Presence,
    group: CacheGroupHashSequence,
    max_tokens: int,
    tokens: int,
)
    requires
        well_shaped(group),
        all_known(presence, group),
        0 <= tokens <= max_tokens,
        confirms(presence, group, tokens),
    ensures
        group_hit(presence, group, max_tokens, false) matches Some(hit) && tokens <= hit,
{
    let limit = block_limit(group, max_tokens);
    let size = group.block_size as int;
    let alignment = group.alignment_tokens as int;
    let hashes = group.sequence_hashes@;
    let blocks = tokens / size;
    lemma_limit(group, max_tokens);
    lemma_whole_blocks(tokens, alignment, size);
    assert(blocks <= max_tokens / size) by {
        vstd::arithmetic::div_mod::lemma_div_is_ordered(tokens, max_tokens, size);
    }
    lemma_leading_present(presence, group.group_idx, hashes, 0, limit);
    lemma_leading_longest(presence, group.group_idx, hashes, 0, limit);
    let led = leading(presence, group.group_idx, hashes, 0, limit)->0;
    assert(led * size >= 0) by (nonlinear_arith)
        requires
            led >= 0,
            size > 0,
    ;
    lemma_align_down(led * size, alignment);
    if first_needed(group, tokens) == 0 {
        assert(blocks <= led);
        assert(blocks * size <= led * size) by (nonlinear_arith)
            requires
                blocks <= led,
                size > 0,
        ;
        assert(tokens <= align_down(led * size, alignment)) by {
            vstd::arithmetic::div_mod::lemma_div_is_ordered(tokens, led * size, alignment);
            vstd::arithmetic::div_mod::lemma_fundamental_div_mod(tokens, alignment);
            vstd::arithmetic::div_mod::lemma_fundamental_div_mod(led * size, alignment);
            let fewer = tokens / alignment;
            let more = (led * size) / alignment;
            assert(alignment * fewer <= alignment * more) by (nonlinear_arith)
                requires
                    fewer <= more,
                    alignment > 0,
            ;
        }
    }
    if group.kind is SlidingWindow {
        lemma_window_blocks(group);
        lemma_latest_window_longest(presence, group, limit, tokens);
    }
}

proof fn lemma_pass_longest(
    presence: Presence,
    groups: Seq<CacheGroupHashSequence>,
    max_tokens: int,
    at: int,
    current: int,
    verified: Set<u32>,
    tokens: int,
)
    requires
        0 <= at <= groups.len(),
        0 <= tokens <= current <= max_tokens,
        forall|i: int|
            0 <= i < groups.len() ==> {
                &&& well_shaped(#[trigger] groups[i])
                &&& !groups[i].is_eagle
                &&& all_known(presence, groups[i])
                &&& confirms(presence, groups[i], tokens)
            },
    ensures
        pass(presence, groups, max_tokens, at, current, verified) matches Some((end, _)) && tokens
            <= end,
    decreases groups.len() - at,
{
    if at < groups.len() {
        let group = groups[at];
        lemma_group_longest(presence, group, current, tokens);
        lemma_group_confirms(presence, group, current, false);
        if let Some((next, marked)) = narrow(presence, group, max_tokens, current, verified) {
            lemma_pass_longest(presence, groups, max_tokens, at + 1, next, marked, tokens);
        }
    }
}

proof fn lemma_settle_longest(
    presence: Presence,
    groups: Seq<CacheGroupHashSequence>,
    max_tokens: int,
    hit: int,
    verified: Set<u32>,
    tokens: int,
)
    requires
        0 <= tokens <= hit <= max_tokens,
        forall|i: int|
            0 <= i < groups.len() ==> {
                &&& well_shaped(#[trigger] groups[i])
                &&& !groups[i].is_eagle
                &&& all_known(presence, groups[i])
                &&& confirms(presence, groups[i], tokens)
            },
    ensures
        settle(presence, groups, max_tokens, hit, verified) matches Some(end) && tokens <= end,
    decreases hit,
{
    lemma_pass_longest(presence, groups, max_tokens, 0, hit, verified, tokens);
    if let Some((current, marked)) = pass(presence, groups, max_tokens, 0, hit, verified) {
        if hit > 0 && current < hit {
            lemma_settle_longest(presence, groups, max_tokens, current, marked, tokens);
        }
    }
}

/// Without speculative groups and with nothing unknown, the common prefix is
/// the longest length within `max_tokens` that every group confirms.
pub proof fn law_common_prefix_is_the_longest_confirmed(
    presence: Presence,
    groups: Seq<CacheGroupHashSequence>,
    max_tokens: int,
)
    requires
        max_tokens >= 0,
        groups.len() > 0,
        forall|i: int|
            0 <= i < groups.len() ==> {
                &&& well_shaped(#[trigger] groups[i])
                &&& !groups[i].is_eagle
                &&& all_known(presence, groups[i])
            },
    ensures
        hybrid_hit(presence, groups, max_tokens) matches Some(longest) && {
            &&& 0 <= longest <= max_tokens
            &&& all_confirm(presence, groups, longest)
            &&& forall|tokens: int|
                0 <= tokens <= max_tokens && #[trigger] all_confirm(presence, groups, tokens)
                    ==> tokens <= longest
        },
{
    assert forall|tokens: int|
        0 <= tokens <= max_tokens && #[trigger] all_confirm(
            presence,
            groups,
            tokens,
        ) implies hybrid_hit(presence, groups, max_tokens) is Some && tokens <= hybrid_hit(
        presence,
        groups,
        max_tokens,
    )->0 by {
        lemma_settle_longest(presence, groups, max_tokens, max_tokens, Set::empty(), tokens);
    }
    assert forall|i: int| 0 <= i < groups.len() implies confirms(
        presence,
        #[trigger] groups[i],
        0,
    ) by {
        let group = groups[i];
        assert(well_shaped(group));
        vstd::arithmetic::div_mod::lemma_small_mod(0, group.alignment_tokens as nat);
        vstd::arithmetic::div_mod::lemma_div_by_multiple(0, group.block_size as int);
    }
    assert(all_confirm(presence, groups, 0));
    law_known_prefix_is_confirmed_by_every_group(presence, groups, max_tokens);
}

} // verus!
