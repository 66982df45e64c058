//! The common prefix of cache groups, speculative ones among them, told from
//! the blocks that are there.

use vstd::prelude::*;

use crate::evidence::KnownBool;
use crate::prefix::{
    align_down, block_limit, group_hit, hybrid_hit, latest_window, leading, lemma_align_down,
    narrow, pass, settle, well_shaped, window_blocks, CacheGroupHashSequence, CacheGroupKind,
    Presence,
};
use crate::prefix_laws::{
    confirms, first_needed, law_known_prefix_is_confirmed_by_every_group, lemma_all_present_means,
    lemma_leading_present, lemma_limit, lemma_whole_blocks, lemma_window_blocks,
};

verus! {

/// The group can be looked up: its sizes are positive, its alignment is whole
/// blocks, and a sliding window has a length.
pub open spec fn is_usable(group: CacheGroupHashSequence) -> bool {
    &&& group.block_size > 0
    &&& group.alignment_tokens > 0
    &&& group.alignment_tokens as int % group.block_size as int == 0
    &&& group.kind == CacheGroupKind::SlidingWindow ==> group.sliding_window is Some
        && group.sliding_window->0 > 0
}

/// The block holds tokens that the token behind a prefix of `tokens` attends
/// to: under full attention any of them, under a sliding window one of the
/// last ones.
pub open spec fn is_attended(group: CacheGroupHashSequence, tokens: int, j: int) -> bool {
    group.kind == CacheGroupKind::SlidingWindow ==> tokens - (j + 1) * group.block_size
        < group.sliding_window->0 - 1
}

/// The group can serve a prefix of `tokens` of a request of which `max_tokens`
/// may hit: the prefix ends on the group's alignment within the hashed blocks,
/// all blocks that are attended to are there, and a speculative group has the
/// block behind the prefix too.
pub open spec fn can_serve(
    presence: Presence,
    group: CacheGroupHashSequence,
    max_tokens: int,
    tokens: int,
) -> bool {
    &&& tokens % group.alignment_tokens as int == 0
    &&& tokens <= group.sequence_hashes@.len() * group.block_size
    &&& forall|j: int|
        0 <= j && (j + 1) * group.block_size <= tokens && is_attended(group, tokens, j)
            ==> presence(group.group_idx, #[trigger] group.sequence_hashes@[j]) == KnownBool::Yes
    &&& group.is_eagle && tokens > 0 ==> {
        let next = tokens / group.block_size as int;
        &&& next < group.sequence_hashes@.len()
        &&& (next + 1) * group.block_size <= max_tokens
        &&& presence(group.group_idx, group.sequence_hashes@[next]) == KnownBool::Yes
    }
}

pub open spec fn all_can_serve(
    presence: Presence,
    groups: Seq<CacheGroupHashSequence>,
    max_tokens: int,
    tokens: int,
) -> bool {
    forall|i: int|
        0 <= i < groups.len() ==> can_serve(presence, #[trigger] groups[i], max_tokens, tokens)
}

/// No unknown block can make a difference: of those that may hit there is
/// none, or under full attention only behind one that is known to be missing.
pub open spec fn is_decided(presence: Presence, group: CacheGroupHashSequence, max_tokens: int)
    -> bool {
    forall|j: int|
        0 <= j < group.sequence_hashes@.len() && (j + 1) * group.block_size <= max_tokens
            && presence(group.group_idx, #[trigger] group.sequence_hashes@[j])
            == KnownBool::Unknown ==> group.kind == CacheGroupKind::FullAttention && exists|i: int|
            0 <= i < j && presence(group.group_idx, #[trigger] group.sequence_hashes@[i])
                == KnownBool::No
}

/// Speculative groups do not stand in each other's way: each has an index of
/// its own, and one with a sliding window is the only one.
pub open spec fn speculation_is_apart(groups: Seq<CacheGroupHashSequence>) -> bool {
    forall|i: int, j: int|
        0 <= i < groups.len() && 0 <= j < groups.len() && i != j && (#[trigger] groups[i]).is_eagle
            && (#[trigger] groups[j]).is_eagle ==> groups[i].group_idx != groups[j].group_idx
            && groups[i].kind == CacheGroupKind::FullAttention && groups[j].kind
            == CacheGroupKind::FullAttention
}

// ---- blocks ----

/// The blocks that a group needs are those that are attended to.
proof fn lemma_needed_blocks(group: CacheGroupHashSequence, tokens: int, j: int)
    requires
        is_usable(group),
        0 <= tokens,
        tokens % group.alignment_tokens as int == 0,
        0 <= j,
    ensures
        tokens == (tokens / group.block_size as int) * group.block_size,
        (j + 1) * group.block_size <= tokens <==> j < tokens / group.block_size as int,
        j < tokens / group.block_size as int ==> (is_attended(group, tokens, j) <==> first_needed(
            group,
            tokens,
        ) <= j),
{
    let size = group.block_size as int;
    let k = tokens / size;
    lemma_whole_blocks(tokens, group.alignment_tokens as int, size);
    assert((j + 1) * size <= k * size <==> j + 1 <= k) by (nonlinear_arith)
        requires
            size > 0,
    ;
    if group.kind == CacheGroupKind::SlidingWindow && j < k {
        let reach = group.sliding_window->0 - 1;
        let needed = window_blocks(group, false);
        let span = reach + size - 1;
        assert(needed == span / size);
        assert((needed - 1) * size < reach + (if reach == 0 {
            1int
        } else {
            0
        }) && reach <= needed * size) by (nonlinear_arith)
            requires
                needed == span / size,
                span == reach + size - 1,
                reach >= 0,
                size > 0,
        ;
        let d = k - j;
        assert(k * size - (j + 1) * size == (d - 1) * size) by (nonlinear_arith)
            requires
                d == k - j,
        ;
        if reach == 0 {
            assert(needed == 0) by (nonlinear_arith)
                requires
                    needed == span / size,
                    span == size - 1,
                    size > 0,
            ;
            assert((d - 1) * size >= 0) by (nonlinear_arith)
                requires
                    d >= 1,
                    size > 0,
            ;
        } else if d <= needed {
            assert((d - 1) * size <= (needed - 1) * size) by (nonlinear_arith)
                requires
                    d <= needed,
                    size > 0,
            ;
        } else {
            assert((d - 1) * size >= needed * size) by (nonlinear_arith)
                requires
                    d - 1 >= needed,
                    size > 0,
            ;
        }
    }
}

/// What the group confirms is what it can serve, but for a speculative block.
proof fn lemma_confirms_is_serving(
    presence: Presence,
    group: CacheGroupHashSequence,
    max_tokens: int,
    tokens: int,
)
    requires
        is_usable(group),
        0 <= tokens,
    ensures
        can_serve(presence, group, max_tokens, tokens) ==> confirms(presence, group, tokens),
        confirms(presence, group, tokens) && (group.is_eagle ==> has_spare(
            presence,
            group,
            max_tokens,
            tokens,
        )) ==> can_serve(presence, group, max_tokens, tokens),
{
    let size = group.block_size as int;
    let hashes = group.sequence_hashes@;
    if tokens % group.alignment_tokens as int == 0 {
        lemma_needed_blocks(group, tokens, 0);
        let k = tokens / size;
        assert(k * size <= hashes.len() * size <==> k <= hashes.len()) by (nonlinear_arith)
            requires
                size > 0,
        ;
        if can_serve(presence, group, max_tokens, tokens) {
            assert forall|j: int|
                first_needed(group, tokens) <= j < tokens / size implies presence(
                group.group_idx,
                #[trigger] hashes[j],
            ) == KnownBool::Yes by {
                if group.kind == CacheGroupKind::SlidingWindow {
                    lemma_window_blocks(group);
                }
                lemma_needed_blocks(group, tokens, j);
            }
        }
        if confirms(presence, group, tokens) {
            assert forall|j: int|
                0 <= j && (j + 1) * group.block_size <= tokens && is_attended(
                    group,
                    tokens,
                    j,
                ) implies presence(group.group_idx, #[trigger] hashes[j]) == KnownBool::Yes by {
                lemma_needed_blocks(group, tokens, j);
            }
        }
    }
}

/// The block behind the first `tokens` is there and may hit; under full
/// attention so are all before it.
spec fn has_spare(
    presence: Presence,
    group: CacheGroupHashSequence,
    max_tokens: int,
    tokens: int,
) -> bool {
    let next = tokens / group.block_size as int;
    tokens > 0 ==> {
        &&& next < group.sequence_hashes@.len()
        &&& (next + 1) * group.block_size <= max_tokens
        &&& presence(group.group_idx, group.sequence_hashes@[next]) == KnownBool::Yes
        &&& group.kind == CacheGroupKind::FullAttention ==> forall|j: int|
            0 <= j <= next ==> presence(group.group_idx, #[trigger] group.sequence_hashes@[j])
                == KnownBool::Yes
    }
}

/// Under full attention a shorter prefix has a spare block if a longer one
/// has.
proof fn lemma_spare_below(
    presence: Presence,
    group: CacheGroupHashSequence,
    max_tokens: int,
    tokens: int,
    fewer: int,
)
    requires
        is_usable(group),
        group.kind == CacheGroupKind::FullAttention,
        has_spare(presence, group, max_tokens, tokens),
        0 <= fewer <= tokens,
    ensures
        has_spare(presence, group, max_tokens, fewer),
{
    if fewer > 0 {
        let size = group.block_size as int;
        let next = tokens / size;
        let sooner = fewer / size;
        vstd::arithmetic::div_mod::lemma_div_is_ordered(fewer, tokens, size);
        vstd::arithmetic::div_mod::lemma_div_pos_is_pos(fewer, size);
        assert((sooner + 1) * size <= (next + 1) * size) by (nonlinear_arith)
            requires
                sooner <= next,
                size > 0,
        ;
        assert(presence(group.group_idx, group.sequence_hashes@[sooner]) == KnownBool::Yes);
    }
}

// ---- one group ----

proof fn lemma_block_may_hit(j: int, limit: int, size: int, max_tokens: int)
    requires
        j < limit,
        size > 0,
        limit * size <= max_tokens,
    ensures
        (j + 1) * size <= max_tokens,
{
    assert((j + 1) * size <= limit * size) by (nonlinear_arith)
        requires
            j + 1 <= limit,
            size > 0,
    ;
}

/// Leading blocks are counted up to a block that is known to be missing.
proof fn lemma_leading_decided(
    presence: Presence,
    group: CacheGroupHashSequence,
    max_tokens: int,
    at: int,
    limit: int,
)
    requires
        group.block_size > 0,
        limit * group.block_size <= max_tokens,
        is_decided(presence, group, max_tokens),
        0 <= at <= limit <= group.sequence_hashes@.len(),
        forall|j: int|
            0 <= j < at ==> presence(group.group_idx, #[trigger] group.sequence_hashes@[j])
                == KnownBool::Yes,
    ensures
        leading(presence, group.group_idx, group.sequence_hashes@, at, limit) matches Some(blocks)
            && (blocks < limit ==> presence(group.group_idx, group.sequence_hashes@[blocks])
            != KnownBool::Yes),
    decreases limit - at,
{
    if at < limit {
        let hashes = group.sequence_hashes@;
        lemma_block_may_hit(at, limit, group.block_size as int, max_tokens);
        if presence(group.group_idx, hashes[at]) == KnownBool::Unknown {
            let i = choose|i: int|
                0 <= i < at && presence(group.group_idx, #[trigger] hashes[i]) == KnownBool::No;
            assert(presence(group.group_idx, hashes[i]) == KnownBool::Yes);
        }
        if presence(group.group_idx, hashes[at]) == KnownBool::Yes {
            lemma_leading_decided(presence, group, max_tokens, at + 1, limit);
        }
    }
}

/// Among the ends up to `end`, the latest window is at or behind every end
/// that the group confirms, with a block to spare where one is dropped.
proof fn lemma_latest_window_at_least(
    presence: Presence,
    group: CacheGroupHashSequence,
    max_tokens: int,
    drop_eagle: bool,
    end: int,
    tokens: int,
)
    requires
        is_usable(group),
        group.kind == CacheGroupKind::SlidingWindow,
        is_decided(presence, group, max_tokens),
        end <= group.sequence_hashes@.len(),
        end * group.block_size <= max_tokens,
        0 <= tokens,
        confirms(presence, group, tokens),
        drop_eagle ==> has_spare(presence, group, max_tokens, tokens),
        tokens > 0 ==> tokens / group.block_size as int + (if drop_eagle {
            1int
        } else {
            0
        }) <= end,
    ensures
        match latest_window(presence, group, drop_eagle, end) {
            None => tokens > 0 ==> tokens / (group.block_size as int) < window_blocks(group, false),
            Some(None) => false,
            Some(Some(latest)) => tokens <= latest,
        },
    decreases end + 1,
{
    let needed = window_blocks(group, drop_eagle);
    let size = group.block_size as int;
    let k = tokens / size;
    let hashes = group.sequence_hashes@;
    lemma_window_blocks(group);
    lemma_whole_blocks(tokens, group.alignment_tokens as int, size);
    if end >= needed && end >= 0 {
        lemma_all_present_means(presence, group.group_idx, hashes, end - needed, end);
        assert((end - 1) * size <= end * size) by (nonlinear_arith)
            requires
                size > 0,
        ;
        assert forall|j: int| end - needed <= j < end implies presence(
            group.group_idx,
            #[trigger] hashes[j],
        ) != KnownBool::Unknown by {
            lemma_block_may_hit(j, end, size, max_tokens);
        }
        let last = k + if drop_eagle {
            1int
        } else {
            0
        };
        let kept = if drop_eagle {
            end - 1
        } else {
            end
        };
        if tokens == 0 || last < end {
            assert(kept * size >= 0) by (nonlinear_arith)
                requires
                    kept >= 0,
                    size > 0,
            ;
            assert(tokens > 0 ==> k * size <= kept * size) by (nonlinear_arith)
                requires
                    tokens > 0 ==> k <= kept,
                    size > 0,
            ;
            lemma_latest_window_at_least(
                presence,
                group,
                max_tokens,
                drop_eagle,
                end - 1,
                tokens,
            );
        } else {
            assert(kept == k);
            assert forall|j: int| end - needed <= j < end implies presence(
                group.group_idx,
                #[trigger] hashes[j],
            ) == KnownBool::Yes by {
                if j < k {
                    assert(first_needed(group, tokens) <= j);
                }
            }
        }
    }
}

/// A group reports at least what it confirms within its limit, with a block to
/// spare where one is dropped.
proof fn lemma_group_at_least(
    presence: Presence,
    group: CacheGroupHashSequence,
    limit_tokens: int,
    max_tokens: int,
    drop_eagle: bool,
    tokens: int,
)
    requires
        is_usable(group),
        is_decided(presence, group, max_tokens),
        0 <= tokens <= limit_tokens <= max_tokens,
        confirms(presence, group, tokens),
        drop_eagle ==> has_spare(presence, group, max_tokens, tokens),
        drop_eagle && tokens > 0 ==> tokens + group.block_size <= limit_tokens,
    ensures
        group_hit(presence, group, limit_tokens, drop_eagle) matches Some(hit) && tokens <= hit,
{
    let limit = block_limit(group, limit_tokens);
    let size = group.block_size as int;
    let alignment = group.alignment_tokens as int;
    let hashes = group.sequence_hashes@;
    let k = tokens / size;
    let spare: int = if drop_eagle && tokens > 0 {
        1
    } else {
        0
    };
    lemma_limit(group, limit_tokens);
    lemma_whole_blocks(tokens, alignment, size);
    assert((k + spare) * size == tokens + spare * size) by (nonlinear_arith)
        requires
            tokens == k * size,
    ;
    assert(spare * size <= size) by (nonlinear_arith)
        requires
            0 <= spare <= 1,
            size > 0,
    ;
    assert(spare == 1 ==> spare * size == size) by (nonlinear_arith);
    assert(spare == 0 ==> spare * size == 0) by (nonlinear_arith);
    assert(k + spare <= limit_tokens / size) by {
        vstd::arithmetic::div_mod::lemma_div_is_ordered((k + spare) * size, limit_tokens, size);
        vstd::arithmetic::div_mod::lemma_div_by_multiple(k + spare, size);
    }
    assert(k + spare <= limit);
    lemma_leading_decided(presence, group, max_tokens, 0, limit);
    lemma_leading_present(presence, group.group_idx, hashes, 0, limit);
    let led = leading(presence, group.group_idx, hashes, 0, limit)->0;
    let kept = if drop_eagle && led > 0 {
        led - 1
    } else {
        led
    };
    assert(led * size > 0 <==> led > 0) by (nonlinear_arith)
        requires
            led >= 0,
            size > 0,
    ;
    assert((led - 1) * size == led * size - size) by (nonlinear_arith);
    assert(kept * size >= 0) by (nonlinear_arith)
        requires
            kept >= 0,
            size > 0,
    ;
    lemma_align_down(kept * size, alignment);
    if first_needed(group, tokens) == 0 {
        assert(k + spare <= led) by {
            if led < k + spare {
                if led < k {
                    assert(presence(group.group_idx, hashes[led]) == KnownBool::Yes);
                } else {
                    assert(presence(group.group_idx, hashes[k]) == KnownBool::Yes);
                }
            }
        }
        if tokens > 0 {
            assert(k <= kept);
            assert(k * size <= kept * size) by (nonlinear_arith)
                requires
                    k <= kept,
                    size > 0,
            ;
        }
        vstd::arithmetic::div_mod::lemma_div_is_ordered(tokens, kept * size, alignment);
        vstd::arithmetic::div_mod::lemma_fundamental_div_mod(tokens, alignment);
        vstd::arithmetic::div_mod::lemma_fundamental_div_mod(kept * size, alignment);
        let fewer = tokens / alignment;
        let more = (kept * size) / alignment;
        assert(alignment * fewer <= alignment * more) by (nonlinear_arith)
            requires
                fewer <= more,
                alignment > 0,
        ;
        assert(tokens <= align_down(kept * size, alignment));
    }
    if group.kind == CacheGroupKind::SlidingWindow {
        lemma_window_blocks(group);
        lemma_latest_window_at_least(presence, group, max_tokens, drop_eagle, limit, tokens);
    }
}

/// A window that ends on a dropped block has that block.
proof fn lemma_latest_window_has_spare(
    presence: Presence,
    group: CacheGroupHashSequence,
    max_tokens: int,
    end: int,
)
    requires
        is_usable(group),
        group.kind == CacheGroupKind::SlidingWindow,
        end <= group.sequence_hashes@.len(),
        end * group.block_size <= max_tokens,
    ensures
        latest_window(presence, group, true, end) matches Some(Some(tokens)) ==> has_spare(
            presence,
            group,
            max_tokens,
            tokens,
        ),
    decreases end + 1,
{
    let needed = window_blocks(group, true);
    let size = group.block_size as int;
    lemma_window_blocks(group);
    if end >= 0 && end >= needed {
        assert((end - 1) * size + size == end * size) by (nonlinear_arith);
        lemma_latest_window_has_spare(presence, group, max_tokens, end - 1);
        lemma_all_present_means(
            presence,
            group.group_idx,
            group.sequence_hashes@,
            end - needed,
            end,
        );
        vstd::arithmetic::div_mod::lemma_div_by_multiple(end - 1, size);
    }
}

/// What is left after a block was dropped has that block to spare.
proof fn lemma_dropped_is_spare(
    presence: Presence,
    group: CacheGroupHashSequence,
    limit_tokens: int,
    max_tokens: int,
)
    requires
        is_usable(group),
        0 <= limit_tokens <= max_tokens,
    ensures
        group_hit(presence, group, limit_tokens, true) matches Some(tokens) ==> has_spare(
            presence,
            group,
            max_tokens,
            tokens,
        ),
{
    let limit = block_limit(group, limit_tokens);
    let size = group.block_size as int;
    let alignment = group.alignment_tokens as int;
    let hashes = group.sequence_hashes@;
    lemma_limit(group, limit_tokens);
    lemma_leading_present(presence, group.group_idx, hashes, 0, limit);
    if let Some(led) = leading(presence, group.group_idx, hashes, 0, limit) {
        assert(led * size > 0 <==> led > 0) by (nonlinear_arith)
            requires
                led >= 0,
                size > 0,
        ;
        if led > 0 {
            assert((led - 1) * size == led * size - size) by (nonlinear_arith);
            assert((led - 1) * size >= 0 && led * size <= limit * size) by (nonlinear_arith)
                requires
                    1 <= led <= limit,
                    size > 0,
            ;
            lemma_align_down((led - 1) * size, alignment);
            let tokens = align_down((led - 1) * size, alignment);
            let next = tokens / size;
            vstd::arithmetic::div_mod::lemma_div_is_ordered(tokens, (led - 1) * size, size);
            vstd::arithmetic::div_mod::lemma_div_by_multiple(led - 1, size);
            vstd::arithmetic::div_mod::lemma_div_pos_is_pos(tokens, size);
            assert((next + 1) * size <= led * size) by (nonlinear_arith)
                requires
                    next + 1 <= led,
                    size > 0,
            ;
            assert(has_spare(presence, group, max_tokens, tokens));
        } else {
            assert(led * size == 0) by (nonlinear_arith)
                requires
                    led == 0,
            ;
            vstd::arithmetic::div_mod::lemma_small_mod(0, alignment as nat);
        }
    }
    if group.kind == CacheGroupKind::SlidingWindow {
        lemma_latest_window_has_spare(presence, group, max_tokens, limit);
    }
}

// ---- all groups ----

/// Each speculative group that counts as verified has a block to spare.
spec fn verified_have_spare(
    presence: Presence,
    groups: Seq<CacheGroupHashSequence>,
    max_tokens: int,
    current: int,
    verified: Set<u32>,
) -> bool {
    forall|i: int|
        0 <= i < groups.len() && (#[trigger] groups[i]).is_eagle && verified.contains(
            groups[i].group_idx,
        ) ==> has_spare(presence, groups[i], max_tokens, current)
}

/// The groups can all be looked up and compared.
spec fn comparable(groups: Seq<CacheGroupHashSequence>) -> bool {
    &&& forall|i: int| 0 <= i < groups.len() ==> is_usable(#[trigger] groups[i])
    &&& speculation_is_apart(groups)
}

/// One group narrows the hit: it stays within, and what counts as verified
/// afterwards has a block to spare.
proof fn lemma_narrow_keeps_spares(
    presence: Presence,
    groups: Seq<CacheGroupHashSequence>,
    max_tokens: int,
    at: int,
    current: int,
    verified: Set<u32>,
)
    requires
        comparable(groups),
        0 <= at < groups.len(),
        0 <= current <= max_tokens,
        verified_have_spare(presence, groups, max_tokens, current, verified),
    ensures
        narrow(presence, groups[at], max_tokens, current, verified) matches Some((next, marked))
            ==> {
            &&& 0 <= next <= current
            &&& verified_have_spare(presence, groups, max_tokens, next, marked)
            &&& groups[at].is_eagle && next == current ==> marked.contains(groups[at].group_idx)
            &&& next == current ==> verified.subset_of(marked)
        },
{
    let group = groups[at];
    let drop_eagle = group.is_eagle && !verified.contains(group.group_idx);
    let lookup_limit = if !drop_eagle {
        current
    } else if current + group.block_size <= max_tokens {
        current + group.block_size
    } else {
        max_tokens
    };
    assert(is_usable(group));
    crate::prefix_laws::lemma_group_confirms(presence, group, lookup_limit, drop_eagle);
    if let Some((next, marked)) = narrow(presence, group, max_tokens, current, verified) {
        if drop_eagle {
            lemma_dropped_is_spare(presence, group, lookup_limit, max_tokens);
            assert forall|i: int|
                0 <= i < groups.len() && (#[trigger] groups[i]).is_eagle && marked.contains(
                    groups[i].group_idx,
                ) implies has_spare(presence, groups[i], max_tokens, next) by {
                if i != at {
                    assert(groups[at].is_eagle);
                    assert(groups[i].group_idx != group.group_idx);
                    assert(is_usable(groups[i]));
                    lemma_spare_below(presence, groups[i], max_tokens, current, next);
                }
            }
        }
    }
}

proof fn lemma_pass_keeps_spares(
    presence: Presence,
    groups: Seq<CacheGroupHashSequence>,
    max_tokens: int,
    at: int,
    current: int,
    verified: Set<u32>,
)
    requires
        comparable(groups),
        0 <= at <= groups.len(),
        0 <= current <= max_tokens,
        verified_have_spare(presence, groups, max_tokens, current, verified),
    ensures
        pass(presence, groups, max_tokens, at, current, verified) matches Some((end, marked)) ==> {
            &&& 0 <= end <= current
            &&& verified_have_spare(presence, groups, max_tokens, end, marked)
            &&& end == current ==> verified.subset_of(marked) && forall|i: int|
                at <= i < groups.len() && (#[trigger] groups[i]).is_eagle ==> marked.contains(
                    groups[i].group_idx,
                )
        },
    decreases groups.len() - at,
{
    if at < groups.len() {
        lemma_narrow_keeps_spares(presence, groups, max_tokens, at, current, verified);
        if let Some((next, marked)) = narrow(
            presence,
            groups[at],
            max_tokens,
            current,
            verified,
        ) {
            lemma_pass_keeps_spares(presence, groups, max_tokens, at + 1, next, marked);
        }
    }
}

proof fn lemma_settle_has_spares(
    presence: Presence,
    groups: Seq<CacheGroupHashSequence>,
    max_tokens: int,
    hit: int,
    verified: Set<u32>,
)
    requires
        comparable(groups),
        0 <= hit <= max_tokens,
        verified_have_spare(presence, groups, max_tokens, hit, verified),
    ensures
        settle(presence, groups, max_tokens, hit, verified) matches Some(tokens) ==> forall|i: int|
            0 <= i < groups.len() && (#[trigger] groups[i]).is_eagle ==> has_spare(
                presence,
                groups[i],
                max_tokens,
                tokens,
            ),
    decreases hit,
{
    lemma_pass_keeps_spares(presence, groups, max_tokens, 0, hit, verified);
    if let Some((current, marked)) = pass(presence, groups, max_tokens, 0, hit, verified) {
        if hit > 0 && current < hit {
            lemma_settle_has_spares(presence, groups, max_tokens, current, marked);
        }
    }
}

proof fn lemma_pass_at_least(
    presence: Presence,
    groups: Seq<CacheGroupHashSequence>,
    max_tokens: int,
    at: int,
    current: int,
    verified: Set<u32>,
    tokens: int,
)
    requires
        0 <= at <= groups.len(),
        0 <= tokens <= current <= max_tokens,
        forall|i: int|
            0 <= i < groups.len() ==> {
                &&& is_usable(#[trigger] groups[i])
                &&& is_decided(presence, groups[i], max_tokens)
                &&& can_serve(presence, groups[i], max_tokens, tokens)
            },
    ensures
        pass(presence, groups, max_tokens, at, current, verified) matches Some((end, _)) && tokens
            <= end <= current,
    decreases groups.len() - at,
{
    if at < groups.len() {
        let group = groups[at];
        let drop_eagle = group.is_eagle && !verified.contains(group.group_idx);
        let lookup_limit = if !drop_eagle {
            current
        } else if current + group.block_size <= max_tokens {
            current + group.block_size
        } else {
            max_tokens
        };
        assert(is_usable(group));
        lemma_confirms_is_serving(presence, group, max_tokens, tokens);
        lemma_needed_blocks(group, tokens, 0);
        if drop_eagle && tokens > 0 {
            lemma_served_has_spare(presence, group, max_tokens, tokens);
        }
        lemma_group_at_least(
            presence,
            group,
            lookup_limit,
            max_tokens,
            drop_eagle,
            tokens,
        );
        crate::prefix_laws::lemma_group_confirms(presence, group, lookup_limit, drop_eagle);
        if let Some((next, marked)) = narrow(presence, group, max_tokens, current, verified) {
            lemma_pass_at_least(presence, groups, max_tokens, at + 1, next, marked, tokens);
        }
    }
}

/// A speculative group that can serve a prefix has a block to spare.
proof fn lemma_served_has_spare(
    presence: Presence,
    group: CacheGroupHashSequence,
    max_tokens: int,
    tokens: int,
)
    requires
        is_usable(group),
        group.is_eagle,
        0 < tokens,
        can_serve(presence, group, max_tokens, tokens),
    ensures
        has_spare(presence, group, max_tokens, tokens),
        tokens + group.block_size <= max_tokens,
{
    let size = group.block_size as int;
    let next = tokens / size;
    lemma_needed_blocks(group, tokens, 0);
    assert((next + 1) * size == next * size + size) by (nonlinear_arith);
    if group.kind == CacheGroupKind::FullAttention {
        assert forall|j: int| 0 <= j <= next implies presence(
            group.group_idx,
            #[trigger] group.sequence_hashes@[j],
        ) == KnownBool::Yes by {
            lemma_needed_blocks(group, tokens, j);
        }
    }
}

proof fn lemma_settle_at_least(
    presence: Presence,
    groups: Seq<CacheGroupHashSequence>,
    max_tokens: int,
    hit: int,
    verified: Set<u32>,
    tokens: int,
)
    requires
        0 <= tokens <= hit <= max_tokens,
        forall|i: int|
            0 <= i < groups.len() ==> {
                &&& is_usable(#[trigger] groups[i])
                &&& is_decided(presence, groups[i], max_tokens)
                &&& can_serve(presence, groups[i], max_tokens, tokens)
            },
    ensures
        settle(presence, groups, max_tokens, hit, verified) matches Some(end) && tokens <= end,
    decreases hit,
{
    lemma_pass_at_least(presence, groups, max_tokens, 0, hit, verified, tokens);
    if let Some((current, marked)) = pass(presence, groups, max_tokens, 0, hit, verified) {
        if hit > 0 && current < hit {
            lemma_settle_at_least(presence, groups, max_tokens, current, marked, tokens);
        }
    }
}

/// The common prefix is the longest that every group can serve: aligned for
/// each, with every block that is attended to, and for a speculative group the
/// block behind it as well.
pub proof fn law_common_prefix_is_the_longest_that_can_be_served(
    presence: Presence,
    groups: Seq<CacheGroupHashSequence>,
    max_tokens: int,
)
    requires
        max_tokens >= 0,
        groups.len() > 0,
        forall|i: int|
            0 <= i < groups.len() ==> is_usable(#[trigger] groups[i]) && is_decided(
                presence,
                groups[i],
                max_tokens,
            ),
        speculation_is_apart(groups),
    ensures
        hybrid_hit(presence, groups, max_tokens) matches Some(longest) && {
            &&& 0 <= longest <= max_tokens
            &&& all_can_serve(presence, groups, max_tokens, longest)
            &&& forall|tokens: int|
                0 <= tokens <= max_tokens && #[trigger] all_can_serve(
                    presence,
                    groups,
                    max_tokens,
                    tokens,
                ) ==> tokens <= longest
        },
{
    assert forall|i: int| 0 <= i < groups.len() implies well_shaped(#[trigger] groups[i]) by {
        assert(is_usable(groups[i]));
    }
    assert forall|tokens: int|
        0 <= tokens <= max_tokens && #[trigger] all_can_serve(
            presence,
            groups,
            max_tokens,
            tokens,
        ) implies hybrid_hit(presence, groups, max_tokens) is Some && tokens <= hybrid_hit(
        presence,
        groups,
        max_tokens,
    )->0 by {
        lemma_settle_at_least(presence, groups, max_tokens, max_tokens, Set::empty(), tokens);
    }
    assert forall|i: int| 0 <= i < groups.len() implies can_serve(
        presence,
        #[trigger] groups[i],
        max_tokens,
        0,
    ) by {
        let group = groups[i];
        assert(is_usable(group));
        vstd::arithmetic::div_mod::lemma_small_mod(0, group.alignment_tokens as nat);
        assert(group.sequence_hashes@.len() * group.block_size >= 0) by (nonlinear_arith)
            requires
                group.sequence_hashes@.len() >= 0,
                group.block_size > 0,
        ;
        assert forall|j: int|
            0 <= j && (j + 1) * group.block_size <= 0 && is_attended(group, 0, j) implies presence(
            group.group_idx,
            #[trigger] group.sequence_hashes@[j],
        ) == KnownBool::Yes by {
            assert((j + 1) * group.block_size > 0) by (nonlinear_arith)
                requires
                    j >= 0,
                    group.block_size > 0,
            ;
        }
    }
    assert(all_can_serve(presence, groups, max_tokens, 0));
    law_known_prefix_is_confirmed_by_every_group(presence, groups, max_tokens);
    lemma_settle_has_spares(presence, groups, max_tokens, max_tokens, Set::empty());
    let longest = hybrid_hit(presence, groups, max_tokens)->0;
    assert forall|i: int| 0 <= i < groups.len() implies can_serve(
        presence,
        #[trigger] groups[i],
        max_tokens,
        longest,
    ) by {
        assert(is_usable(groups[i]));
        assert(confirms(presence, groups[i], longest));
        lemma_confirms_is_serving(presence, groups[i], max_tokens, longest);
    }
}

/// Nothing is known of a common prefix without groups or where one of them
/// cannot be looked up.
pub proof fn law_no_prefix_without_usable_groups(
    presence: Presence,
    groups: Seq<CacheGroupHashSequence>,
    max_tokens: int,
)
    requires
        groups.len() == 0 || exists|i: int|
            0 <= i < groups.len() && !is_usable(#[trigger] groups[i]),
    ensures
        hybrid_hit(presence, groups, max_tokens) is None,
{
    if groups.len() > 0 {
        let i = choose|i: int| 0 <= i < groups.len() && !is_usable(#[trigger] groups[i]);
        assert(!well_shaped(groups[i]));
    }
}

/// One full-attention group whose first `led` blocks are there, and no more
/// that may hit: the prefix is all of them, but for the last one if the group
/// is speculative.
pub proof fn law_single_group_counts_its_leading_blocks(
    presence: Presence,
    group: CacheGroupHashSequence,
    max_tokens: int,
    led: int,
)
    requires
        max_tokens >= 0,
        is_usable(group),
        group.kind == CacheGroupKind::FullAttention,
        group.alignment_tokens == group.block_size,
        0 <= led <= group.sequence_hashes@.len(),
        led * group.block_size <= max_tokens,
        forall|j: int|
            0 <= j < led ==> presence(group.group_idx, #[trigger] group.sequence_hashes@[j])
                == KnownBool::Yes,
        led == group.sequence_hashes@.len() || (led + 1) * group.block_size > max_tokens
            || presence(group.group_idx, group.sequence_hashes@[led]) == KnownBool::No,
    ensures
        hybrid_hit(presence, seq![group], max_tokens) == Some(
            if group.is_eagle && led > 0 {
                (led - 1) * group.block_size
            } else {
                led * group.block_size
            },
        ),
{
    let size = group.block_size as int;
    let hashes = group.sequence_hashes@;
    let groups = seq![group];
    let blocks = if group.is_eagle && led > 0 {
        led - 1
    } else {
        led
    };
    let expected = blocks * size;
    assert(groups[0] == group);
    assert(is_decided(presence, group, max_tokens)) by {
        assert forall|j: int|
            0 <= j < hashes.len() && (j + 1) * group.block_size <= max_tokens && presence(
                group.group_idx,
                #[trigger] hashes[j],
            ) == KnownBool::Unknown implies exists|i: int|
            0 <= i < j && presence(group.group_idx, #[trigger] hashes[i]) == KnownBool::No by {
            lemma_beyond(led, j, size);
            assert(presence(group.group_idx, hashes[led]) == KnownBool::No);
        }
    }
    law_common_prefix_is_the_longest_that_can_be_served(presence, groups, max_tokens);
    let longest = hybrid_hit(presence, groups, max_tokens)->0;
    assert(0 <= expected <= led * size) by (nonlinear_arith)
        requires
            0 <= blocks <= led,
            size > 0,
            expected == blocks * size,
    ;
    assert(can_serve(presence, group, max_tokens, expected)) by {
        vstd::arithmetic::div_mod::lemma_mod_multiples_basic(blocks, size);
        vstd::arithmetic::div_mod::lemma_div_by_multiple(blocks, size);
        assert(expected <= hashes.len() * size) by (nonlinear_arith)
            requires
                expected == blocks * size,
                blocks <= hashes.len(),
                size > 0,
        ;
        assert forall|j: int|
            0 <= j && (j + 1) * group.block_size <= expected && is_attended(
                group,
                expected,
                j,
            ) implies presence(group.group_idx, #[trigger] hashes[j]) == KnownBool::Yes by {
            lemma_needed_blocks(group, expected, j);
        }
        if expected > 0 && group.is_eagle {
            assert(led > 0) by (nonlinear_arith)
                requires
                    expected > 0,
                    expected == blocks * size,
                    blocks <= led,
                    size > 0,
            ;
            assert((blocks + 1) * size == led * size);
            assert(presence(group.group_idx, hashes[blocks]) == KnownBool::Yes);
        }
    }
    assert(all_can_serve(presence, groups, max_tokens, expected));
    assert(can_serve(presence, groups[0], max_tokens, longest));
    lemma_needed_blocks(group, longest, 0);
    let found = longest / size;
    assert(found <= blocks) by {
        if found > blocks {
            vstd::arithmetic::div_mod::lemma_div_pos_is_pos(longest, size);
            if group.is_eagle {
                lemma_positive(found, size);
                lemma_served_has_spare(presence, group, max_tokens, longest);
                lemma_beyond(led, found, size);
                assert(presence(group.group_idx, hashes[led]) == KnownBool::Yes);
            } else {
                lemma_needed_blocks(group, longest, led);
                lemma_beyond(led, found - 1, size);
                lemma_found_within(found, size, hashes.len() as int);
                assert(presence(group.group_idx, hashes[led]) == KnownBool::Yes);
            }
        }
    }
    assert(found * size <= blocks * size) by (nonlinear_arith)
        requires
            found <= blocks,
            size > 0,
    ;
}

proof fn lemma_beyond(led: int, j: int, size: int)
    requires
        led <= j,
        size > 0,
    ensures
        (led + 1) * size <= (j + 1) * size,
{
    assert((led + 1) * size <= (j + 1) * size) by (nonlinear_arith)
        requires
            led <= j,
            size > 0,
    ;
}

proof fn lemma_positive(found: int, size: int)
    requires
        found > 0,
        size > 0,
    ensures
        found * size > 0,
{
    assert(found * size > 0) by (nonlinear_arith)
        requires
            found > 0,
            size > 0,
    ;
}

proof fn lemma_found_within(found: int, size: int, len: int)
    requires
        found * size <= len * size,
        size > 0,
    ensures
        found <= len,
{
    assert(found <= len) by (nonlinear_arith)
        requires
            found * size <= len * size,
            size > 0,
    ;
}

/// Where the first block that is not there is unknown and may hit, the first
/// group leaves the common prefix unknown.
pub proof fn law_unknown_leading_block_leaves_the_prefix_unknown(
    presence: Presence,
    groups: Seq<CacheGroupHashSequence>,
    max_tokens: int,
    led: int,
)
    requires
        max_tokens >= 0,
        groups.len() > 0,
        is_usable(groups[0]),
        groups[0].kind == CacheGroupKind::FullAttention,
        0 <= led < groups[0].sequence_hashes@.len(),
        (led + 1) * groups[0].block_size <= max_tokens,
        forall|j: int|
            0 <= j < led ==> presence(
                groups[0].group_idx,
                #[trigger] groups[0].sequence_hashes@[j],
            ) == KnownBool::Yes,
        presence(groups[0].group_idx, groups[0].sequence_hashes@[led]) == KnownBool::Unknown,
    ensures
        hybrid_hit(presence, groups, max_tokens) is None,
{
    let group = groups[0];
    let size = group.block_size as int;
    let drop_eagle = group.is_eagle;
    let lookup_limit = max_tokens;
    vstd::arithmetic::div_mod::lemma_div_is_ordered((led + 1) * size, max_tokens, size);
    vstd::arithmetic::div_mod::lemma_div_by_multiple(led + 1, size);
    lemma_leading_unknown(
        presence,
        group.group_idx,
        group.sequence_hashes@,
        0,
        block_limit(group, max_tokens),
        led,
    );
    assert(group_hit(presence, group, max_tokens, drop_eagle) is None);
    assert(narrow(presence, group, max_tokens, max_tokens, Set::empty()) is None);
    assert(pass(presence, groups, max_tokens, 0, max_tokens, Set::empty()) is None);
}

proof fn lemma_leading_unknown(
    presence: Presence,
    group_idx: u32,
    hashes: Seq<u64>,
    at: int,
    limit: int,
    led: int,
)
    requires
        0 <= at <= led < limit <= hashes.len(),
        forall|j: int|
            0 <= j < led ==> presence(group_idx, #[trigger] hashes[j]) == KnownBool::Yes,
        presence(group_idx, hashes[led]) == KnownBool::Unknown,
    ensures
        leading(presence, group_idx, hashes, at, limit) is None,
    decreases led - at,
{
    if at < led {
        assert(presence(group_idx, hashes[at]) == KnownBool::Yes);
        lemma_leading_unknown(presence, group_idx, hashes, at + 1, limit, led);
    }
}

} // verus!
