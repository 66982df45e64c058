//! Cache-hit boundaries over several cache groups.
//!
//! A request is covered by rolling block hashes per cache group. How many
//! leading tokens can be reused is decided per group (full attention needs
//! every block of the prefix, a sliding window only the last ones) and then
//! reconciled until all groups agree.

use std::collections::HashSet;
use vstd::prelude::*;

use crate::evidence::KnownBool;

verus! {

broadcast use vstd::std_specs::hash::group_hash_axioms;

#[derive(Clone, Copy, Debug, PartialEq, Eq, Structural)]
pub enum CacheGroupKind {
    FullAttention,
    SlidingWindow,
}

/// Request hashes for one physical KV-cache group. Hashes are rolling
/// sequence hashes at this group's actual block size, not raw token-block
/// hashes, so identical chunks under different parents remain distinct.
#[derive(Clone, Debug, PartialEq, Eq)]
pub struct CacheGroupHashSequence {
    pub group_idx: u32,
    pub kind: CacheGroupKind,
    pub block_size: u32,
    pub sliding_window: Option<u32>,
    pub is_eagle: bool,
    pub alignment_tokens: u32,
    pub sequence_hashes: Vec<u64>,
}

#[derive(Clone, Copy, Debug, PartialEq, Eq, Structural)]
pub enum KnownPrefixLength {
    Known(u64),
    Unknown,
}

/// What is known of a block, by group and rolling hash.
pub type Presence = spec_fn(u32, u64) -> KnownBool;

/// The closure answers every question as `presence` does.
pub open spec fn computes<F: Fn(u32, u64) -> KnownBool>(f: F, presence: Presence) -> bool {
    forall|group: u32, hash: u64, answer: KnownBool| #[trigger]
        call_ensures(f, (group, hash), answer) ==> answer == presence(group, hash)
}

pub open spec fn answers_all<F: Fn(u32, u64) -> KnownBool>(f: F) -> bool {
    forall|group: u32, hash: u64| #[trigger] call_requires(f, (group, hash))
}

/// The closure may answer some question with `Unknown`.
pub open spec fn may_not_know<F: Fn(u32, u64) -> KnownBool>(f: F) -> bool {
    exists|group: u32, hash: u64| #[trigger] call_ensures(f, (group, hash), KnownBool::Unknown)
}

/// The group's sizes are usable: positive, the alignment a multiple of the
/// block size, and a window where one is needed.
pub open spec fn well_shaped(group: CacheGroupHashSequence) -> bool {
    &&& group.block_size > 0
    &&& group.alignment_tokens > 0
    &&& group.alignment_tokens % group.block_size == 0
    &&& group.kind is SlidingWindow ==> group.sliding_window is Some
        && group.sliding_window->0 > 0
}

/// How many blocks from `at` on are present without a gap; `None` when the
/// first block that is not present is unknown.
pub open spec fn leading(
    presence: Presence,
    group_idx: u32,
    hashes: Seq<u64>,
    at: int,
    limit: int,
) -> Option<int>
    decreases limit - at,
{
    if at >= limit {
        Some(at)
    } else {
        match presence(group_idx, hashes[at]) {
            KnownBool::Yes => leading(presence, group_idx, hashes, at + 1, limit),
            KnownBool::No => Some(at),
            KnownBool::Unknown => None,
        }
    }
}

/// Whether all blocks in `[at, end)` are present, as far as the first block
/// that is not.
pub open spec fn all_present(
    presence: Presence,
    group_idx: u32,
    hashes: Seq<u64>,
    at: int,
    end: int,
) -> KnownBool
    decreases end - at,
{
    if at >= end {
        KnownBool::Yes
    } else if presence(group_idx, hashes[at]) == KnownBool::Yes {
        all_present(presence, group_idx, hashes, at + 1, end)
    } else {
        presence(group_idx, hashes[at])
    }
}

pub open spec fn align_down(tokens: int, alignment: int) -> int {
    tokens - tokens % alignment
}

/// Complete blocks of the request below `max_tokens`.
pub open spec fn block_limit(group: CacheGroupHashSequence, max_tokens: int) -> int {
    let fitting = max_tokens / group.block_size as int;
    if fitting <= group.sequence_hashes@.len() {
        fitting
    } else {
        group.sequence_hashes@.len() as int
    }
}

pub open spec fn full_attention_prefix(
    presence: Presence,
    group: CacheGroupHashSequence,
    max_tokens: int,
    drop_eagle: bool,
) -> Option<int> {
    match leading(
        presence,
        group.group_idx,
        group.sequence_hashes@,
        0,
        block_limit(group, max_tokens),
    ) {
        None => None,
        Some(blocks) => {
            let hit = blocks * group.block_size;
            let dropped = if drop_eagle && hit > 0 {
                hit - group.block_size
            } else {
                hit
            };
            Some(align_down(dropped, group.alignment_tokens as int))
        },
    }
}

/// Blocks that a window needs in front of the next token, and one more for a
/// speculative tail that will be dropped.
pub open spec fn window_blocks(group: CacheGroupHashSequence, drop_eagle: bool) -> int {
    (group.sliding_window->0 - 1 + group.block_size - 1) / group.block_size as int
        + if drop_eagle {
        1int
    } else {
        0int
    }
}

/// The latest aligned end, at most `end`, whose whole window is present:
/// `None` if there is none, `Some(None)` if unknown blocks decide.
pub open spec fn latest_window(
    presence: Presence,
    group: CacheGroupHashSequence,
    drop_eagle: bool,
    end: int,
) -> Option<Option<int>>
    decreases end + 1,
{
    let needed = window_blocks(group, drop_eagle);
    if end < 0 || end < needed {
        None
    } else {
        let kept = (if drop_eagle {
            end - 1
        } else {
            end
        }) * group.block_size;
        if kept % group.alignment_tokens as int != 0 {
            latest_window(presence, group, drop_eagle, end - 1)
        } else {
            match all_present(
                presence,
                group.group_idx,
                group.sequence_hashes@,
                end - needed,
                end,
            ) {
                KnownBool::Yes => Some(Some(kept)),
                KnownBool::No => latest_window(presence, group, drop_eagle, end - 1),
                KnownBool::Unknown => Some(None),
            }
        }
    }
}

/// The latest complete window, or else the leading contiguous prefix.
pub open spec fn sliding_window_hit(
    presence: Presence,
    group: CacheGroupHashSequence,
    max_tokens: int,
    drop_eagle: bool,
) -> Option<int> {
    let limit = block_limit(group, max_tokens);
    match latest_window(presence, group, drop_eagle, limit) {
        Some(decided) => decided,
        None => match leading(presence, group.group_idx, group.sequence_hashes@, 0, limit) {
            None => None,
            Some(blocks) => {
                let kept = if drop_eagle && blocks > 0 {
                    blocks - 1
                } else {
                    blocks
                };
                Some(align_down(kept * group.block_size, group.alignment_tokens as int))
            },
        },
    }
}

/// Reusable tokens of one group within `max_tokens`; `None` if unknown.
pub open spec fn group_hit(
    presence: Presence,
    group: CacheGroupHashSequence,
    max_tokens: int,
    drop_eagle: bool,
) -> Option<int> {
    match group.kind {
        CacheGroupKind::FullAttention => full_attention_prefix(
            presence,
            group,
            max_tokens,
            drop_eagle,
        ),
        CacheGroupKind::SlidingWindow => sliding_window_hit(
            presence,
            group,
            max_tokens,
            drop_eagle,
        ),
    }
}

/// One group narrows `current`. A speculative group looks one block further
/// the first time, to make up for the block it drops; `verified` remembers
/// which have done so since the hit last shrank.
pub open spec fn narrow(
    presence: Presence,
    group: CacheGroupHashSequence,
    max_tokens: int,
    current: int,
    verified: Set<u32>,
) -> Option<(int, Set<u32>)> {
    let drop_eagle = group.is_eagle && !verified.contains(group.group_idx);
    let lookup_limit = if !drop_eagle {
        current
    } else if current + group.block_size <= max_tokens {
        current + group.block_size
    } else {
        max_tokens
    };
    match group_hit(presence, group, lookup_limit, drop_eagle) {
        None => None,
        Some(next) => Some(
            (
                next,
                if drop_eagle {
                    verified.insert(group.group_idx)
                } else if next < current {
                    Set::empty()
                } else {
                    verified
                },
            ),
        ),
    }
}

/// All groups from `at` on narrow `current` in turn.
pub open spec fn pass(
    presence: Presence,
    groups: Seq<CacheGroupHashSequence>,
    max_tokens: int,
    at: int,
    current: int,
    verified: Set<u32>,
) -> Option<(int, Set<u32>)>
    decreases groups.len() - at,
{
    if at >= groups.len() || at < 0 {
        Some((current, verified))
    } else {
        match narrow(presence, groups[at], max_tokens, current, verified) {
            None => None,
            Some((next, marked)) => pass(presence, groups, max_tokens, at + 1, next, marked),
        }
    }
}

/// Passes are repeated until one does not shrink the hit.
pub open spec fn settle(
    presence: Presence,
    groups: Seq<CacheGroupHashSequence>,
    max_tokens: int,
    hit: int,
    verified: Set<u32>,
) -> Option<int>
    decreases hit,
{
    match pass(presence, groups, max_tokens, 0, hit, verified) {
        None => None,
        Some((current, marked)) => if hit <= 0 || current >= hit {
            Some(hit)
        } else if current < 0 {
            None
        } else {
            settle(presence, groups, max_tokens, current, marked)
        },
    }
}

pub open spec fn hybrid_hit(
    presence: Presence,
    groups: Seq<CacheGroupHashSequence>,
    max_tokens: int,
) -> Option<int> {
    if groups.len() == 0 || exists|i: int|
        0 <= i < groups.len() && !well_shaped(#[trigger] groups[i]) {
        None
    } else {
        settle(presence, groups, max_tokens, max_tokens, Set::empty())
    }
}

pub open spec fn as_length(hit: Option<int>) -> KnownPrefixLength {
    match hit {
        None => KnownPrefixLength::Unknown,
        Some(tokens) => KnownPrefixLength::Known(tokens as u64),
    }
}

/// The longest reusable prefix that all cache groups agree on, within
/// `max_tokens`. `present` tells what is known of a block. A known length
/// ends on the alignment of every group; it is unknown without groups, with
/// an unusable group, or where `present` does not know.
pub fn hybrid_prefix<F: Fn(u32, u64) -> KnownBool>(
    groups: &[CacheGroupHashSequence],
    max_tokens: u64,
    present: F,
) -> (length: KnownPrefixLength)
    requires
        answers_all(present),
    ensures
        forall|presence: Presence| #[trigger]
            computes(present, presence) ==> length == as_length(
                hybrid_hit(presence, groups@, max_tokens as int),
            ),
        length matches KnownPrefixLength::Known(tokens) ==> tokens <= max_tokens && forall|i: int|
            0 <= i < groups@.len() ==> tokens as int % (
            #[trigger] groups@[i]).alignment_tokens as int == 0,
        groups@.len() == 0 ==> length is Unknown,
        forall|i: int|
            0 <= i < groups@.len() && !well_shaped(#[trigger] groups@[i]) ==> length is Unknown,
        length is Unknown ==> {
            ||| groups@.len() == 0
            ||| exists|i: int| 0 <= i < groups@.len() && !well_shaped(#[trigger] groups@[i])
            ||| may_not_know(present)
        },
{
    if groups.len() == 0 {
        return KnownPrefixLength::Unknown;
    }
    let mut g: usize = 0;
    while g < groups.len()
        invariant
            g <= groups@.len(),
            forall|i: int| 0 <= i < g ==> well_shaped(#[trigger] groups@[i]),
        decreases groups@.len() - g,
    {
        let group = &groups[g];
        let windowed = match group.kind {
            CacheGroupKind::FullAttention => true,
            CacheGroupKind::SlidingWindow => match group.sliding_window {
                None => false,
                Some(window) => window > 0,
            },
        };
        if group.block_size == 0 || group.alignment_tokens == 0 || group.alignment_tokens
            % group.block_size != 0 || !windowed {
            assert(!well_shaped(groups@[g as int]));
            return KnownPrefixLength::Unknown;
        }
        g = g + 1;
    }
    let mut hit: u64 = max_tokens;
    let mut verified: HashSet<u32> = HashSet::new();
    assert(verified@ =~= Set::<u32>::empty());
    loop
        invariant
            groups@.len() > 0,
            answers_all(present),
            hit <= max_tokens,
            forall|i: int| 0 <= i < groups@.len() ==> well_shaped(#[trigger] groups@[i]),
            forall|presence: Presence| #[trigger]
                computes(present, presence) ==> hybrid_hit(presence, groups@, max_tokens as int)
                    == settle(presence, groups@, max_tokens as int, hit as int, verified@),
        decreases hit,
    {
        let ghost entry = verified@;
        let mut current: u64 = hit;
        let mut at: usize = 0;
        while at < groups.len()
            invariant
                at <= groups@.len(),
                answers_all(present),
                hit <= max_tokens,
                current <= hit,
                current == hit ==> forall|i: int|
                    0 <= i < at ==> hit as int % (
                    #[trigger] groups@[i]).alignment_tokens as int == 0,
                forall|i: int| 0 <= i < groups@.len() ==> well_shaped(#[trigger] groups@[i]),
                forall|presence: Presence| #[trigger]
                    computes(present, presence) ==> hybrid_hit(presence, groups@, max_tokens as int)
                        == settle(presence, groups@, max_tokens as int, hit as int, entry),
                forall|presence: Presence| #[trigger]
                    computes(present, presence) ==> pass(
                        presence,
                        groups@,
                        max_tokens as int,
                        0,
                        hit as int,
                        entry,
                    ) == pass(
                        presence,
                        groups@,
                        max_tokens as int,
                        at as int,
                        current as int,
                        verified@,
                    ),
            decreases groups@.len() - at,
        {
            let group = &groups[at];
            assert(well_shaped(groups@[at as int]));
            let drop_eagle = group.is_eagle && !verified.contains(&group.group_idx);
            let lookup_limit: u64 = if !drop_eagle {
                current
            } else {
                let further: u64 = current.saturating_add(group.block_size as u64);
                if further <= max_tokens {
                    further
                } else {
                    max_tokens
                }
            };
            let next: u64 = match group_prefix(group, lookup_limit, drop_eagle, &present) {
                KnownPrefixLength::Known(value) => value,
                KnownPrefixLength::Unknown => {
                    return KnownPrefixLength::Unknown;
                },
            };
            if drop_eagle {
                verified.insert(group.group_idx);
            } else if next < current {
                verified.clear();
            }
            current = next;
            at = at + 1;
        }
        if current >= hit {
            return KnownPrefixLength::Known(hit);
        }
        hit = current;
    }
}

/// Reusable tokens of one group within `max_tokens`.
fn group_prefix<F: Fn(u32, u64) -> KnownBool>(
    group: &CacheGroupHashSequence,
    max_tokens: u64,
    drop_eagle: bool,
    present: &F,
) -> (length: KnownPrefixLength)
    requires
        answers_all(*present),
        well_shaped(*group),
    ensures
        forall|presence: Presence| #[trigger]
            computes(*present, presence) ==> match length {
                KnownPrefixLength::Known(tokens) => group_hit(
                    presence,
                    *group,
                    max_tokens as int,
                    drop_eagle,
                ) == Some(tokens as int),
                KnownPrefixLength::Unknown => group_hit(
                    presence,
                    *group,
                    max_tokens as int,
                    drop_eagle,
                ) is None,
            },
        length matches KnownPrefixLength::Known(tokens) ==> {
            &&& tokens <= max_tokens
            &&& drop_eagle && tokens > 0 ==> tokens + group.block_size <= max_tokens
            &&& tokens as int % group.alignment_tokens as int == 0
        },
        length is Unknown ==> may_not_know(*present),
{
    match group.kind {
        CacheGroupKind::FullAttention => {
            let limit = limit_blocks(group, max_tokens);
            match leading_blocks(group.group_idx, &group.sequence_hashes, limit, present) {
                None => KnownPrefixLength::Unknown,
                Some(blocks) => {
                    let block_size: u64 = group.block_size as u64;
                    proof {
                        lemma_product_bound(
                            blocks as int,
                            limit as int,
                            block_size as int,
                            max_tokens as int,
                        );
                        lemma_alignment(group.alignment_tokens as int, group.block_size as int);
                    }
                    let mut hit: u64 = blocks as u64 * block_size;
                    if drop_eagle && hit > 0 {
                        proof {
                            assert(blocks as int * block_size as int >= block_size as int)
                                by (nonlinear_arith)
                                requires
                                    blocks as int * block_size as int > 0,
                                    blocks >= 0,
                                    block_size > 0,
                            ;
                        }
                        hit = hit - block_size;
                    }
                    let alignment: u64 = group.alignment_tokens as u64;
                    proof {
                        lemma_align_down(hit as int, alignment as int);
                    }
                    hit = hit - hit % alignment;
                    KnownPrefixLength::Known(hit)
                },
            }
        },
        CacheGroupKind::SlidingWindow => sliding_window_prefix(
            group,
            max_tokens,
            drop_eagle,
            present,
        ),
    }
}

/// Complete blocks of the request below `max_tokens`.
fn limit_blocks(group: &CacheGroupHashSequence, max_tokens: u64) -> (limit: usize)
    requires
        group.block_size > 0,
    ensures
        limit == block_limit(*group, max_tokens as int),
        limit <= group.sequence_hashes@.len(),
        limit <= max_tokens / group.block_size as u64,
{
    let fitting: u64 = max_tokens / group.block_size as u64;
    let len: usize = group.sequence_hashes.len();
    if fitting <= len as u64 {
        fitting as usize
    } else {
        len
    }
}

proof fn lemma_product_bound(blocks: int, limit: int, block_size: int, max_tokens: int)
    requires
        0 <= blocks <= limit,
        block_size > 0,
        max_tokens >= 0,
        limit <= max_tokens / block_size,
    ensures
        0 <= blocks * block_size <= max_tokens,
{
    assert(0 <= blocks * block_size <= max_tokens) by (nonlinear_arith)
        requires
            0 <= blocks <= limit,
            block_size > 0,
            max_tokens >= 0,
            limit <= max_tokens / block_size,
    ;
}

/// Aligning down gives a multiple of the alignment.
pub(crate) proof fn lemma_align_down(tokens: int, alignment: int)
    requires
        tokens >= 0,
        alignment > 0,
    ensures
        0 <= align_down(tokens, alignment) <= tokens,
        align_down(tokens, alignment) % alignment == 0,
{
    vstd::arithmetic::div_mod::lemma_mod_decreases(tokens as nat, alignment as nat);
    vstd::arithmetic::div_mod::lemma_fundamental_div_mod(tokens, alignment);
    assert(tokens - tokens % alignment == alignment * (tokens / alignment));
    vstd::arithmetic::div_mod::lemma_mod_multiples_basic(tokens / alignment, alignment);
    assert(alignment * (tokens / alignment) == (tokens / alignment) * alignment)
        by (nonlinear_arith);
}

/// A positive multiple of the block size is at least the block size.
proof fn lemma_alignment(alignment: int, block_size: int)
    requires
        alignment > 0,
        block_size > 0,
        alignment % block_size == 0,
    ensures
        alignment >= block_size,
{
    if alignment < block_size {
        assert(alignment % block_size == alignment) by (nonlinear_arith)
            requires
                0 < alignment < block_size,
        ;
    }
}

fn leading_blocks<F: Fn(u32, u64) -> KnownBool>(
    group_idx: u32,
    hashes: &Vec<u64>,
    limit: usize,
    present: &F,
) -> (blocks: Option<usize>)
    requires
        answers_all(*present),
        limit <= hashes@.len(),
    ensures
        forall|presence: Presence| #[trigger]
            computes(*present, presence) ==> match blocks {
                None => leading(presence, group_idx, hashes@, 0, limit as int) is None,
                Some(n) => leading(presence, group_idx, hashes@, 0, limit as int) == Some(n as int),
            },
        blocks matches Some(n) ==> n <= limit,
        blocks is None ==> may_not_know(*present),
{
    let mut i: usize = 0;
    while i < limit
        invariant
            i <= limit <= hashes@.len(),
            answers_all(*present),
            forall|presence: Presence| #[trigger]
                computes(*present, presence) ==> leading(
                    presence,
                    group_idx,
                    hashes@,
                    0,
                    limit as int,
                ) == leading(presence, group_idx, hashes@, i as int, limit as int),
        decreases limit - i,
    {
        let answer = present(group_idx, hashes[i]);
        match answer {
            KnownBool::Yes => {},
            KnownBool::No => {
                return Some(i);
            },
            KnownBool::Unknown => {
                return None;
            },
        }
        i = i + 1;
    }
    Some(i)
}

fn window_present<F: Fn(u32, u64) -> KnownBool>(
    group_idx: u32,
    hashes: &Vec<u64>,
    from: usize,
    end: usize,
    present: &F,
) -> (known: KnownBool)
    requires
        answers_all(*present),
        from <= end <= hashes@.len(),
    ensures
        forall|presence: Presence| #[trigger]
            computes(*present, presence) ==> known == all_present(
                presence,
                group_idx,
                hashes@,
                from as int,
                end as int,
            ),
        from == end ==> known == KnownBool::Yes,
        known == KnownBool::Unknown ==> may_not_know(*present),
{
    let mut i: usize = from;
    while i < end
        invariant
            from <= i <= end <= hashes@.len(),
            answers_all(*present),
            forall|presence: Presence| #[trigger]
                computes(*present, presence) ==> all_present(
                    presence,
                    group_idx,
                    hashes@,
                    from as int,
                    end as int,
                ) == all_present(presence, group_idx, hashes@, i as int, end as int),
        decreases end - i,
    {
        let answer = present(group_idx, hashes[i]);
        if answer != KnownBool::Yes {
            return answer;
        }
        i = i + 1;
    }
    KnownBool::Yes
}

fn sliding_window_prefix<F: Fn(u32, u64) -> KnownBool>(
    group: &CacheGroupHashSequence,
    max_tokens: u64,
    drop_eagle: bool,
    present: &F,
) -> (length: KnownPrefixLength)
    requires
        answers_all(*present),
        well_shaped(*group),
        group.kind is SlidingWindow,
    ensures
        forall|presence: Presence| #[trigger]
            computes(*present, presence) ==> match length {
                KnownPrefixLength::Known(tokens) => sliding_window_hit(
                    presence,
                    *group,
                    max_tokens as int,
                    drop_eagle,
                ) == Some(tokens as int),
                KnownPrefixLength::Unknown => sliding_window_hit(
                    presence,
                    *group,
                    max_tokens as int,
                    drop_eagle,
                ) is None,
            },
        length matches KnownPrefixLength::Known(tokens) ==> {
            &&& tokens <= max_tokens
            &&& drop_eagle && tokens > 0 ==> tokens + group.block_size <= max_tokens
            &&& tokens as int % group.alignment_tokens as int == 0
        },
        length is Unknown ==> may_not_know(*present),
{
    let block_size: u64 = group.block_size as u64;
    let alignment: u64 = group.alignment_tokens as u64;
    let limit = limit_blocks(group, max_tokens);
    let window: u64 = match group.sliding_window {
        Some(window) => window as u64,
        None => 1,
    };
    let mut needed: u64 = (window - 1 + block_size - 1) / block_size;
    proof {
        assert(needed <= window - 1 + block_size - 1) by (nonlinear_arith)
            requires
                needed == (window - 1 + block_size - 1) / block_size as int,
                window >= 1,
                block_size > 0,
        ;
    }
    if drop_eagle {
        needed = needed + 1;
    }
    assert(needed == window_blocks(*group, drop_eagle));
    let mut ends: usize = limit;
    while ends as u64 >= needed
        invariant
            ends <= limit <= group.sequence_hashes@.len(),
            limit <= max_tokens / block_size,
            limit == block_limit(*group, max_tokens as int),
            needed == window_blocks(*group, drop_eagle),
            drop_eagle ==> needed >= 1,
            block_size == group.block_size,
            alignment == group.alignment_tokens,
            block_size > 0,
            alignment > 0,
            answers_all(*present),
            forall|presence: Presence| #[trigger]
                computes(*present, presence) ==> latest_window(
                    presence,
                    *group,
                    drop_eagle,
                    limit as int,
                ) == latest_window(presence, *group, drop_eagle, ends as int),
        decreases ends,
    {
        let kept_blocks: usize = if drop_eagle {
            ends - 1
        } else {
            ends
        };
        proof {
            lemma_product_bound(
                kept_blocks as int,
                limit as int,
                block_size as int,
                max_tokens as int,
            );
            lemma_product_bound(ends as int, limit as int, block_size as int, max_tokens as int);
            assert((ends - 1) * block_size + block_size == ends * block_size) by (nonlinear_arith);
        }
        let kept: u64 = kept_blocks as u64 * block_size;
        proof {
            if ends == 0 {
                assert(kept == 0) by (nonlinear_arith)
                    requires
                        kept == kept_blocks as u64 * block_size,
                        kept_blocks == 0,
                ;
                vstd::arithmetic::div_mod::lemma_small_mod(0, alignment as nat);
            }
        }
        if kept % alignment == 0 {
            let from: usize = ends - needed as usize;
            match window_present(group.group_idx, &group.sequence_hashes, from, ends, present) {
                KnownBool::Yes => {
                    return KnownPrefixLength::Known(kept);
                },
                KnownBool::No => {},
                KnownBool::Unknown => {
                    return KnownPrefixLength::Unknown;
                },
            }
        }
        ends = ends - 1;
    }
    // Without an aligned window the leading contiguous prefix still counts,
    // as it does for requests shorter than a window.
    match leading_blocks(group.group_idx, &group.sequence_hashes, limit, present) {
        None => KnownPrefixLength::Unknown,
        Some(blocks) => {
            let leading: usize = if drop_eagle && blocks > 0 {
                blocks - 1
            } else {
                blocks
            };
            proof {
                lemma_product_bound(
                    leading as int,
                    limit as int,
                    block_size as int,
                    max_tokens as int,
                );
                lemma_product_bound(
                    blocks as int,
                    limit as int,
                    block_size as int,
                    max_tokens as int,
                );
                assert((blocks - 1) * block_size + block_size == blocks * block_size)
                    by (nonlinear_arith);
                assert(blocks == 0 ==> leading * block_size == 0) by (nonlinear_arith)
                    requires
                        blocks == 0 ==> leading == 0,
                ;
            }
            let hit: u64 = leading as u64 * block_size;
            proof {
                lemma_align_down(hit as int, alignment as int);
            }
            KnownPrefixLength::Known(hit - hit % alignment)
        },
    }
}

} // verus!
