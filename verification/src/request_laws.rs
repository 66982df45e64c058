//! What is kept of a request, told from its prompt and its outputs.

use vstd::prelude::*;

use crate::branches::BranchesView;
use crate::history::HistoryView;
use crate::history_request::{record_lists, RequestView};
use crate::prompt_source::{DeliveryView, RegistrationError, RegistryView};
use crate::tracker::{
    blocks_of, AbortedHistoryError, OutputBlockTracker, TrackerView,
};

verus! {

// ---- waiting for the worker's account ----

/// The request waits, and its receiver is not gone.
pub open spec fn is_live(state: RegistryView, closed: Set<u64>, request_id: Seq<char>) -> bool {
    state.pending.contains_key(request_id) && !closed.contains(state.pending[request_id])
}

pub open spec fn live_requests(state: RegistryView, closed: Set<u64>) -> Set<Seq<char>> {
    Set::new(|request_id: Seq<char>| is_live(state, closed, request_id))
}

/// A registration is refused if the same request already waits, or if there is
/// no room. Otherwise the request waits under the next nonce. Every live request
/// goes on waiting under its own nonce, and no other.
pub proof fn law_registered_request_waits_under_its_nonce(
    state: RegistryView,
    request_id: Seq<char>,
    closed: Set<u64>,
    other: Seq<char>,
)
    ensures
        ({
            let (after, result) = state.register(request_id, closed);
            let duplicate = is_live(state, closed, request_id);
            let full = live_requests(state, closed).len() >= state.capacity;
            &&& result == Err::<u64, _>(RegistrationError::Duplicate) <==> duplicate
            &&& result == Err::<u64, _>(RegistrationError::Full) <==> !duplicate && full
            &&& result is Ok <==> !duplicate && !full
            &&& after.pending.contains_key(other) <==> is_live(state, closed, other) || (result
                is Ok && other == request_id)
            &&& is_live(state, closed, other) ==> after.pending[other] == state.pending[other]
            &&& result is Ok ==> {
                &&& after.pending[request_id] == result->Ok_0
                &&& after.last_nonce == result->Ok_0
                &&& state.last_nonce < u64::MAX ==> result->Ok_0 == state.last_nonce + 1
                &&& result->Ok_0 > 0
            }
            &&& result is Err ==> after.last_nonce == state.last_nonce
            &&& after.router_id == state.router_id
            &&& after.capacity == state.capacity
        }),
{
    assert(state.prune(closed).pending.dom() =~= live_requests(state, closed));
}

/// An outcome of this router reaches the request that waits under its nonce,
/// which then waits no more; for anybody else it is an orphan. One of another
/// router is left alone.
pub proof fn law_outcome_reaches_who_waits_for_it(
    state: RegistryView,
    origin_router_id: u64,
    request_id: Seq<char>,
    nonce: u64,
    other: Seq<char>,
)
    ensures
        ({
            let (after, delivery) = state.deliver(origin_router_id, request_id, nonce);
            let mine = origin_router_id == state.router_id;
            let awaited = state.pending.contains_key(request_id) && state.pending[request_id]
                == nonce;
            &&& delivery == DeliveryView::Ignored <==> !mine
            &&& delivery == DeliveryView::Orphan <==> mine && !awaited
            &&& delivery == DeliveryView::Matched(nonce) <==> mine && awaited
            &&& !(mine && awaited) ==> after == state
            &&& mine && awaited ==> {
                &&& !after.pending.contains_key(request_id)
                &&& other != request_id ==> (after.pending.contains_key(other)
                    <==> state.pending.contains_key(other)) && (state.pending.contains_key(other)
                    ==> after.pending[other] == state.pending[other])
                &&& after.last_nonce == state.last_nonce
                &&& after.router_id == state.router_id
                &&& after.capacity == state.capacity
            }
            &&& state.remove(request_id, nonce) == if awaited {
                RegistryView { pending: state.pending.remove(request_id), ..state }
            } else {
                state
            }
        }),
{
}

// ---- outputs ----

/// Tokens of an output choice come behind those it has; a choice that had none
/// is listed behind all others.
pub proof fn law_output_grows_at_its_end(branches: BranchesView, index: u32, tokens: Seq<u32>)
    ensures
        ({
            let after = branches.observe(index, tokens);
            &&& tokens.len() == 0 ==> after == branches
            &&& tokens.len() > 0 && branches.outputs.contains_key(index) ==> {
                &&& after.outputs == branches.outputs.insert(
                    index,
                    branches.outputs[index] + tokens,
                )
                &&& after.order == branches.order
            }
            &&& tokens.len() > 0 && !branches.outputs.contains_key(index) ==> {
                &&& after.outputs == branches.outputs.insert(index, tokens)
                &&& after.order == branches.order.push(index)
            }
        }),
{
    assert(Seq::<u32>::empty() + tokens =~= tokens);
}

/// What was computed for an output choice that is complete: the prompt, and its
/// output but for the last token.
pub proof fn law_completed_sequence_lacks_the_last_token(tracker: TrackerView, i: int, k: int)
    requires
        tracker.branches.inv(),
        0 <= i < tracker.branches.order.len(),
    ensures
        ({
            let output = tracker.branches.outputs[tracker.branches.order[i]];
            let completed = tracker.completed_sequences()[i];
            &&& tracker.completed_sequences().len() == tracker.branches.order.len()
            &&& completed.len() == tracker.prompt.len() + output.len() - 1
            &&& 0 <= k < tracker.prompt.len() ==> completed[k] == tracker.prompt[k]
            &&& tracker.prompt.len() <= k < completed.len() ==> completed[k] == output[k
                - tracker.prompt.len()]
        }),
{
    assert(tracker.branches.order.contains(tracker.branches.order[i]));
    assert(tracker.branches.outputs.contains_key(tracker.branches.order[i]));
}

/// What was computed of an aborted request is known if its prompt was computed,
/// there is one output at most, and no more of it was computed than delivered:
/// the prompt, and that much of the output.
pub proof fn law_aborted_sequence_is_what_was_computed(
    tracker: TrackerView,
    computed: nat,
    prompt_complete: bool,
    k: int,
)
    ensures
        ({
            let choices = tracker.branches.order.len();
            let output = if choices == 0 {
                Seq::<u32>::empty()
            } else {
                tracker.branches.outputs[tracker.branches.order[0]]
            };
            let aborted = tracker.aborted(computed, prompt_complete);
            &&& aborted == Err::<Seq<u32>, _>(AbortedHistoryError::PromptIncomplete)
                <==> !prompt_complete
            &&& aborted == Err::<Seq<u32>, _>(AbortedHistoryError::MultipleOutputBranches)
                <==> prompt_complete && choices > 1
            &&& aborted == Err::<Seq<u32>, _>(AbortedHistoryError::ComputedOutputExceedsDelivered)
                <==> prompt_complete && choices <= 1 && computed > output.len()
            &&& aborted is Ok <==> prompt_complete && choices <= 1 && computed <= output.len()
            &&& aborted is Ok ==> {
                let sequence = aborted->Ok_0;
                &&& sequence.len() == tracker.prompt.len() + computed
                &&& 0 <= k < tracker.prompt.len() ==> sequence[k] == tracker.prompt[k]
                &&& tracker.prompt.len() <= k < sequence.len() ==> sequence[k] == output[k
                    - tracker.prompt.len()]
            }
        }),
{
}

/// Each output choice with two tokens or more has been computed, behind the
/// prompt and but for its last token, and there is no other sequence.
pub proof fn law_longer_outputs_are_computed(request: RequestView, i: int)
    requires
        0 <= i < request.branches.order.len(),
    ensures
        ({
            let output = request.branches.outputs[request.branches.order[i]];
            let sequences = request.computed_sequences();
            &&& output.len() >= 2 ==> sequences.contains(request.prompt + output.drop_last())
            &&& sequences.len() <= request.branches.order.len()
            &&& (forall|j: int|
                0 <= j < request.branches.order.len()
                    ==> #[trigger] request.branches.outputs[request.branches.order[j]].len() >= 2)
                ==> sequences.len() == request.branches.order.len() && sequences[i]
                == request.prompt + output.drop_last()
        }),
{
    lemma_computed(request, request.branches.order.len() as int, i);
}

proof fn lemma_computed(request: RequestView, count: int, i: int)
    requires
        0 <= count <= request.branches.order.len(),
    ensures
        ({
            let output = request.branches.outputs[request.branches.order[i]];
            let sequences = request.computed(count);
            &&& 0 <= i < count && output.len() >= 2 ==> sequences.contains(
                request.prompt + output.drop_last(),
            )
            &&& sequences.len() <= count
            &&& (forall|j: int|
                0 <= j < request.branches.order.len()
                    ==> #[trigger] request.branches.outputs[request.branches.order[j]].len() >= 2)
                ==> sequences.len() == count && (0 <= i < count ==> sequences[i]
                == request.prompt + output.drop_last())
        }),
    decreases count,
{
    if count > 0 {
        lemma_computed(request, count - 1, i);
        let earlier = request.computed(count - 1);
        let last = request.branches.at(count - 1);
        assert(last == request.branches.outputs[request.branches.order[count - 1]]);
        if last.len() >= 2 {
            let all = earlier.push(request.prompt + last.drop_last());
            assert(request.computed(count) == all);
            assert(all[earlier.len() as int] == request.prompt + last.drop_last());
            if 0 <= i < count - 1 && request.branches.at(i).len() >= 2 {
                let wanted = request.prompt + request.branches.at(i).drop_last();
                let j = choose|j: int| 0 <= j < earlier.len() && earlier[j] == wanted;
                assert(all[j] == wanted);
            }
        }
    }
}

/// A list of hashes is recorded behind those before it, all at one time.
pub proof fn law_lists_are_recorded_in_order(
    history: HistoryView,
    lists: Seq<Seq<u64>>,
    list: Seq<u64>,
    now: u64,
)
    ensures
        record_lists(history, Seq::empty(), now) == history,
        record_lists(history, lists.push(list), now) == record_lists(history, lists, now).record(
            list,
            now,
        ),
{
    assert(lists.push(list).drop_last() =~= lists);
}

/// Every sequence is hashed under the request's own block size and way of
/// decoding.
pub proof fn law_sequences_are_hashed_alike(
    request: RequestView,
    sequences: Seq<Seq<u32>>,
    hash: spec_fn(Seq<u32>, u32, bool) -> Seq<u64>,
    i: int,
)
    requires
        0 <= i < sequences.len(),
    ensures
        request.hash_all(sequences, hash).len() == sequences.len(),
        request.hash_all(sequences, hash)[i] == hash(
            sequences[i],
            request.block_size,
            request.is_eagle,
        ),
{
}

// ---- output blocks ----

/// The blocks that tokens take are just enough for them.
pub proof fn law_blocks_just_hold_the_tokens(tokens: nat, block_size: nat)
    requires
        block_size > 0,
    ensures
        blocks_of(tokens, block_size) * block_size >= tokens,
        tokens > 0 ==> (blocks_of(tokens, block_size) - 1) * block_size < tokens,
        tokens == 0 ==> blocks_of(tokens, block_size) == 0,
{
    let n = blocks_of(tokens, block_size) as int;
    let size = block_size as int;
    let q = tokens as int / size;
    let r = tokens as int % size;
    vstd::arithmetic::div_mod::lemma_fundamental_div_mod(tokens as int, size);
    assert(tokens as int == size * q + r);
    assert(0 <= r < size);
    assert(n == q || n == q + 1);
    assert(n * size >= tokens as int && (tokens > 0 ==> (n - 1) * size < tokens as int))
        by (nonlinear_arith)
        requires
            tokens as int == size * q + r,
            0 <= r < size,
            r == 0 ==> n == q,
            r != 0 ==> n == q + 1,
    ;
    if tokens == 0 {
        assert(q == 0) by (nonlinear_arith)
            requires
                0 == size * q + r,
                0 <= r < size,
        ;
    }
}

/// The output so far is reported exactly if it is followed and the blocks that
/// were counted do not hold it any more; then just enough blocks are counted.
pub proof fn law_output_is_reported_when_a_block_is_added(
    tracker: OutputBlockTracker,
    cumulative_osl: nat,
)
    requires
        tracker.block_size > 0,
        tracker.isl_tokens + cumulative_osl <= usize::MAX,
    ensures
        ({
            let tokens = tracker.isl_tokens + cumulative_osl;
            let update = tracker.update(cumulative_osl);
            let after = tracker.grown(cumulative_osl);
            &&& update is Some <==> tracker.track_output_blocks && tracker.current_total_blocks
                * tracker.block_size < tokens
            &&& update is Some ==> {
                &&& update->0.cumulative_osl == cumulative_osl
                &&& update->0.expected_output_tokens == tracker.expected_output_tokens
                &&& after.current_total_blocks * tracker.block_size >= tokens
                &&& (after.current_total_blocks - 1) * tracker.block_size < tokens
            }
            &&& update is None ==> after == tracker
            &&& after.track_output_blocks == tracker.track_output_blocks
            &&& after.isl_tokens == tracker.isl_tokens
            &&& after.block_size == tracker.block_size
            &&& after.expected_output_tokens == tracker.expected_output_tokens
        }),
{
    let tokens = (tracker.isl_tokens + cumulative_osl) as nat;
    let size = tracker.block_size as nat;
    law_blocks_just_hold_the_tokens(tokens, size);
    let n = blocks_of(tokens, size) as int;
    let current = tracker.current_total_blocks as int;
    assert(n > current <==> current * size < tokens) by (nonlinear_arith)
        requires
            n * size >= tokens,
            tokens > 0 ==> (n - 1) * size < tokens,
            tokens == 0 ==> n == 0,
            size > 0,
            current >= 0,
            tokens >= 0,
    ;
    assert(n <= tokens) by (nonlinear_arith)
        requires
            tokens > 0 ==> (n - 1) * size < tokens,
            tokens == 0 ==> n == 0,
            size >= 1,
            n >= 0,
            tokens >= 0,
    ;
}

} // verus!
