//! The share of one request in the history.

use vstd::prelude::*;

use crate::branches::{sequence_with, BranchesView, OutputBranches};
use crate::history::{CacheHistory, HistoryView};
use crate::snapshot::at_most;

verus! {

// ---- model ----

#[verifier::ext_equal]
pub struct RequestView {
    pub prompt: Seq<u32>,
    pub block_size: u32,
    pub is_eagle: bool,
    pub branches: BranchesView,
    pub prompt_recorded: bool,
    pub finalized: bool,
}

/// The function hashes tokens, given the block size and whether the model
/// looks ahead, as `hash` says.
pub open spec fn hashes_as<F: Fn(Vec<u32>, u32, bool) -> Vec<u64>>(
    hash_tokens: F,
    hash: spec_fn(Seq<u32>, u32, bool) -> Seq<u64>,
) -> bool {
    forall|tokens: Vec<u32>, block_size: u32, is_eagle: bool, hashes: Vec<u64>| #[trigger]
        call_ensures(hash_tokens, (tokens, block_size, is_eagle), hashes) ==> hashes@ == hash(
            tokens@,
            block_size,
            is_eagle,
        )
}

/// The function takes any tokens.
pub open spec fn hashes_anything<F: Fn(Vec<u32>, u32, bool) -> Vec<u64>>(hash_tokens: F) -> bool {
    forall|tokens: Vec<u32>, block_size: u32, is_eagle: bool| #[trigger]
        call_requires(hash_tokens, (tokens, block_size, is_eagle))
}

pub open spec fn contents(lists: Seq<Vec<u64>>) -> Seq<Seq<u64>> {
    Seq::new(lists.len(), |i: int| lists[i]@)
}

/// How many hashes the first lists hold.
pub open spec fn total_len(lists: Seq<Seq<u64>>) -> nat
    decreases lists.len(),
{
    if lists.len() == 0 {
        0
    } else {
        total_len(lists.drop_last()) + lists.last().len()
    }
}

/// The lists are recorded one after the other.
pub open spec fn record_lists(history: HistoryView, lists: Seq<Seq<u64>>, now: u64) -> HistoryView
    decreases lists.len(),
{
    if lists.len() == 0 {
        history
    } else {
        record_lists(history, lists.drop_last(), now).record(lists.last(), now)
    }
}

impl RequestView {
    pub open spec fn observe_output(self, index: u32, tokens: Seq<u32>) -> RequestView {
        RequestView { branches: self.branches.observe(index, tokens), ..self }
    }

    /// The sequences that the first output choices have had computed. The
    /// newest sampled token has not been fed back through the model.
    pub open spec fn computed(self, count: int) -> Seq<Seq<u32>>
        decreases count,
    {
        if count <= 0 {
            Seq::empty()
        } else {
            let earlier = self.computed(count - 1);
            let output = self.branches.at(count - 1);
            if output.len() >= 2 {
                earlier.push(self.prompt + output.drop_last())
            } else {
                earlier
            }
        }
    }

    pub open spec fn computed_sequences(self) -> Seq<Seq<u32>> {
        self.computed(self.branches.order.len() as int)
    }

    pub open spec fn hash_all(
        self,
        sequences: Seq<Seq<u32>>,
        hash: spec_fn(Seq<u32>, u32, bool) -> Seq<u64>,
    ) -> Seq<Seq<u64>> {
        Seq::new(sequences.len(), |i: int| hash(sequences[i], self.block_size, self.is_eagle))
    }
}

// ---- request ----

/// What a request records once it has completed.
///
/// Generated tokens are kept by output choice.
pub struct CacheHistoryRequest {
    prompt_tokens: Vec<u32>,
    block_size: u32,
    is_eagle: bool,
    output_branches: OutputBranches,
    prompt_recorded: bool,
    finalized: bool,
}

impl View for CacheHistoryRequest {
    type V = RequestView;

    closed spec fn view(&self) -> RequestView {
        RequestView {
            prompt: self.prompt_tokens@,
            block_size: self.block_size,
            is_eagle: self.is_eagle,
            branches: self.output_branches@,
            prompt_recorded: self.prompt_recorded,
            finalized: self.finalized,
        }
    }
}

impl CacheHistoryRequest {
    pub closed spec fn wf(&self) -> bool {
        self.output_branches.wf()
    }

    pub fn new(prompt_tokens: Vec<u32>, block_size: u32, is_eagle: bool) -> (request: Self)
        ensures
            request.wf(),
            request@ == (RequestView {
                prompt: prompt_tokens@,
                block_size,
                is_eagle,
                branches: BranchesView::empty(),
                prompt_recorded: false,
                finalized: false,
            }),
    {
        CacheHistoryRequest {
            prompt_tokens,
            block_size,
            is_eagle,
            output_branches: OutputBranches::new(),
            prompt_recorded: false,
            finalized: false,
        }
    }

    pub fn observe_output(&mut self, output_index: u32, token_ids: &[u32])
        requires
            old(self).wf(),
        ensures
            final(self).wf(),
            final(self)@ == old(self)@.observe_output(output_index, token_ids@),
    {
        self.output_branches.observe(output_index, token_ids);
    }

    fn sequence_hashes<F: Fn(Vec<u32>, u32, bool) -> Vec<u64>>(
        &self,
        tokens: Vec<u32>,
        hash_tokens: &F,
    ) -> (hashes: Vec<u64>)
        requires
            hashes_anything(*hash_tokens),
        ensures
            call_ensures(*hash_tokens, (tokens, self@.block_size, self@.is_eagle), hashes),
    {
        hash_tokens(tokens, self.block_size, self.is_eagle)
    }

    /// The hashes of the prompt's complete blocks.
    pub fn prompt_hashes<F: Fn(Vec<u32>, u32, bool) -> Vec<u64>>(&self, hash_tokens: F) -> (hashes:
        Vec<u64>)
        requires
            hashes_anything(hash_tokens),
        ensures
            forall|hash: spec_fn(Seq<u32>, u32, bool) -> Seq<u64>| #[trigger]
                hashes_as(hash_tokens, hash) ==> hashes@ == hash(
                    self@.prompt,
                    self@.block_size,
                    self@.is_eagle,
                ),
    {
        let mut tokens: Vec<u32> = Vec::new();
        tokens.extend_from_slice(self.prompt_tokens.as_slice());
        assert(tokens@ =~= self@.prompt);
        self.sequence_hashes(tokens, &hash_tokens)
    }

    pub fn previously_computed_tokens<F: Fn(Vec<u32>, u32, bool) -> Vec<u64>>(
        &self,
        history: &CacheHistory,
        hash_tokens: F,
    ) -> (tokens: u64)
        requires
            history.wf(),
            hashes_anything(hash_tokens),
        ensures
            forall|hash: spec_fn(Seq<u32>, u32, bool) -> Seq<u64>| #[trigger]
                hashes_as(hash_tokens, hash) ==> tokens == history@.previously_computed(
                    hash(self@.prompt, self@.block_size, self@.is_eagle),
                ),
    {
        let hashes = self.prompt_hashes(hash_tokens);
        history.previously_computed_tokens(hashes.as_slice())
    }

    /// The hashes of each output choice that has had more than its newest
    /// token computed, the prompt's included.
    pub fn output_hashes<F: Fn(Vec<u32>, u32, bool) -> Vec<u64>>(&self, hash_tokens: F) -> (lists:
        Vec<Vec<u64>>)
        requires
            self.wf(),
            hashes_anything(hash_tokens),
        ensures
            lists@.len() == self@.computed_sequences().len(),
            forall|hash: spec_fn(Seq<u32>, u32, bool) -> Seq<u64>| #[trigger]
                hashes_as(hash_tokens, hash) ==> contents(lists@) == self@.hash_all(
                    self@.computed_sequences(),
                    hash,
                ),
    {
        let mut lists: Vec<Vec<u64>> = Vec::new();
        let mut i: usize = 0;
        while i < self.output_branches.len()
            invariant
                i <= self@.branches.order.len(),
                self.wf(),
                hashes_anything(hash_tokens),
                lists@.len() == self@.computed(i as int).len(),
                forall|hash: spec_fn(Seq<u32>, u32, bool) -> Seq<u64>| #[trigger]
                    hashes_as(hash_tokens, hash) ==> contents(lists@) == self@.hash_all(
                        self@.computed(i as int),
                        hash,
                    ),
            decreases self@.branches.order.len() - i,
        {
            let ghost before = lists@;
            let ghost earlier = self@.computed(i as int);
            let output = self.output_branches.output_at(i);
            if output.len() >= 2 {
                let sequence = sequence_with(&self.prompt_tokens, output, output.len() - 1);
                assert(output@.take(output@.len() - 1) =~= output@.drop_last());
                let ghost tokens = sequence@;
                let hashes = self.sequence_hashes(sequence, &hash_tokens);
                lists.push(hashes);
                proof {
                    assert forall|hash: spec_fn(Seq<u32>, u32, bool) -> Seq<u64>| #[trigger]
                        hashes_as(hash_tokens, hash) implies contents(lists@) == self@.hash_all(
                        self@.computed(i + 1),
                        hash,
                    ) by {
                        assert(contents(before) == self@.hash_all(earlier, hash));
                        let after = self@.hash_all(self@.computed(i + 1), hash);
                        assert(hashes@ == hash(tokens, self@.block_size, self@.is_eagle));
                        assert(contents(lists@) =~= contents(before).push(hashes@));
                        assert(after =~= self@.hash_all(earlier, hash).push(
                            hash(tokens, self@.block_size, self@.is_eagle),
                        ));
                    }
                }
            }
            i = i + 1;
        }
        lists
    }

    /// Records the prompt, once.
    pub fn record_prompt(&mut self, history: &mut CacheHistory, hashes: &Vec<u64>, now: u64)
        requires
            old(self).wf(),
            old(history).wf(),
            old(history)@.records().len() + hashes@.len() <= usize::MAX,
        ensures
            final(self).wf(),
            final(history).wf(),
            final(self)@ == (RequestView { prompt_recorded: true, ..old(self)@ }),
            final(history)@ == if old(self)@.prompt_recorded {
                old(history)@
            } else {
                old(history)@.record(hashes@, now)
            },
    {
        if self.prompt_recorded {
            return;
        }
        history.record_completed(hashes.as_slice(), now);
        self.prompt_recorded = true;
    }

    /// Records the prompt and the outputs, once.
    pub fn finalize(
        &mut self,
        history: &mut CacheHistory,
        prompt_hashes: &Vec<u64>,
        output_hashes: &Vec<Vec<u64>>,
        now: u64,
    )
        requires
            old(self).wf(),
            old(history).wf(),
            old(history)@.records().len() + prompt_hashes@.len() + total_len(
                contents(output_hashes@),
            ) <= usize::MAX,
        ensures
            final(self).wf(),
            final(history).wf(),
            final(self)@ == if old(self)@.finalized {
                old(self)@
            } else {
                RequestView { prompt_recorded: true, finalized: true, ..old(self)@ }
            },
            final(history)@ == if old(self)@.finalized {
                old(history)@
            } else {
                record_lists(
                    if old(self)@.prompt_recorded {
                        old(history)@
                    } else {
                        old(history)@.record(prompt_hashes@, now)
                    },
                    contents(output_hashes@),
                    now,
                )
            },
    {
        if self.finalized {
            return;
        }
        self.finalized = true;
        self.record_prompt(history, prompt_hashes, now);
        let ghost start = history@;
        let ghost lists = contents(output_hashes@);
        proof {
            lemma_record_grows(old(history)@, prompt_hashes@, now);
        }
        let mut i: usize = 0;
        assert(lists.take(0) =~= Seq::<Seq<u64>>::empty());
        while i < output_hashes.len()
            invariant
                i <= output_hashes@.len(),
                lists == contents(output_hashes@),
                history.wf(),
                start.records().len() + total_len(lists) <= usize::MAX,
                history@ == record_lists(start, lists.take(i as int), now),
                history@.records().len() <= start.records().len() + total_len(
                    lists.take(i as int),
                ),
            decreases output_hashes@.len() - i,
        {
            proof {
                let next = lists.take(i + 1);
                assert(next.drop_last() =~= lists.take(i as int));
                assert(next.last() == output_hashes@[i as int]@);
                lemma_total_len(lists, i + 1);
                lemma_record_grows(history@, next.last(), now);
            }
            history.record_completed(output_hashes[i].as_slice(), now);
            i = i + 1;
        }
        assert(lists.take(i as int) =~= lists);
    }
}

/// Recording adds no more records than are given.
proof fn lemma_record_grows(history: HistoryView, hashes: Seq<u64>, now: u64)
    ensures
        history.record(hashes, now).records().len() <= history.records().len() + hashes.len(),
{
    crate::history::law_history_is_a_recent_window(history, hashes, now);
}

proof fn lemma_total_len(lists: Seq<Seq<u64>>, count: int)
    requires
        0 <= count <= lists.len(),
    ensures
        total_len(lists.take(count)) <= total_len(lists),
    decreases lists.len(),
{
    if count < lists.len() {
        lemma_total_len(lists.drop_last(), count);
        assert(lists.drop_last().take(count) =~= lists.take(count));
    } else {
        assert(lists.take(count) =~= lists);
    }
}

// ---- laws ----

/// The newest sampled token of a choice is in no computed sequence: each is
/// the prompt and all but the last token of one choice.
pub proof fn law_newest_token_is_not_computed(request: RequestView, i: int)
    requires
        request.branches.inv(),
        0 <= i < request.computed_sequences().len(),
    ensures
        exists|index: u32| #[trigger]
            request.branches.outputs.contains_key(index) && request.branches.outputs[index].len() >= 2
                && request.computed_sequences()[i] == request.prompt
                + request.branches.outputs[index].drop_last(),
{
    lemma_computed(request, request.branches.order.len() as int, i);
}

proof fn lemma_computed(request: RequestView, count: int, i: int)
    requires
        request.branches.inv(),
        0 <= count <= request.branches.order.len(),
        0 <= i < request.computed(count).len(),
    ensures
        exists|index: u32| #[trigger]
            request.branches.outputs.contains_key(index) && request.branches.outputs[index].len() >= 2
                && request.computed(count)[i] == request.prompt
                + request.branches.outputs[index].drop_last(),
    decreases count,
{
    let index = request.branches.order[count - 1];
    assert(request.branches.order.contains(index));
    assert(request.branches.outputs.contains_key(index));
    if i < request.computed(count - 1).len() {
        lemma_computed(request, count - 1, i);
    }
}

// ---- route ----

/// What routing saw of a request.
#[derive(Clone, Copy, Debug, PartialEq, Eq, Structural)]
pub struct RouteObservation {
    pub prompt_tokens: u64,
    pub previously_computed_tokens: u64,
    pub best_router_tokens: u64,
    pub selected_router_tokens: u64,
}

impl RouteObservation {
    /// No count exceeds the prompt.
    pub fn bounded(self) -> (observation: Self)
        ensures
            observation == (RouteObservation {
                prompt_tokens: self.prompt_tokens,
                previously_computed_tokens: at_most(
                    self.previously_computed_tokens,
                    self.prompt_tokens,
                ),
                best_router_tokens: at_most(self.best_router_tokens, self.prompt_tokens),
                selected_router_tokens: at_most(self.selected_router_tokens, self.prompt_tokens),
            }),
    {
        let prompt_tokens = self.prompt_tokens;
        RouteObservation {
            prompt_tokens,
            previously_computed_tokens: if self.previously_computed_tokens < prompt_tokens {
                self.previously_computed_tokens
            } else {
                prompt_tokens
            },
            best_router_tokens: if self.best_router_tokens < prompt_tokens {
                self.best_router_tokens
            } else {
                prompt_tokens
            },
            selected_router_tokens: if self.selected_router_tokens < prompt_tokens {
                self.selected_router_tokens
            } else {
                prompt_tokens
            },
        }
    }
}

} // verus!
