//! What a running request has computed, and what it occupies.

use vstd::prelude::*;

use crate::branches::{sequence_with, BranchesView, OutputBranches};

verus! {

// ---- history ----

/// Why nothing can be recorded of an aborted request.
#[derive(Clone, Copy, Debug, PartialEq, Eq, Structural)]
pub enum AbortedHistoryError {
    PromptIncomplete,
    MultipleOutputBranches,
    ComputedOutputExceedsDelivered,
}

impl AbortedHistoryError {
    pub open spec fn label(self) -> Seq<char> {
        match self {
            Self::PromptIncomplete => "prompt_incomplete"@,
            Self::MultipleOutputBranches => "multiple_output_branches"@,
            Self::ComputedOutputExceedsDelivered => "computed_output_exceeds_delivered_output"@,
        }
    }

    pub fn reason(self) -> (reason: &'static str)
        ensures
            reason@ == self.label(),
    {
        match self {
            Self::PromptIncomplete => "prompt_incomplete",
            Self::MultipleOutputBranches => "multiple_output_branches",
            Self::ComputedOutputExceedsDelivered => "computed_output_exceeds_delivered_output",
        }
    }
}

#[verifier::ext_equal]
pub struct TrackerView {
    pub epoch: u64,
    pub prompt: Seq<u32>,
    pub branches: BranchesView,
    pub prompt_recorded: bool,
    pub finalized: bool,
}

impl TrackerView {
    /// The sequence that an output choice has had computed: all but the newest
    /// sampled token.
    pub open spec fn completed(self, i: int) -> Seq<u32> {
        self.prompt + self.branches.at(i).drop_last()
    }

    pub open spec fn completed_sequences(self) -> Seq<Seq<u32>> {
        Seq::new(self.branches.order.len(), |i: int| self.completed(i))
    }

    /// What was delivered of the only output choice, if there is one.
    pub open spec fn only_output(self) -> Seq<u32> {
        if self.branches.order.len() == 0 {
            Seq::empty()
        } else {
            self.branches.at(0)
        }
    }

    pub open spec fn aborted(self, computed_output_tokens: nat, prompt_complete: bool) -> Result<
        Seq<u32>,
        AbortedHistoryError,
    > {
        if !prompt_complete {
            Err(AbortedHistoryError::PromptIncomplete)
        } else if self.branches.order.len() > 1 {
            Err(AbortedHistoryError::MultipleOutputBranches)
        } else if computed_output_tokens > self.only_output().len() {
            Err(AbortedHistoryError::ComputedOutputExceedsDelivered)
        } else {
            Ok(self.prompt + self.only_output().take(computed_output_tokens as int))
        }
    }
}

pub open spec fn token_lists(lists: Seq<Vec<u32>>) -> Seq<Seq<u32>> {
    Seq::new(lists.len(), |i: int| lists[i]@)
}

/// The tokens of a request that its history will hold.
pub struct CacheHistoryTracker {
    epoch: u64,
    prompt: Vec<u32>,
    branches: OutputBranches,
    prompt_recorded: bool,
    finalized: bool,
}

impl View for CacheHistoryTracker {
    type V = TrackerView;

    closed spec fn view(&self) -> TrackerView {
        TrackerView {
            epoch: self.epoch,
            prompt: self.prompt@,
            branches: self.branches@,
            prompt_recorded: self.prompt_recorded,
            finalized: self.finalized,
        }
    }
}

impl CacheHistoryTracker {
    pub closed spec fn wf(&self) -> bool {
        self.branches.wf()
    }

    /// `epoch` is the history epoch in which the request began.
    pub fn new(prompt: Vec<u32>, epoch: u64) -> (tracker: Self)
        ensures
            tracker.wf(),
            tracker@ == (TrackerView {
                epoch,
                prompt: prompt@,
                branches: BranchesView::empty(),
                prompt_recorded: false,
                finalized: false,
            }),
    {
        CacheHistoryTracker {
            epoch,
            prompt,
            branches: OutputBranches::new(),
            prompt_recorded: false,
            finalized: false,
        }
    }

    pub fn epoch(&self) -> (epoch: u64)
        ensures
            epoch == self@.epoch,
    {
        self.epoch
    }

    /// What was delivered fits in memory.
    pub(crate) proof fn lemma_output_fits(&self)
        requires
            self.wf(),
        ensures
            self@.only_output().len() <= usize::MAX,
    {
        self.branches.lemma_outputs_fit();
    }

    pub(crate) fn set_prompt_recorded(&mut self, recorded: bool)
        requires
            old(self).wf(),
        ensures
            final(self).wf(),
            final(self)@ == (TrackerView { prompt_recorded: recorded, ..old(self)@ }),
    {
        self.prompt_recorded = recorded;
    }

    pub(crate) fn set_finalized(&mut self)
        requires
            old(self).wf(),
        ensures
            final(self).wf(),
            final(self)@ == (TrackerView { finalized: true, ..old(self)@ }),
    {
        self.finalized = true;
    }

    pub(crate) fn is_finalized(&self) -> (finalized: bool)
        ensures
            finalized == self@.finalized,
    {
        self.finalized
    }

    pub(crate) fn is_prompt_recorded(&self) -> (recorded: bool)
        ensures
            recorded == self@.prompt_recorded,
    {
        self.prompt_recorded
    }

    /// A copy of the prompt.
    pub fn prompt(&self) -> (prompt: Vec<u32>)
        ensures
            prompt@ == self@.prompt,
    {
        let mut prompt: Vec<u32> = Vec::new();
        prompt.extend_from_slice(self.prompt.as_slice());
        assert(prompt@ =~= self.prompt@);
        prompt
    }

    pub fn observe(&mut self, index: u32, token_ids: &[u32])
        requires
            old(self).wf(),
        ensures
            final(self).wf(),
            final(self)@ == (TrackerView {
                branches: old(self)@.branches.observe(index, token_ids@),
                ..old(self)@
            }),
    {
        self.branches.observe(index, token_ids);
    }

    /// How many output choices there are.
    pub fn choices(&self) -> (n: usize)
        ensures
            n == self@.branches.order.len(),
    {
        self.branches.len()
    }

    /// The sequence of one output choice.
    pub fn completed_sequence(&self, i: usize) -> (sequence: Vec<u32>)
        requires
            self.wf(),
            i < self@.branches.order.len(),
        ensures
            sequence@ == self@.completed(i as int),
    {
        let output = self.branches.output_at(i);
        assert(output@.take(output@.len() - 1) =~= output@.drop_last());
        sequence_with(&self.prompt, output, output.len() - 1)
    }

    /// One sequence per output choice, in order of appearance.
    pub fn completed_sequences(&self) -> (sequences: Vec<Vec<u32>>)
        requires
            self.wf(),
        ensures
            token_lists(sequences@) == self@.completed_sequences(),
    {
        let mut sequences: Vec<Vec<u32>> = Vec::new();
        let mut i: usize = 0;
        while i < self.choices()
            invariant
                i <= self@.branches.order.len(),
                self.wf(),
                sequences@.len() == i,
                forall|j: int| 0 <= j < i ==> (#[trigger] sequences@[j])@ == self@.completed(j),
            decreases self@.branches.order.len() - i,
        {
            sequences.push(self.completed_sequence(i));
            i = i + 1;
        }
        assert(token_lists(sequences@) =~= self@.completed_sequences());
        sequences
    }

    /// The sequence that an aborted request has had computed, going by what
    /// its worker says.
    pub fn aborted_sequence(&self, computed_output_tokens: usize, prompt_complete: bool) -> (result:
        Result<Vec<u32>, AbortedHistoryError>)
        requires
            self.wf(),
        ensures
            match (result, self@.aborted(computed_output_tokens as nat, prompt_complete)) {
                (Ok(sequence), Ok(expected)) => sequence@ == expected,
                (Err(error), Err(expected)) => error == expected,
                _ => false,
            },
    {
        if !prompt_complete {
            return Err(AbortedHistoryError::PromptIncomplete);
        }
        if self.branches.len() > 1 {
            return Err(AbortedHistoryError::MultipleOutputBranches);
        }
        if self.branches.len() == 0 {
            if computed_output_tokens > 0 {
                return Err(AbortedHistoryError::ComputedOutputExceedsDelivered);
            }
            let prompt = self.prompt();
            assert(prompt@ =~= self@.prompt + self@.only_output().take(0));
            return Ok(prompt);
        }
        let output = self.branches.output_at(0);
        if computed_output_tokens > output.len() {
            return Err(AbortedHistoryError::ComputedOutputExceedsDelivered);
        }
        Ok(sequence_with(&self.prompt, output, computed_output_tokens))
    }
}

// ---- output blocks ----

/// Output has grown into a new accounting block. The load of the request
/// decays with `cumulative_osl` over `expected_output_tokens`.
#[derive(Clone, Copy, Debug, PartialEq, Eq, Structural)]
pub struct OutputBlockUpdate {
    pub cumulative_osl: usize,
    pub expected_output_tokens: Option<u32>,
}

/// How many blocks so many tokens take.
pub open spec fn blocks_of(tokens: nat, block_size: nat) -> nat
    recommends
        block_size > 0,
{
    if tokens % block_size == 0 {
        tokens / block_size
    } else {
        tokens / block_size + 1
    }
}

fn div_ceil(tokens: usize, block_size: usize) -> (blocks: usize)
    requires
        block_size > 0,
    ensures
        blocks == blocks_of(tokens as nat, block_size as nat),
{
    let whole: usize = tokens / block_size;
    if tokens % block_size == 0 {
        whole
    } else {
        proof {
            vstd::arithmetic::div_mod::lemma_fundamental_div_mod(tokens as int, block_size as int);
            if whole == usize::MAX {
                vstd::arithmetic::mul::lemma_mul_inequality(1, block_size as int, whole as int);
                vstd::arithmetic::mul::lemma_mul_is_commutative(block_size as int, whole as int);
            }
        }
        whole + 1
    }
}

/// Tracks when streamed output grows into a new scheduler accounting block.
#[derive(Clone, Copy, Debug, PartialEq, Eq, Structural)]
pub struct OutputBlockTracker {
    pub track_output_blocks: bool,
    pub current_total_blocks: usize,
    pub isl_tokens: usize,
    pub block_size: usize,
    pub expected_output_tokens: Option<u32>,
}

impl OutputBlockTracker {
    /// The blocks that the request takes with so much output.
    pub open spec fn total_blocks(self, cumulative_osl: nat) -> nat {
        blocks_of(self.isl_tokens as nat + cumulative_osl, self.block_size as nat)
    }

    /// So much output reaches into a new block.
    pub open spec fn grows(self, cumulative_osl: nat) -> bool {
        self.track_output_blocks && self.total_blocks(cumulative_osl) > self.current_total_blocks
    }

    pub open spec fn grown(self, cumulative_osl: nat) -> OutputBlockTracker {
        if self.grows(cumulative_osl) {
            OutputBlockTracker {
                current_total_blocks: self.total_blocks(cumulative_osl) as usize,
                ..self
            }
        } else {
            self
        }
    }

    pub open spec fn update(self, cumulative_osl: nat) -> Option<OutputBlockUpdate> {
        if self.grows(cumulative_osl) {
            Some(
                OutputBlockUpdate {
                    cumulative_osl: cumulative_osl as usize,
                    expected_output_tokens: self.expected_output_tokens,
                },
            )
        } else {
            None
        }
    }

    pub fn new(
        track_output_blocks: bool,
        isl_tokens: usize,
        block_size: usize,
        expected_output_tokens: Option<u32>,
    ) -> (tracker: Self)
        requires
            block_size > 0,
        ensures
            tracker == (OutputBlockTracker {
                track_output_blocks,
                current_total_blocks: blocks_of(isl_tokens as nat, block_size as nat) as usize,
                isl_tokens,
                block_size,
                expected_output_tokens,
            }),
    {
        OutputBlockTracker {
            track_output_blocks,
            current_total_blocks: div_ceil(isl_tokens, block_size),
            isl_tokens,
            block_size,
            expected_output_tokens,
        }
    }

    pub fn observe(&mut self, cumulative_osl: usize) -> (update: Option<OutputBlockUpdate>)
        requires
            old(self).block_size > 0,
            old(self).isl_tokens + cumulative_osl <= usize::MAX,
        ensures
            *final(self) == old(self).grown(cumulative_osl as nat),
            update == old(self).update(cumulative_osl as nat),
    {
        if !self.track_output_blocks {
            return None;
        }
        let new_total_blocks: usize = div_ceil(self.isl_tokens + cumulative_osl, self.block_size);
        if new_total_blocks <= self.current_total_blocks {
            return None;
        }
        self.current_total_blocks = new_total_blocks;
        Some(
            OutputBlockUpdate {
                cumulative_osl,
                expected_output_tokens: self.expected_output_tokens,
            },
        )
    }
}

// ---- laws ----

/// A block is reported once: the same output reports no second block.
pub proof fn law_block_is_reported_once(tracker: OutputBlockTracker, cumulative_osl: usize)
    requires
        tracker.block_size > 0,
        tracker.isl_tokens + cumulative_osl <= usize::MAX,
    ensures
        tracker.grown(cumulative_osl as nat).update(cumulative_osl as nat) is None,
{
    let n = (tracker.isl_tokens + cumulative_osl) as nat;
    lemma_blocks_fit(n, tracker.block_size as nat);
}

proof fn lemma_blocks_fit(tokens: nat, block_size: nat)
    requires
        0 < block_size,
        tokens <= usize::MAX,
    ensures
        blocks_of(tokens, block_size) <= usize::MAX,
{
    vstd::arithmetic::div_mod::lemma_fundamental_div_mod(tokens as int, block_size as int);
    let whole = tokens as int / block_size as int;
    vstd::arithmetic::mul::lemma_mul_inequality(1, block_size as int, whole);
    vstd::arithmetic::mul::lemma_mul_is_commutative(block_size as int, whole);
}

/// Whatever its worker says, an aborted request never has more recorded than
/// its prompt and what was delivered of its output.
pub proof fn law_aborted_history_was_delivered(
    tracker: TrackerView,
    computed_output_tokens: nat,
    prompt_complete: bool,
)
    requires
        tracker.aborted(computed_output_tokens, prompt_complete) is Ok,
    ensures
        tracker.aborted(computed_output_tokens, prompt_complete)->Ok_0.is_prefix_of(
            tracker.prompt + tracker.only_output(),
        ),
{
}

} // verus!
