//! The generated tokens of a request, by output choice.

use std::collections::HashMap;
use vstd::prelude::*;

verus! {

broadcast use vstd::std_specs::hash::group_hash_axioms;

#[verifier::ext_equal]
pub struct BranchesView {
    /// The generated tokens of each output choice.
    pub outputs: Map<u32, Seq<u32>>,
    /// The output choices in order of appearance.
    pub order: Seq<u32>,
}

impl BranchesView {
    pub open spec fn empty() -> BranchesView {
        BranchesView { outputs: Map::empty(), order: Seq::empty() }
    }

    pub open spec fn inv(self) -> bool {
        &&& self.order.no_duplicates()
        &&& forall|index: u32| #[trigger]
            self.outputs.contains_key(index) <==> self.order.contains(index)
        &&& forall|index: u32| #[trigger]
            self.outputs.contains_key(index) ==> self.outputs[index].len() > 0
    }

    pub open spec fn output(self, index: u32) -> Seq<u32> {
        if self.outputs.contains_key(index) {
            self.outputs[index]
        } else {
            Seq::empty()
        }
    }

    pub open spec fn observe(self, index: u32, tokens: Seq<u32>) -> BranchesView {
        if tokens.len() == 0 {
            self
        } else {
            BranchesView {
                outputs: self.outputs.insert(index, self.output(index) + tokens),
                order: if self.outputs.contains_key(index) {
                    self.order
                } else {
                    self.order.push(index)
                },
            }
        }
    }

    /// The output of the choice that appeared at the position.
    pub open spec fn at(self, i: int) -> Seq<u32> {
        self.outputs[self.order[i]]
    }
}

/// Tokens by output choice, none of them empty.
pub struct OutputBranches {
    outputs: HashMap<u32, Vec<u32>>,
    order: Vec<u32>,
}

impl View for OutputBranches {
    type V = BranchesView;

    closed spec fn view(&self) -> BranchesView {
        BranchesView {
            outputs: self.outputs@.map_values(|tokens: Vec<u32>| tokens@),
            order: self.order@,
        }
    }
}

impl OutputBranches {
    pub closed spec fn wf(&self) -> bool {
        self@.inv()
    }

    /// What was delivered fits in memory.
    pub(crate) proof fn lemma_outputs_fit(&self)
        requires
            self.wf(),
        ensures
            forall|i: int|
                0 <= i < self@.order.len() ==> (#[trigger] self@.at(i)).len() <= usize::MAX,
    {
        assert forall|i: int| 0 <= i < self@.order.len() implies (#[trigger] self@.at(i)).len()
            <= usize::MAX by {
            assert(self@.order.contains(self@.order[i]));
            assert(self@.outputs.contains_key(self@.order[i]));
            let output = self.outputs@[self.order@[i]];
            vstd::std_specs::vec::axiom_spec_len(&output);
            assert(output@.len() == output.len());
        }
    }

    pub fn new() -> (branches: Self)
        ensures
            branches.wf(),
            branches@ == BranchesView::empty(),
    {
        let branches = OutputBranches { outputs: HashMap::new(), order: Vec::new() };
        assert(branches@ =~= BranchesView::empty());
        branches
    }

    pub fn len(&self) -> (n: usize)
        ensures
            n == self@.order.len(),
    {
        self.order.len()
    }

    /// The output of the choice that appeared at the position.
    pub fn output_at(&self, i: usize) -> (output: &Vec<u32>)
        requires
            self.wf(),
            i < self@.order.len(),
        ensures
            output@ == self@.at(i as int),
            output@.len() > 0,
    {
        assert(self@.order.contains(self@.order[i as int]));
        assert(self@.outputs.contains_key(self@.order[i as int]));
        self.outputs.get(&self.order[i]).unwrap()
    }

    /// Appends tokens to a choice.
    pub fn observe(&mut self, output_index: u32, token_ids: &[u32])
        requires
            old(self).wf(),
        ensures
            final(self).wf(),
            final(self)@ == old(self)@.observe(output_index, token_ids@),
    {
        if token_ids.len() == 0 {
            return;
        }
        let ghost before = self@;
        let mut output: Vec<u32> = match self.outputs.remove(&output_index) {
            Some(output) => output,
            None => {
                self.order.push(output_index);
                Vec::new()
            },
        };
        assert(output@ =~= before.output(output_index));
        output.extend_from_slice(token_ids);
        assert(output@ =~= before.output(output_index) + token_ids@);
        self.outputs.insert(output_index, output);
        proof {
            let after = before.observe(output_index, token_ids@);
            assert(self@.outputs =~= after.outputs);
            assert(self@.order =~= after.order);
            assert forall|index: u32| #[trigger]
                after.outputs.contains_key(index) <==> after.order.contains(index) by {
                if after.order.contains(index) {
                    let i = choose|i: int| 0 <= i < after.order.len() && after.order[i] == index;
                    if i < before.order.len() {
                        assert(before.order[i] == index);
                        assert(before.order.contains(index));
                    }
                }
                if before.order.contains(index) {
                    let i = choose|i: int| 0 <= i < before.order.len() && before.order[i] == index;
                    assert(after.order[i] == index);
                }
                if index == output_index && !before.outputs.contains_key(index) {
                    assert(after.order[after.order.len() - 1] == index);
                }
            }
        }
    }
}

/// The prompt with the first so many tokens of an output.
pub(crate) fn sequence_with(prompt: &Vec<u32>, output: &Vec<u32>, count: usize) -> (sequence: Vec<
    u32,
>)
    requires
        count <= output@.len(),
    ensures
        sequence@ == prompt@ + output@.take(count as int),
{
    let mut sequence: Vec<u32> = Vec::new();
    sequence.extend_from_slice(prompt.as_slice());
    assert(sequence@ =~= prompt@);
    let mut i: usize = 0;
    while i < count
        invariant
            i <= count <= output@.len(),
            sequence@ == prompt@ + output@.take(i as int),
        decreases count - i,
    {
        sequence.push(output[i]);
        i = i + 1;
        assert(sequence@ =~= prompt@ + output@.take(i as int));
    }
    sequence
}

/// Output tokens are appended to their own choice, and to nothing else.
pub proof fn law_output_choices_are_independent(
    branches: BranchesView,
    index: u32,
    tokens: Seq<u32>,
    other: u32,
)
    requires
        other != index,
    ensures
        branches.observe(index, tokens).output(other) == branches.output(other),
        branches.observe(index, tokens).output(index) == branches.output(index) + tokens,
{
    if tokens.len() == 0 {
        assert(branches.output(index) + tokens =~= branches.output(index));
    }
}

} // verus!
