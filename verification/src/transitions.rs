use vstd::prelude::*;

verus! {

/// What a transition source stands for: from which states it takes which
/// inputs, and which next state and output it may answer with.
///
/// A lookup table answers with at most one pair. A function answers with
/// whatever its own contract admits.
#[verifier::reject_recursive_types(State)]
#[verifier::reject_recursive_types(Input)]
#[verifier::reject_recursive_types(Output)]
pub ghost struct Transitions<State, Input, Output> {
    /// The pairs of state and input for which the source has a transition.
    pub defined: spec_fn(State, Input) -> bool,
    /// The transitions: state, input, next state, output.
    pub related: spec_fn(State, Input, State, Output) -> bool,
}

impl<State, Input, Output> Transitions<State, Input, Output> {
    /// Whether the source has a transition from `state` on `input`.
    pub open spec fn enabled(self, state: State, input: Input) -> bool {
        (self.defined)(state, input)
    }

    /// Whether the source may answer `input` in `state` with `next` and
    /// `output`.
    pub open spec fn yields(
        self,
        state: State,
        input: Input,
        next: State,
        output: Output,
    ) -> bool {
        (self.related)(state, input, next, output)
    }

    /// Whether `trace` lists the states that the machine passes through while
    /// `inputs` are applied one after another: the `k`-th output is what the
    /// source yields on the `k`-th input in the state that the inputs before it
    /// have led to.
    pub open spec fn follows(
        self,
        trace: Seq<State>,
        inputs: Seq<Input>,
        outputs: Seq<Output>,
    ) -> bool {
        &&& trace.len() == inputs.len() + 1
        &&& outputs.len() == inputs.len()
        &&& forall|k: int|
            #![trigger inputs[k]]
            #![trigger outputs[k]]
            0 <= k < inputs.len() ==> self.yields(trace[k], inputs[k], trace[k + 1], outputs[k])
    }

    /// Whether applying `inputs` in order from `start` may give `outputs`, in
    /// the same order, and leave the machine in `end`.
    pub open spec fn runs(
        self,
        start: State,
        inputs: Seq<Input>,
        outputs: Seq<Output>,
        end: State,
    ) -> bool {
        exists|trace: Seq<State>|
            #![trigger self.follows(trace, inputs, outputs)]
            self.follows(trace, inputs, outputs) && trace.first() == start && trace.last() == end
    }

    /// Whether the source has a transition for every input of `inputs` in
    /// every state that the inputs before it may lead to from `start`.
    pub open spec fn accepts(self, start: State, inputs: Seq<Input>) -> bool {
        forall|k: int, outputs: Seq<Output>, state: State|
            #![trigger self.runs(start, inputs.take(k), outputs, state)]
            0 <= k < inputs.len() && self.runs(start, inputs.take(k), outputs, state)
                ==> self.enabled(state, inputs[k])
    }

    /// Whether `self` may stand in for `other`: where `other` has a transition,
    /// `self` has one too, and yields nothing there that `other` does not.
    pub open spec fn refines(self, other: Self) -> bool {
        forall|state: State, input: Input| #[trigger]
            other.enabled(state, input) ==> {
                &&& self.enabled(state, input)
                &&& forall|next: State, output: Output| #[trigger]
                    self.yields(state, input, next, output) ==> other.yields(
                        state,
                        input,
                        next,
                        output,
                    )
            }
    }

    /// Whether the source answers each input in each state with at most one
    /// pair of next state and output.
    pub open spec fn deterministic(self) -> bool {
        forall|state: State, input: Input, next1: State, output1: Output, next2: State, output2: Output|
            #![trigger self.yields(state, input, next1, output1), self.yields(state, input, next2, output2)]
            self.yields(state, input, next1, output1) && self.yields(state, input, next2, output2)
                ==> next1 == next2 && output1 == output2
    }
}

} // verus!
