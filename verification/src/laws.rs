use vstd::prelude::*;
use crate::function::function_transitions;
use crate::table::table_transitions;
use crate::transitions::Transitions;

verus! {

/// Whether `function` encodes the mapping of `table`: wherever the table has
/// an entry, the function may be called, and it returns nothing but that
/// entry.
pub open spec fn encodes<State, Input, Output, F>(
    function: F,
    table: Map<(State, Input), (State, Output)>,
) -> bool where F: Fn(State, Input) -> (State, Output) {
    forall|state: State, input: Input| #[trigger]
        table.contains_key((state, input)) ==> {
            &&& call_requires(function, (state, input))
            &&& forall|next: State, output: Output| #[trigger]
                call_ensures(function, (state, input), (next, output)) ==> table[(state, input)]
                    == (next, output)
        }
}

/// A run over no inputs gives no outputs and ends where it started, and
/// nothing else is such a run.
pub proof fn lemma_empty_run<State, Input, Output>(
    source: Transitions<State, Input, Output>,
    start: State,
    outputs: Seq<Output>,
    end: State,
)
    ensures
        source.runs(start, Seq::empty(), outputs, end) <==> outputs.len() == 0 && end == start,
{
    if outputs.len() == 0 && end == start {
        assert(source.follows(seq![start], Seq::empty(), outputs));
    }
}

/// A run over `inputs` and then `input` is a run over `inputs` followed by one
/// step on `input` from the state that the run has led to: the outputs come in
/// the order of the inputs, each from the state that the inputs before it
/// have produced.
pub proof fn lemma_run_extends<State, Input, Output>(
    source: Transitions<State, Input, Output>,
    start: State,
    inputs: Seq<Input>,
    outputs: Seq<Output>,
    input: Input,
    output: Output,
    end: State,
)
    ensures
        source.runs(start, inputs.push(input), outputs.push(output), end) <==> exists|mid: State|
            #![trigger source.runs(start, inputs, outputs, mid)]
            source.runs(start, inputs, outputs, mid) && source.yields(mid, input, end, output),
{
    let more_inputs = inputs.push(input);
    let more_outputs = outputs.push(output);
    if source.runs(start, more_inputs, more_outputs, end) {
        let trace = choose|trace: Seq<State>|
            #![trigger source.follows(trace, more_inputs, more_outputs)]
            source.follows(trace, more_inputs, more_outputs) && trace.first() == start
                && trace.last() == end;
        let shorter = trace.drop_last();
        let mid = shorter.last();
        assert forall|k: int| 0 <= k < inputs.len() implies source.yields(
            shorter[k],
            #[trigger] inputs[k],
            shorter[k + 1],
            outputs[k],
        ) by {
            assert(more_outputs[k] == outputs[k]);
        }
        assert(source.follows(shorter, inputs, outputs));
        assert(source.runs(start, inputs, outputs, mid));
        assert(more_outputs[inputs.len() as int] == output);
    }
    if exists|mid: State|
        #![trigger source.runs(start, inputs, outputs, mid)]
        source.runs(start, inputs, outputs, mid) && source.yields(mid, input, end, output) {
        let mid = choose|mid: State|
            #![trigger source.runs(start, inputs, outputs, mid)]
            source.runs(start, inputs, outputs, mid) && source.yields(mid, input, end, output);
        let trace = choose|trace: Seq<State>|
            #![trigger source.follows(trace, inputs, outputs)]
            source.follows(trace, inputs, outputs) && trace.first() == start && trace.last()
                == mid;
        let longer = trace.push(end);
        assert forall|k: int| 0 <= k < more_inputs.len() implies source.yields(
            longer[k],
            #[trigger] more_inputs[k],
            longer[k + 1],
            more_outputs[k],
        ) by {
            if k < inputs.len() {
                assert(more_inputs[k] == inputs[k]);
            }
        }
        assert(source.follows(longer, more_inputs, more_outputs));
    }
}

/// Two traces of a deterministic source over the same inputs from the same
/// state agree up to `upto`, and so do their outputs.
proof fn lemma_traces_agree<State, Input, Output>(
    source: Transitions<State, Input, Output>,
    inputs: Seq<Input>,
    trace1: Seq<State>,
    outputs1: Seq<Output>,
    trace2: Seq<State>,
    outputs2: Seq<Output>,
    upto: int,
)
    requires
        source.deterministic(),
        source.follows(trace1, inputs, outputs1),
        source.follows(trace2, inputs, outputs2),
        trace1.first() == trace2.first(),
        0 <= upto <= inputs.len(),
    ensures
        trace1[upto] == trace2[upto],
        forall|k: int| 0 <= k < upto ==> outputs1[k] == outputs2[k],
    decreases upto,
{
    if upto > 0 {
        let k = upto - 1;
        lemma_traces_agree(source, inputs, trace1, outputs1, trace2, outputs2, k);
        assert(source.yields(trace2[k], inputs[k], trace2[k + 1], outputs2[k]));
    }
}

/// A deterministic source leaves no choice: the same inputs from the same
/// state give the same outputs and the same final state, however often they
/// are applied.
pub proof fn lemma_deterministic_run<State, Input, Output>(
    source: Transitions<State, Input, Output>,
    start: State,
    inputs: Seq<Input>,
    outputs1: Seq<Output>,
    end1: State,
    outputs2: Seq<Output>,
    end2: State,
)
    requires
        source.deterministic(),
        source.runs(start, inputs, outputs1, end1),
        source.runs(start, inputs, outputs2, end2),
    ensures
        outputs1 == outputs2,
        end1 == end2,
{
    let trace1 = choose|trace: Seq<State>|
        #![trigger source.follows(trace, inputs, outputs1)]
        source.follows(trace, inputs, outputs1) && trace.first() == start && trace.last() == end1;
    let trace2 = choose|trace: Seq<State>|
        #![trigger source.follows(trace, inputs, outputs2)]
        source.follows(trace, inputs, outputs2) && trace.first() == start && trace.last() == end2;
    lemma_traces_agree(source, inputs, trace1, outputs1, trace2, outputs2, inputs.len() as int);
}

/// A lookup table is deterministic: looking the same key up again finds the
/// same pair of next state and output.
pub proof fn lemma_table_deterministic<State, Input, Output>(
    table: Map<(State, Input), (State, Output)>,
)
    ensures
        table_transitions(table).deterministic(),
{
}

/// Tables that stand for the same transitions hold the same entries: a driver
/// that keeps its transitions has left the contents of its table alone.
pub proof fn lemma_same_transitions_same_table<State, Input, Output>(
    table1: Map<(State, Input), (State, Output)>,
    table2: Map<(State, Input), (State, Output)>,
)
    requires
        table_transitions(table1) == table_transitions(table2),
    ensures
        table1 == table2,
{
    let source1 = table_transitions(table1);
    let source2 = table_transitions(table2);
    assert forall|key: (State, Input)| table1.contains_key(key) == table2.contains_key(key) by {
        assert(source2.enabled(key.0, key.1) == table2.contains_key(key));
    }
    assert forall|key: (State, Input)| table1.contains_key(key) implies table1[key]
        == table2[key] by {
        assert(source2.yields(key.0, key.1, table1[key].0, table1[key].1));
    }
}

/// A table driver and a function driver step alike where the function encodes
/// the table: in a state and on an input for which the table has an entry, the
/// function may be called, and the next state and the output that it gives are
/// those of the table.
pub proof fn lemma_function_steps_as_table<State, Input, Output, F>(
    table: Map<(State, Input), (State, Output)>,
    function: F,
    state: State,
    input: Input,
    next: State,
    output: Output,
) where F: Fn(State, Input) -> (State, Output)
    requires
        encodes(function, table),
        table_transitions(table).enabled(state, input),
    ensures
        function_transitions(function).enabled(state, input),
        function_transitions(function).yields(state, input, next, output) ==> table_transitions(
            table,
        ).yields(state, input, next, output),
{
}

/// A function that encodes a table may stand in for it.
pub proof fn lemma_encoding_refines<State, Input, Output, F>(
    table: Map<(State, Input), (State, Output)>,
    function: F,
) where F: Fn(State, Input) -> (State, Output)
    requires
        encodes(function, table),
    ensures
        function_transitions(function).refines(table_transitions(table)),
{
}

/// Along a trace of `first` over a prefix of `inputs` that `second` accepts,
/// every step up to `upto` is one of `second` as well.
proof fn lemma_refined_trace<State, Input, Output>(
    first: Transitions<State, Input, Output>,
    second: Transitions<State, Input, Output>,
    inputs: Seq<Input>,
    length: int,
    trace: Seq<State>,
    outputs: Seq<Output>,
    upto: int,
)
    requires
        first.refines(second),
        second.accepts(trace.first(), inputs),
        0 <= upto <= length <= inputs.len(),
        first.follows(trace, inputs.take(length), outputs),
    ensures
        second.follows(trace.take(upto + 1), inputs.take(upto), outputs.take(upto)),
    decreases upto,
{
    if upto > 0 {
        let k = upto - 1;
        lemma_refined_trace(first, second, inputs, length, trace, outputs, k);
        assert(second.runs(trace.first(), inputs.take(k), outputs.take(k), trace[k]));
        assert forall|j: int| 0 <= j < upto implies second.yields(
            trace.take(upto + 1)[j],
            #[trigger] inputs.take(upto)[j],
            trace.take(upto + 1)[j + 1],
            outputs.take(upto)[j],
        ) by {
            if j < k {
                assert(second.yields(
                    trace.take(k + 1)[j],
                    inputs.take(k)[j],
                    trace.take(k + 1)[j + 1],
                    outputs.take(k)[j],
                ));
            }
        }
    }
}

/// A source that refines another can be swapped in for it: it accepts every
/// sequence of inputs that the other accepts, and each of its runs over such
/// inputs is a run of the other, with the same outputs and the same final
/// state.
pub proof fn lemma_refinement_runs<State, Input, Output>(
    first: Transitions<State, Input, Output>,
    second: Transitions<State, Input, Output>,
    start: State,
    inputs: Seq<Input>,
    outputs: Seq<Output>,
    end: State,
)
    requires
        first.refines(second),
        second.accepts(start, inputs),
    ensures
        first.accepts(start, inputs),
        first.runs(start, inputs, outputs, end) ==> second.runs(start, inputs, outputs, end),
{
    assert forall|k: int, outs: Seq<Output>, state: State|
        0 <= k < inputs.len() && #[trigger] first.runs(
            start,
            inputs.take(k),
            outs,
            state,
        ) implies first.enabled(state, inputs[k]) by {
        let trace = choose|trace: Seq<State>|
            #![trigger first.follows(trace, inputs.take(k), outs)]
            first.follows(trace, inputs.take(k), outs) && trace.first() == start && trace.last()
                == state;
        lemma_refined_trace(first, second, inputs, k, trace, outs, k);
        assert(outs.take(k) == outs);
        assert(second.runs(start, inputs.take(k), outs, state));
    }
    if first.runs(start, inputs, outputs, end) {
        let trace = choose|trace: Seq<State>|
            #![trigger first.follows(trace, inputs, outputs)]
            first.follows(trace, inputs, outputs) && trace.first() == start && trace.last() == end;
        let length = inputs.len() as int;
        assert(inputs.take(length) == inputs);
        lemma_refined_trace(first, second, inputs, length, trace, outputs, length);
        assert(outputs.take(length) == outputs);
    }
}

/// A table driver and a function driver run alike where the function encodes
/// the table: the function driver can run whatever inputs the table driver
/// can, and its outputs and final state are those of the table driver.
pub proof fn lemma_function_runs_as_table<State, Input, Output, F>(
    table: Map<(State, Input), (State, Output)>,
    function: F,
    start: State,
    inputs: Seq<Input>,
    outputs: Seq<Output>,
    end: State,
) where F: Fn(State, Input) -> (State, Output)
    requires
        encodes(function, table),
        table_transitions(table).accepts(start, inputs),
    ensures
        function_transitions(function).accepts(start, inputs),
        function_transitions(function).runs(start, inputs, outputs, end) ==> table_transitions(
            table,
        ).runs(start, inputs, outputs, end),
{
    lemma_encoding_refines(table, function);
    lemma_refinement_runs(
        function_transitions(function),
        table_transitions(table),
        start,
        inputs,
        outputs,
        end,
    );
}

/// Every state of a trace from a state within `within` is within it, where
/// no transition on the inputs leads out of it.
proof fn lemma_trace_within<State, Input, Output>(
    source: Transitions<State, Input, Output>,
    within: spec_fn(State) -> bool,
    inputs: Seq<Input>,
    trace: Seq<State>,
    outputs: Seq<Output>,
    upto: int,
)
    requires
        within(trace.first()),
        forall|state: State, input: Input, next: State, output: Output|
            within(state) && inputs.contains(input) && #[trigger] source.yields(
                state,
                input,
                next,
                output,
            ) ==> within(next),
        source.follows(trace, inputs, outputs),
        0 <= upto <= inputs.len(),
    ensures
        within(trace[upto]),
    decreases upto,
{
    if upto > 0 {
        let k = upto - 1;
        lemma_trace_within(source, within, inputs, trace, outputs, k);
        assert(source.yields(trace[k], inputs[k], trace[k + 1], outputs[k]));
    }
}

/// A source accepts a sequence of inputs from a state within a set of states
/// that no transition on these inputs leads out of, and in all of which it has
/// a transition on each of these inputs.
pub proof fn lemma_accepts_within<State, Input, Output>(
    source: Transitions<State, Input, Output>,
    within: spec_fn(State) -> bool,
    start: State,
    inputs: Seq<Input>,
)
    requires
        within(start),
        forall|state: State, input: Input|
            within(state) && inputs.contains(input) ==> #[trigger] source.enabled(state, input),
        forall|state: State, input: Input, next: State, output: Output|
            within(state) && inputs.contains(input) && #[trigger] source.yields(
                state,
                input,
                next,
                output,
            ) ==> within(next),
    ensures
        source.accepts(start, inputs),
{
    assert forall|k: int, outputs: Seq<Output>, state: State|
        0 <= k < inputs.len() && #[trigger] source.runs(
            start,
            inputs.take(k),
            outputs,
            state,
        ) implies source.enabled(state, inputs[k]) by {
        let prefix = inputs.take(k);
        let trace = choose|trace: Seq<State>|
            #![trigger source.follows(trace, prefix, outputs)]
            source.follows(trace, prefix, outputs) && trace.first() == start && trace.last()
                == state;
        assert forall|state: State, input: Input, next: State, output: Output|
            within(state) && prefix.contains(input) && #[trigger] source.yields(
                state,
                input,
                next,
                output,
            ) implies within(next) by {
            assert(inputs.contains(input));
        }
        lemma_trace_within(source, within, prefix, trace, outputs, k);
        assert(inputs.contains(inputs[k]));
    }
}

} // verus!
