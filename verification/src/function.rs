use vstd::prelude::*;
use std::marker::PhantomData;
use crate::driver::Driver;
use crate::machine::StateMachine;
use crate::transitions::Transitions;

verus! {

/// What a function stands for as a transition source: it has a transition
/// wherever it may be called, and answers with any pair that its contract lets
/// it return.
pub open spec fn function_transitions<State, Input, Output, F>(function: F) -> Transitions<
    State,
    Input,
    Output,
> where F: Fn(State, Input) -> (State, Output) {
    Transitions {
        defined: |state: State, input: Input| call_requires(function, (state, input)),
        related: |state: State, input: Input, next: State, output: Output|
            call_ensures(function, (state, input), (next, output)),
    }
}

/// State machine driver with transition function
///
/// Zero-cost construction: the driver borrows the machine and the function.
pub struct DriverTransitionFunction<'a, State, Input, Output, F> {
    sm: &'a mut StateMachine<State>,
    tf: &'a F,
    _input: PhantomData<Input>,
    _output: PhantomData<Output>,
}

impl<'a, State, Input, Output, F> DriverTransitionFunction<'a, State, Input, Output, F> where
    State: Copy,
    F: Fn(State, Input) -> (State, Output),
{
    /// Binds `sm` to the function `tf`.
    pub fn new(sm: &'a mut StateMachine<State>, tf: &'a F) -> (driver: Self)
        ensures
            *driver.machine() == *old(sm),
            *final(driver.machine()) == *final(sm),
            driver.transitions() == function_transitions(*tf),
            has_resolved(driver) ==> has_resolved(driver.machine()),
    {
        Self { sm, tf, _input: PhantomData, _output: PhantomData }
    }
}

impl<'a, State, Input, Output, F> Driver<State, Input, Output> for DriverTransitionFunction<
    'a,
    State,
    Input,
    Output,
    F,
> where State: Copy, F: Fn(State, Input) -> (State, Output) {
    /// The borrow that `new` was given.
    closed spec fn machine(&self) -> &mut StateMachine<State> {
        self.sm
    }

    /// `function_transitions` of the function that `new` was given.
    closed spec fn transitions(&self) -> Transitions<State, Input, Output> {
        function_transitions(*self.tf)
    }

    proof fn lemma_released(&self) {
    }

    /// Calls the function on `(current state, input)`, moves the machine to
    /// the state that it returns and hands on the output that it returns. The
    /// function must be callable there.
    fn step(&mut self, input: Input) -> (output: Output) {
        let (state, output) = (self.tf)(self.sm.current(), input);
        self.sm.enter(state);
        output
    }
}

} // verus!
