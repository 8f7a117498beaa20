use vstd::prelude::*;

verus! {

/// State machine
///
/// Actually a finite-state transducer: it holds the current state, and a
/// driver's step is the only thing that reads or overwrites it.
pub struct StateMachine<State> {
    state: State,
}

impl<State> View for StateMachine<State> {
    type V = State;

    /// The state that the machine is in.
    closed spec fn view(&self) -> State {
        self.state
    }
}

impl<State> StateMachine<State> {
    /// A machine in the given initial state. Any value of the state type is
    /// accepted.
    pub fn new(state: State) -> (machine: Self)
        ensures
            machine@ == state,
    {
        Self { state }
    }

    /// The current state, for the drivers of this crate.
    pub(crate) fn current(&self) -> (state: State) where State: Copy
        ensures
            state == self@,
    {
        self.state
    }

    /// Overwrites the current state, for the drivers of this crate.
    pub(crate) fn enter(&mut self, state: State)
        ensures
            final(self)@ == state,
        no_unwind
    {
        self.state = state;
    }
}

} // verus!
