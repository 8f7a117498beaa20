use vstd::prelude::*;
use std::collections::HashMap;
use std::hash::Hash;
use vstd::std_specs::hash::obeys_key_model;
use crate::driver::Driver;
use crate::machine::StateMachine;
use crate::transitions::Transitions;

verus! {

/// What a lookup table stands for as a transition source: it has a transition
/// for exactly its keys, and answers a key with the pair stored under it.
pub open spec fn table_transitions<State, Input, Output>(
    table: Map<(State, Input), (State, Output)>,
) -> Transitions<State, Input, Output> {
    Transitions {
        defined: |state: State, input: Input| table.contains_key((state, input)),
        related: |state: State, input: Input, next: State, output: Output|
            table.contains_key((state, input)) && table[(state, input)] == (next, output),
    }
}

/// State machine driver with transition table
///
/// Zero-cost construction: the driver borrows the machine and the table, and
/// copies neither.
pub struct DriverTransitionTable<'a, State, Input, Output> {
    sm: &'a mut StateMachine<State>,
    tt: &'a HashMap<(State, Input), (State, Output)>,
}

impl<'a, State, Input, Output> DriverTransitionTable<'a, State, Input, Output> {
    /// A table driver exists only over keys that hash and compare as the
    /// values they are, so that a lookup finds an entry exactly when the table
    /// holds the key.
    #[verifier::type_invariant]
    spec fn keys_obey_model(self) -> bool {
        obeys_key_model::<(State, Input)>()
    }
}

impl<'a, State, Input, Output> DriverTransitionTable<'a, State, Input, Output> where
    Input: Hash + Eq,
    State: Copy + Hash + Eq,
    Output: Copy,
{
    /// Binds `sm` to the table `tt`, which the caller has filled before. The
    /// pairs of state and input must be usable as keys: two of them hash and
    /// compare equal exactly when they are the same pair.
    pub fn new(
        sm: &'a mut StateMachine<State>,
        tt: &'a HashMap<(State, Input), (State, Output)>,
    ) -> (driver: Self)
        requires
            obeys_key_model::<(State, Input)>(),
        ensures
            *driver.machine() == *old(sm),
            *final(driver.machine()) == *final(sm),
            driver.transitions() == table_transitions(tt@),
            has_resolved(driver) ==> has_resolved(driver.machine()),
    {
        Self { sm, tt }
    }
}

impl<'a, State, Input, Output> Driver<State, Input, Output> for DriverTransitionTable<
    'a,
    State,
    Input,
    Output,
> where Input: Hash + Eq, State: Copy + Hash + Eq, Output: Copy {
    /// The borrow that `new` was given.
    closed spec fn machine(&self) -> &mut StateMachine<State> {
        self.sm
    }

    /// `table_transitions` of the contents of the table that `new` was given.
    closed spec fn transitions(&self) -> Transitions<State, Input, Output> {
        table_transitions(self.tt@)
    }

    proof fn lemma_released(&self) {
    }

    /// Looks `(current state, input)` up in the table, moves the machine to
    /// the state stored there and returns a copy of the output stored there.
    /// The table itself stays as it is. The table must hold the key: there is
    /// no default transition.
    fn step(&mut self, input: Input) -> (output: Output) {
        proof {
            use_type_invariant(&*self);
        }
        let entry = self.tt.get(&(self.sm.current(), input)).unwrap();
        self.sm.enter(entry.0);
        entry.1
    }
}

} // verus!
