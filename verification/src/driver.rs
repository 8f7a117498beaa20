use vstd::prelude::*;
use crate::laws::{lemma_empty_run, lemma_run_extends};
use crate::machine::StateMachine;
use crate::transitions::Transitions;

verus! {

/// State machine driver
///
/// A driver binds one machine, which it borrows, to one transition source.
/// The driver never changes the source, and it changes the machine only in
/// `step`. It keeps the borrow that it was made with: whatever a step does to
/// the machine is what the lender finds when the driver is gone.
pub trait Driver<State, Input, Output>: Sized {
    /// The borrow of the machine that the driver holds. Its current value is
    /// the machine as it is now; its final value is the machine that the
    /// lender gets back.
    spec fn machine(&self) -> &mut StateMachine<State>;

    /// What the transition source of the driver stands for.
    spec fn transitions(&self) -> Transitions<State, Input, Output>;

    /// A driver that is no longer used has given its machine back: the borrow
    /// ends with the driver, and the lender finds the machine as the driver
    /// left it.
    proof fn lemma_released(&self)
        ensures
            has_resolved(*self) ==> has_resolved(self.machine()),
    ;

    /// Takes one input: moves the machine to the next state and returns the
    /// output, both as the transition source gives them for the current state
    /// and `input`. The source must have such a transition.
    fn step(&mut self, input: Input) -> (output: Output)
        requires
            old(self).transitions().enabled(old(self).machine()@, input),
        ensures
            old(self).transitions().yields(
                old(self).machine()@,
                input,
                final(self).machine()@,
                output,
            ),
            final(self).transitions() == old(self).transitions(),
            *final(final(self).machine()) == *final(old(self).machine()),
            has_resolved(*final(self)) ==> has_resolved(final(self).machine()),
    ;
}

/// Running a driver over a whole sequence of inputs. Every driver can do it.
pub trait DriverExt<State, Input, Output>: Driver<State, Input, Output> {
    /// Applies `step` to each input in order and collects the outputs in the
    /// same order: each step starts in the state that the one before it has
    /// left. The transition source must have a transition at every step.
    /// Without inputs there are no outputs, and the machine stays as it is.
    fn run(&mut self, inputs: Vec<Input>) -> (outputs: Vec<Output>)
        requires
            old(self).transitions().accepts(old(self).machine()@, inputs@),
        ensures
            old(self).transitions().runs(
                old(self).machine()@,
                inputs@,
                outputs@,
                final(self).machine()@,
            ),
            inputs@.len() == 0 ==> outputs@.len() == 0 && final(self).machine()@ == old(
                self,
            ).machine()@,
            final(self).transitions() == old(self).transitions(),
            *final(final(self).machine()) == *final(old(self).machine()),
            has_resolved(*final(self)) ==> has_resolved(final(self).machine()),
    {
        let ghost source = self.transitions();
        let ghost start = self.machine()@;
        let ghost all = inputs@;
        let mut outputs = Vec::new();
        proof {
            lemma_empty_run(source, start, outputs@, start);
            assert(all.take(0) == Seq::<Input>::empty());
        }
        for input in iter: inputs.into_iter()
            invariant
                iter.seq() == all,
                self.transitions() == source,
                *final(self.machine()) == *final(old(self).machine()),
                source.accepts(start, all),
                source.runs(start, all.take(iter.index()), outputs@, self.machine()@),
        {
            let ghost done = iter.index();
            let ghost collected = outputs@;
            let output = self.step(input);
            outputs.push(output);
            proof {
                lemma_run_extends(
                    source,
                    start,
                    all.take(done),
                    collected,
                    input,
                    output,
                    self.machine()@,
                );
                assert(all.take(done).push(input) == all.take(done + 1));
            }
        }
        proof {
            assert(all.take(all.len() as int) == all);
            lemma_empty_run(source, start, outputs@, self.machine()@);
            self.lemma_released();
        }
        outputs
    }
}

impl<State, Input, Output, D: Driver<State, Input, Output>> DriverExt<State, Input, Output> for D {
}

} // verus!
