use std::collections::HashMap;

use state_machine::{Driver, DriverTransitionFunction, DriverTransitionTable, StateMachine};

#[test]
fn turnstile_transition_table() {
    #[derive(Debug, Copy, Clone, PartialEq, Eq, Hash)]
    enum State {
        Locked,
        Unlocked,
    }
    #[derive(PartialEq, Eq, Hash)]
    enum Input {
        Push,
        Coin,
    }
    let transition_table = HashMap::from([
        ((State::Locked, Input::Push), (State::Locked, State::Locked)),
        (
            (State::Locked, Input::Coin),
            (State::Unlocked, State::Unlocked),
        ),
        (
            (State::Unlocked, Input::Coin),
            (State::Unlocked, State::Unlocked),
        ),
        (
            (State::Unlocked, Input::Push),
            (State::Locked, State::Locked),
        ),
    ]);

    let mut state_machine = StateMachine::new(State::Locked);
    let mut driver = DriverTransitionTable::new(&mut state_machine, &transition_table);
    assert_eq!(driver.step(Input::Coin), State::Unlocked);
    assert_eq!(driver.step(Input::Push), State::Locked);
}

#[test]
fn turnstile_transition_function() {
    #[derive(Debug, Copy, Clone, PartialEq)]
    enum State {
        Locked,
        Unlocked,
    }
    enum Input {
        Push,
        Coin,
    }
    fn transition_function(state: State, input: Input) -> (State, State) {
        match (state, input) {
            (State::Locked, Input::Push) => (State::Locked, State::Locked),
            (State::Locked, Input::Coin) => (State::Unlocked, State::Unlocked),
            (State::Unlocked, Input::Coin) => (State::Unlocked, State::Unlocked),
            (State::Unlocked, Input::Push) => (State::Locked, State::Locked),
        }
    }

    let mut state_machine = StateMachine::new(State::Locked);
    let mut driver = DriverTransitionFunction::new(&mut state_machine, &transition_function);
    assert_eq!(driver.step(Input::Coin), State::Unlocked);
    assert_eq!(driver.step(Input::Push), State::Locked);
}
