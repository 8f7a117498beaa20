//! Drivers for deterministic finite-state transducers.
//!
//! A [`StateMachine`] holds the current state and nothing else. A driver binds
//! one machine to one transition source, either a lookup table
//! ([`DriverTransitionTable`]) or a function ([`DriverTransitionFunction`]),
//! and advances the machine one input at a time ([`Driver::step`]) or over a
//! whole sequence of inputs ([`DriverExt::run`]).
//!
//! Contracts are stated over [`Transitions`], the mathematical model of a
//! transition source.

pub mod driver;
pub mod function;
pub mod laws;
pub mod machine;
pub mod table;
pub mod transitions;

pub use driver::{Driver, DriverExt};
pub use function::DriverTransitionFunction;
pub use machine::StateMachine;
pub use table::DriverTransitionTable;
pub use transitions::Transitions;
