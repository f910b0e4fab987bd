//! Turning an owned context into a machine of either initialization style.

use vstd::prelude::*;

use super::runner::Machine;
use super::strict::{StrictMachine, Uninitialized};
use super::MachineContext;

verus! {

/// Builds a machine from any [`MachineContext`] by taking ownership of it.
///
/// Both builders use the declared initial state and run no entry hook; the state need not
/// implement [`crate::machine::State`] yet.
pub trait IntoMachineState: MachineContext {
    /// A lazily initialized machine that owns this context.
    fn into_machine(self) -> (r: Machine<Self>)
        ensures
            r.spec_context() == self,
            !r.spec_initialized(),
    ;

    /// A strict machine in the [`Uninitialized`] stage that owns this context.
    fn into_strict_machine(self) -> (r: StrictMachine<Self, Uninitialized>)
        ensures
            r.spec_context() == self,
    ;
}

impl<M: MachineContext> IntoMachineState for M {
    fn into_machine(self) -> (r: Machine<M>) {
        Machine::with_context(self)
    }

    fn into_strict_machine(self) -> (r: StrictMachine<M, Uninitialized>) {
        StrictMachine::with_context(self)
    }
}

} // verus!
