//! A general state machine driven by an owned context and the results of input handling.
//!
//! [`MachineContext`] names the context a machine owns and its state, input, event and error
//! types; it offers default empty hooks to observe a dispatch, finish a success, observe a
//! business error and maintain the context around a transition. [`State`] handles inputs and
//! has entry and exit hooks; its successful [`Outcome`] carries events and a [`Transition`] that
//! the driver applies. [`Error`] keeps "not handled" apart from a business error.
//!
//! [`IntoMachineState`] builds a lazily initialized [`Machine`] or a [`StrictMachine`] in the
//! [`Uninitialized`] stage. A plain machine's [`Machine::init`] is idempotent and every dispatch
//! calls it first; a strict machine is initialized once by its `init`, which moves it to the
//! [`Initialized`] stage, the only one that dispatches. Both wrappers share one driver.
//!
//! A dispatch calls the dispatch observer, advances the state, and then settles the result: an
//! error comes back as it is (a business error is shown to the error observer first); a
//! handled result applies its transition (before-transition hook, exit, replacement, entry,
//! after-transition hook), runs the success hook and returns the ordered events, possibly none.
//! An initialization done by a dispatch stays even when the input then fails. Errors run no
//! transition hook, and nothing is rolled back across machines or outside effects.

use vstd::prelude::*;

mod convert;
mod dispatch;
mod error;
mod inner;
mod outcome;
mod runner;
mod state;
mod strict;
mod transition;

pub use convert::IntoMachineState;
pub use dispatch::DispatchResult;
pub use error::Error;
pub use outcome::{dispatch_answer, Outcome};
pub use runner::Machine;
pub use state::{settled, State};
pub use strict::{Initialized, StrictMachine, Uninitialized};
pub use transition::Transition;

verus! {

/// The context one machine owns, its associated types and the hooks at the edges of a dispatch.
///
/// The context is `Self` and the machine takes ownership of it; nested machines may use other
/// context types. The five hooks return nothing: they cannot refuse an input, pick another
/// transition or add events. The two observers do nothing by default; the three hooks that may
/// change the context are written by each context, empty where there is nothing to do, and
/// each has a relation that says what it does. Failing business work stays in
/// [`State::advance`]. The observers only look; the success and transition hooks do maintenance
/// that always completes. Hooks only borrow the state; the driver applies
/// [`Transition::To`].
pub trait MachineContext: Sized {
    /// The state type of this machine; it implements [`State`] where the machine runs.
    type State;

    /// The input this machine accepts; `'ipt` is the lifetime of data an input may borrow.
    type Input<'ipt>;

    /// The events an advance produces; their meaning and visibility are the upper layer's.
    type Event;

    /// The concrete business error of a failed input, carried by [`Error::Custom`].
    type Error;

    /// The initial state value; no entry hook runs here.
    fn initial_state() -> Self::State;

    /// Observes the state, already initialized, and the input before the advance; it must not
    /// change data that affects rules, events or replay.
    fn before_dispatch(&self, state: &Self::State, input: &Self::Input<'_>) {
    }

    /// What the success hook does: from this context, with the final `state`, the `input` and
    /// the `events`, it leaves `after`. An implementation states its own; by default it states
    /// nothing.
    open spec fn dispatched(self, state: Self::State, input: &Self::Input<'_>, events: Seq<Self::Event>, after: Self) -> bool {
        true
    }

    /// Finishes a success once any transition is done: `state` is the final state and
    /// `events` the ordered events about to be returned, possibly empty. A context with nothing
    /// to do gives it an empty body.
    fn after_dispatch(&mut self, state: &Self::State, input: &Self::Input<'_>, events: &[Self::Event])
        ensures
            old(self).dispatched(*state, input, events@, *final(self)),
    ;

    /// Observes a business error together with the state and the input; only
    /// [`Error::Custom`] calls it.
    fn dispatch_error(&self, state: &Self::State, input: &Self::Input<'_>, error: &Self::Error) {
    }

    /// What the before-transition hook does: from this context, leaving `from` for `to`, it
    /// leaves `after`. An implementation states its own; by default it states nothing.
    open spec fn before_transitioned(self, from: Self::State, to: Self::State, after: Self) -> bool {
        true
    }

    /// Maintains the context before the old state exits, only for [`Transition::To`]; `to` has
    /// not entered yet. A context with nothing to do gives it an empty body.
    fn before_transition(&mut self, from: &Self::State, to: &Self::State)
        ensures
            old(self).before_transitioned(*from, *to, *final(self)),
    ;

    /// What the after-transition hook does: from this context, with the entered `state`, it
    /// leaves `after`. An implementation states its own; by default it states nothing.
    open spec fn after_transitioned(self, state: Self::State, after: Self) -> bool {
        true
    }

    /// Maintains the context after the new state entered, only for [`Transition::To`]. A
    /// context with nothing to do gives it an empty body.
    fn after_transition(&mut self, state: &Self::State)
        ensures
            old(self).after_transitioned(*state, *final(self)),
    ;
}

} // verus!
