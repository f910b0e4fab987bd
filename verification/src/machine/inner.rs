//! The state storage and single-advance driver shared by both machine wrappers.

use vstd::prelude::*;

use super::error::Error;
use super::outcome::{dispatch_answer, Outcome};
use super::state::{settled, State};
use super::transition::Transition;
use super::MachineContext;

verus! {

/// The context, the current state and the driver of one advance.
pub(crate) struct Inner<M: MachineContext> {
    context: M,
    state: M::State,
}

impl<M: MachineContext> Inner<M> {
    /// The context.
    pub closed spec fn spec_context(self) -> M {
        self.context
    }

    /// The current state.
    pub closed spec fn spec_state(self) -> M::State {
        self.state
    }

    /// Takes the context and the declared initial state; no hook runs.
    pub(crate) fn new(context: M) -> (r: Inner<M>)
        ensures
            r.spec_context() == context,
    {
        Inner { context, state: M::initial_state() }
    }

    /// Borrows the context.
    pub(crate) fn context(&self) -> (r: &M)
        ensures
            *r == self.spec_context(),
    {
        &self.context
    }

    /// Borrows the current state.
    pub(crate) fn state(&self) -> (r: &M::State)
        ensures
            *r == self.spec_state(),
    {
        &self.state
    }
}

impl<M: MachineContext> Inner<M> where M::State: State<M> {
    /// Runs the entry hook of the current state; there is no old state and no dispatch or
    /// transition hook.
    pub(crate) fn init(&mut self)
        ensures
            old(self).spec_state().entered(old(self).spec_context(), final(self).spec_state(), final(self).spec_context()),
    {
        self.state.handle_entry_action(&mut self.context);
    }

    /// Drives one input: the dispatch observer, the advance, then the settling of its result.
    pub(crate) fn dispatch(&mut self, input: &M::Input<'_>) -> (r: Result<Vec<M::Event>, Error<M::Error>>)
        ensures
            exists|state: M::State, after: M, result: Result<Outcome<M::State, M::Event>, Error<M::Error>>|
                #[trigger] M::State::advanced(old(self).spec_state(), old(self).spec_context(), input, state, after, result)
                && r == dispatch_answer(result)
                && settled::<M>(result, state, after, input, final(self).spec_state(), final(self).spec_context()),
            r is Err ==> *final(self) == *old(self),
    {
        self.context.before_dispatch(&self.state, input);
        let result = self.state.advance(&mut self.context, input);
        let ghost advanced = (self.state, self.context);
        let r = self.settle(input, result);
        proof {
            assert(M::State::advanced(old(self).spec_state(), old(self).spec_context(), input, advanced.0, advanced.1, result));
            assert(r == dispatch_answer(result));
        }
        r
    }

    /// Settles the result of an advance. An error is returned as it is, after the error observer
    /// saw a business error; an unhandled outcome becomes [`Error::Unhandled`] with no hook. A
    /// handled outcome first applies its transition (before-transition hook, exit, replacement,
    /// entry, after-transition hook), then runs the success hook and returns the events.
    pub(crate) fn settle(
        &mut self,
        input: &M::Input<'_>,
        result: Result<Outcome<M::State, M::Event>, Error<M::Error>>,
    ) -> (r: Result<Vec<M::Event>, Error<M::Error>>)
        ensures
            result matches Err(e) ==> r == Err::<Vec<M::Event>, Error<M::Error>>(e),
            result matches Ok(Outcome::Unhandled) ==> r == Err::<Vec<M::Event>, Error<M::Error>>(Error::Unhandled),
            result matches Ok(Outcome::Handled { events, .. }) ==> r == Ok::<Vec<M::Event>, Error<M::Error>>(events),
            (result is Err || result matches Ok(Outcome::Unhandled)) ==> *final(self) == *old(self),
            settled::<M>(result, old(self).spec_state(), old(self).spec_context(), input, final(self).spec_state(), final(self).spec_context()),
    {
        match result {
            Err(error) => {
                match &error {
                    Error::Custom(source) => self.context.dispatch_error(&self.state, input, source),
                    Error::Unhandled => {},
                }
                Err(error)
            },
            Ok(Outcome::Unhandled) => Err(Error::Unhandled),
            Ok(Outcome::Handled { events, transition }) => {
                match transition {
                    Transition::To(next) => {
                        let ghost left = self.state;
                        self.context.before_transition(&self.state, &next);
                        let ghost before = self.context;
                        self.state.handle_exit_action(&mut self.context);
                        let ghost exit = (self.state, self.context);
                        self.state = next;
                        self.state.handle_entry_action(&mut self.context);
                        let ghost entered = self.context;
                        self.context.after_transition(&self.state);
                        let ghost after = self.context;
                        self.context.after_dispatch(&self.state, input, events.as_slice());
                        proof {
                            assert(old(self).spec_context().before_transitioned(left, next, before));
                            assert(left.exited(before, exit.0, exit.1));
                            assert(next.entered(exit.1, self.state, entered));
                            assert(entered.after_transitioned(self.state, after));
                            assert(after.dispatched(self.state, input, events@, self.context));
                        }
                    },
                    Transition::Stay => {
                        self.context.after_dispatch(&self.state, input, events.as_slice());
                    },
                }
                Ok(events)
            },
        }
    }
}

impl<M: MachineContext + Clone> Clone for Inner<M> where M::State: Clone {
    /// Clones context and state; no hook runs.
    fn clone(&self) -> (r: Inner<M>)
        ensures
            cloned(self.spec_context(), r.spec_context()),
            cloned(self.spec_state(), r.spec_state()),
    {
        Inner { context: self.context.clone(), state: self.state.clone() }
    }
}

} // verus!


