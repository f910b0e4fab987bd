//! The state machine whose initialization stage is part of its type.

use vstd::prelude::*;

use core::marker::PhantomData;

use super::error::Error;
use super::inner::Inner;
use super::outcome::{dispatch_answer, Outcome};
use super::state::{settled, State};
use super::MachineContext;

verus! {

/// The stage marker of an initialized [`StrictMachine`].
#[derive(Debug, Clone, Copy, PartialEq, Eq)]
pub struct Initialized;

/// The stage marker of a [`StrictMachine`] that is not yet initialized.
#[derive(Debug, Clone, Copy, PartialEq, Eq)]
pub struct Uninitialized;

/// A state machine whose initialization stage is a type marker.
///
/// It starts [`Uninitialized`]; [`StrictMachine::init`] consumes it and returns the
/// [`Initialized`] stage, the only one that dispatches. Each instance owns its context and
/// state. Cloning keeps the stage and replays no hook.
pub struct StrictMachine<M: MachineContext, T> {
    pub(crate) inner: Inner<M>,
    pub(crate) mark: PhantomData<T>,
}

impl<M: MachineContext, T> StrictMachine<M, T> {
    /// The context the machine owns.
    pub closed spec fn spec_context(self) -> M {
        self.inner.spec_context()
    }

    /// The current state.
    pub closed spec fn spec_state(self) -> M::State {
        self.inner.spec_state()
    }

    /// A machine that owns `context`, in the declared initial state.
    pub(crate) fn with_context(context: M) -> (r: StrictMachine<M, T>)
        ensures
            r.spec_context() == context,
    {
        StrictMachine { inner: Inner::new(context), mark: PhantomData }
    }

    /// Borrows the context the machine owns.
    pub fn context(&self) -> (r: &M)
        ensures
            *r == self.spec_context(),
    {
        self.inner.context()
    }

    /// Borrows the current state.
    pub fn state(&self) -> (r: &M::State)
        ensures
            *r == self.spec_state(),
    {
        self.inner.state()
    }
}

impl<M: MachineContext> StrictMachine<M, Uninitialized> where M::State: State<M> {
    /// Runs the initial entry hook and returns the initialized machine; no dispatch or
    /// transition hook runs.
    pub fn init(self) -> (r: StrictMachine<M, Initialized>)
        ensures
            self.spec_state().entered(self.spec_context(), r.spec_state(), r.spec_context()),
    {
        let mut inner = self.inner;
        inner.init();
        StrictMachine { inner, mark: PhantomData }
    }
}

impl<M: MachineContext> StrictMachine<M, Initialized> where M::State: State<M> {
    /// Dispatches one input; on success, the ordered events, possibly none, after any
    /// transition and its hooks.
    ///
    /// Returns the advance's [`Error::Unhandled`] or [`Error::Custom`] as it is (the error
    /// observer sees a business error first); an unhandled outcome also comes back as
    /// [`Error::Unhandled`]. Errors run neither the success hook nor any transition hook, and
    /// leave context and state as they were.
    pub fn dispatch(&mut self, input: &M::Input<'_>) -> (r: Result<Vec<M::Event>, Error<M::Error>>)
        ensures
            exists|state: M::State, after: M, result: Result<Outcome<M::State, M::Event>, Error<M::Error>>|
                #[trigger] M::State::advanced(old(self).spec_state(), old(self).spec_context(), input, state, after, result)
                && r == dispatch_answer(result) && settled::<M>(result, state, after, input, final(self).spec_state(), final(self).spec_context()),
            r is Err ==> *final(self) == *old(self),
    {
        let r = self.inner.dispatch(input);
        proof {
            let (state, after, result) = choose|state: M::State, after: M, result: Result<Outcome<M::State, M::Event>, Error<M::Error>>|
                #[trigger] M::State::advanced(old(self).inner.spec_state(), old(self).inner.spec_context(), input, state, after, result)
                && r == dispatch_answer(result) && settled::<M>(result, state, after, input, self.inner.spec_state(), self.inner.spec_context());
            assert(M::State::advanced(old(self).spec_state(), old(self).spec_context(), input, state, after, result));
        }
        r
    }
}

impl<M: MachineContext + Clone, T> Clone for StrictMachine<M, T> where M::State: Clone {
    /// A machine with cloned context and state in the same stage; no hook runs.
    fn clone(&self) -> (r: StrictMachine<M, T>)
        ensures
            cloned(self.spec_context(), r.spec_context()),
            cloned(self.spec_state(), r.spec_state()),
    {
        StrictMachine { inner: self.inner.clone(), mark: PhantomData }
    }
}

impl<M: MachineContext, T> core::ops::Deref for StrictMachine<M, T> {
    type Target = M;

    /// Shared access to the context.
    fn deref(&self) -> (r: &M)
        ensures
            *r == self.spec_context(),
    {
        self.inner.context()
    }
}

} // verus!
