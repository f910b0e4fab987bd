//! The state machine that tracks its initialization with a runtime flag.

use vstd::prelude::*;

use super::error::Error;
use super::inner::Inner;
use super::outcome::{dispatch_answer, Outcome};
use super::state::{settled, State};
use super::MachineContext;

verus! {

/// A state machine that tracks its initialization with a runtime flag.
///
/// Each instance owns its context and current state; a parent state may own another machine.
/// [`Self::init`] may be called early, or the first [`Self::dispatch`] does it; either way the
/// initial entry hook runs once. Cloning keeps the flag and replays no hook.
pub struct Machine<M: MachineContext> {
    pub(crate) inner: Inner<M>,
    pub(crate) initialized: bool,
}

impl<M: MachineContext> Machine<M> {
    /// Whether the machine is initialized.
    pub closed spec fn spec_initialized(self) -> bool {
        self.initialized
    }

    /// The context the machine owns.
    pub closed spec fn spec_context(self) -> M {
        self.inner.spec_context()
    }

    /// The current state.
    pub closed spec fn spec_state(self) -> M::State {
        self.inner.spec_state()
    }

    /// A machine that owns `context`, in the declared initial state and not initialized.
    pub(crate) fn with_context(context: M) -> (r: Machine<M>)
        ensures
            r.spec_context() == context,
            !r.spec_initialized(),
    {
        Machine { inner: Inner::new(context), initialized: false }
    }

    /// Whether the machine is initialized.
    pub fn is_initialized(&self) -> (r: bool)
        ensures
            r == self.spec_initialized(),
    {
        self.initialized
    }

    /// Borrows the context the machine owns.
    pub fn context(&self) -> (r: &M)
        ensures
            *r == self.spec_context(),
    {
        self.inner.context()
    }

    /// Borrows the current state.
    pub fn state(&self) -> (r: &M::State)
        ensures
            *r == self.spec_state(),
    {
        self.inner.state()
    }
}

impl<M: MachineContext> Machine<M> where M::State: State<M> {
    /// Initializes the machine if it is not yet: the initial entry hook runs, then the machine
    /// counts as initialized. Later calls change nothing.
    pub fn init(&mut self)
        ensures
            final(self).spec_initialized(),
            old(self).spec_initialized() ==> *final(self) == *old(self),
            !old(self).spec_initialized() ==> old(self).spec_state().entered(
                old(self).spec_context(),
                final(self).spec_state(),
                final(self).spec_context(),
            ),
    {
        if !self.initialized {
            self.inner.init();
            self.initialized = true;
        }
    }

    /// Initializes the machine if needed and dispatches one input; on success, the ordered
    /// events, possibly none, after any transition and its hooks.
    ///
    /// Returns the advance's [`Error::Unhandled`] or [`Error::Custom`] as it is; an unhandled
    /// outcome also comes back as [`Error::Unhandled`]. Errors run no transition hook, and an
    /// initialization done here stays; on a machine that was already initialized, an error
    /// leaves context and state as they were.
    pub fn dispatch(&mut self, input: &M::Input<'_>) -> (r: Result<Vec<M::Event>, Error<M::Error>>)
        ensures
            final(self).spec_initialized(),
            old(self).spec_initialized() ==> exists|state: M::State, after: M, result: Result<Outcome<M::State, M::Event>, Error<M::Error>>|
                #[trigger] M::State::advanced(old(self).spec_state(), old(self).spec_context(), input, state, after, result)
                && r == dispatch_answer(result) && settled::<M>(result, state, after, input, final(self).spec_state(), final(self).spec_context()),
            !old(self).spec_initialized() ==> exists|
                start: M::State,
                ctx: M,
                state: M::State,
                after: M,
                result: Result<Outcome<M::State, M::Event>, Error<M::Error>>,
            |
                old(self).spec_state().entered(old(self).spec_context(), start, ctx)
                    && #[trigger] M::State::advanced(start, ctx, input, state, after, result)
                    && r == dispatch_answer(result) && settled::<M>(result, state, after, input, final(self).spec_state(), final(self).spec_context()),
            old(self).spec_initialized() && r is Err ==> *final(self) == *old(self),
    {
        self.init();
        let ghost ready = (self.inner.spec_state(), self.inner.spec_context());
        let r = self.inner.dispatch(input);
        proof {
            let (state, after, result) = choose|state: M::State, after: M, result: Result<Outcome<M::State, M::Event>, Error<M::Error>>|
                #[trigger] M::State::advanced(ready.0, ready.1, input, state, after, result) && r == dispatch_answer(result)
                    && settled::<M>(result, state, after, input, self.inner.spec_state(), self.inner.spec_context());
            assert(M::State::advanced(ready.0, ready.1, input, state, after, result));
            if old(self).spec_initialized() {
                assert(M::State::advanced(old(self).spec_state(), old(self).spec_context(), input, state, after, result));
            }
        }
        r
    }
}

impl<M: MachineContext> core::ops::Deref for Machine<M> {
    type Target = M;

    /// Shared access to the context.
    fn deref(&self) -> (r: &M)
        ensures
            *r == self.spec_context(),
    {
        self.inner.context()
    }
}

impl<M: MachineContext + Clone> Clone for Machine<M> where M::State: Clone {
    /// A machine with cloned context and state and the same flag; no hook runs.
    fn clone(&self) -> (r: Machine<M>)
        ensures
            r.spec_initialized() == self.spec_initialized(),
            cloned(self.spec_context(), r.spec_context()),
            cloned(self.spec_state(), r.spec_state()),
    {
        Machine { inner: self.inner.clone(), initialized: self.initialized }
    }
}

} // verus!
