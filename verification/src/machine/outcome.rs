//! The result of one advance, consumed by the driver.

use vstd::prelude::*;

use super::error::Error;
use super::transition::Transition;

verus! {

/// What a state made of one input, consumed by the machine driver.
///
/// Handled results keep the events in the order given, possibly none; the transition is not
/// applied yet, so this is not the caller's result. An unhandled result carries neither events
/// nor a transition, and the state must not have changed anything before choosing it.
#[derive(Clone, Debug, PartialEq, Eq)]
pub enum Outcome<S, E> {
    /// The input was handled; the events and the transition to apply.
    Handled {
        /// The events of this input, in order; may be empty.
        events: Vec<E>,
        /// The transition the driver applies.
        transition: Transition<S>,
    },
    /// The current state does not handle the input; no hook runs and nothing is rolled back.
    Unhandled,
}

impl<S, E> Outcome<S, E> {
    /// A handled result that keeps the current state.
    pub fn stay(events: Vec<E>) -> (r: Outcome<S, E>)
        ensures
            r == (Outcome::<S, E>::Handled { events, transition: Transition::Stay }),
    {
        Outcome::Handled { events, transition: Transition::Stay }
    }

    /// A handled result that moves to `state`.
    pub fn to(state: S, events: Vec<E>) -> (r: Outcome<S, E>)
        ensures
            r == (Outcome::<S, E>::Handled { events, transition: Transition::To(state) }),
    {
        Outcome::Handled { events, transition: Transition::To(state) }
    }
}

/// What a dispatch answers for one advance result: an error as it is, an unhandled outcome as
/// [`Error::Unhandled`], and a handled outcome as its events.
pub open spec fn dispatch_answer<S, E, X>(result: Result<Outcome<S, E>, Error<X>>) -> Result<Vec<E>, Error<X>> {
    match result {
        Err(e) => Err(e),
        Ok(Outcome::Unhandled) => Err(Error::Unhandled),
        Ok(Outcome::Handled { events, .. }) => Ok(events),
    }
}

} // verus!
