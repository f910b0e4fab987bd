//! The result of one phase input, including the end of the hand.

use vstd::prelude::*;

use crate::machine::Transition;

verus! {

/// What a phase made of one input; the engine adapts it for the machine driver.
///
/// [`Self::Handled`] and [`Self::Finished`] both mean handled, with events in order and possibly
/// none; only [`Self::Unhandled`] means not handled, so the end of a hand never loses its input
/// record or last events.
#[derive(Clone, Debug, PartialEq, Eq)]
pub enum PhaseOutcome<P, E, O> {
    /// Not handled: no events and no transition; decided before any change.
    Unhandled,
    /// Handled, and the hand goes on, staying in the phase or moving to the next.
    Handled {
        /// The events of this input, in order; may be empty.
        events: Vec<E>,
        /// The phase transition to apply; never the end of the hand.
        transition: Transition<P>,
    },
    /// Handled, and the hand ends with its final result.
    Finished {
        /// The events of this input, the last of the hand; may be empty.
        events: Vec<E>,
        /// The final result, moved into the engine's final state.
        output: O,
    },
}

impl<P, E, O> PhaseOutcome<P, E, O> {
    /// Handled, staying in the current phase.
    pub fn stay(events: Vec<E>) -> (r: PhaseOutcome<P, E, O>)
        ensures
            r == (PhaseOutcome::<P, E, O>::Handled { events, transition: Transition::Stay }),
    {
        PhaseOutcome::Handled { events, transition: Transition::Stay }
    }

    /// Handled, moving to `phase`.
    pub fn to(phase: P, events: Vec<E>) -> (r: PhaseOutcome<P, E, O>)
        ensures
            r == (PhaseOutcome::<P, E, O>::Handled { events, transition: Transition::To(phase) }),
    {
        PhaseOutcome::Handled { events, transition: Transition::To(phase) }
    }

    /// Handled, ending the hand with `output` and the last events; empty events change neither
    /// meaning.
    pub fn finished(output: O, events: Vec<E>) -> (r: PhaseOutcome<P, E, O>)
        ensures
            r == (PhaseOutcome::<P, E, O>::Finished { events, output }),
    {
        PhaseOutcome::Finished { events, output }
    }
}

} // verus!
