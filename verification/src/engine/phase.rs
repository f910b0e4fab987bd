//! The phase contract of a concrete game and the final-result protocol of a hand.

use vstd::prelude::*;

mod outcome;

pub use outcome::PhaseOutcome;

use crate::context::{Context, Variant};
use crate::machine::Error;

verus! {

/// The result of one phase input under a variant's protocol: its main phase, events, final
/// result and business error. A transition always targets the main phase `V::Phase`, whatever
/// type handled the input.
pub type PhaseResult<V> = Result<
    PhaseOutcome<<V as PhaseVariant>::Phase, <V as PhaseVariant>::Event, <V as PhaseVariant>::Output>,
    Error<<V as PhaseVariant>::Error>,
>;

/// The phases of a concrete game and their input handling.
///
/// A phase decides what follows a completed action; only the end of the whole hand delivers the
/// final result. The implementing type may be the main phase or a handler it holds; all return
/// [`PhaseResult`] and transitions target `V::Phase`.
pub trait Phase<V: PhaseVariant>: Sized {
    /// Handles one input: continue (staying or moving to the next main phase) or finish the
    /// hand with its result and last events.
    ///
    /// Returns [`Error::Unhandled`] for an input this phase does not take and [`Error::Custom`]
    /// when a recognised input fails a business check. On either error the phase, the context and
    /// the domain facts must be as they were: check first, commit after. The engine rolls
    /// nothing back and records no input, event or transition for an error.
    /// What one handling does: from this phase and `ctx`, with `input`, it leaves `phase` and
    /// `after` and returns `result`. An implementation states its own; by default it states
    /// nothing.
    open spec fn handled(self, ctx: Context<V>, input: &V::Input, phase: Self, after: Context<V>, result: PhaseResult<V>) -> bool {
        true
    }

    fn handle(&mut self, ctx: &mut Context<V>, input: &V::Input) -> (r: PhaseResult<V>)
        ensures
            old(self).handled(*old(ctx), input, *final(self), *final(ctx), r),
            (r is Err || (r matches Ok(PhaseOutcome::Unhandled))) ==> *final(self) == *old(self) && *final(ctx) == *old(ctx),
    ;
}

/// The input, event, final result, business error and main phase of a game.
///
/// The main phase is only declared here; the engine needs `V::Phase: Phase<V>` where it runs,
/// not to be built.
pub trait PhaseVariant: Variant {
    /// The data of the main phase, the target of every phase transition.
    type Phase;

    /// The phase input; the engine keeps a copy of each handled one.
    type Input: Clone;

    /// The events of a handled input; the engine keeps copies and returns the originals.
    type Event: Clone;

    /// The business result delivered when the hand ends; `()` when there is none.
    type Output;

    /// The business error a phase may return inside [`Error::Custom`].
    type Error;

    /// The initial phase data for an existing context; no input is handled.
    fn initial_phase(ctx: &Context<Self>) -> (r: Self::Phase)
        ensures
            Self::initial(*ctx, r),
    ;

    /// Whether `phase` is the initial phase the variant builds for `ctx`. An implementation
    /// states its own; by default it states nothing.
    open spec fn initial(ctx: Context<Self>, phase: Self::Phase) -> bool {
        true
    }
}

} // verus!
