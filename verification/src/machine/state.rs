//! The input handling and the entry and exit hooks of one state.

use vstd::prelude::*;

use super::error::Error;
use super::outcome::Outcome;
use super::transition::Transition;
use super::MachineContext;

verus! {

/// The input handling and the transition hooks of one state.
///
/// A state checks its input and returns an [`Outcome`] on success or an [`Error`]. Both errors
/// require the state and the context to be as they were at the call: checks come before any
/// change. Entry and exit hooks do maintenance that always completes; they return neither an
/// error nor events. Nothing here catches panics, rolls data back or undoes outside effects.
pub trait State<M: MachineContext>: Sized {
    /// What one advance does: from this state and `ctx`, with `input`, it leaves `state` and
    /// `after` and returns `result`. An implementation states its own; by default it states
    /// nothing.
    open spec fn advanced(
        self,
        ctx: M,
        input: &M::Input<'_>,
        state: Self,
        after: M,
        result: Result<Outcome<Self, M::Event>, Error<M::Error>>,
    ) -> bool {
        true
    }

    /// Handles one input; on success, the ordered events and the transition to apply.
    ///
    /// The implementation checks first and changes state and context after. On either error it
    /// must leave them as they were: no child machine advanced, no random progress used, no
    /// domain event written. `Ok` means the input was handled; a real change of state is
    /// expressed by [`crate::machine::Transition::To`], not by replacing `self` and staying.
    ///
    /// Returns [`Error::Unhandled`] when the state does not handle the input and
    /// [`Error::Custom`] with the reason when a business condition fails.
    fn advance(&mut self, ctx: &mut M, input: &M::Input<'_>) -> (r: Result<Outcome<Self, M::Event>, Error<M::Error>>)
        ensures
            Self::advanced(*old(self), *old(ctx), input, *final(self), *final(ctx), r),
            (r is Err || (r matches Ok(Outcome::Unhandled))) ==> *final(self) == *old(self) && *final(ctx) == *old(ctx),
    ;

    /// What the entry hook does: from this state and `ctx` it leaves `state` and `after`. An
    /// implementation states its own; by default it states nothing.
    open spec fn entered(self, ctx: M, state: Self, after: M) -> bool {
        true
    }

    /// Maintenance on entering this state, at initialization and after each transition to it.
    /// A state with nothing to do gives it an empty body.
    fn handle_entry_action(&mut self, ctx: &mut M)
        ensures
            old(self).entered(*old(ctx), *final(self), *final(ctx)),
    ;

    /// What the exit hook does: from this state and `ctx` it leaves `state` and `after`. An
    /// implementation states its own; by default it states nothing.
    open spec fn exited(self, ctx: M, state: Self, after: M) -> bool {
        true
    }

    /// Maintenance on leaving this state, only when an advance asks for a transition. A state
    /// with nothing to do gives it an empty body.
    fn handle_exit_action(&mut self, ctx: &mut M)
        ensures
            old(self).exited(*old(ctx), *final(self), *final(ctx)),
    ;
}

/// Whether `state` and `ctx` are what a dispatch leaves after an advance left `left` and
/// `left_ctx` and returned `result`:
/// - for an error or an unhandled outcome, the state and context the advance left;
/// - for [`Transition::Stay`], the state the advance left and the context the success hook
///   leaves;
/// - for [`Transition::To`], in this order: the before-transition hook, the old state's exit
///   hook, the new state's entry hook (which gives the final state), the after-transition hook
///   and the success hook, each starting from what the one before left.
pub open spec fn settled<M: MachineContext>(
    result: Result<Outcome<M::State, M::Event>, Error<M::Error>>,
    left: M::State,
    left_ctx: M,
    input: &M::Input<'_>,
    state: M::State,
    ctx: M,
) -> bool where M::State: State<M> {
    match result {
        Ok(Outcome::Handled { events, transition: Transition::Stay }) => state == left
            && left_ctx.dispatched(left, input, events@, ctx),
        Ok(Outcome::Handled { events, transition: Transition::To(next) }) => exists|
            before: M,
            gone: M::State,
            exited: M,
            entered: M,
            after: M,
        |
            #![trigger left_ctx.before_transitioned(left, next, before), left.exited(before, gone, exited), next.entered(exited, state, entered), entered.after_transitioned(state, after)]
            left_ctx.before_transitioned(left, next, before) && left.exited(before, gone, exited)
                && next.entered(exited, state, entered) && entered.after_transitioned(state, after)
                && after.dispatched(state, input, events@, ctx),
        _ => state == left && ctx == left_ctx,
    }
}

} // verus!
