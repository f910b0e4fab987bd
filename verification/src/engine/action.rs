//! The protocol of actions that may span several interactions, and their progress.

use vstd::prelude::*;

use crate::context::{Context, Variant};

/// The setup actions run before play; concrete actions are not re-exported at the root.
pub mod setup;

verus! {

/// A mahjong action that a phase can start and feed on its own.
///
/// An action may keep data across interactions, such as choices still being collected; the
/// phase decides when to start it, which inputs to pass and what its completion means. Both
/// the start and later inputs see the context of the hand.
///
/// A start cannot be refused: the caller first meets what the concrete action needs, stated by
/// [`Action::can_start`]. Before returning [`ActionOutcome::Unhandled`] for a later input, the
/// action must only have read, never changed itself, the context, random progress or outside
/// facts; nothing is rolled back.
pub trait Action<V: Variant> {
    /// The input the action accepts; `'ipt` is the lifetime of data an input may borrow.
    type Input<'ipt>;

    /// The events the action produces; meaning and client projection are the upper layer's.
    type Event;

    /// What the context must satisfy before this action starts.
    spec fn can_start(&self, ctx: Context<V>) -> bool;

    /// Starts the action; a one-shot action such as a shuffle may complete at once, others
    /// return [`Progress::Running`] and wait for inputs.
    fn start(&mut self, ctx: &mut Context<V>) -> Progress<Self::Event>
        requires
            old(self).can_start(*old(ctx)),
    ;

    /// Handles one input while the action runs: handled with its progress and events, or not
    /// handled, decided before any change.
    fn handle(&mut self, ctx: &mut Context<V>, input: &Self::Input<'_>) -> ActionOutcome<Self::Event>;
}

/// The progress of an action after its start or one handled input; both carry ordered events,
/// possibly none. Nothing here loops a machine, changes phase or builds the next input.
#[derive(Clone, Debug, PartialEq, Eq)]
pub enum Progress<T> {
    /// The input was handled and the action keeps running.
    Running(Vec<T>),
    /// The input was handled and the action is over.
    Complete(Vec<T>),
}

/// What an action made of one later input; it names no phase transition.
#[derive(Clone, Debug, PartialEq, Eq)]
pub enum ActionOutcome<T> {
    /// The input was handled, with the action's progress and events.
    Handled(Progress<T>),
    /// The action did not handle the input and carries no events; it changed nothing first.
    Unhandled,
}

} // verus!
