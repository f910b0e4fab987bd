//! The state change one advance asks the driver to apply.

use vstd::prelude::*;

verus! {

/// The transition an advance asks the machine to apply.
///
/// It belongs to the success protocol of [`crate::machine::State::advance`]; the machine
/// completes it and hands only the events back.
#[derive(Clone, Debug, PartialEq, Eq)]
pub enum Transition<S> {
    /// Keep the current state; no exit or entry hook runs. The advance may still have changed
    /// data inside the state and the context.
    Stay,
    /// Leave the current state and enter the given one, hooks included, even when both are
    /// equal as values.
    To(S),
}

} // verus!
