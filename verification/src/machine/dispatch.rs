//! Whether an input was handled, with its events.

use vstd::prelude::*;

verus! {

/// Whether one input was handled; no pending transition is included.
///
/// A handled input may have changed data even without events, so callers decide by the variant,
/// never by an empty event list.
#[derive(Clone, Debug, PartialEq, Eq)]
pub enum DispatchResult<E> {
    /// The input was handled and any transition and its hooks are done.
    Handled {
        /// The events of this input, in order; may be empty.
        events: Vec<E>,
    },
    /// The current state did not handle the input; no transition hook ran.
    Unhandled,
}

impl<E> DispatchResult<E> {
    /// Whether the input was handled, whatever the number of events.
    pub fn is_handled(&self) -> (r: bool)
        ensures
            r == (self is Handled),
    {
        match self {
            DispatchResult::Handled { .. } => true,
            DispatchResult::Unhandled => false,
        }
    }

    /// The events of a handled input; `Some` of an empty slice still means handled.
    pub fn events(&self) -> (r: Option<&[E]>)
        ensures
            self is Unhandled ==> r is None,
            self matches DispatchResult::Handled { events } ==> (r matches Some(s) && s@ == events@),
    {
        match self {
            DispatchResult::Handled { events } => Some(events.as_slice()),
            DispatchResult::Unhandled => None,
        }
    }
}

} // verus!
