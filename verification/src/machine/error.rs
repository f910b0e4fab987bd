//! Why an input failed: not handled, or a concrete business error.

use vstd::prelude::*;

verus! {

/// Why an input failed, keeping "not handled" apart from a concrete business error.
///
/// [`Error::Unhandled`] carries no reason; [`Error::Custom`] keeps the original error. Layers
/// can convert their business errors with [`Error::map_custom`] without touching "not handled".
#[derive(Clone, Debug, PartialEq, Eq)]
pub enum Error<E> {
    /// The current state does not handle the input.
    Unhandled,
    /// The input failed on a concrete business condition.
    Custom(E),
}

impl<E> Error<E> {
    /// Converts the business error, keeping the category; `map` is called only for
    /// [`Error::Custom`], and [`Error::Unhandled`] maps to itself.
    pub fn map_custom<F>(self, map: impl FnOnce(E) -> F) -> (r: Error<F>)
        requires
            self matches Error::Custom(e) ==> call_requires(map, (e,)),
        ensures
            self is Unhandled ==> r is Unhandled,
            self matches Error::Custom(e) ==> (r matches Error::Custom(f) && call_ensures(map, (e,), f)),
    {
        match self {
            Error::Unhandled => Error::Unhandled,
            Error::Custom(error) => Error::Custom(map(error)),
        }
    }
}

} // verus!
