//! Mahjong actions, the phase protocol, and their adaptation to the general state machine.
//!
//! An [`Action`] handles its start and later inputs and may keep data across several
//! interactions; both return a [`Progress`] that tells a running action from a complete one.
//! Routing inputs, starting actions and reading their completion belong to the phases.
//!
//! [`PhaseVariant`] declares the input, event, business error and final result of a hand and
//! names its main phase; a [`Phase`] uses these types. [`PhaseOutcome::Handled`] keeps events and
//! a phase transition, [`PhaseOutcome::Finished`] delivers the final result with the last events,
//! while an action's [`Progress::Complete`] only ends that action. Phases tell "not handled" from
//! a business failure with [`crate::machine::Error`].
//!
//! The [`Engine`] owns the context of one hand and the records of handled inputs and events;
//! [`EngineInput`] tells the start command from a phase input. The final result lives in
//! [`EngineState::Finished`] and is read from the machine's state. Errors append no record and
//! change no state; implementations check before they change, and nothing is rolled back.

use vstd::prelude::*;

pub mod action;
mod phase;
mod runtime;

pub use action::{Action, ActionOutcome, Progress};
pub use phase::{Phase, PhaseOutcome, PhaseResult, PhaseVariant};
pub use runtime::{Engine, EngineInput, EngineState};
