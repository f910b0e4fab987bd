//! The engine state machine: the context of a hand with records of handled inputs and events.

use vstd::prelude::*;

use std::collections::VecDeque;

use super::phase::{Phase, PhaseOutcome, PhaseResult, PhaseVariant};
use crate::context::Context;
use crate::machine::{Error, MachineContext, Outcome, State, Transition};

verus! {

/// The context of one hand with the records of handled phase inputs and events.
///
/// The current phase lives in [`EngineState`]; the machine driver applies its transitions. The
/// input record holds only phase inputs that were handled, never the start command or an
/// unhandled input. Events are kept as copies in order and also returned by the dispatch; the
/// input and events that end the hand are recorded too.
pub struct Engine<V: PhaseVariant> {
    context: Context<V>,
    inputs: VecDeque<V::Input>,
    events: VecDeque<V::Event>,
}

/// A lifecycle command or a phase input for the engine.
pub enum EngineInput<P> {
    /// Asks a preparing engine to create the initial phase.
    Start,
    /// Hands the input to the running phase.
    Phase(P),
}

/// The outer lifecycle of the engine, with the current phase or the final result of the hand.
///
/// Moving between phases stays [`EngineState::Running`]; only [`PhaseOutcome::Finished`] ends
/// the hand, and its result moves into [`EngineState::Finished`].
pub enum EngineState<P, O> {
    /// No phase yet; waiting for the start command.
    Preparing,
    /// Runs the current phase.
    Running(P),
    /// The hand is over; holds the final result and handles no input.
    Finished(O),
}

impl<P, O> EngineState<P, O> {
    /// Borrows the final result; `None` until the hand is over.
    pub fn output(&self) -> (r: Option<&O>)
        ensures
            self matches EngineState::Finished(o) ==> r == Some(o),
            !(self is Finished) ==> r is None,
    {
        match self {
            EngineState::Finished(output) => Some(output),
            _ => None,
        }
    }
}

/// What the engine makes of a phase result: an error as it is, an unhandled outcome as
/// [`Error::Unhandled`], a continuing outcome with its transition moved into
/// [`EngineState::Running`], and a finished hand as a move to [`EngineState::Finished`].
pub open spec fn adapted<V: PhaseVariant>(result: PhaseResult<V>) -> Result<
    Outcome<EngineState<V::Phase, V::Output>, V::Event>,
    Error<V::Error>,
> {
    match result {
        Err(e) => Err(e),
        Ok(PhaseOutcome::Unhandled) => Err(Error::Unhandled),
        Ok(PhaseOutcome::Handled { events, transition: Transition::Stay }) => Ok(
            Outcome::Handled { events, transition: Transition::Stay },
        ),
        Ok(PhaseOutcome::Handled { events, transition: Transition::To(next) }) => Ok(
            Outcome::Handled { events, transition: Transition::To(EngineState::Running(next)) },
        ),
        Ok(PhaseOutcome::Finished { events, output }) => Ok(
            Outcome::Handled { events, transition: Transition::To(EngineState::Finished(output)) },
        ),
    }
}

/// Whether `after` records, beyond `before`, one copy of `input` and copies of `events` in order.
pub open spec fn recorded<V: PhaseVariant>(before: Engine<V>, after: Engine<V>, input: V::Input, events: Seq<V::Event>) -> bool {
    &&& after.spec_inputs().len() == before.spec_inputs().len() + 1
    &&& after.spec_inputs().drop_last() == before.spec_inputs()
    &&& cloned(input, after.spec_inputs().last())
    &&& after.spec_events().len() == before.spec_events().len() + events.len()
    &&& after.spec_events().take(before.spec_events().len() as int) == before.spec_events()
    &&& forall|i: int| 0 <= i < events.len() ==> cloned(events[i], #[trigger] after.spec_events()[before.spec_events().len() + i])
}

impl<V: PhaseVariant> Engine<V> {
    /// The context of the hand.
    pub closed spec fn spec_context(self) -> Context<V> {
        self.context
    }

    /// The handled phase inputs, oldest first.
    pub closed spec fn spec_inputs(self) -> Seq<V::Input> {
        self.inputs@
    }

    /// The recorded events, oldest first.
    pub closed spec fn spec_events(self) -> Seq<V::Event> {
        self.events@
    }

    /// Builds the initial context from the rule through the variant, with empty records. No
    /// phase is created; that waits for [`EngineInput::Start`].
    pub fn new(rule: V::Rule) -> (r: Engine<V>)
        ensures
            r.spec_inputs() == Seq::<V::Input>::empty(),
            r.spec_events() == Seq::<V::Event>::empty(),
    {
        let context = V::initial_context(rule);
        Engine { context, inputs: VecDeque::new(), events: VecDeque::new() }
    }

    /// Takes a phase result for `input`: an error or an unhandled outcome changes nothing and
    /// comes back as an error; a handled one records a copy of the input and of each event and is
    /// adapted for the driver, a finished hand becoming a move to [`EngineState::Finished`].
    fn absorb(&mut self, input: &V::Input, result: PhaseResult<V>) -> (r: Result<
        Outcome<EngineState<V::Phase, V::Output>, V::Event>,
        Error<V::Error>,
    >)
        ensures
            result matches Err(e) ==> r == Err::<Outcome<EngineState<V::Phase, V::Output>, V::Event>, Error<V::Error>>(e),
            result matches Ok(PhaseOutcome::Unhandled) ==> r == Err::<
                Outcome<EngineState<V::Phase, V::Output>, V::Event>,
                Error<V::Error>,
            >(Error::Unhandled),
            result matches Ok(PhaseOutcome::Handled { events, transition: Transition::Stay }) ==> r == Ok::<
                Outcome<EngineState<V::Phase, V::Output>, V::Event>,
                Error<V::Error>,
            >(Outcome::Handled { events, transition: Transition::Stay }),
            result matches Ok(PhaseOutcome::Handled { events, transition: Transition::To(next) }) ==> r == Ok::<
                Outcome<EngineState<V::Phase, V::Output>, V::Event>,
                Error<V::Error>,
            >(Outcome::Handled { events, transition: Transition::To(EngineState::Running(next)) }),
            result matches Ok(PhaseOutcome::Finished { events, output }) ==> r == Ok::<
                Outcome<EngineState<V::Phase, V::Output>, V::Event>,
                Error<V::Error>,
            >(Outcome::Handled { events, transition: Transition::To(EngineState::Finished(output)) }),
            r == adapted::<V>(result),
            r is Err ==> *final(self) == *old(self),
            r matches Ok(Outcome::Handled { events, .. }) ==> final(self).spec_context() == old(self).spec_context()
                && recorded(*old(self), *final(self), *input, events@),
            r matches Ok(Outcome::Handled { events, .. }) ==> {
                &&& final(self).spec_context() == old(self).spec_context()
                &&& final(self).spec_inputs().len() == old(self).spec_inputs().len() + 1
                &&& final(self).spec_inputs().drop_last() == old(self).spec_inputs()
                &&& cloned(*input, final(self).spec_inputs().last())
                &&& final(self).spec_events().len() == old(self).spec_events().len() + events@.len()
                &&& final(self).spec_events().take(old(self).spec_events().len() as int) == old(self).spec_events()
                &&& forall|i: int| 0 <= i < events@.len() ==> cloned(
                    events@[i],
                    #[trigger] final(self).spec_events()[old(self).spec_events().len() + i],
                )
            },
    {
        let (events, transition) = match result {
            Err(error) => {
                return Err(error);
            },
            Ok(PhaseOutcome::Unhandled) => {
                return Err(Error::Unhandled);
            },
            Ok(PhaseOutcome::Handled { events, transition }) => {
                let transition = match transition {
                    Transition::Stay => Transition::Stay,
                    Transition::To(next) => Transition::To(EngineState::Running(next)),
                };
                (events, transition)
            },
            Ok(PhaseOutcome::Finished { events, output }) => (events, Transition::To(EngineState::Finished(output))),
        };
        let ghost old_inputs = self.inputs@;
        let kept = input.clone();
        self.inputs.push_back(kept);
        proof {
            assert(self.inputs@.drop_last() =~= old_inputs);
        }
        let ghost start = self.events@;
        let ghost pushed = self.inputs@;
        let ghost context = self.context;
        let mut i: usize = 0;
        while i < events.len()
            invariant
                self.inputs@ == pushed,
                self.context == context,
                i <= events@.len(),
                self.events@.len() == start.len() + i,
                self.events@.take(start.len() as int) == start,
                forall|j: int| 0 <= j < i ==> cloned(events@[j], #[trigger] self.events@[start.len() + j]),
            decreases events@.len() - i,
        {
            let copy = events[i].clone();
            self.events.push_back(copy);
            proof {
                assert(self.events@.take(start.len() as int) =~= start);
            }
            i += 1;
        }
        Ok(Outcome::Handled { events, transition })
    }
}

impl<V: PhaseVariant> MachineContext for Engine<V> {
    type State = EngineState<V::Phase, V::Output>;
    type Input<'ipt> = EngineInput<V::Input>;
    type Event = V::Event;
    type Error = V::Error;

    /// The engine starts in [`EngineState::Preparing`].
    fn initial_state() -> (r: EngineState<V::Phase, V::Output>)
        ensures
            r is Preparing,
    {
        EngineState::Preparing
    }

    /// The engine keeps its records itself; nothing more happens on success.
    open spec fn dispatched(
        self,
        state: EngineState<V::Phase, V::Output>,
        input: &EngineInput<V::Input>,
        events: Seq<V::Event>,
        after: Engine<V>,
    ) -> bool {
        after == self
    }

    /// Does nothing.
    fn after_dispatch(&mut self, state: &EngineState<V::Phase, V::Output>, input: &EngineInput<V::Input>, events: &[V::Event]) {
    }

    /// Nothing happens before a transition.
    open spec fn before_transitioned(
        self,
        from: EngineState<V::Phase, V::Output>,
        to: EngineState<V::Phase, V::Output>,
        after: Engine<V>,
    ) -> bool {
        after == self
    }

    /// Does nothing.
    fn before_transition(&mut self, from: &EngineState<V::Phase, V::Output>, to: &EngineState<V::Phase, V::Output>) {
    }

    /// Nothing happens after a transition.
    open spec fn after_transitioned(self, state: EngineState<V::Phase, V::Output>, after: Engine<V>) -> bool {
        after == self
    }

    /// Does nothing.
    fn after_transition(&mut self, state: &EngineState<V::Phase, V::Output>) {
    }
}

impl<V: PhaseVariant> State<Engine<V>> for EngineState<V::Phase, V::Output> where V::Phase: Phase<V> {
    /// Preparing and [`EngineInput::Start`]: moves to the initial phase with no events and
    /// an unchanged engine. Running and a phase input: the phase's result as the engine takes
    /// it; an error records nothing. Any other pair is not handled and changes nothing.
    open spec fn advanced(
        self,
        ctx: Engine<V>,
        input: &EngineInput<V::Input>,
        state: Self,
        after: Engine<V>,
        result: Result<Outcome<EngineState<V::Phase, V::Output>, V::Event>, Error<V::Error>>,
    ) -> bool {
        &&& !(self is Preparing && *input is Start) && !(self is Running && *input is Phase) ==> result
            == Err::<Outcome<EngineState<V::Phase, V::Output>, V::Event>, Error<V::Error>>(Error::Unhandled)
            && state == self && after == ctx
        &&& self is Preparing && *input is Start ==> (result matches Ok(
            Outcome::Handled { events, transition: Transition::To(EngineState::Running(phase)) },
        ) && events@.len() == 0 && V::initial(ctx.spec_context(), phase)) && after == ctx && state == self
        &&& self matches EngineState::Running(current) ==> (*input matches EngineInput::Phase(p) ==> exists|
            next: V::Phase,
            context: Context<V>,
            handled: PhaseResult<V>,
        |
            #[trigger] current.handled(ctx.spec_context(), &p, next, context, handled) && result == adapted::<V>(handled)
                && state == EngineState::<V::Phase, V::Output>::Running(next)
                && (result is Err ==> after == ctx && next == current)
                && (result matches Ok(Outcome::Handled { events, .. }) ==> after.spec_context() == context
                    && recorded(ctx, after, p, events@)))
        &&& result is Err ==> after.spec_inputs() == ctx.spec_inputs() && after.spec_events() == ctx.spec_events()
    }

    /// Preparing and [`EngineInput::Start`]: creates the initial phase and moves to it with no
    /// events. Running and a phase input: hands the input to the phase and takes its result (see
    /// the engine's recording). Any other pair is not handled and changes nothing.
    fn advance(
        &mut self,
        ctx: &mut Engine<V>,
        input: &EngineInput<V::Input>,
    ) -> (r: Result<Outcome<EngineState<V::Phase, V::Output>, V::Event>, Error<V::Error>>)
    {
        match self {
            EngineState::Preparing => match input {
                EngineInput::Start => {
                    let phase = V::initial_phase(&ctx.context);
                    let r = Ok(Outcome::to(EngineState::Running(phase), Vec::new()));
                    r
                },
                EngineInput::Phase(_) => Err(Error::Unhandled),
            },
            EngineState::Running(phase) => match input {
                EngineInput::Phase(p) => {
                    let ghost current = *phase;
                    let result = phase.handle(&mut ctx.context, p);
                    let ghost left = (*phase, ctx.context);
                    let r = ctx.absorb(p, result);
                    proof {
                        assert(current.handled(old(ctx).spec_context(), p, left.0, left.1, result));
                    }
                    r
                },
                EngineInput::Start => Err(Error::Unhandled),
            },
            EngineState::Finished(_) => Err(Error::Unhandled),
        }
    }

    /// The engine does nothing on entering a state.
    open spec fn entered(self, ctx: Engine<V>, state: Self, after: Engine<V>) -> bool {
        state == self && after == ctx
    }

    /// Does nothing.
    fn handle_entry_action(&mut self, ctx: &mut Engine<V>) {
    }

    /// The engine does nothing on leaving a state.
    open spec fn exited(self, ctx: Engine<V>, state: Self, after: Engine<V>) -> bool {
        state == self && after == ctx
    }

    /// Does nothing.
    fn handle_exit_action(&mut self, ctx: &mut Engine<V>) {
    }
}

} // verus!
