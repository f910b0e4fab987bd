use makit::machine::{
    DispatchResult, Error, IntoMachineState, MachineContext, Outcome, State, Transition,
};

/// A toy counter: `Idle` counts inputs until `Busy`, which finishes on `Stop`.
#[derive(Debug, Default)]
struct Log {
    entries: Vec<String>,
    count: u32,
}

#[derive(Debug, Clone, PartialEq, Eq)]
enum Mode {
    Idle,
    Busy,
}

enum Cmd {
    Tick,
    Go,
    Stop,
    Fail,
}

impl MachineContext for Log {
    type State = Mode;
    type Input<'ipt> = Cmd;
    type Event = u32;
    type Error = String;

    fn initial_state() -> Mode {
        Mode::Idle
    }

    fn after_dispatch(&mut self, _state: &Mode, _input: &Cmd, events: &[u32]) {
        self.entries.push(format!("done {}", events.len()));
    }

    fn before_transition(&mut self, from: &Mode, to: &Mode) {
        self.entries.push(format!("{from:?}->{to:?}"));
    }

    fn after_transition(&mut self, state: &Mode) {
        self.entries.push(format!("now {state:?}"));
    }
}

impl State<Log> for Mode {
    fn advance(&mut self, ctx: &mut Log, input: &Cmd) -> Result<Outcome<Mode, u32>, Error<String>> {
        match (&*self, input) {
            (Mode::Idle, Cmd::Tick) => {
                ctx.count += 1;
                Ok(Outcome::stay(vec![ctx.count]))
            },
            (Mode::Idle, Cmd::Go) => Ok(Outcome::to(Mode::Busy, vec![])),
            (Mode::Busy, Cmd::Stop) => Ok(Outcome::Unhandled),
            (_, Cmd::Fail) => Err(Error::Custom("failed".to_string())),
            _ => Err(Error::Unhandled),
        }
    }

    fn handle_entry_action(&mut self, ctx: &mut Log) {
        ctx.entries.push(format!("enter {self:?}"));
    }

    fn handle_exit_action(&mut self, ctx: &mut Log) {
        ctx.entries.push(format!("exit {self:?}"));
    }
}

#[test]
fn machine_initializes_once() {
    let mut machine = Log::default().into_machine();
    assert!(!machine.is_initialized());
    machine.init();
    machine.init();
    assert!(machine.is_initialized());
    assert_eq!(machine.context().entries, vec!["enter Idle".to_string()]);
}

#[test]
fn dispatch_runs_hooks_in_order() {
    let mut machine = Log::default().into_machine();
    assert_eq!(machine.dispatch(&Cmd::Tick), Ok(vec![1]));
    assert_eq!(machine.dispatch(&Cmd::Go), Ok(vec![]));
    assert_eq!(*machine.state(), Mode::Busy);
    assert_eq!(
        machine.entries,
        vec!["enter Idle", "done 1", "Idle->Busy", "exit Idle", "enter Busy", "now Busy", "done 0"]
    );
}

#[test]
fn errors_run_no_hooks() {
    let mut machine = Log::default().into_machine();
    assert_eq!(machine.dispatch(&Cmd::Stop), Err(Error::Unhandled));
    assert_eq!(machine.dispatch(&Cmd::Fail), Err(Error::Custom("failed".to_string())));
    let _ = machine.dispatch(&Cmd::Go);
    assert_eq!(machine.dispatch(&Cmd::Stop), Err(Error::Unhandled));
    assert_eq!(machine.entries.len(), 6);
    assert_eq!(machine.count, 0);
}

#[test]
fn strict_machine_dispatches_after_init() {
    let strict = Log::default().into_strict_machine();
    assert!(strict.context().entries.is_empty());
    let mut ready = strict.init();
    assert_eq!(ready.dispatch(&Cmd::Tick), Ok(vec![1]));
    assert_eq!(ready.dispatch(&Cmd::Tick), Ok(vec![2]));
    assert_eq!(*ready.state(), Mode::Idle);
    assert_eq!(ready.count, 2);
}

#[test]
fn error_mapping_keeps_unhandled() {
    let custom: Error<u8> = Error::Custom(3);
    assert_eq!(custom.map_custom(|x| u32::from(x) * 10), Error::Custom(30));
    let unhandled: Error<u8> = Error::Unhandled;
    assert_eq!(unhandled.map_custom(|x| u32::from(x) * 10), Error::<u32>::Unhandled);
}

#[test]
fn dispatch_result_and_outcome_helpers() {
    let handled: DispatchResult<u8> = DispatchResult::Handled { events: vec![] };
    assert!(handled.is_handled());
    assert_eq!(handled.events(), Some(&[][..]));
    let unhandled: DispatchResult<u8> = DispatchResult::Unhandled;
    assert!(!unhandled.is_handled());
    assert_eq!(unhandled.events(), None);
    assert_eq!(Outcome::<u8, u8>::stay(vec![1]), Outcome::Handled { events: vec![1], transition: Transition::Stay });
    assert_eq!(Outcome::<u8, u8>::to(4, vec![]), Outcome::Handled { events: vec![], transition: Transition::To(4) });
}

#[test]
fn refused_inputs_leave_an_initialized_machine_unchanged() {
    let mut machine = Log::default().into_strict_machine().init();
    assert_eq!(machine.dispatch(&Cmd::Tick), Ok(vec![1]));
    let entries = machine.context().entries.clone();
    assert_eq!(machine.dispatch(&Cmd::Fail), Err(Error::Custom("failed".to_string())));
    assert_eq!(machine.dispatch(&Cmd::Stop), Err(Error::Unhandled));
    assert_eq!(machine.context().entries, entries);
    assert_eq!(machine.context().count, 1);
    assert_eq!(*machine.state(), Mode::Idle);
    let mut lazy = Log::default().into_machine();
    assert_eq!(lazy.dispatch(&Cmd::Stop), Err(Error::Unhandled));
    assert_eq!(lazy.context().entries, vec!["enter Idle".to_string()]);
    assert_eq!(lazy.dispatch(&Cmd::Fail), Err(Error::Custom("failed".to_string())));
    assert_eq!(lazy.context().entries, vec!["enter Idle".to_string()]);
}
