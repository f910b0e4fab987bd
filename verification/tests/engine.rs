use makit::engine::action::setup::{dealer_for_dice, DetermineDealer, Shuffle};
use makit::engine::{Action, Engine, EngineInput, Phase, PhaseOutcome, PhaseResult, PhaseVariant, Progress};
use makit::machine::{Error, IntoMachineState};
use makit::{Context, Seat, SeatMask, Seed, Tile, TileCounts, Variant, Wall};

fn t(code: u8) -> Tile {
    Tile::from_code(code).unwrap()
}

fn s(code: u8) -> Seat {
    Seat::from_code(code).unwrap()
}

struct Demo;

impl Variant for Demo {
    type Rule = Vec<u8>;
    type Context = ();
    type SeatContext = ();

    fn initial_context(rule: Vec<u8>) -> Context<Demo> {
        let wall = Wall::from_tiles(rule.iter().map(|c| t(*c)).collect());
        let mut ctx: Context<Demo> = Context::new(rule, Seed::from_bytes([9; 32]), ());
        for code in [1u8, 3, 4] {
            assert!(ctx.join(s(code), ()).is_ok());
        }
        let _ = ctx.replace_wall(wall);
        ctx
    }
}

struct Table {
    rounds: u32,
}

impl PhaseVariant for Demo {
    type Phase = Table;
    type Input = u8;
    type Event = String;
    type Output = u32;
    type Error = String;

    fn initial_phase(_ctx: &Context<Demo>) -> Table {
        Table { rounds: 0 }
    }
}

impl Phase<Demo> for Table {
    fn handle(&mut self, ctx: &mut Context<Demo>, input: &u8) -> PhaseResult<Demo> {
        match *input {
            0 => {
                let mut shuffle = Shuffle;
                match Action::start(&mut shuffle, ctx) {
                    Progress::Complete(events) => Ok(PhaseOutcome::stay(vec![format!("shuffled {}", events[0].tile_count)])),
                    Progress::Running(_) => Err(Error::Unhandled),
                }
            },
            1 => {
                let mut pick = DetermineDealer::new(true);
                let _ = Action::start(&mut pick, ctx);
                Ok(PhaseOutcome::to(Table { rounds: self.rounds + 1 }, vec!["dealer".to_string()]))
            },
            2 => Ok(PhaseOutcome::finished(self.rounds, vec!["end".to_string()])),
            3 => Err(Error::Custom("bad".to_string())),
            _ => Err(Error::Unhandled),
        }
    }
}

fn wall_codes() -> Vec<u8> {
    (1..=20).collect()
}

#[test]
fn engine_runs_phases_to_the_end() {
    let mut machine = Engine::<Demo>::new(wall_codes()).into_machine();
    assert_eq!(machine.dispatch(&EngineInput::Phase(0)), Err(Error::Unhandled));
    assert_eq!(machine.dispatch(&EngineInput::Start), Ok(vec![]));
    assert_eq!(machine.dispatch(&EngineInput::Start), Err(Error::Unhandled));
    assert_eq!(machine.dispatch(&EngineInput::Phase(0)), Ok(vec!["shuffled 20".to_string()]));
    assert_eq!(machine.dispatch(&EngineInput::Phase(9)), Err(Error::Unhandled));
    assert_eq!(machine.dispatch(&EngineInput::Phase(3)), Err(Error::Custom("bad".to_string())));
    assert_eq!(machine.dispatch(&EngineInput::Phase(1)), Ok(vec!["dealer".to_string()]));
    assert!(machine.state().output().is_none());
    assert_eq!(machine.dispatch(&EngineInput::Phase(2)), Ok(vec!["end".to_string()]));
    assert_eq!(machine.state().output(), Some(&1));
    assert_eq!(machine.dispatch(&EngineInput::Phase(0)), Err(Error::Unhandled));
}

#[test]
fn shuffle_permutes_the_remaining_wall() {
    let mut ctx = Demo::initial_context(wall_codes());
    let _ = ctx.wall().len();
    let before: Vec<Tile> = ctx.wall().as_slice().to_vec();
    let mut shuffle = Shuffle;
    let events = match Action::start(&mut shuffle, &mut ctx) {
        Progress::Complete(events) => events,
        Progress::Running(_) => panic!("a shuffle completes at once"),
    };
    assert_eq!(events.len(), 1);
    assert_eq!(events[0].tile_count, 20);
    let after: Vec<Tile> = ctx.wall().as_slice().to_vec();
    assert_eq!(TileCounts::from_tiles(&after), TileCounts::from_tiles(&before));
    assert_ne!(after, before);
    let mut again = Demo::initial_context(wall_codes());
    let _ = Action::start(&mut Shuffle, &mut again);
    assert_eq!(again.wall().as_slice(), &after[..]);
}

#[test]
fn shuffle_of_an_empty_wall_completes() {
    let mut ctx = Demo::initial_context(vec![]);
    match Action::start(&mut Shuffle, &mut ctx) {
        Progress::Complete(events) => assert_eq!(events[0].tile_count, 0),
        Progress::Running(_) => panic!("a shuffle completes at once"),
    }
}

#[test]
fn dealer_counts_joined_seats_counter_clockwise() {
    let joined = SeatMask::from_seats(&[s(1), s(3), s(4)]);
    assert_eq!(dealer_for_dice(joined, s(1), [1, 1]), s(4));
    assert_eq!(dealer_for_dice(joined, s(1), [1, 2]), s(3));
    assert_eq!(dealer_for_dice(joined, s(1), [2, 2]), s(1));
    assert_eq!(dealer_for_dice(joined, s(1), [6, 6]), s(3));
    assert_eq!(dealer_for_dice(joined, s(1), [2, 3]), s(4));
    let alone = SeatMask::from_seats(&[s(2)]);
    assert_eq!(dealer_for_dice(alone, s(2), [6, 5]), s(2));
}

#[test]
fn determine_dealer_sets_dealer_and_east() {
    let mut ctx = Demo::initial_context(wall_codes());
    let mut pick = DetermineDealer::new(true);
    let event = match Action::start(&mut pick, &mut ctx) {
        Progress::Complete(events) => events[0],
        Progress::Running(_) => panic!("picking a dealer completes at once"),
    };
    assert!((1..=6).contains(&event.dice[0]));
    assert!((1..=6).contains(&event.dice[1]));
    assert_eq!(event.dealer, dealer_for_dice(SeatMask::from_seats(&[s(1), s(3), s(4)]), s(1), event.dice));
    assert_eq!(ctx.dealer(), Some(event.dealer));
    assert_eq!(ctx.east().seat(), event.dealer);
    assert_eq!(event.east.seat(), event.dealer);

    let mut kept = Demo::initial_context(wall_codes());
    let mut pick = DetermineDealer::new(false);
    let other = match Action::start(&mut pick, &mut kept) {
        Progress::Complete(events) => events[0],
        Progress::Running(_) => panic!("picking a dealer completes at once"),
    };
    assert_eq!(other.dice, event.dice);
    assert_eq!(other.dealer, event.dealer);
    assert_eq!(kept.east().seat(), s(1));
    assert_eq!(kept.dealer(), Some(event.dealer));
}

#[test]
fn shuffle_commit_installs_the_given_order() {
    let mut ctx = Demo::initial_context(wall_codes());
    let seats_before = ctx.participants();
    let order = vec![t(7), t(2), t(7)];
    match Shuffle::commit(&mut ctx, order.clone()) {
        Progress::Complete(events) => assert_eq!(events[0].tile_count, 3),
        Progress::Running(_) => panic!("a commit completes at once"),
    }
    assert_eq!(ctx.wall().as_slice(), &order[..]);
    assert_eq!(ctx.participants(), seats_before);
}
