use makit::context::{DealRequest, ExchangeSelection, WallEnd};
use makit::{
    Context, ContextError, DiscardId, HandError, JoinError, Meld, MeldKind, MeldsError, RiverError, Seat, Seed, Tile,
    TileCounts, Variant, Wall, WallError,
};

struct Demo;

impl Variant for Demo {
    type Rule = ();
    type Context = u32;
    type SeatContext = u32;

    fn initial_context(rule: ()) -> Context<Demo> {
        Context::new(rule, Seed::from_bytes([7; 32]), 0)
    }
}

fn t(code: u8) -> Tile {
    Tile::from_code(code).unwrap()
}

fn s(code: u8) -> Seat {
    Seat::from_code(code).unwrap()
}

fn codes(tiles: &[Tile]) -> Vec<u8> {
    tiles.iter().map(|x| x.code()).collect()
}

fn ctx_with(seats: &[u8], wall: &[u8]) -> Context<Demo> {
    let mut ctx = Demo::initial_context(());
    for code in seats {
        assert!(ctx.join(s(*code), u32::from(*code)).is_ok());
    }
    let _ = ctx.replace_wall(Wall::from_tiles(wall.iter().map(|c| t(*c)).collect()));
    ctx
}

fn totals(ctx: &Context<Demo>) -> TileCounts {
    ctx.common_counts()
}

#[test]
fn fresh_context_and_join() {
    let mut ctx = Demo::initial_context(());
    assert_eq!(ctx.seat_count(), 0);
    assert_eq!(ctx.east().seat(), s(1));
    assert!(ctx.dealer().is_none());
    assert!(ctx.join(s(2), 20).is_ok());
    match ctx.join(s(2), 21) {
        Err(JoinError::SeatOccupied { seat, variant }) => {
            assert_eq!(seat, s(2));
            assert_eq!(variant, 21);
        },
        Ok(()) => panic!("second join must fail"),
    }
    assert_eq!(ctx.seat_variant(s(2)), Some(&20));
    if let Some(v) = ctx.seat_variant_mut(s(2)) {
        *v = 22;
    }
    assert_eq!(ctx.seat_variant(s(2)), Some(&22));
    assert!(ctx.seat_variant_mut(s(3)).is_none());
    assert_eq!(ctx.participants().bits(), 0b0010);
    *ctx.variant_mut() = 5;
    assert_eq!(*ctx.variant(), 5);
}

#[test]
fn draw_moves_wall_tiles_into_the_drawn_part() {
    let mut ctx = ctx_with(&[1], &[1, 2, 3, 4]);
    let before = totals(&ctx);
    assert_eq!(codes(&ctx.draw(s(1), WallEnd::Back, 2).unwrap()), vec![4, 3]);
    assert_eq!(codes(ctx.hand(s(1)).unwrap().drawn_tiles()), vec![4, 3]);
    assert_eq!(codes(ctx.wall().as_slice()), vec![1, 2]);
    assert_eq!(totals(&ctx), before);
    assert_eq!(ctx.draw(s(2), WallEnd::Front, 1), Err(ContextError::MissingSeat { seat: s(2) }));
    assert_eq!(
        ctx.draw(s(1), WallEnd::Front, 3),
        Err(ContextError::Wall { source: WallError::InsufficientTiles { requested: 3, remaining: 2 } })
    );
    assert_eq!(ctx.draw(s(1), WallEnd::Front, 0), Ok(vec![]));
    assert_eq!(ctx.common_tile_count(), 4);
}

#[test]
fn deal_is_atomic_and_ordered() {
    let mut ctx = ctx_with(&[1, 3], &[1, 2, 3, 4, 5, 6]);
    let before = totals(&ctx);
    let requests = [
        DealRequest { seat: s(1), end: WallEnd::Front, count: 2 },
        DealRequest { seat: s(3), end: WallEnd::Back, count: 1 },
        DealRequest { seat: s(1), end: WallEnd::Front, count: 1 },
    ];
    let outcomes = ctx.deal(&requests).unwrap();
    assert_eq!(outcomes.len(), 3);
    assert_eq!(codes(&outcomes[0].tiles), vec![1, 2]);
    assert_eq!(codes(&outcomes[1].tiles), vec![6]);
    assert_eq!(codes(&outcomes[2].tiles), vec![3]);
    assert_eq!(codes(ctx.hand(s(1)).unwrap().held_tiles()), vec![1, 2, 3]);
    assert_eq!(codes(ctx.hand(s(3)).unwrap().held_tiles()), vec![6]);
    assert_eq!(codes(ctx.wall().as_slice()), vec![4, 5]);
    assert_eq!(totals(&ctx), before);

    let short = [
        DealRequest { seat: s(1), end: WallEnd::Front, count: 1 },
        DealRequest { seat: s(3), end: WallEnd::Front, count: 2 },
    ];
    assert_eq!(
        ctx.deal(&short),
        Err(ContextError::Wall { source: WallError::InsufficientTiles { requested: 2, remaining: 1 } })
    );
    assert_eq!(codes(ctx.wall().as_slice()), vec![4, 5]);
    let absent = [DealRequest { seat: s(1), end: WallEnd::Front, count: 9 }, DealRequest { seat: s(2), end: WallEnd::Front, count: 0 }];
    assert_eq!(ctx.deal(&absent), Err(ContextError::MissingSeat { seat: s(2) }));
}

#[test]
fn discards_go_to_the_river() {
    let mut ctx = ctx_with(&[1], &[1, 2, 3]);
    let _ = ctx.deal(&[DealRequest { seat: s(1), end: WallEnd::Front, count: 2 }]).unwrap();
    let _ = ctx.draw(s(1), WallEnd::Front, 1).unwrap();
    let before = totals(&ctx);
    let id = ctx.discard(s(1), t(3)).unwrap();
    assert_eq!(id, DiscardId::from_value(0));
    let record = ctx.river().get(id).unwrap();
    assert!(record.is_from_draw());
    assert_eq!(record.seat(), s(1));
    assert_eq!(ctx.hand(s(1)).unwrap().draw_cursor(), 2);
    assert_eq!(totals(&ctx), before);
    assert_eq!(
        ctx.discard_many(s(1), &[t(1), t(1)]),
        Err(ContextError::Hand { seat: s(1), source: HandError::InsufficientTiles { tile: t(1), required: 2, available: 1 } })
    );
    assert_eq!(ctx.discard_many(s(1), &[]), Ok(vec![]));
    assert_eq!(ctx.discard_many(s(1), &[t(2), t(1)]), Ok(vec![DiscardId::from_value(1), DiscardId::from_value(2)]));
    assert_eq!(ctx.discard(s(4), t(1)), Err(ContextError::MissingSeat { seat: s(4) }));
}

#[test]
fn exchange_moves_tiles_between_seats() {
    let mut ctx = ctx_with(&[1, 2], &[1, 2, 3, 4]);
    let _ = ctx.deal(&[
        DealRequest { seat: s(1), end: WallEnd::Front, count: 2 },
        DealRequest { seat: s(2), end: WallEnd::Front, count: 2 },
    ]).unwrap();
    let before = totals(&ctx);
    let selections = vec![
        ExchangeSelection { from: s(1), to: s(2), tiles: vec![t(2)] },
        ExchangeSelection { from: s(2), to: s(1), tiles: vec![t(4), t(3)] },
    ];
    let transfers = ctx.exchange(&selections).unwrap();
    assert_eq!(transfers.len(), 2);
    assert_eq!(codes(&transfers[1].tiles), vec![4, 3]);
    assert_eq!(codes(ctx.hand(s(1)).unwrap().tiles()), vec![1, 4, 3]);
    assert_eq!(codes(ctx.hand(s(2)).unwrap().tiles()), vec![2]);
    assert_eq!(totals(&ctx), before);
    let selfish = vec![ExchangeSelection { from: s(1), to: s(1), tiles: vec![] }];
    assert_eq!(ctx.exchange(&selfish), Err(ContextError::SelfTransfer { seat: s(1) }));
    let greedy = vec![ExchangeSelection { from: s(2), to: s(1), tiles: vec![t(2), t(2)] }];
    assert_eq!(
        ctx.exchange(&greedy),
        Err(ContextError::Hand { seat: s(2), source: HandError::InsufficientTiles { tile: t(2), required: 2, available: 1 } })
    );
    let absent = vec![ExchangeSelection { from: s(1), to: s(3), tiles: vec![] }];
    assert_eq!(ctx.exchange(&absent), Err(ContextError::MissingSeat { seat: s(3) }));
}

fn claim_setup() -> (Context<Demo>, DiscardId) {
    let mut ctx = ctx_with(&[1, 2], &[5, 5, 5, 5, 6, 7]);
    let _ = ctx.deal(&[
        DealRequest { seat: s(1), end: WallEnd::Front, count: 1 },
        DealRequest { seat: s(2), end: WallEnd::Front, count: 3 },
        DealRequest { seat: s(1), end: WallEnd::Front, count: 2 },
    ]).unwrap();
    let id = ctx.discard(s(1), t(5)).unwrap();
    (ctx, id)
}

#[test]
fn pong_claims_a_present_discard() {
    let (mut ctx, id) = claim_setup();
    let before = totals(&ctx);
    assert_eq!(ctx.pong(s(1), id, [t(6), t(7)]), Err(ContextError::OwnDiscard { seat: s(1), id }));
    assert_eq!(ctx.pong(s(2), id, [t(5), t(5)]), Ok(0));
    let melds = ctx.melds(s(2)).unwrap();
    let meld = melds.get(0).unwrap();
    assert_eq!(meld.kind(), MeldKind::Pong);
    assert_eq!(codes(meld.tiles()), vec![5, 5, 5]);
    assert_eq!(meld.source(), Some(s(1)));
    assert_eq!(codes(ctx.hand(s(2)).unwrap().tiles()), vec![5]);
    assert_eq!(ctx.river().present_len(), 0);
    assert_eq!(totals(&ctx), before);
    assert_eq!(ctx.chow(s(2), id, [t(5), t(5)]), Err(ContextError::River { source: RiverError::AlreadyTaken { id } }));
    let unknown = DiscardId::from_value(8);
    assert_eq!(ctx.claimed_kong(s(2), unknown, [t(5), t(5), t(5)]), Err(ContextError::River { source: RiverError::UnknownDiscard { id: unknown } }));
}

#[test]
fn claims_need_the_own_tiles() {
    let (mut ctx, id) = claim_setup();
    assert_eq!(
        ctx.claimed_kong(s(2), id, [t(5), t(5), t(5)]),
        Ok(0)
    );
    let (mut other, id2) = claim_setup();
    assert_eq!(
        other.chow(s(2), id2, [t(6), t(7)]),
        Err(ContextError::Hand { seat: s(2), source: HandError::InsufficientTiles { tile: t(6), required: 1, available: 0 } })
    );
    assert_eq!(other.river().present_len(), 1);
    assert_eq!(other.chow(s(3), id2, [t(6), t(7)]), Err(ContextError::MissingSeat { seat: s(3) }));
    let kong = ctx.melds(s(2)).unwrap().get(0).unwrap();
    assert!(matches!(kong, Meld::ClaimedKong(_)));
}

#[test]
fn concealed_and_added_kongs() {
    let mut ctx = ctx_with(&[1, 2], &[5, 5, 5, 5, 9, 9, 9, 8, 9]);
    let _ = ctx.deal(&[DealRequest { seat: s(1), end: WallEnd::Front, count: 4 }]).unwrap();
    let before = totals(&ctx);
    assert_eq!(ctx.concealed_kong(s(1), [t(5), t(5), t(5), t(5)]), Ok(0));
    assert!(ctx.hand(s(1)).unwrap().is_empty());
    assert_eq!(totals(&ctx), before);
    assert_eq!(ctx.concealed_kong(s(3), [t(5), t(5), t(5), t(5)]), Err(ContextError::MissingSeat { seat: s(3) }));

    let _ = ctx.deal(&[DealRequest { seat: s(2), end: WallEnd::Front, count: 2 }]).unwrap();
    let _ = ctx.draw(s(1), WallEnd::Front, 1).unwrap();
    let id = ctx.discard(s(1), t(9)).unwrap();
    assert_eq!(ctx.pong(s(2), id, [t(9), t(9)]), Ok(0));
    assert_eq!(ctx.add_kong(s(2), 0, t(9)), Err(ContextError::Hand { seat: s(2), source: HandError::InsufficientTiles { tile: t(9), required: 1, available: 0 } }));
    let _ = ctx.draw(s(2), WallEnd::Back, 1).unwrap();
    assert_eq!(ctx.add_kong(s(2), 3, t(9)), Err(ContextError::Melds { seat: s(2), source: MeldsError::IndexOutOfBounds { index: 3, len: 1 } }));
    let before = totals(&ctx);
    assert_eq!(ctx.add_kong(s(2), 0, t(9)), Ok(()));
    let meld = ctx.melds(s(2)).unwrap().get(0).unwrap();
    assert_eq!(meld.kind(), MeldKind::AddedKong);
    assert_eq!(codes(meld.tiles()), vec![9, 9, 9, 9]);
    assert_eq!(meld.added_tile(), Some(t(9)));
    assert_eq!(totals(&ctx), before);
    assert_eq!(
        ctx.add_kong(s(1), 0, t(9)),
        Err(ContextError::Melds { seat: s(1), source: MeldsError::ExpectedPong { index: 0, actual: MeldKind::ConcealedKong } })
    );
}

#[test]
fn common_tiles_list_every_area() {
    let mut ctx = ctx_with(&[1, 2], &[1, 2, 3]);
    let _ = ctx.draw(s(2), WallEnd::Front, 1).unwrap();
    let _ = ctx.draw(s(1), WallEnd::Front, 1).unwrap();
    let _ = ctx.discard(s(1), t(2)).unwrap();
    assert_eq!(codes(&ctx.common_tiles()), vec![3, 1, 2]);
    assert_eq!(ctx.common_count(t(2)), 1);
    assert_eq!(ctx.common_mask().bits(), 0b111);
}
