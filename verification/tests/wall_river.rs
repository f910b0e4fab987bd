use makit::{Discard, DiscardId, Hand, River, RiverError, Seat, Tile, Wall, WallError};

fn t(code: u8) -> Tile {
    Tile::from_code(code).unwrap()
}

fn codes(tiles: &[Tile]) -> Vec<u8> {
    tiles.iter().map(|x| x.code()).collect()
}

fn wall() -> Wall {
    Wall::from_tiles(vec![t(1), t(2), t(3), t(4)])
}

#[test]
fn batch_draws_match_single_draws() {
    let mut a = wall();
    let mut b = wall();
    let batch = a.draw_front_many(3).unwrap();
    let singles = vec![b.draw_front().unwrap(), b.draw_front().unwrap(), b.draw_front().unwrap()];
    assert_eq!(batch, singles);
    assert_eq!(a.as_slice(), b.as_slice());
    let mut c = wall();
    assert_eq!(codes(&c.draw_back_many(2).unwrap()), vec![4, 3]);
    assert_eq!(codes(c.as_slice()), vec![1, 2]);
}

#[test]
fn draws_beyond_the_wall_fail_unchanged() {
    let mut w = wall();
    assert_eq!(w.draw_front_many(5), Err(WallError::InsufficientTiles { requested: 5, remaining: 4 }));
    assert_eq!(w.len(), 4);
    assert_eq!(w.draw_back_many(0), Ok(vec![]));
    assert_eq!(w.front(), Some(&t(1)));
    assert_eq!(w.back(), Some(&t(4)));
    let mut empty = Wall::new();
    assert_eq!(empty.draw_front(), None);
    assert!(empty.is_empty());
}

#[test]
fn drawn_tiles_leave_queries() {
    let mut w = Wall::from_tiles(vec![t(1), t(1), t(2)]);
    let _ = w.draw_front();
    assert_eq!(w.count(t(1)), 1);
    assert_eq!(w.get(0), Some(&t(1)));
    assert_eq!(codes(&w.into_tiles()), vec![1, 2]);
}

fn discard_of(seat: Seat, code: u8) -> Discard {
    let mut hand = Hand::from_tiles(vec![t(code)]);
    Discard::new(seat, hand.discard_tile(t(code)).unwrap())
}

#[test]
fn river_ids_and_takes() {
    let s1 = Seat::from_code(1).unwrap();
    let s2 = Seat::from_code(2).unwrap();
    let mut river = River::new();
    let id0 = river.append(discard_of(s1, 5)).unwrap();
    let ids = river.append_many(vec![discard_of(s2, 6), discard_of(s1, 7)]).unwrap();
    assert_eq!(id0.value(), 0);
    assert_eq!(ids, vec![DiscardId::from_value(1), DiscardId::from_value(2)]);
    assert_eq!(river.take(DiscardId::from_value(1)), Ok(t(6)));
    assert_eq!(river.take(DiscardId::from_value(1)), Err(RiverError::AlreadyTaken { id: DiscardId::from_value(1) }));
    assert_eq!(river.take(DiscardId::from_value(9)), Err(RiverError::UnknownDiscard { id: DiscardId::from_value(9) }));
    assert_eq!(river.len(), 3);
    assert_eq!(river.present_len(), 2);
    assert_eq!(river.is_present(DiscardId::from_value(1)), Some(false));
    assert_eq!(river.get(DiscardId::from_value(1)).unwrap().tile(), t(6));
    assert_eq!(river.iter_for(s1).len(), 2);
    let ids = [DiscardId::from_value(0), DiscardId::from_value(0)];
    assert_eq!(river.take_many(&ids), Err(RiverError::DuplicateDiscard { id: DiscardId::from_value(0) }));
    assert_eq!(river.take_many(&[DiscardId::from_value(2), DiscardId::from_value(0)]), Ok(vec![t(7), t(5)]));
    assert_eq!(river.present_len(), 0);
}

#[test]
fn wall_from_counts_is_sorted_with_each_count() {
    let counts = makit::TileCounts::standard_136();
    let wall = Wall::from_counts(&counts);
    assert_eq!(wall.len(), 136);
    let codes: Vec<u8> = wall.as_slice().iter().map(|t| t.code()).collect();
    assert!(codes.windows(2).all(|w| w[0] <= w[1]));
    assert_eq!(wall.count(Tile::red_dragon()), 4);
    assert_eq!(wall.count(Tile::spring()), 0);
    assert_eq!(wall.counts(), counts);
}

#[test]
fn failed_draws_leave_the_wall_as_it_was() {
    let mut wall = Wall::from_tiles(vec![t(1), t(2)]);
    let _ = wall.draw_front();
    let before = wall.clone();
    assert_eq!(wall.draw_front_many(5), Err(WallError::InsufficientTiles { requested: 5, remaining: 1 }));
    assert_eq!(wall, before);
    let _ = wall.draw_back();
    assert_eq!(wall.draw_back(), None);
    assert!(wall.is_empty());
}
