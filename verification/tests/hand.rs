use makit::{Hand, HandError, Tile};

fn t(code: u8) -> Tile {
    Tile::from_code(code).unwrap()
}

fn codes(tiles: &[Tile]) -> Vec<u8> {
    tiles.iter().map(|x| x.code()).collect()
}

fn sample() -> Hand {
    let mut hand = Hand::from_tiles(vec![t(3), t(1), t(3)]);
    hand.draw_many(&[t(1), t(5)]);
    hand
}

#[test]
fn hand_parts_and_draws() {
    let hand = sample();
    assert_eq!(codes(hand.held_tiles()), vec![3, 1, 3]);
    assert_eq!(codes(hand.drawn_tiles()), vec![1, 5]);
    assert_eq!(hand.draw_cursor(), 3);
    assert!(hand.has_drawn());
    assert_eq!(hand.len(), 5);
    assert_eq!(hand.count(t(3)), 2);
    assert_eq!(hand.get(4), Some(&t(5)));
    assert_eq!(hand.get(5), None);
}

#[test]
fn from_parts_checks_cursor() {
    assert_eq!(
        Hand::from_parts(vec![t(1)], 2),
        Err(HandError::InvalidDrawCursor { cursor: 2, len: 1 })
    );
    let hand = Hand::from_parts(vec![t(1), t(2)], 1).unwrap();
    assert_eq!(hand.into_parts(), (vec![t(1), t(2)], 1));
}

#[test]
fn receive_goes_to_end_of_held_part() {
    let mut hand = sample();
    hand.receive(&[t(9), t(8)]);
    assert_eq!(codes(hand.tiles()), vec![3, 1, 3, 9, 8, 1, 5]);
    assert_eq!(hand.draw_cursor(), 5);
}

#[test]
fn take_tiles_prefers_earliest_copy_and_keeps_parts() {
    let mut hand = sample();
    let taken = hand.take_tiles_many(&[t(1), t(3), t(1)]).unwrap();
    assert_eq!(codes(&taken), vec![1, 3, 1]);
    assert_eq!(codes(hand.tiles()), vec![3, 5]);
    assert_eq!(hand.draw_cursor(), 1);
}

#[test]
fn take_tiles_reports_whole_batch_shortage() {
    let mut hand = sample();
    let before = hand.clone();
    let err = hand.take_tiles_many(&[t(3), t(3), t(3)]).unwrap_err();
    assert_eq!(err, HandError::InsufficientTiles { tile: t(3), required: 3, available: 2 });
    assert_eq!(hand, before);
    assert_eq!(
        hand.take_tiles([t(7)]),
        Err(HandError::InsufficientTiles { tile: t(7), required: 1, available: 0 })
    );
}

#[test]
fn take_by_index_errors() {
    let mut hand = sample();
    assert_eq!(hand.take_many(&[0, 9]), Err(HandError::IndexOutOfBounds { index: 9, len: 5 }));
    assert_eq!(hand.take_many(&[1, 1]), Err(HandError::DuplicateIndex { index: 1 }));
    assert_eq!(hand.take([4, 0]), Ok([t(5), t(3)]));
    assert_eq!(codes(hand.tiles()), vec![1, 3, 1]);
    assert_eq!(hand.draw_cursor(), 2);
}

#[test]
fn discard_records_part_and_merges() {
    let mut hand = sample();
    let discard = hand.discard_tile(t(5)).unwrap();
    assert_eq!(discard.tile(), t(5));
    assert!(discard.is_from_draw());
    assert_eq!(codes(hand.tiles()), vec![3, 1, 3, 1]);
    assert_eq!(hand.draw_cursor(), 4);
    let mut other = sample();
    let first = other.discard_tile(t(1)).unwrap();
    assert!(!first.is_from_draw());
    let batch = sample().discard_tiles(&[t(1), t(1)]).unwrap();
    assert!(!batch[0].is_from_draw());
    assert!(batch[1].is_from_draw());
}

#[test]
fn discard_by_index() {
    let mut hand = sample();
    let d = hand.discard(3).unwrap();
    assert_eq!(d.tile(), t(1));
    assert!(d.is_from_draw());
    assert_eq!(hand.discard(9), Err(HandError::IndexOutOfBounds { index: 9, len: 4 }));
    let many = sample().discard_many(&[0, 4]).unwrap();
    assert_eq!(many.len(), 2);
    assert_eq!(many[1].tile(), t(5));
}

#[test]
fn sorting_the_held_part() {
    let mut hand = sample();
    hand.sort_held();
    assert_eq!(codes(hand.tiles()), vec![1, 3, 3, 1, 5]);
    let mut by_key = sample();
    by_key.sort_held_by_key(|x| std::cmp::Reverse(x.code()));
    assert_eq!(codes(by_key.tiles()), vec![3, 3, 1, 1, 5]);
    assert_eq!(by_key.draw_cursor(), 3);
}

#[test]
fn merge_and_clear() {
    let mut hand = sample();
    hand.merge_drawn();
    assert_eq!(hand.draw_cursor(), 5);
    assert!(!hand.has_drawn());
    hand.clear();
    assert!(hand.is_empty());
    assert_eq!(hand.mask().bits(), 0);
}

#[test]
fn hand_from_vec_and_index() {
    let hand = Hand::from(vec![t(3), t(1), t(3)]);
    assert_eq!(hand.len(), 3);
    assert_eq!(hand[0], t(3));
    assert_eq!(hand[1], t(1));
    assert_eq!(hand.held_tiles().len(), 3);
    assert!(hand.drawn_tiles().is_empty());
}
