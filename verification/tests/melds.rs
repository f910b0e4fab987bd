use makit::{ChowMeld, ConcealedKongMeld, Meld, MeldKind, Melds, MeldsError, PongMeld, Seat, Seed, Tile};

fn t(code: u8) -> Tile {
    Tile::from_code(code).unwrap()
}

fn s(code: u8) -> Seat {
    Seat::from_code(code).unwrap()
}

#[test]
fn meld_conversions_and_indexing() {
    let chow = ChowMeld::new([t(1), t(2)], t(3), s(4));
    let meld: Meld = chow.into();
    assert_eq!(meld.kind(), MeldKind::Chow);
    let concealed: Meld = Meld::from(ConcealedKongMeld::new([t(9); 4]));
    assert_eq!(concealed.kind(), MeldKind::ConcealedKong);
    let melds = Melds::from_melds(vec![meld, concealed]);
    assert_eq!(melds[0], meld);
    assert_eq!(melds[1].kind(), MeldKind::ConcealedKong);
    let slice: &[Meld] = melds.as_ref();
    assert_eq!(slice.len(), 2);
}

#[test]
fn melds_add_kong_keeps_index() {
    let mut melds = Melds::new();
    let first = melds.pong([t(5), t(5)], t(5), s(2));
    let second = melds.chow([t(1), t(2)], t(3), s(3));
    assert_eq!((first, second), (0, 1));
    assert_eq!(melds.add_kong(0, t(5)), Ok(()));
    assert_eq!(melds[0].kind(), MeldKind::AddedKong);
    assert_eq!(melds[1].kind(), MeldKind::Chow);
    assert_eq!(melds.add_kong(1, t(4)), Err(MeldsError::ExpectedPong { index: 1, actual: MeldKind::Chow }));
    assert_eq!(melds.add_kong(7, t(4)), Err(MeldsError::IndexOutOfBounds { index: 7, len: 2 }));
    let pong: Meld = PongMeld::new([t(7), t(7)], t(7), s(1)).into();
    assert_eq!(pong.kind(), MeldKind::Pong);
}

#[test]
fn seed_from_bytes_array() {
    let bytes = [9u8; 32];
    let seed = Seed::from(bytes);
    assert_eq!(seed.into_bytes(), bytes);
}

#[test]
fn melds_iterate_in_declaration_order() {
    let mut melds = Melds::new();
    melds.pong([t(5), t(5)], t(5), s(2));
    melds.concealed_kong([t(9); 4]);
    let kinds: Vec<MeldKind> = (&melds).into_iter().map(|m| m.kind()).collect();
    assert_eq!(kinds, vec![MeldKind::Pong, MeldKind::ConcealedKong]);
    let mut owned = Vec::new();
    for meld in melds {
        owned.push(meld.kind());
    }
    assert_eq!(owned, kinds);
}
