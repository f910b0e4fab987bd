use makit::tile::count_in;
use makit::{Tile, TileCounts, TileMask, Wildcard};

fn t(code: u8) -> Tile {
    Tile::from_code(code).unwrap()
}

#[test]
fn tile_code_bounds_and_index() {
    assert!(Tile::from_code(0).is_none());
    assert!(Tile::from_code(65).is_none());
    assert_eq!(t(1).code(), 1);
    assert_eq!(t(64).index(), 63);
    assert_eq!(Tile::from_index(63).unwrap().code(), 64);
    assert!(Tile::from_index(64).is_none());
    assert!(t(42).is_standard());
    assert!(!t(42).is_extension());
    assert!(t(43).is_extension());
}

#[test]
fn tile_index_round_trip() {
    for code in 1..=64u8 {
        let tile = t(code);
        assert_eq!(Tile::from_index(tile.index()).unwrap(), tile);
    }
}

#[test]
fn mask_set_operations() {
    let a = TileMask::from_bits(0b0110);
    let b = TileMask::from_bits(0b0011);
    assert_eq!(a.union(b).bits(), 0b0111);
    assert_eq!(a.intersection(b).bits(), 0b0010);
    assert_eq!(a.difference(b).bits(), 0b0100);
    assert_eq!(a.symmetric_difference(b).bits(), 0b0101);
    assert_eq!(TileMask::empty().complement().bits(), u64::MAX);
    assert!(a.intersection(b).is_subset(a));
    assert!(a.difference(b).is_disjoint(b));
    assert_eq!(a.len(), 2);
}

#[test]
fn mask_from_tiles_keeps_distinct_codes_in_order() {
    let mask = TileMask::from_tiles(&[t(3), t(1), t(3), t(64)]);
    assert_eq!(mask.len(), 3);
    let codes: Vec<u8> = mask.iter().iter().map(|x| x.code()).collect();
    assert_eq!(codes, vec![1, 3, 64]);
    assert!(mask.contains(t(64)));
    assert!(!mask.contains(t(2)));
    assert_eq!(t(5).to_mask().bits(), 1u64 << 4);
}

#[test]
fn mask_insert_and_remove_report_membership() {
    let mut mask = TileMask::empty();
    assert!(mask.insert(t(10)));
    assert!(!mask.insert(t(10)));
    assert!(mask.remove(t(10)));
    assert!(!mask.remove(t(10)));
    assert!(mask.is_empty());
}

#[test]
fn counts_saturate_per_slot() {
    let tiles = vec![t(7); 300];
    let counts = TileCounts::from_tiles(&tiles);
    assert_eq!(counts.get(t(7)), 255);
    assert_eq!(counts.total(), 255);
    let mut more = counts;
    more.saturating_add_tile(t(7), 10);
    assert_eq!(more.get(t(7)), 255);
    assert_eq!(count_in(&tiles, t(7)), 300);
}

#[test]
fn counts_from_groups_accumulate() {
    let groups = [(TileMask::from_bits(0b11), 2u8), (TileMask::from_bits(0b10), 3u8)];
    let counts = TileCounts::from_groups(&groups);
    assert_eq!(counts.get(t(1)), 2);
    assert_eq!(counts.get(t(2)), 5);
    assert_eq!(counts.get(t(3)), 0);
    assert_eq!(counts.total(), 7);
    assert_eq!(counts.mask().bits(), 0b11);
    let pairs: Vec<(u8, u8)> = counts.iter().iter().map(|(x, n)| (x.code(), *n)).collect();
    assert_eq!(pairs, vec![(1, 2), (2, 5)]);
}

#[test]
fn counts_remove_and_subtract() {
    let mut counts = TileCounts::from_mask(TileMask::from_bits(0b1), 4);
    assert!(counts.checked_remove(t(2), 0));
    assert!(!counts.checked_remove(t(1), 5));
    assert_eq!(counts.get(t(1)), 4);
    assert!(counts.checked_remove(t(1), 3));
    assert_eq!(counts.get(t(1)), 1);
    let big = TileCounts::from_mask(TileMask::from_bits(0b1), 4);
    let small = TileCounts::from_mask(TileMask::from_bits(0b1), 1);
    assert_eq!(big.checked_sub(small).unwrap().get(t(1)), 3);
    assert!(small.checked_sub(big).is_none());
    assert_eq!((big + big).get(t(1)), 8);
    let mut set = TileCounts::empty();
    assert_eq!(set.set(t(9), 6), 0);
    assert_eq!(set.set(t(9), 0), 6);
    assert!(set.is_empty());
}

#[test]
fn wildcard_targets_within_allowed() {
    let allowed = TileMask::from_bits(0b1110);
    let any = Wildcard::Any { tile: t(64) };
    assert_eq!(any.targets(allowed).bits(), 0b1110);
    let one = Wildcard::One { tile: t(64), target: t(2) };
    assert_eq!(one.targets(allowed).bits(), 0b0010);
    assert!(one.allows(t(2), allowed));
    assert!(!one.allows(t(3), allowed));
    let outside = Wildcard::One { tile: t(64), target: t(1) };
    assert!(!outside.allows(t(1), allowed));
    assert_eq!(one.tile(), t(64));
    assert_eq!(one.target(), Some(t(2)));
    assert_eq!(any.target(), None);
}

#[test]
fn tile_mask_operators() {
    let a = TileMask::from(t(1)) | TileMask::from(t(2));
    let b = TileMask::from_bits(0b110);
    assert_eq!((a | b).bits(), 0b111);
    assert_eq!((a & b).bits(), 0b010);
    assert_eq!((a ^ b).bits(), 0b101);
    assert_eq!((a - b).bits(), 0b001);
    assert_eq!((!TileMask::from_bits(0)).bits(), u64::MAX);
    let mut m = a;
    m |= b;
    assert_eq!(m.bits(), 0b111);
    m &= b;
    assert_eq!(m.bits(), 0b110);
    m ^= a;
    assert_eq!(m.bits(), 0b101);
    m -= TileMask::from(t(3));
    assert_eq!(m.bits(), 0b001);
}

#[test]
fn counts_add_index_default() {
    let mut a = TileCounts::default();
    assert!(a.is_empty());
    a.set(t(5), 200);
    let b = TileCounts::from_mask(TileMask::from_bits(0b1_0001), 100);
    let sum = a + b;
    assert_eq!(sum[t(5)], 255);
    assert_eq!(sum[t(1)], 100);
    assert_eq!(sum[t(2)], 0);
    a += b;
    assert_eq!(a, sum);
}

#[test]
fn named_faces_and_presets() {
    assert_eq!(Tile::man_1().code(), 1);
    assert_eq!(Tile::pin_9().code(), 18);
    assert_eq!(Tile::east().code(), 28);
    assert_eq!(Tile::white_dragon().code(), 34);
    assert_eq!(Tile::bamboo().code(), 42);
    assert_eq!(TileMask::standard().len(), 42);
    assert_eq!(TileMask::numbered().len(), 27);
    assert_eq!(TileMask::honors().len(), 7);
    assert_eq!(TileMask::flowers().len(), 8);
    assert_eq!(TileMask::terminals().len(), 6);
    assert_eq!(TileMask::simples().len(), 21);
    assert_eq!(TileMask::orphans().len(), 13);
    assert_eq!(TileMask::extensions().len(), 22);
    assert_eq!(TileMask::all().len(), 64);
    assert_eq!(TileCounts::standard_108().total(), 108);
    assert_eq!(TileCounts::standard_136().total(), 136);
    assert_eq!(TileCounts::standard_flower().total(), 8);
    assert_eq!(TileCounts::standard_144().total(), 144);
    assert_eq!(TileCounts::standard_144().get(Tile::spring()), 1);
    assert_eq!(TileCounts::standard_144().get(Tile::north()), 4);
}

#[test]
fn counts_mask_round_trip() {
    let honors = TileMask::honors();
    let counts = TileCounts::from_mask(honors, 2);
    assert_eq!(counts.mask(), honors);
    assert_eq!(counts.mask().len(), 7);
    assert!(TileCounts::empty().mask().is_empty());
}
