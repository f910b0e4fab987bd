use makit::{EastSeat, Seat, SeatMap, SeatMask, Wind};

fn s(code: u8) -> Seat {
    Seat::from_code(code).unwrap()
}

#[test]
fn seat_ring_moves() {
    assert_eq!(s(1).clockwise_next(), s(2));
    assert_eq!(s(4).clockwise_next(), s(1));
    assert_eq!(s(1).counter_clockwise_next(), s(4));
    assert_eq!(s(2).opposite(), s(4));
    assert_eq!(s(3).clockwise(6), s(1));
    assert_eq!(s(3).counter_clockwise(7), s(4));
    assert_eq!(s(4).clockwise_distance_to(s(1)), 1);
    assert_eq!(s(1).clockwise_distance_to(s(4)), 3);
    assert!(Seat::from_code(0).is_none());
    assert!(Seat::from_index(4).is_none());
    assert_eq!(Seat::from_index(2).unwrap().code(), 3);
}

#[test]
fn counter_clockwise_undoes_clockwise() {
    for seat in Seat::all() {
        for steps in 0..9usize {
            assert_eq!(seat.clockwise(steps).counter_clockwise(steps), seat);
        }
    }
}

#[test]
fn east_anchor_maps_winds_both_ways() {
    let east = EastSeat::new(s(3));
    assert_eq!(east.wind_at(s(3)), Wind::East);
    assert_eq!(east.wind_at(s(4)), Wind::South);
    assert_eq!(east.wind_at(s(2)), Wind::North);
    assert_eq!(east.seat_at(Wind::West), s(1));
    for seat in Seat::all() {
        assert_eq!(east.seat_at(east.wind_at(seat)), seat);
    }
    assert_eq!(EastSeat::default().seat(), s(1));
}

#[test]
fn wind_ring_moves() {
    assert_eq!(Wind::North.clockwise_next(), Wind::East);
    assert_eq!(Wind::East.counter_clockwise_next(), Wind::North);
    assert_eq!(Wind::South.opposite(), Wind::North);
    assert_eq!(Wind::from_code(2), Some(Wind::South));
    assert_eq!(Wind::West.index(), 2);
}

#[test]
fn seat_mask_operations() {
    let a = SeatMask::from_seats(&[s(1), s(3)]);
    let b = SeatMask::from_seats(&[s(3), s(4)]);
    assert_eq!(a.bits(), 0b0101);
    assert_eq!(a.union(b).bits(), 0b1101);
    assert_eq!(a.intersection(b).bits(), 0b0100);
    assert_eq!(a.difference(b).bits(), 0b0001);
    assert_eq!(a.symmetric_difference(b).bits(), 0b1001);
    assert_eq!(a.complement().bits(), 0b1010);
    assert_eq!(a.len(), 2);
    assert!(SeatMask::from_bits(0x10).is_none());
    assert_eq!(SeatMask::from_bits_truncate(0xff).bits(), 0x0f);
    let codes: Vec<u8> = b.iter().iter().map(|x| x.code()).collect();
    assert_eq!(codes, vec![3, 4]);
    let mut m = SeatMask::empty();
    assert!(m.insert(s(2)));
    assert!(!m.insert(s(2)));
    assert!(m.remove(s(2)));
    assert!(m.is_empty());
    assert_eq!(SeatMask::all().len(), 4);
}

#[test]
fn seat_map_slots() {
    let mut map: SeatMap<&str> = SeatMap::new();
    assert!(map.is_empty());
    assert_eq!(map.insert(s(3), "c"), None);
    assert_eq!(map.insert(s(1), "a"), None);
    assert_eq!(map.insert(s(3), "C"), Some("c"));
    assert_eq!(map.len(), 2);
    assert_eq!(map.get(s(3)), Some(&"C"));
    assert!(map.get(s(2)).is_none());
    let keys: Vec<u8> = map.keys().iter().map(|x| x.code()).collect();
    assert_eq!(keys, vec![1, 3]);
    assert_eq!(map.mask().bits(), 0b0101);
    if let Some(v) = map.get_mut(s(1)) {
        *v = "A";
    }
    let values: Vec<&str> = map.values().iter().map(|v| **v).collect();
    assert_eq!(values, vec!["A", "C"]);
    assert_eq!(map.remove(s(1)), Some("A"));
    assert_eq!(map.remove(s(1)), None);
    map.clear();
    assert_eq!(map.len(), 0);
}

#[test]
fn seat_map_mutable_views() {
    let mut map: SeatMap<u32> = SeatMap::new();
    map.insert(s(4), 40);
    map.insert(s(2), 20);
    for v in map.values_mut() {
        *v += 1;
    }
    let values: Vec<u32> = map.values().iter().map(|v| **v).collect();
    assert_eq!(values, vec![21, 41]);
    for (seat, v) in map.iter_mut() {
        *v += u32::from(seat.code());
    }
    assert_eq!(map.get(s(2)), Some(&23));
    assert_eq!(map.get(s(4)), Some(&45));
    assert!(map.get(s(1)).is_none());
}

#[test]
fn seat_mask_operators() {
    let a = SeatMask::from(s(1)) | SeatMask::from(s(2));
    let b = SeatMask::from(s(2)) | SeatMask::from(s(3));
    assert_eq!(a.bits(), 0b0011);
    assert_eq!((a | b).bits(), 0b0111);
    assert_eq!((a & b).bits(), 0b0010);
    assert_eq!((a ^ b).bits(), 0b0101);
    assert_eq!((a - b).bits(), 0b0001);
    assert_eq!((!a).bits(), 0b1100);
    let mut m = a;
    m |= b;
    assert_eq!(m.bits(), 0b0111);
    m &= b;
    assert_eq!(m.bits(), 0b0110);
    m ^= a;
    assert_eq!(m.bits(), 0b0101);
    m -= SeatMask::from(s(3));
    assert_eq!(m.bits(), 0b0001);
}

#[test]
fn seat_map_index_by_seat() {
    let mut map: SeatMap<u8> = SeatMap::new();
    map.insert(s(2), 7);
    assert_eq!(map[s(2)], Some(7));
    assert_eq!(map[s(1)], None);
    map[s(1)] = Some(3);
    map[s(2)] = None;
    assert_eq!(map.get(s(1)), Some(&3));
    assert!(!map.contains_key(s(2)));
    assert_eq!(map.len(), 1);
}

#[test]
fn complement_at_bit_level() {
    let m = SeatMask::from_bits(0b0101).unwrap();
    assert_eq!(m.complement().bits(), 0b1010);
    assert_eq!(m.complement().complement(), m);
    assert_eq!(m.complement().union(m), SeatMask::all());
    assert!(m.complement().is_disjoint(m));
}
