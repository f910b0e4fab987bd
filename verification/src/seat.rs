//! The fixed ring of four seats, the four winds, and the east anchor that maps between them.

use vstd::prelude::*;

pub mod map;
pub mod mask;

pub use map::SeatMap;
pub use mask::SeatMask;

verus! {

/// Code reached by moving `steps` places clockwise from the seat (or wind) with code `code`
/// on the fixed ring of four.
pub open spec fn ring_forward(code: int, steps: int) -> int {
    (code - 1 + steps) % 4 + 1
}

/// Code reached by moving `steps` places counter-clockwise on the fixed ring of four.
pub open spec fn ring_backward(code: int, steps: int) -> int {
    (code - 1 - steps) % 4 + 1
}

/// Clockwise steps from code `from` to code `to` on the ring of four, in `0..=3`.
pub open spec fn ring_distance(from: int, to: int) -> int {
    (to - from) % 4
}

/// A stable logical place at the table, numbered `1..=4` clockwise.
///
/// A seat is not a player, a seat wind or a turn order. Rules with fewer players use some of the
/// four seats without changing the ring.
#[derive(Clone, Copy, Debug, PartialEq, Eq, Structural, Hash, PartialOrd, Ord)]
pub struct Seat {
    code: u8,
}

impl View for Seat {
    type V = u8;

    /// The one-based seat code.
    closed spec fn view(&self) -> u8 {
        self.code
    }
}

impl Seat {
    /// Number of seats on the ring.
    pub const CAPACITY: usize = 4;
    /// Smallest seat code.
    pub const MIN_ID: u8 = 1;
    /// Largest seat code.
    pub const MAX_ID: u8 = 4;

    #[verifier::type_invariant]
    spec fn code_in_range(self) -> bool {
        1 <= self.code <= 4
    }

    /// Two seats are equal exactly when their codes are.
    pub proof fn lemma_eq(a: Seat, b: Seat)
        ensures
            (a == b) == (a@ == b@),
    {
    }

    /// The seat with a code known to be valid.
    fn of_code(code: u8) -> (r: Seat)
        requires
            1 <= code <= 4,
        ensures
            r@ == code,
    {
        Seat { code }
    }

    /// All four seats in code order `1, 2, 3, 4`.
    pub fn all() -> (r: [Seat; 4])
        ensures
            forall|i: int| 0 <= i < 4 ==> #[trigger] r@[i]@ == i + 1,
    {
        [Seat::of_code(1), Seat::of_code(2), Seat::of_code(3), Seat::of_code(4)]
    }

    /// The one-based code in `1..=4`.
    pub fn code(self) -> (r: u8)
        ensures
            r == self@,
            1 <= r <= 4,
    {
        proof {
            use_type_invariant(self);
        }
        self.code
    }

    /// The zero-based compact index in `0..=3`.
    pub fn index(self) -> (r: usize)
        ensures
            r == self@ - 1,
            r < 4,
    {
        (self.code() - 1) as usize
    }

    /// The seat set that holds only this seat.
    pub fn to_mask(self) -> (r: SeatMask)
        ensures
            r@ == set![self@],
    {
        SeatMask::from_seat(self)
    }

    /// The seat with the one-based `code`; `None` unless `code` is in `1..=4`.
    pub fn from_code(code: u8) -> (r: Option<Seat>)
        ensures
            r is Some <==> 1 <= code <= 4,
            r matches Some(s) ==> s@ == code,
    {
        if code > Self::MAX_ID || code < Self::MIN_ID {
            return None;
        }
        Some(Seat { code })
    }

    /// The seat with the zero-based `index`; `None` unless `index` is in `0..=3`.
    pub fn from_index(index: usize) -> (r: Option<Seat>)
        ensures
            r is Some <==> index < 4,
            r matches Some(s) ==> s@ == index + 1,
    {
        if index >= Self::CAPACITY {
            return None;
        }
        Self::from_code((index + 1) as u8)
    }

    /// The seat `steps` places clockwise; any `usize` is allowed and four steps return home.
    pub fn clockwise(self, steps: usize) -> (r: Seat)
        ensures
            r@ == ring_forward(self@ as int, steps as int),
    {
        let steps = steps % 4;
        let code = ((self.index() + steps) % 4 + 1) as u8;
        Seat::of_code(code)
    }

    /// The seat `steps` places counter-clockwise; any `usize` is allowed.
    pub fn counter_clockwise(self, steps: usize) -> (r: Seat)
        ensures
            r@ == ring_backward(self@ as int, steps as int),
    {
        let steps = steps % 4;
        let code = ((self.index() + 4 - steps) % 4 + 1) as u8;
        Seat::of_code(code)
    }

    /// Clockwise steps from this seat to `other`, in `0..=3`; zero for the same seat.
    pub fn clockwise_distance_to(self, other: Seat) -> (r: usize)
        ensures
            r == ring_distance(self@ as int, other@ as int),
            r < 4,
    {
        (other.index() + 4 - self.index()) % 4
    }

    /// The seat two places away.
    pub fn opposite(self) -> (r: Seat)
        ensures
            r@ == ring_forward(self@ as int, 2),
    {
        self.clockwise(2)
    }

    /// The next seat clockwise.
    pub fn clockwise_next(self) -> (r: Seat)
        ensures
            r@ == ring_forward(self@ as int, 1),
    {
        self.clockwise(1)
    }

    /// The next seat counter-clockwise.
    pub fn counter_clockwise_next(self) -> (r: Seat)
        ensures
            r@ == ring_backward(self@ as int, 1),
    {
        self.counter_clockwise(1)
    }
}

/// A logical direction at the table; clockwise order is east, south, west, north.
#[derive(Clone, Copy, Debug, PartialEq, Eq, Structural, Hash, PartialOrd, Ord)]
pub enum Wind {
    /// East, code 1.
    East,
    /// South, code 2.
    South,
    /// West, code 3.
    West,
    /// North, code 4.
    North,
}

impl View for Wind {
    type V = u8;

    /// The one-based wind code: east 1, south 2, west 3, north 4.
    open spec fn view(&self) -> u8 {
        match self {
            Wind::East => 1u8,
            Wind::South => 2u8,
            Wind::West => 3u8,
            Wind::North => 4u8,
        }
    }
}

impl Wind {
    /// Number of winds.
    pub const CAPACITY: usize = 4;
    /// Smallest wind code (east).
    pub const MIN_CODE: u8 = 1;
    /// Largest wind code (north).
    pub const MAX_CODE: u8 = 4;

    /// The wind with a code known to be valid.
    fn of_code(code: u8) -> (r: Wind)
        requires
            1 <= code <= 4,
        ensures
            r@ == code,
    {
        if code == 1 {
            Wind::East
        } else if code == 2 {
            Wind::South
        } else if code == 3 {
            Wind::West
        } else {
            Wind::North
        }
    }

    /// All four winds in the order east, south, west, north.
    pub fn all() -> (r: [Wind; 4])
        ensures
            forall|i: int| 0 <= i < 4 ==> #[trigger] r@[i]@ == i + 1,
    {
        [Wind::East, Wind::South, Wind::West, Wind::North]
    }

    /// The one-based code: east 1, south 2, west 3, north 4.
    pub fn code(self) -> (r: u8)
        ensures
            r == self@,
            1 <= r <= 4,
    {
        match self {
            Wind::East => 1,
            Wind::South => 2,
            Wind::West => 3,
            Wind::North => 4,
        }
    }

    /// The zero-based index in `0..=3`.
    pub fn index(self) -> (r: usize)
        ensures
            r == self@ - 1,
            r < 4,
    {
        (self.code() - 1) as usize
    }

    /// The wind with the one-based `code`; `None` unless `code` is in `1..=4`.
    pub fn from_code(code: u8) -> (r: Option<Wind>)
        ensures
            r is Some <==> 1 <= code <= 4,
            r matches Some(w) ==> w@ == code,
    {
        if code < Self::MIN_CODE || code > Self::MAX_CODE {
            return None;
        }
        Some(Wind::of_code(code))
    }

    /// The wind with the zero-based `index`; `None` unless `index` is in `0..=3`.
    pub fn from_index(index: usize) -> (r: Option<Wind>)
        ensures
            r is Some <==> index < 4,
            r matches Some(w) ==> w@ == index + 1,
    {
        if index >= Self::CAPACITY {
            return None;
        }
        Some(Wind::of_code((index + 1) as u8))
    }

    /// The wind `steps` places clockwise; any `usize` is allowed and four steps return home.
    pub fn clockwise(self, steps: usize) -> (r: Wind)
        ensures
            r@ == ring_forward(self@ as int, steps as int),
    {
        let steps = steps % 4;
        Wind::of_code(((self.index() + steps) % 4 + 1) as u8)
    }

    /// The wind `steps` places counter-clockwise; any `usize` is allowed.
    pub fn counter_clockwise(self, steps: usize) -> (r: Wind)
        ensures
            r@ == ring_backward(self@ as int, steps as int),
    {
        let steps = steps % 4;
        Wind::of_code(((self.index() + 4 - steps) % 4 + 1) as u8)
    }

    /// Clockwise steps from this wind to `other`, in `0..=3`.
    pub fn clockwise_distance_to(self, other: Wind) -> (r: usize)
        ensures
            r == ring_distance(self@ as int, other@ as int),
            r < 4,
    {
        (other.index() + 4 - self.index()) % 4
    }

    /// The wind two places away.
    pub fn opposite(self) -> (r: Wind)
        ensures
            r@ == ring_forward(self@ as int, 2),
    {
        self.clockwise(2)
    }

    /// The next wind clockwise.
    pub fn clockwise_next(self) -> (r: Wind)
        ensures
            r@ == ring_forward(self@ as int, 1),
    {
        self.clockwise(1)
    }

    /// The next wind counter-clockwise.
    pub fn counter_clockwise_next(self) -> (r: Wind)
        ensures
            r@ == ring_backward(self@ as int, 1),
    {
        self.counter_clockwise(1)
    }
}

/// The seat that currently holds the east wind; it anchors the seat-to-wind mapping.
///
/// It does not check whether the seat takes part in a hand, and it implies no turn order.
#[derive(Clone, Copy, Debug, PartialEq, Eq, Structural, Hash, PartialOrd, Ord)]
pub struct EastSeat(Seat);

impl View for EastSeat {
    type V = u8;

    /// The code of the east seat.
    closed spec fn view(&self) -> u8 {
        self.0@
    }
}

impl Default for EastSeat {
    /// Seat `1` as the east anchor.
    fn default() -> (r: EastSeat)
        ensures
            r@ == 1,
    {
        EastSeat(Seat::of_code(1))
    }
}

impl EastSeat {
    /// Makes `seat` the east seat.
    pub fn new(seat: Seat) -> (r: EastSeat)
        ensures
            r@ == seat@,
    {
        EastSeat(seat)
    }

    /// The seat that holds the east wind.
    pub fn seat(self) -> (r: Seat)
        ensures
            r@ == self@,
    {
        self.0
    }

    /// The seat wind of `seat`: its clockwise distance from the east seat, as a wind.
    pub fn wind_at(self, seat: Seat) -> (r: Wind)
        ensures
            r@ == ring_distance(self@ as int, seat@ as int) + 1,
    {
        let offset = self.0.clockwise_distance_to(seat);
        Wind::of_code((offset + 1) as u8)
    }

    /// The seat that holds `wind`; the inverse of [`Self::wind_at`].
    pub fn seat_at(self, wind: Wind) -> (r: Seat)
        ensures
            r@ == ring_forward(self@ as int, wind@ - 1),
    {
        self.0.clockwise(wind.index())
    }
}

/// Moving clockwise and then the same number of places counter-clockwise returns to the start,
/// for any seat or wind code on the ring.
pub proof fn law_ring_backward_undoes_forward(code: int, steps: int)
    requires
        1 <= code <= 4,
        steps >= 0,
    ensures
        ring_backward(ring_forward(code, steps), steps) == code,
        ring_forward(ring_backward(code, steps), steps) == code,
{
}

/// Four clockwise steps come back to the same place: the ring has period four.
pub proof fn law_ring_period(code: int, steps: int)
    requires
        1 <= code <= 4,
        steps >= 0,
    ensures
        ring_forward(code, steps + 4) == ring_forward(code, steps),
        ring_forward(code, 4) == code,
        ring_backward(code, steps + 4) == ring_backward(code, steps),
{
}

/// Moving clockwise by the clockwise distance from `from` to `to` reaches `to`.
pub proof fn law_ring_distance(from: int, to: int)
    requires
        1 <= from <= 4,
        1 <= to <= 4,
    ensures
        ring_forward(from, ring_distance(from, to)) == to,
        0 <= ring_distance(from, to) < 4,
        ring_distance(from, from) == 0,
{
}

/// For one east anchor, the wind of the seat that holds `wind` is `wind`, and the seat that
/// holds the wind of `seat` is `seat`: `seat_at` and `wind_at` are inverse maps.
pub proof fn law_wind_seat_inverse(east: int, seat: int, wind: int)
    requires
        1 <= east <= 4,
        1 <= seat <= 4,
        1 <= wind <= 4,
    ensures
        ring_forward(east, ring_distance(east, seat)) == seat,
        ring_distance(east, ring_forward(east, wind - 1)) + 1 == wind,
{
}

} // verus!
