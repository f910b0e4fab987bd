//! A fixed map with one optional slot per seat.

use vstd::prelude::*;

use super::{Seat, SeatMask};

verus! {

/// A map keyed by [`Seat`] with four fixed slots; each seat may hold one value.
///
/// Slots stay in seat-code order and an empty slot never renumbers the others. Whether a slot
/// holds a value says nothing about whether a rule uses that seat, or about turn order.
#[derive(Clone, Copy, Debug, PartialEq, Eq, Hash)]
pub struct SeatMap<T> {
    slots: [Option<T>; 4],
}

impl<T> View for SeatMap<T> {
    type V = Seq<Option<T>>;

    /// The four slots, by seat index.
    closed spec fn view(&self) -> Seq<Option<T>> {
        self.slots@
    }
}

/// Number of occupied slots among the first `n` of a slot sequence.
pub open spec fn occupied<T>(slots: Seq<Option<T>>, n: int) -> nat
    decreases n,
{
    if n <= 0 {
        0
    } else {
        occupied(slots, n - 1) + if slots[n - 1] is Some { 1nat } else { 0nat }
    }
}

/// The values of the occupied slots among the first `n`, in slot order.
pub open spec fn stored<T>(slots: Seq<Option<T>>, n: int) -> Seq<T>
    decreases n,
{
    if n <= 0 {
        Seq::empty()
    } else {
        match slots[n - 1] {
            Some(v) => stored(slots, n - 1).push(v),
            None => stored(slots, n - 1),
        }
    }
}

impl<T> Default for SeatMap<T> {
    /// All four slots empty.
    fn default() -> (r: SeatMap<T>)
        ensures
            r@ == seq![None::<T>, None, None, None],
    {
        SeatMap::new()
    }
}

impl<T> core::ops::Index<Seat> for SeatMap<T> {
    type Output = Option<T>;

    /// Borrows the slot of `seat`; an empty slot reads as `None`.
    fn index(&self, seat: Seat) -> (r: &Option<T>)
        ensures
            *r == self@[seat@ - 1],
    {
        &self.slots[seat.index()]
    }
}

impl<T> vstd::std_specs::core::IndexSpecImpl<Seat> for SeatMap<T> {
    open spec fn index_req(&self, seat: &Seat) -> bool {
        true
    }
}

impl<T> core::ops::IndexMut<Seat> for SeatMap<T> {
    /// Mutably borrows the slot of `seat`; it may be set to `Some` or `None` without touching
    /// the other slots.
    fn index_mut(&mut self, seat: Seat) -> (r: &mut Option<T>)
        ensures
            *r == old(self)@[seat@ - 1],
            final(self)@ == old(self)@.update(seat@ - 1, *final(r)),
    {
        &mut self.slots[seat.index()]
    }
}

impl<T> SeatMap<T> {
    /// Every map has exactly four slots.
    pub proof fn lemma_len(self)
        ensures
            self@.len() == 4,
    {
    }

    /// A map with all four slots empty.
    pub fn new() -> (r: SeatMap<T>)
        ensures
            r@ == seq![None::<T>, None, None, None],
    {
        let r = SeatMap { slots: [None, None, None, None] };
        proof {
            assert(r@ =~= seq![None::<T>, None, None, None]);
        }
        r
    }

    /// A map from a full slot array laid out by seat index.
    pub fn from_array(slots: [Option<T>; 4]) -> (r: SeatMap<T>)
        ensures
            r@ == slots@,
    {
        SeatMap { slots }
    }

    /// Borrows the full slot array, empty slots included.
    pub fn as_array(&self) -> (r: &[Option<T>; 4])
        ensures
            r@ == self@,
    {
        &self.slots
    }

    /// Returns the full slot array, empty slots included.
    pub fn into_array(self) -> (r: [Option<T>; 4])
        ensures
            r@ == self@,
    {
        self.slots
    }

    /// Number of occupied slots, in `0..=4`.
    pub fn len(&self) -> (r: usize)
        ensures
            r == occupied(self@, 4),
            r <= 4,
    {
        let mut len: usize = 0;
        let mut index: usize = 0;
        while index < 4
            invariant
                index <= 4,
                self.slots@.len() == 4,
                len == occupied(self.slots@, index as int),
                len <= index,
            decreases 4 - index,
        {
            if self.slots[index].is_some() {
                len += 1;
            }
            index += 1;
        }
        len
    }

    /// Whether all four slots are empty.
    pub fn is_empty(&self) -> (r: bool)
        ensures
            r == (forall|i: int| 0 <= i < 4 ==> #[trigger] self@[i] is None),
    {
        let r = self.len() == 0;
        proof {
            let s = self.slots@;
            assert(occupied(s, 4) == occupied(s, 3) + if s[3] is Some { 1nat } else { 0nat });
            assert(occupied(s, 3) == occupied(s, 2) + if s[2] is Some { 1nat } else { 0nat });
            assert(occupied(s, 2) == occupied(s, 1) + if s[1] is Some { 1nat } else { 0nat });
            assert(occupied(s, 1) == occupied(s, 0) + if s[0] is Some { 1nat } else { 0nat });
        }
        r
    }

    /// Whether the slot of `seat` holds a value.
    pub fn contains_key(&self, seat: Seat) -> (r: bool)
        ensures
            r == self@[seat@ - 1] is Some,
            1 <= seat@ <= 4,
            self@.len() == 4,
    {
        self.slots[seat.index()].is_some()
    }

    /// Borrows the value in the slot of `seat`; `None` for an empty slot.
    pub fn get(&self, seat: Seat) -> (r: Option<&T>)
        ensures
            r == match self@[seat@ - 1] {
                Some(v) => Some(&v),
                None => None::<&T>,
            },
            1 <= seat@ <= 4,
            self@.len() == 4,
    {
        self.slots[seat.index()].as_ref()
    }

    /// Mutably borrows the value in the slot of `seat`; `None` for an empty slot.
    pub fn get_mut(&mut self, seat: Seat) -> (r: Option<&mut T>)
        ensures
            old(self)@[seat@ - 1] is Some <==> r is Some,
            old(self)@[seat@ - 1] is None ==> final(self)@ == old(self)@,
            r matches Some(v) ==> *v == old(self)@[seat@ - 1]->Some_0 && final(self)@ == old(self)@.update(seat@ - 1, Some(*final(v))),
    {
        let idx = seat.index();
        self.slots[idx].as_mut()
    }

    /// Stores `value` for `seat` and returns the previous value, `None` for an empty slot.
    pub fn insert(&mut self, seat: Seat, value: T) -> (r: Option<T>)
        ensures
            r == old(self)@[seat@ - 1],
            final(self)@ == old(self)@.update(seat@ - 1, Some(value)),
            1 <= seat@ <= 4,
            final(self)@.len() == 4,
    {
        let idx = seat.index();
        let mut value = Some(value);
        std::mem::swap(&mut self.slots[idx], &mut value);
        value
    }

    /// Takes the value out of the slot of `seat`, leaving it empty.
    pub fn remove(&mut self, seat: Seat) -> (r: Option<T>)
        ensures
            r == old(self)@[seat@ - 1],
            final(self)@ == old(self)@.update(seat@ - 1, None),
            1 <= seat@ <= 4,
            final(self)@.len() == 4,
    {
        let idx = seat.index();
        let mut value = None;
        std::mem::swap(&mut self.slots[idx], &mut value);
        value
    }

    /// Empties all four slots.
    pub fn clear(&mut self)
        ensures
            final(self)@ == seq![None::<T>, None, None, None],
    {
        self.slots = [None, None, None, None];
        proof {
            assert(self@ =~= seq![None::<T>, None, None, None]);
        }
    }

    /// The seats whose slots hold a value.
    pub fn mask(&self) -> (r: SeatMask)
        ensures
            forall|c: u8| #[trigger] r@.contains(c) <==> (1 <= c <= 4 && self@[c - 1] is Some),
    {
        let mut mask = SeatMask::empty();
        let mut index: usize = 0;
        while index < 4
            invariant
                index <= 4,
                self.slots@.len() == 4,
                forall|c: u8| #[trigger] mask@.contains(c) <==> (1 <= c <= index && self.slots@[c - 1] is Some),
            decreases 4 - index,
        {
            if self.slots[index].is_some() {
                let seat = Seat::from_index(index).unwrap();
                mask.insert(seat);
            }
            index += 1;
        }
        mask
    }

    /// The occupied seats and their values, in ascending seat-code order.
    pub fn iter(&self) -> (r: Vec<(Seat, &T)>)
        ensures
            forall|i: int| 0 <= i < r@.len() ==> #[trigger] self@[r@[i].0@ - 1] == Some(*r@[i].1),
            forall|i: int, j: int| 0 <= i < j < r@.len() ==> r@[i].0@ < r@[j].0@,
            forall|c: u8| 1 <= c <= 4 && #[trigger] self@[c - 1] is Some ==> exists|i: int| 0 <= i < r@.len() && #[trigger] r@[i].0@ == c,
    {
        let mut out: Vec<(Seat, &T)> = Vec::new();
        let mut index: usize = 0;
        while index < 4
            invariant
                index <= 4,
                self.slots@.len() == 4,
                forall|i: int| 0 <= i < out@.len() ==> #[trigger] self@[out@[i].0@ - 1] == Some(*out@[i].1),
                forall|i: int| 0 <= i < out@.len() ==> 1 <= #[trigger] out@[i].0@ <= index,
                forall|i: int, j: int| 0 <= i < j < out@.len() ==> out@[i].0@ < out@[j].0@,
                forall|c: u8| 1 <= c <= index && #[trigger] self@[c - 1] is Some ==> exists|i: int| 0 <= i < out@.len() && #[trigger] out@[i].0@ == c,
            decreases 4 - index,
        {
            match &self.slots[index] {
                Some(value) => {
                    let seat = Seat::from_index(index).unwrap();
                    let ghost prev = out@;
                    out.push((seat, value));
                    proof {
                        assert forall|i: int| 0 <= i < prev.len() implies out@[i] == prev[i] by {}
                        assert forall|c: u8| 1 <= c <= index + 1 && #[trigger] self@[c - 1] is Some implies exists|i: int| 0 <= i < out@.len() && #[trigger] out@[i].0@ == c by {
                            if c == index + 1 {
                                assert(out@[prev.len() as int].0@ == c);
                            } else {
                                let i = choose|i: int| 0 <= i < prev.len() && #[trigger] prev[i].0@ == c;
                                assert(out@[i].0@ == c);
                            }
                        }
                    }
                },
                None => {},
            }
            index += 1;
        }
        out
    }

    /// Mutable borrows of the stored values with their seats, by ascending seat code; empty
    /// slots are skipped and a value's seat never changes.
    pub fn iter_mut(&mut self) -> (r: Vec<(Seat, &mut T)>)
        ensures
            forall|i: int| 0 <= i < r@.len() ==> #[trigger] old(self)@[r@[i].0@ - 1] == Some(*r@[i].1),
            forall|i: int, j: int| 0 <= i < j < r@.len() ==> r@[i].0@ < r@[j].0@,
            forall|c: u8| 1 <= c <= 4 && #[trigger] old(self)@[c - 1] is Some ==> exists|i: int|
                0 <= i < r@.len() && #[trigger] r@[i].0@ == c,
            final(self)@.len() == 4,
            forall|k: int| 0 <= k < 4 && #[trigger] old(self)@[k] is None ==> final(self)@[k] is None,
            forall|i: int| 0 <= i < r@.len() ==> #[trigger] final(self)@[r@[i].0@ - 1] == Some(*final(r@[i].1)),
    {
        let seats = Seat::all();
        let slots: &mut [Option<T>] = &mut self.slots;
        let (first, rest) = slots.split_at_mut(1);
        let (second, rest) = rest.split_at_mut(1);
        let (third, fourth) = rest.split_at_mut(1);
        let mut out: Vec<(Seat, &mut T)> = Vec::new();
        let ghost at0 = out@.len() as int;
        if let Some(v) = first[0].as_mut() {
            out.push((seats[0], v));
        }
        let ghost at1 = out@.len() as int;
        if let Some(v) = second[0].as_mut() {
            out.push((seats[1], v));
        }
        let ghost at2 = out@.len() as int;
        if let Some(v) = third[0].as_mut() {
            out.push((seats[2], v));
        }
        let ghost at3 = out@.len() as int;
        if let Some(v) = fourth[0].as_mut() {
            out.push((seats[3], v));
        }
        proof {
            assert forall|c: u8| 1 <= c <= 4 && #[trigger] old(self)@[c - 1] is Some implies exists|i: int|
                0 <= i < out@.len() && #[trigger] out@[i].0@ == c by {
                if c == 1 {
                    assert(out@[at0].0@ == c);
                } else if c == 2 {
                    assert(out@[at1].0@ == c);
                } else if c == 3 {
                    assert(out@[at2].0@ == c);
                } else {
                    assert(out@[at3].0@ == c);
                }
            }
        }
        out
    }

    /// Mutable borrows of the stored values in ascending seat-code order; empty slots are
    /// skipped, and which slots hold a value never changes.
    pub fn values_mut(&mut self) -> (r: Vec<&mut T>)
        ensures
            r@.len() == stored(old(self)@, 4).len(),
            forall|i: int| 0 <= i < r@.len() ==> *#[trigger] r@[i] == stored(old(self)@, 4)[i],
            final(self)@.len() == 4,
            forall|k: int| 0 <= k < 4 ==> (#[trigger] final(self)@[k] is Some <==> old(self)@[k] is Some),
            stored(final(self)@, 4).len() == r@.len(),
            forall|i: int| 0 <= i < r@.len() ==> stored(final(self)@, 4)[i] == *final(#[trigger] r@[i]),
    {
        let slots: &mut [Option<T>] = &mut self.slots;
        let (first, rest) = slots.split_at_mut(1);
        let (second, rest) = rest.split_at_mut(1);
        let (third, fourth) = rest.split_at_mut(1);
        let mut out: Vec<&mut T> = Vec::new();
        if let Some(v) = first[0].as_mut() {
            out.push(v);
        }
        if let Some(v) = second[0].as_mut() {
            out.push(v);
        }
        if let Some(v) = third[0].as_mut() {
            out.push(v);
        }
        if let Some(v) = fourth[0].as_mut() {
            out.push(v);
        }
        proof {
            reveal_with_fuel(stored, 5);
        }
        out
    }

    /// The occupied seats in ascending seat-code order.
    pub fn keys(&self) -> (r: Vec<Seat>)
        ensures
            forall|i: int| 0 <= i < r@.len() ==> #[trigger] self@[r@[i]@ - 1] is Some,
            forall|i: int, j: int| 0 <= i < j < r@.len() ==> r@[i]@ < r@[j]@,
            forall|c: u8| 1 <= c <= 4 && #[trigger] self@[c - 1] is Some ==> exists|i: int| 0 <= i < r@.len() && #[trigger] r@[i]@ == c,
    {
        let mut out: Vec<Seat> = Vec::new();
        let mut index: usize = 0;
        while index < 4
            invariant
                index <= 4,
                self.slots@.len() == 4,
                forall|i: int| 0 <= i < out@.len() ==> #[trigger] self@[out@[i]@ - 1] is Some,
                forall|i: int| 0 <= i < out@.len() ==> 1 <= #[trigger] out@[i]@ <= index,
                forall|i: int, j: int| 0 <= i < j < out@.len() ==> out@[i]@ < out@[j]@,
                forall|c: u8| 1 <= c <= index && #[trigger] self@[c - 1] is Some ==> exists|i: int| 0 <= i < out@.len() && #[trigger] out@[i]@ == c,
            decreases 4 - index,
        {
            if self.slots[index].is_some() {
                let seat = Seat::from_index(index).unwrap();
                let ghost prev = out@;
                out.push(seat);
                proof {
                    assert forall|i: int| 0 <= i < prev.len() implies out@[i] == prev[i] by {}
                    assert forall|c: u8| 1 <= c <= index + 1 && #[trigger] self@[c - 1] is Some implies exists|i: int| 0 <= i < out@.len() && #[trigger] out@[i]@ == c by {
                        if c == index + 1 {
                            assert(out@[prev.len() as int]@ == c);
                        } else {
                            let i = choose|i: int| 0 <= i < prev.len() && #[trigger] prev[i]@ == c;
                            assert(out@[i]@ == c);
                        }
                    }
                }
            }
            index += 1;
        }
        out
    }

    /// The stored values in ascending seat-code order.
    pub fn values(&self) -> (r: Vec<&T>)
        ensures
            r@.len() == stored(self@, 4).len(),
            forall|i: int| 0 <= i < r@.len() ==> *#[trigger] r@[i] == stored(self@, 4)[i],
    {
        let mut out: Vec<&T> = Vec::new();
        let mut index: usize = 0;
        while index < 4
            invariant
                index <= 4,
                self.slots@.len() == 4,
                out@.len() == stored(self.slots@, index as int).len(),
                forall|i: int| 0 <= i < out@.len() ==> *#[trigger] out@[i] == stored(self.slots@, index as int)[i],
            decreases 4 - index,
        {
            match &self.slots[index] {
                Some(value) => {
                    out.push(value);
                },
                None => {},
            }
            index += 1;
        }
        out
    }
}

} // verus!
