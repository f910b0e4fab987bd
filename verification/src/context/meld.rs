//! Committing melds from hand tiles and still-present discards.
//!
//! Only held counts, meld references and the declared structure are checked here; response
//! windows, tile shapes, wildcard readings and replacement draws belong to the layers above.

use vstd::prelude::*;
use vstd::multiset::Multiset;

use super::tally::lemma_common_move;
use super::transfer::discarded;
use super::{common_tiles, present_tiles, slot_tiles, Context, Variant};
use crate::context::ContextError;
use crate::hand::{kept, law_select_conserves, remaining, remaining_held, select, select_error};
use crate::meld::{Meld, MeldKind};
use crate::melds::{flat_tiles, lemma_flat_push, lemma_flat_update, MeldsError};
use crate::river::{DiscardId, RiverError};
use crate::seat::Seat;
use crate::tile::Tile;

verus! {

/// The kind of meld a claim declares.
enum ClaimKind {
    Chow,
    Pong,
    Kong,
}

/// The first reason a claim of `tiles` plus the discard `id` by `seat` fails, in the order the
/// checks run; `None` when it can be committed.
pub open spec fn claim_error<V: Variant>(ctx: Context<V>, seat: Seat, id: DiscardId, tiles: Seq<Tile>) -> Option<ContextError> {
    let river = ctx.spec_river()@;
    if !ctx.joined(seat) {
        Some(ContextError::MissingSeat { seat })
    } else if id@ >= river.len() {
        Some(ContextError::River { source: RiverError::UnknownDiscard { id } })
    } else if !ctx.joined(river[id@ as int].0.spec_seat()) {
        Some(ContextError::MissingSeat { seat: river[id@ as int].0.spec_seat() })
    } else if river[id@ as int].0.spec_seat() == seat {
        Some(ContextError::OwnDiscard { seat, id })
    } else if !river[id@ as int].1 {
        Some(ContextError::River { source: RiverError::AlreadyTaken { id } })
    } else if select(ctx.hand_tiles(seat), tiles) is None {
        Some(ContextError::Hand { seat, source: select_error(ctx.hand_tiles(seat), tiles) })
    } else {
        None
    }
}

/// The tile a claim of `id` takes from the river.
pub open spec fn claim_tile<V: Variant>(ctx: Context<V>, id: DiscardId) -> Tile {
    ctx.spec_river()@[id@ as int].0.spec_hand_discard().spec_tile()
}

/// The seat that discarded `id`.
pub open spec fn claim_source<V: Variant>(ctx: Context<V>, id: DiscardId) -> Seat {
    ctx.spec_river()@[id@ as int].0.spec_seat()
}

/// `after` is `before` once `seat` took `tiles` out of its hand for a meld: the rest of the hand
/// keeps its parts, one meld is appended, other seats, wall and frame stay.
pub open spec fn meld_appended<V: Variant>(before: Context<V>, after: Context<V>, seat: Seat, tiles: Seq<Tile>) -> bool {
    let chosen = select(before.hand_tiles(seat), tiles)->Some_0;
    let melds = before.seat_state(seat).spec_melds()@;
    &&& after.joined(seat)
    &&& after.hand_tiles(seat) == remaining(before.hand_tiles(seat), chosen, before.hand_cursor(seat) as int)
    &&& after.hand_cursor(seat) == remaining_held(before.hand_tiles(seat), chosen, before.hand_cursor(seat) as int).len()
    &&& after.seat_state(seat).spec_melds()@.len() == melds.len() + 1
    &&& after.seat_state(seat).spec_melds()@.take(melds.len() as int) == melds
    &&& after.seat_state(seat).spec_variant() == before.seat_state(seat).spec_variant()
    &&& before.same_seats_except(after, seat@ - 1)
    &&& before.same_frame(after)
    &&& after.spec_wall() == before.spec_wall()
}

/// A meld takes its tiles out of the hand without moving any other tile between the parts: the
/// held part afterwards is the held tiles that were not taken, in order, and the drawn part is
/// the drawn tiles that were not taken, in order, so an untaken drawn tile stays drawn.
pub proof fn law_meld_keeps_partition<V: Variant>(before: Context<V>, after: Context<V>, seat: Seat, tiles: Seq<Tile>)
    requires
        meld_appended(before, after, seat, tiles),
    ensures
        ({
            let h0 = before.seat_state(seat).spec_hand();
            let h = after.seat_state(seat).spec_hand();
            let chosen = select(h0.spec_tiles(), tiles)->Some_0;
            &&& h.spec_held() == kept(h0.spec_tiles(), chosen, 0, h0.spec_cursor() as int)
            &&& h.spec_drawn() == kept(h0.spec_tiles(), chosen, h0.spec_cursor() as int, h0.spec_tiles().len() as int)
        }),
{
    let h0 = before.seat_state(seat).spec_hand();
    let h = after.seat_state(seat).spec_hand();
    let chosen = select(h0.spec_tiles(), tiles)->Some_0;
    let held = kept(h0.spec_tiles(), chosen, 0, h0.spec_cursor() as int);
    let drawn = kept(h0.spec_tiles(), chosen, h0.spec_cursor() as int, h0.spec_tiles().len() as int);
    assert((held + drawn).take(held.len() as int) =~= held);
    assert((held + drawn).skip(held.len() as int) =~= drawn);
}

/// `after` is `before` once the claim of `id` was committed: the meld is appended and the
/// discard's tile is no longer present, its record and id kept.
pub open spec fn claim_committed<V: Variant>(before: Context<V>, after: Context<V>, seat: Seat, id: DiscardId, tiles: Seq<Tile>) -> bool {
    &&& meld_appended(before, after, seat, tiles)
    &&& after.spec_river()@ == before.spec_river()@.update(id@ as int, (before.spec_river()@[id@ as int].0, false))
}

impl<V: Variant> Context<V> {
    /// The melds of a joined seat.
    pub open spec fn meld_list(self, seat: Seat) -> Seq<Meld> {
        self.seat_state(seat).spec_melds()@
    }

    /// Checks a claim and commits it: the discard's tile and the own tiles become a new meld of
    /// `kind`, whose index is returned. Nothing changes on failure.
    fn commit_claim(&mut self, seat: Seat, id: DiscardId, tiles: &[Tile], kind: ClaimKind) -> (r: Result<usize, ContextError>)
        requires
            kind is Kong ==> tiles@.len() == 3,
            !(kind is Kong) ==> tiles@.len() == 2,
        ensures
            claim_error(*old(self), seat, id, tiles@) matches Some(e) ==> r == Err::<usize, ContextError>(e),
            r is Ok <==> claim_error(*old(self), seat, id, tiles@) is None,
            r is Err ==> *final(self) == *old(self),
            r matches Ok(index) ==> index == old(self).meld_list(seat).len() && claim_committed(*old(self), *final(self), seat, id, tiles@)
                && match kind {
                ClaimKind::Chow => final(self).meld_list(seat).last() matches Meld::Chow(m) && m.spec_tiles() == tiles@.push(
                    claim_tile(*old(self), id),
                ) && m.spec_source() == claim_source(*old(self), id),
                ClaimKind::Pong => final(self).meld_list(seat).last() matches Meld::Pong(m) && m.spec_tiles() == tiles@.push(
                    claim_tile(*old(self), id),
                ) && m.spec_source() == claim_source(*old(self), id),
                ClaimKind::Kong => final(self).meld_list(seat).last() matches Meld::ClaimedKong(m) && m.spec_tiles()
                    == tiles@.push(claim_tile(*old(self), id)) && m.spec_source() == claim_source(*old(self), id),
            },
            r is Ok ==> common_tiles(*final(self)).to_multiset() == common_tiles(*old(self)).to_multiset(),
            r is Ok ==> ({
                let h0 = old(self).seat_state(seat).spec_hand();
                let h = final(self).seat_state(seat).spec_hand();
                let chosen = select(h0.spec_tiles(), tiles@)->Some_0;
                &&& h.spec_held() == kept(h0.spec_tiles(), chosen, 0, h0.spec_cursor() as int)
                &&& h.spec_drawn() == kept(h0.spec_tiles(), chosen, h0.spec_cursor() as int, h0.spec_tiles().len() as int)
            }),
    {
        let ghost before = *self;
        let state = match self.seats.get(seat) {
            Some(state) => state,
            None => {
                return Err(ContextError::MissingSeat { seat });
            },
        };
        let discard = match self.river.get(id) {
            Some(discard) => discard,
            None => {
                return Err(ContextError::River { source: RiverError::UnknownDiscard { id } });
            },
        };
        let source = discard.seat();
        if !self.seats.contains_key(source) {
            return Err(ContextError::MissingSeat { seat: source });
        }
        if source == seat {
            return Err(ContextError::OwnDiscard { seat, id });
        }
        let mut river = self.river.clone();
        let claimed = match river.take(id) {
            Ok(tile) => tile,
            Err(source) => {
                return Err(ContextError::River { source });
            },
        };
        let mut hand = state.hand().clone();
        match hand.take_tiles_many(tiles) {
            Ok(_) => {},
            Err(source) => {
                return Err(ContextError::Hand { seat, source });
            },
        }
        let mut melds = state.melds().clone();
        let index = match kind {
            ClaimKind::Chow => melds.chow([tiles[0], tiles[1]], claimed, source),
            ClaimKind::Pong => melds.pong([tiles[0], tiles[1]], claimed, source),
            ClaimKind::Kong => melds.claimed_kong([tiles[0], tiles[1], tiles[2]], claimed, source),
        };
        let ghost meld = melds@.last();
        proof {
            assert(melds@ =~= before.meld_list(seat).push(meld));
            assert(meld.spec_tiles() =~= tiles@.push(claimed));
        }
        self.replace_seat_parts(seat, hand, melds);
        self.river = river;
        proof {
            let after = *self;
            let k = seat@ - 1;
            let h0 = before.hand_tiles(seat);
            let h1 = after.hand_tiles(seat);
            let f0 = flat_tiles(before.meld_list(seat));
            before.spec_seats().lemma_len();
            law_select_conserves(h0, tiles@, before.hand_cursor(seat) as int);
            lemma_flat_push(before.meld_list(seat), meld);
            let n = before.spec_river()@.len() as int;
            crate::context::tally::lemma_present_take(before.spec_river()@, id@ as int, n);
            vstd::seq_lib::lemma_multiset_commutative(h1, f0 + meld.spec_tiles());
            vstd::seq_lib::lemma_multiset_commutative(f0, meld.spec_tiles());
            vstd::seq_lib::lemma_multiset_commutative(h0, f0);
            broadcast use vstd::multiset::group_multiset_axioms;
            broadcast use vstd::seq_lib::group_to_multiset_ensures;
            assert(slot_tiles(after.spec_seats()@[k]) == h1 + (f0 + meld.spec_tiles()));
            assert(slot_tiles(before.spec_seats()@[k]) == h0 + f0);
            let e = Multiset::<Tile>::empty();
            let c = Multiset::<Tile>::empty().insert(claimed);
            assert(slot_tiles(after.spec_seats()@[k]).to_multiset().add(e) =~= slot_tiles(before.spec_seats()@[k]).to_multiset().add(c));
            let pa = present_tiles(before.spec_river()@, n).to_multiset();
            let pb = present_tiles(after.spec_river()@, n).to_multiset();
            assert(pb.insert(claimed) == pa);
            assert(after.spec_wall()@.to_multiset().add(pb).add(c) =~= before.spec_wall()@.to_multiset().add(pa).add(e));
            lemma_common_move(before, after, k, e, c);
            law_meld_keeps_partition(before, after, seat, tiles@);
        }
        Ok(index)
    }

    /// Commits a chow of two own tiles and the still-present discard `id` of another joined seat;
    /// returns the meld's zero-based index.
    ///
    /// The claimed tile and its source come from the river record, which keeps its history and
    /// id. Own tiles are matched along the hand's order, held part first, one copy per request;
    /// the rest of the hand keeps its parts. The meld keeps the request order and ends with the
    /// claimed tile. No turn, seat order, run shape or wildcard is checked.
    ///
    /// Fails with [`ContextError::MissingSeat`] when the claimer or the discarder has not joined,
    /// [`ContextError::OwnDiscard`] for the claimer's own discard, [`ContextError::River`] when
    /// the discard is unknown or already taken and [`ContextError::Hand`] when the own tiles are
    /// short; failures change nothing.
    pub fn chow(&mut self, seat: Seat, id: DiscardId, tiles: [Tile; 2]) -> (r: Result<usize, ContextError>)
        ensures
            claim_error(*old(self), seat, id, tiles@) matches Some(e) ==> r == Err::<usize, ContextError>(e),
            r is Ok <==> claim_error(*old(self), seat, id, tiles@) is None,
            r is Err ==> *final(self) == *old(self),
            r matches Ok(index) ==> index == old(self).meld_list(seat).len() && claim_committed(*old(self), *final(self), seat, id, tiles@)
                && (final(self).meld_list(seat).last() matches Meld::Chow(m) && m.spec_tiles() == tiles@.push(claim_tile(*old(self), id))
                && m.spec_source() == claim_source(*old(self), id)),
            r is Ok ==> common_tiles(*final(self)).to_multiset() == common_tiles(*old(self)).to_multiset(),
            r is Ok ==> ({
                let h0 = old(self).seat_state(seat).spec_hand();
                let h = final(self).seat_state(seat).spec_hand();
                let chosen = select(h0.spec_tiles(), tiles@)->Some_0;
                &&& h.spec_held() == kept(h0.spec_tiles(), chosen, 0, h0.spec_cursor() as int)
                &&& h.spec_drawn() == kept(h0.spec_tiles(), chosen, h0.spec_cursor() as int, h0.spec_tiles().len() as int)
            }),
    {
        self.commit_claim(seat, id, tiles.as_slice(), ClaimKind::Chow)
    }

    /// Commits a pong of two own tiles and the still-present discard `id` of another joined seat;
    /// returns the meld's zero-based index. Matching, order and failures are those of
    /// [`Self::chow`]; no equality of the tiles is checked.
    pub fn pong(&mut self, seat: Seat, id: DiscardId, tiles: [Tile; 2]) -> (r: Result<usize, ContextError>)
        ensures
            claim_error(*old(self), seat, id, tiles@) matches Some(e) ==> r == Err::<usize, ContextError>(e),
            r is Ok <==> claim_error(*old(self), seat, id, tiles@) is None,
            r is Err ==> *final(self) == *old(self),
            r matches Ok(index) ==> index == old(self).meld_list(seat).len() && claim_committed(*old(self), *final(self), seat, id, tiles@)
                && (final(self).meld_list(seat).last() matches Meld::Pong(m) && m.spec_tiles() == tiles@.push(claim_tile(*old(self), id))
                && m.spec_source() == claim_source(*old(self), id)),
            r is Ok ==> common_tiles(*final(self)).to_multiset() == common_tiles(*old(self)).to_multiset(),
            r is Ok ==> ({
                let h0 = old(self).seat_state(seat).spec_hand();
                let h = final(self).seat_state(seat).spec_hand();
                let chosen = select(h0.spec_tiles(), tiles@)->Some_0;
                &&& h.spec_held() == kept(h0.spec_tiles(), chosen, 0, h0.spec_cursor() as int)
                &&& h.spec_drawn() == kept(h0.spec_tiles(), chosen, h0.spec_cursor() as int, h0.spec_tiles().len() as int)
            }),
    {
        self.commit_claim(seat, id, tiles.as_slice(), ClaimKind::Pong)
    }

    /// Commits a kong of three own tiles and the still-present discard `id` of another joined
    /// seat; returns the meld's zero-based index. Matching, order and failures are those of
    /// [`Self::chow`]; no robbing window or replacement draw is handled.
    pub fn claimed_kong(&mut self, seat: Seat, id: DiscardId, tiles: [Tile; 3]) -> (r: Result<usize, ContextError>)
        ensures
            claim_error(*old(self), seat, id, tiles@) matches Some(e) ==> r == Err::<usize, ContextError>(e),
            r is Ok <==> claim_error(*old(self), seat, id, tiles@) is None,
            r is Err ==> *final(self) == *old(self),
            r matches Ok(index) ==> index == old(self).meld_list(seat).len() && claim_committed(*old(self), *final(self), seat, id, tiles@)
                && (final(self).meld_list(seat).last() matches Meld::ClaimedKong(m) && m.spec_tiles() == tiles@.push(
                claim_tile(*old(self), id),
            ) && m.spec_source() == claim_source(*old(self), id)),
            r is Ok ==> common_tiles(*final(self)).to_multiset() == common_tiles(*old(self)).to_multiset(),
            r is Ok ==> ({
                let h0 = old(self).seat_state(seat).spec_hand();
                let h = final(self).seat_state(seat).spec_hand();
                let chosen = select(h0.spec_tiles(), tiles@)->Some_0;
                &&& h.spec_held() == kept(h0.spec_tiles(), chosen, 0, h0.spec_cursor() as int)
                &&& h.spec_drawn() == kept(h0.spec_tiles(), chosen, h0.spec_cursor() as int, h0.spec_tiles().len() as int)
            }),
    {
        self.commit_claim(seat, id, tiles.as_slice(), ClaimKind::Kong)
    }

    /// Takes four own tiles and appends them as a concealed kong; returns its zero-based index.
    ///
    /// Repeated tiles ask for that many copies, matched along the hand's order with the held part
    /// first; the kong keeps the request order and the rest of the hand keeps its parts. No shape,
    /// wildcard, right to declare or robbing window is checked, and no replacement is drawn.
    ///
    /// Fails with [`ContextError::MissingSeat`] when the seat has not joined and with
    /// [`ContextError::Hand`] when the tiles are short; failures change nothing.
    pub fn concealed_kong(&mut self, seat: Seat, tiles: [Tile; 4]) -> (r: Result<usize, ContextError>)
        ensures
            !old(self).joined(seat) ==> r == Err::<usize, ContextError>(ContextError::MissingSeat { seat }),
            old(self).joined(seat) && select(old(self).hand_tiles(seat), tiles@) is None ==> r == Err::<usize, ContextError>(
                ContextError::Hand { seat, source: select_error(old(self).hand_tiles(seat), tiles@) },
            ),
            r is Ok <==> old(self).joined(seat) && select(old(self).hand_tiles(seat), tiles@) is Some,
            r is Err ==> *final(self) == *old(self),
            r matches Ok(index) ==> index == old(self).meld_list(seat).len() && meld_appended(*old(self), *final(self), seat, tiles@)
                && final(self).spec_river() == old(self).spec_river()
                && (final(self).meld_list(seat).last() matches Meld::ConcealedKong(m) && m.spec_tiles() == tiles@),
            r is Ok ==> common_tiles(*final(self)).to_multiset() == common_tiles(*old(self)).to_multiset(),
            r is Ok ==> ({
                let h0 = old(self).seat_state(seat).spec_hand();
                let h = final(self).seat_state(seat).spec_hand();
                let chosen = select(h0.spec_tiles(), tiles@)->Some_0;
                &&& h.spec_held() == kept(h0.spec_tiles(), chosen, 0, h0.spec_cursor() as int)
                &&& h.spec_drawn() == kept(h0.spec_tiles(), chosen, h0.spec_cursor() as int, h0.spec_tiles().len() as int)
            }),
    {
        let ghost before = *self;
        let state = match self.seats.get(seat) {
            Some(state) => state,
            None => {
                return Err(ContextError::MissingSeat { seat });
            },
        };
        let mut hand = state.hand().clone();
        match hand.take_tiles(tiles) {
            Ok(_) => {},
            Err(source) => {
                return Err(ContextError::Hand { seat, source });
            },
        }
        let mut melds = state.melds().clone();
        let index = melds.concealed_kong(tiles);
        let ghost meld = melds@.last();
        proof {
            assert(melds@ =~= before.meld_list(seat).push(meld));
        }
        self.replace_seat_parts(seat, hand, melds);
        proof {
            let after = *self;
            let k = seat@ - 1;
            let h0 = before.hand_tiles(seat);
            let h1 = after.hand_tiles(seat);
            let f0 = flat_tiles(before.meld_list(seat));
            before.spec_seats().lemma_len();
            law_select_conserves(h0, tiles@, before.hand_cursor(seat) as int);
            lemma_flat_push(before.meld_list(seat), meld);
            vstd::seq_lib::lemma_multiset_commutative(h1, f0 + tiles@);
            vstd::seq_lib::lemma_multiset_commutative(f0, tiles@);
            vstd::seq_lib::lemma_multiset_commutative(h0, f0);
            broadcast use vstd::multiset::group_multiset_axioms;
            assert(slot_tiles(after.spec_seats()@[k]) == h1 + (f0 + tiles@));
            assert(slot_tiles(before.spec_seats()@[k]) == h0 + f0);
            let e = Multiset::<Tile>::empty();
            assert(slot_tiles(after.spec_seats()@[k]).to_multiset().add(e) =~= slot_tiles(before.spec_seats()@[k]).to_multiset().add(e));
            let n = before.spec_river()@.len() as int;
            assert(after.spec_wall()@.to_multiset().add(present_tiles(after.spec_river()@, n).to_multiset()).add(e)
                =~= before.spec_wall()@.to_multiset().add(present_tiles(before.spec_river()@, n).to_multiset()).add(e));
            lemma_common_move(before, after, k, e, e);
            law_meld_keeps_partition(before, after, seat, tiles@);
        }
        Ok(index)
    }

    /// Takes one own tile and turns the pong at `meld_index` into an added kong in place.
    ///
    /// The copy is the earliest in the hand's order, held part first. The number and indices of
    /// melds stay; the pong's three tiles, their order and its source are kept and the new tile
    /// is the fourth. The rest of the hand keeps its parts. This is the final commit of an added
    /// kong: no robbing window, shape or wildcard is handled and no replacement is drawn.
    ///
    /// Fails with [`ContextError::MissingSeat`] when the seat has not joined, with
    /// [`ContextError::Melds`] when the index is out of range or not a pong and with
    /// [`ContextError::Hand`] when the hand has no copy; failures change nothing.
    pub fn add_kong(&mut self, seat: Seat, meld_index: usize, tile: Tile) -> (r: Result<(), ContextError>)
        ensures
            !old(self).joined(seat) ==> r == Err::<(), ContextError>(ContextError::MissingSeat { seat }),
            old(self).joined(seat) && meld_index >= old(self).meld_list(seat).len() ==> r == Err::<(), ContextError>(
                ContextError::Melds {
                    seat,
                    source: MeldsError::IndexOutOfBounds { index: meld_index, len: old(self).meld_list(seat).len() as usize },
                },
            ),
            old(self).joined(seat) && meld_index < old(self).meld_list(seat).len() && !(old(self).meld_list(
                seat,
            )[meld_index as int] is Pong) ==> r == Err::<(), ContextError>(
                ContextError::Melds {
                    seat,
                    source: MeldsError::ExpectedPong { index: meld_index, actual: old(self).meld_list(seat)[meld_index as int].spec_kind() },
                },
            ),
            old(self).joined(seat) && meld_index < old(self).meld_list(seat).len() && old(self).meld_list(
                seat,
            )[meld_index as int] is Pong && select(old(self).hand_tiles(seat), seq![tile]) is None ==> r == Err::<(), ContextError>(
                ContextError::Hand { seat, source: select_error(old(self).hand_tiles(seat), seq![tile]) },
            ),
            r is Ok <==> old(self).joined(seat) && meld_index < old(self).meld_list(seat).len() && old(self).meld_list(
                seat,
            )[meld_index as int] is Pong && select(old(self).hand_tiles(seat), seq![tile]) is Some,
            r is Err ==> *final(self) == *old(self),
            r is Ok ==> ({
                let chosen = select(old(self).hand_tiles(seat), seq![tile])->Some_0;
                let before = old(self).meld_list(seat);
                let after = final(self).meld_list(seat);
                &&& final(self).joined(seat)
                &&& final(self).hand_tiles(seat) == remaining(old(self).hand_tiles(seat), chosen, old(self).hand_cursor(seat) as int)
                &&& final(self).hand_cursor(seat) == remaining_held(old(self).hand_tiles(seat), chosen, old(self).hand_cursor(seat) as int).len()
                &&& after.len() == before.len()
                &&& forall|j: int| 0 <= j < before.len() && j != meld_index ==> #[trigger] after[j] == before[j]
                &&& before[meld_index as int] matches Meld::Pong(p)
                &&& after[meld_index as int] matches Meld::AddedKong(a)
                &&& a.spec_tiles() == p.spec_tiles().push(tile)
                &&& a.spec_source() == p.spec_source()
                &&& final(self).seat_state(seat).spec_variant() == old(self).seat_state(seat).spec_variant()
                &&& old(self).same_seats_except(*final(self), seat@ - 1)
                &&& old(self).same_frame(*final(self))
                &&& final(self).spec_wall() == old(self).spec_wall()
                &&& final(self).spec_river() == old(self).spec_river()
            }),
            r is Ok ==> common_tiles(*final(self)).to_multiset() == common_tiles(*old(self)).to_multiset(),
            r is Ok ==> ({
                let h0 = old(self).seat_state(seat).spec_hand();
                let h = final(self).seat_state(seat).spec_hand();
                let chosen = select(h0.spec_tiles(), seq![tile])->Some_0;
                &&& h.spec_held() == kept(h0.spec_tiles(), chosen, 0, h0.spec_cursor() as int)
                &&& h.spec_drawn() == kept(h0.spec_tiles(), chosen, h0.spec_cursor() as int, h0.spec_tiles().len() as int)
            }),
    {
        let ghost before = *self;
        let state = match self.seats.get(seat) {
            Some(state) => state,
            None => {
                return Err(ContextError::MissingSeat { seat });
            },
        };
        let mut melds = state.melds().clone();
        match melds.add_kong(meld_index, tile) {
            Ok(()) => {},
            Err(source) => {
                return Err(ContextError::Melds { seat, source });
            },
        }
        let mut hand = state.hand().clone();
        let request = [tile];
        proof {
            assert(request@ =~= seq![tile]);
        }
        match hand.take_tiles(request) {
            Ok(_) => {},
            Err(source) => {
                return Err(ContextError::Hand { seat, source });
            },
        }
        let ghost new_melds = melds@;
        self.replace_seat_parts(seat, hand, melds);
        proof {
            let after = *self;
            let k = seat@ - 1;
            let i = meld_index as int;
            let old_melds = before.meld_list(seat);
            let h0 = before.hand_tiles(seat);
            let h1 = after.hand_tiles(seat);
            let f0 = flat_tiles(old_melds);
            let f1 = flat_tiles(new_melds);
            before.spec_seats().lemma_len();
            law_select_conserves(h0, seq![tile], before.hand_cursor(seat) as int);
            assert(new_melds =~= old_melds.update(i, new_melds[i]));
            lemma_flat_update(old_melds, i, new_melds[i]);
            vstd::seq_lib::lemma_multiset_commutative(h1, f1);
            vstd::seq_lib::lemma_multiset_commutative(h0, f0);
            vstd::seq_lib::lemma_multiset_commutative(old_melds[i].spec_tiles(), seq![tile]);
            broadcast use vstd::multiset::group_multiset_axioms;
            assert(new_melds[i].spec_tiles() =~= old_melds[i].spec_tiles() + seq![tile]);
            assert(slot_tiles(after.spec_seats()@[k]) == h1 + f1);
            assert(slot_tiles(before.spec_seats()@[k]) == h0 + f0);
            let e = Multiset::<Tile>::empty();
            assert forall|t: Tile| #[trigger] slot_tiles(after.spec_seats()@[k]).to_multiset().add(e).count(t) == slot_tiles(
                before.spec_seats()@[k],
            ).to_multiset().add(e).count(t) by {
                assert(f1.to_multiset().add(old_melds[i].spec_tiles().to_multiset()).count(t) == f0.to_multiset().add(
                    new_melds[i].spec_tiles().to_multiset(),
                ).count(t));
                assert(h1.to_multiset().add(seq![tile].to_multiset()).count(t) == h0.to_multiset().count(t));
            }
            assert(slot_tiles(after.spec_seats()@[k]).to_multiset().add(e) =~= slot_tiles(before.spec_seats()@[k]).to_multiset().add(e));
            let n = before.spec_river()@.len() as int;
            assert(after.spec_wall()@.to_multiset().add(present_tiles(after.spec_river()@, n).to_multiset()).add(e)
                =~= before.spec_wall()@.to_multiset().add(present_tiles(before.spec_river()@, n).to_multiset()).add(e));
            lemma_common_move(before, after, k, e, e);
            let chosen = select(h0, seq![tile])->Some_0;
            let held = kept(h0, chosen, 0, before.hand_cursor(seat) as int);
            let drawn = kept(h0, chosen, before.hand_cursor(seat) as int, h0.len() as int);
            assert((held + drawn).take(held.len() as int) =~= held);
            assert((held + drawn).skip(held.len() as int) =~= drawn);
        }
        Ok(())
    }
}

} // verus!
