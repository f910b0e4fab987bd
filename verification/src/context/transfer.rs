//! Atomic transfers between the wall, the hands and the river, and between the hands of
//! several seats.

use vstd::prelude::*;
use vstd::multiset::Multiset;

use super::tally::{
    lemma_common_multiset, lemma_present_append, lemma_shift_slot, lemma_slots_balance, lemma_slots_change, lemma_wall_split,
    slots_multiset,
};
use super::{common_tiles, present_tiles, slot_tiles, Context, SeatContext, Variant};
use crate::context::ContextError;
use crate::discard::Discard;
use crate::hand::{law_select_conserves, remaining, remaining_held, select, select_error, Hand};
use crate::river::{ids_exhausted, DiscardId, RiverError};
use crate::seat::{Seat, SeatMap};
use crate::tile::Tile;
use crate::wall::{back_draws, front_draws, law_back_draws, law_front_draws, Wall, WallError};

verus! {

/// The logical end of the remaining wall range a draw takes from; no table direction or
/// replacement rule is implied.
#[derive(Clone, Copy, Debug, PartialEq, Eq, Structural, Hash)]
pub enum WallEnd {
    /// From the current front, in wall order.
    Front,
    /// From the current back, in reverse wall order.
    Back,
}

/// One request of a deal batch; a batch consumes the wall in request order.
#[derive(Clone, Copy, Debug, PartialEq, Eq, Structural)]
pub struct DealRequest {
    /// The joined seat that receives the tiles.
    pub seat: Seat,
    /// The end of the wall to take from.
    pub end: WallEnd,
    /// How many tiles; zero is allowed.
    pub count: usize,
}

/// The result of one committed deal request, with the request's seat and end.
#[derive(Clone, Debug, PartialEq, Eq)]
pub struct DealOutcome {
    /// The seat that received the tiles.
    pub seat: Seat,
    /// The end that was used.
    pub end: WallEnd,
    /// The tiles in the order they were taken; they now end the seat's held part.
    pub tiles: Vec<Tile>,
}

/// One directed transfer of an exchange batch; count and direction are the caller's.
///
/// Repeated tiles ask for that many copies; equal copies are not told apart. Several entries
/// may share a source, whose total removal is checked against its hand before the batch.
#[derive(Clone, Debug, PartialEq, Eq)]
pub struct ExchangeSelection {
    /// The joined seat that gives the tiles.
    pub from: Seat,
    /// The other joined seat that receives them.
    pub to: Seat,
    /// The tiles to move; their order is the order they arrive in.
    pub tiles: Vec<Tile>,
}

/// The result of one committed exchange entry; no action, input wait or public event.
#[derive(Clone, Debug, PartialEq, Eq)]
pub struct ExchangeTransfer {
    /// The seat that gave the tiles.
    pub from: Seat,
    /// The seat that received them.
    pub to: Seat,
    /// The tiles in the entry's order; they now end the receiver's held part.
    pub tiles: Vec<Tile>,
}

/// The tiles a draw of `n` takes from `wall` at `end`, in the order taken.
pub open spec fn wall_take(wall: Seq<Tile>, end: WallEnd, n: int) -> Seq<Tile> {
    match end {
        WallEnd::Front => wall.take(n),
        WallEnd::Back => wall.skip(wall.len() - n).reverse(),
    }
}

/// What remains of `wall` after a draw of `n` at `end`.
pub open spec fn wall_rest(wall: Seq<Tile>, end: WallEnd, n: int) -> Seq<Tile> {
    match end {
        WallEnd::Front => wall.skip(n),
        WallEnd::Back => wall.take(wall.len() - n),
    }
}

/// `after` is `before` once `seat` discarded `tiles`, the copies at the hand positions `chosen`.
pub open spec fn discarded<V: Variant>(
    before: Context<V>,
    after: Context<V>,
    seat: Seat,
    tiles: Seq<Tile>,
    chosen: Seq<usize>,
) -> bool {
    let n = before.spec_river()@.len();
    &&& after.joined(seat)
    &&& after.hand_tiles(seat) == remaining(before.hand_tiles(seat), chosen, before.hand_cursor(seat) as int)
    &&& after.hand_cursor(seat) == after.hand_tiles(seat).len()
    &&& after.seat_state(seat).spec_melds() == before.seat_state(seat).spec_melds()
    &&& after.seat_state(seat).spec_variant() == before.seat_state(seat).spec_variant()
    &&& before.same_seats_except(after, seat@ - 1)
    &&& before.same_frame(after)
    &&& after.spec_wall() == before.spec_wall()
    &&& after.spec_river()@.len() == n + tiles.len()
    &&& forall|i: int| 0 <= i < n ==> #[trigger] after.spec_river()@[i] == before.spec_river()@[i]
    &&& forall|i: int|
        0 <= i < tiles.len() ==> {
            let e = #[trigger] after.spec_river()@[n + i];
            &&& e.1
            &&& e.0.spec_seat() == seat
            &&& e.0.spec_hand_discard().spec_tile() == tiles[i]
            &&& e.0.spec_hand_discard().spec_from_draw() == (chosen[i] >= before.hand_cursor(seat))
        }
}

/// The wall left after the first `n` requests of a deal, each drawing from what the earlier
/// ones left.
pub open spec fn deal_wall(wall: Seq<Tile>, reqs: Seq<DealRequest>, n: int) -> Seq<Tile>
    decreases n,
{
    if n <= 0 {
        wall
    } else {
        wall_rest(deal_wall(wall, reqs, n - 1), reqs[n - 1].end, reqs[n - 1].count as int)
    }
}

/// The tiles request `i` of a deal takes.
pub open spec fn deal_draw(wall: Seq<Tile>, reqs: Seq<DealRequest>, i: int) -> Seq<Tile> {
    wall_take(deal_wall(wall, reqs, i), reqs[i].end, reqs[i].count as int)
}

/// The first of the first `n` requests of a deal that asks for more tiles than remain; `-1`
/// when every one of them can be served.
pub open spec fn deal_shortfall(wall: Seq<Tile>, reqs: Seq<DealRequest>, n: int) -> int
    decreases n,
{
    if n <= 0 {
        -1
    } else {
        let prev = deal_shortfall(wall, reqs, n - 1);
        if prev >= 0 {
            prev
        } else if reqs[n - 1].count > deal_wall(wall, reqs, n - 1).len() {
            n - 1
        } else {
            -1
        }
    }
}

/// Once the first `n` requests of a deal can all be served, each of them asks for no more tiles
/// than the wall the earlier requests left.
proof fn lemma_served(wall: Seq<Tile>, reqs: Seq<DealRequest>, n: int, i: int)
    requires
        0 <= i < n,
        deal_shortfall(wall, reqs, n) == -1,
    ensures
        reqs[i].count <= deal_wall(wall, reqs, i).len(),
    decreases n,
{
    if i < n - 1 {
        lemma_served(wall, reqs, n - 1, i);
    }
}

/// A deal that can be served draws, for each request in turn, exactly the tiles that as many
/// single draws at its end would return from the wall the earlier requests left, and leaves
/// what those draws leave.
pub proof fn law_deal_draws(wall: Seq<Tile>, reqs: Seq<DealRequest>, i: int)
    requires
        0 <= i < reqs.len(),
        deal_shortfall(wall, reqs, reqs.len() as int) == -1,
    ensures
        deal_draw(wall, reqs, i) == match reqs[i].end {
            WallEnd::Front => front_draws(deal_wall(wall, reqs, i), reqs[i].count as nat),
            WallEnd::Back => back_draws(deal_wall(wall, reqs, i), reqs[i].count as nat),
        },
        deal_wall(wall, reqs, i + 1) == match reqs[i].end {
            WallEnd::Front => deal_wall(wall, reqs, i).skip(reqs[i].count as int),
            WallEnd::Back => deal_wall(wall, reqs, i).take(deal_wall(wall, reqs, i).len() - reqs[i].count),
        },
        deal_wall(wall, reqs, i + 1).len() + reqs[i].count == deal_wall(wall, reqs, i).len(),
{
    lemma_served(wall, reqs, reqs.len() as int, i);
    let w = deal_wall(wall, reqs, i);
    let n = reqs[i].count as nat;
    law_front_draws(w, n);
    law_back_draws(w, n);
}

/// The tiles the seat with code `code` receives from the first `n` requests of a deal, in
/// request order.
pub open spec fn deal_received(wall: Seq<Tile>, reqs: Seq<DealRequest>, code: int, n: int) -> Seq<Tile>
    decreases n,
{
    if n <= 0 {
        Seq::empty()
    } else {
        deal_received(wall, reqs, code, n - 1) + if reqs[n - 1].seat@ == code {
            deal_draw(wall, reqs, n - 1)
        } else {
            Seq::empty()
        }
    }
}

/// The first of the first `n` requests of a deal whose seat has not joined; `-1` when all have.
pub open spec fn deal_absent<V: Variant>(ctx: Context<V>, reqs: Seq<DealRequest>, n: int) -> int
    decreases n,
{
    if n <= 0 {
        -1
    } else {
        let prev = deal_absent(ctx, reqs, n - 1);
        if prev >= 0 {
            prev
        } else if !ctx.joined(reqs[n - 1].seat) {
            n - 1
        } else {
            -1
        }
    }
}

/// `after` is `before` with `recv` appended to the held part of the hand in slot `k`; an empty
/// `recv` leaves the slot as it was.
pub open spec fn received_into<V: Variant>(before: Context<V>, after: Context<V>, k: int, recv: Seq<Tile>) -> bool {
    if recv.len() == 0 {
        after.spec_seats()@[k] == before.spec_seats()@[k]
    } else {
        &&& before.spec_seats()@[k] matches Some(s)
        &&& after.spec_seats()@[k] matches Some(t)
        &&& t.spec_hand().spec_tiles() == s.spec_hand().spec_held() + recv + s.spec_hand().spec_drawn()
        &&& t.spec_hand().spec_cursor() == s.spec_hand().spec_cursor() + recv.len()
        &&& t.spec_melds() == s.spec_melds()
        &&& t.spec_variant() == s.spec_variant()
    }
}

/// The tiles collected for a slot; none for an empty slot.
pub open spec fn opt_tiles(slot: Option<Vec<Tile>>) -> Seq<Tile> {
    match slot {
        Some(v) => v@,
        None => Seq::empty(),
    }
}

/// Once some request falls short, it stays the first to do so.
proof fn lemma_shortfall_stable(wall: Seq<Tile>, reqs: Seq<DealRequest>, i: int, n: int)
    requires
        0 <= i < n,
        deal_shortfall(wall, reqs, i + 1) == i,
    ensures
        deal_shortfall(wall, reqs, n) == i,
    decreases n - i,
{
    if n > i + 1 {
        lemma_shortfall_stable(wall, reqs, i, n - 1);
    }
}

/// Once some request names an absent seat, it stays the first to do so.
proof fn lemma_absent_stable<V: Variant>(ctx: Context<V>, reqs: Seq<DealRequest>, i: int, n: int)
    requires
        0 <= i < n,
        deal_absent(ctx, reqs, i + 1) == i,
    ensures
        deal_absent(ctx, reqs, n) == i,
    decreases n - i,
{
    if n > i + 1 {
        lemma_absent_stable(ctx, reqs, i, n - 1);
    }
}

/// A deal that can be served draws, all together, exactly the tiles the wall loses.
proof fn lemma_deal_conserves(wall: Seq<Tile>, reqs: Seq<DealRequest>, n: int)
    requires
        0 <= n <= reqs.len(),
        deal_shortfall(wall, reqs, n) < 0,
        forall|i: int| 0 <= i < n ==> 1 <= #[trigger] reqs[i].seat@ <= 4,
    ensures
        deal_wall(wall, reqs, n).to_multiset().add(deal_received(wall, reqs, 1, n).to_multiset()).add(
            deal_received(wall, reqs, 2, n).to_multiset(),
        ).add(deal_received(wall, reqs, 3, n).to_multiset()).add(deal_received(wall, reqs, 4, n).to_multiset())
            == wall.to_multiset(),
    decreases n,
{
    broadcast use vstd::seq_lib::lemma_multiset_commutative;
    broadcast use vstd::multiset::group_multiset_axioms;
    if n == 0 {
        broadcast use vstd::seq_lib::group_to_multiset_ensures;
        broadcast use vstd::multiset::group_multiset_properties;
        assert(Seq::<Tile>::empty().to_multiset() =~= Multiset::<Tile>::empty());
        assert(deal_wall(wall, reqs, 0).to_multiset().add(Seq::<Tile>::empty().to_multiset()).add(Seq::<Tile>::empty().to_multiset()).add(
            Seq::<Tile>::empty().to_multiset(),
        ).add(Seq::<Tile>::empty().to_multiset()) =~= wall.to_multiset());
    } else {
        lemma_deal_conserves(wall, reqs, n - 1);
        let prev = deal_wall(wall, reqs, n - 1);
        let req = reqs[n - 1];
        lemma_wall_split(prev, req.end, req.count as int);
        let d = deal_draw(wall, reqs, n - 1);
        assert(deal_received(wall, reqs, 1, n).to_multiset() =~= deal_received(wall, reqs, 1, n - 1).to_multiset().add(
            if req.seat@ == 1 { d.to_multiset() } else { Multiset::empty() },
        ));
        assert(deal_received(wall, reqs, 2, n).to_multiset() =~= deal_received(wall, reqs, 2, n - 1).to_multiset().add(
            if req.seat@ == 2 { d.to_multiset() } else { Multiset::empty() },
        ));
        assert(deal_received(wall, reqs, 3, n).to_multiset() =~= deal_received(wall, reqs, 3, n - 1).to_multiset().add(
            if req.seat@ == 3 { d.to_multiset() } else { Multiset::empty() },
        ));
        assert(deal_received(wall, reqs, 4, n).to_multiset() =~= deal_received(wall, reqs, 4, n - 1).to_multiset().add(
            if req.seat@ == 4 { d.to_multiset() } else { Multiset::empty() },
        ));
        assert(deal_wall(wall, reqs, n).to_multiset().add(deal_received(wall, reqs, 1, n).to_multiset()).add(
            deal_received(wall, reqs, 2, n).to_multiset(),
        ).add(deal_received(wall, reqs, 3, n).to_multiset()).add(deal_received(wall, reqs, 4, n).to_multiset())
            =~= wall.to_multiset());
    }
}

/// A seat that receives tiles in a deal whose seats all joined has joined.
proof fn lemma_received_joined<V: Variant>(ctx: Context<V>, wall: Seq<Tile>, reqs: Seq<DealRequest>, seat: Seat, n: int)
    requires
        0 <= n <= reqs.len(),
        deal_absent(ctx, reqs, n) < 0,
        deal_received(wall, reqs, seat@ as int, n).len() > 0,
    ensures
        ctx.joined(seat),
    decreases n,
{
    if n > 0 {
        if deal_received(wall, reqs, seat@ as int, n - 1).len() > 0 {
            lemma_received_joined(ctx, wall, reqs, seat, n - 1);
        } else {
            assert(reqs[n - 1].seat@ == seat@);
            crate::seat::Seat::lemma_eq(reqs[n - 1].seat, seat);
        }
    }
}

/// Appends tiles to the list collected for `seat`.
fn append_tiles(map: &mut SeatMap<Vec<Tile>>, seat: Seat, tiles: &[Tile])
    ensures
        final(map)@.len() == 4,
        1 <= seat@ <= 4,
        opt_tiles(final(map)@[seat@ - 1]) == opt_tiles(old(map)@[seat@ - 1]) + tiles@,
        forall|k: int| 0 <= k < 4 && k != seat@ - 1 ==> #[trigger] final(map)@[k] == old(map)@[k],
{
    proof {
        map.lemma_len();
    }
    let ghost before = map@;
    let mut current = match map.remove(seat) {
        Some(v) => v,
        None => Vec::new(),
    };
    let ghost start = current@;
    let mut i: usize = 0;
    while i < tiles.len()
        invariant
            i <= tiles@.len(),
            current@ == start + tiles@.take(i as int),
        decreases tiles@.len() - i,
    {
        current.push(tiles[i]);
        proof {
            assert(current@ =~= start + tiles@.take(i as int + 1));
        }
        i += 1;
    }
    let _ = map.insert(seat, current);
    proof {
        assert(tiles@.take(tiles@.len() as int) =~= tiles@);
        assert forall|k: int| 0 <= k < 4 && k != seat@ - 1 implies #[trigger] map@[k] == before[k] by {
            assert(before.update(seat@ - 1, None)[k] == before[k]);
        }
    }
}

/// The tiles the seat with code `code` gives in the first `n` selections of an exchange, in
/// selection order.
pub open spec fn exchange_removal(sels: Seq<ExchangeSelection>, code: int, n: int) -> Seq<Tile>
    decreases n,
{
    if n <= 0 {
        Seq::empty()
    } else {
        exchange_removal(sels, code, n - 1) + if sels[n - 1].from@ == code {
            sels[n - 1].tiles@
        } else {
            Seq::empty()
        }
    }
}

/// The tiles the seat with code `code` receives in the first `n` selections of an exchange, in
/// selection order.
pub open spec fn exchange_received(sels: Seq<ExchangeSelection>, code: int, n: int) -> Seq<Tile>
    decreases n,
{
    if n <= 0 {
        Seq::empty()
    } else {
        exchange_received(sels, code, n - 1) + if sels[n - 1].to@ == code {
            sels[n - 1].tiles@
        } else {
            Seq::empty()
        }
    }
}

/// The first structural error among the first `n` selections, each checked in turn: a source
/// that has not joined, a target that has not joined, then a seat that gives to itself.
pub open spec fn exchange_check<V: Variant>(ctx: Context<V>, sels: Seq<ExchangeSelection>, n: int) -> Option<ContextError>
    decreases n,
{
    if n <= 0 {
        None
    } else {
        let prev = exchange_check(ctx, sels, n - 1);
        let sel = sels[n - 1];
        if prev is Some {
            prev
        } else if !ctx.joined(sel.from) {
            Some(ContextError::MissingSeat { seat: sel.from })
        } else if !ctx.joined(sel.to) {
            Some(ContextError::MissingSeat { seat: sel.to })
        } else if sel.from == sel.to {
            Some(ContextError::SelfTransfer { seat: sel.from })
        } else {
            None
        }
    }
}

/// The hand tiles in slot `k`.
pub open spec fn slot_hand_tiles<V: Variant>(ctx: Context<V>, k: int) -> Seq<Tile> {
    ctx.spec_seats()@[k]->Some_0.spec_hand().spec_tiles()
}

/// Among the slots below `m`, the first whose hand cannot give its whole removal; `-1` when
/// every one can.
pub open spec fn exchange_short<V: Variant>(ctx: Context<V>, sels: Seq<ExchangeSelection>, m: int) -> int
    decreases m,
{
    if m <= 0 {
        -1
    } else {
        let prev = exchange_short(ctx, sels, m - 1);
        let rem = exchange_removal(sels, m, sels.len() as int);
        if prev >= 0 {
            prev
        } else if rem.len() > 0 && select(slot_hand_tiles(ctx, m - 1), rem) is None {
            m - 1
        } else {
            -1
        }
    }
}

/// The tiles of a hand once it gave `rem`; a hand that gives nothing keeps them.
pub open spec fn given_tiles(tiles: Seq<Tile>, cursor: nat, rem: Seq<Tile>) -> Seq<Tile> {
    if rem.len() == 0 {
        tiles
    } else {
        remaining(tiles, select(tiles, rem)->Some_0, cursor as int)
    }
}

/// The held-part length of a hand once it gave `rem`.
pub open spec fn given_cursor(tiles: Seq<Tile>, cursor: nat, rem: Seq<Tile>) -> nat {
    if rem.len() == 0 {
        cursor
    } else {
        remaining_held(tiles, select(tiles, rem)->Some_0, cursor as int).len()
    }
}

/// `after` is `before` once the hand in slot `k` gave `rem` and then received `rec` at the end
/// of its held part; a slot that gives and receives nothing is left as it was.
pub open spec fn exchanged_into<V: Variant>(
    before: Context<V>,
    after: Context<V>,
    k: int,
    rem: Seq<Tile>,
    rec: Seq<Tile>,
) -> bool {
    if rem.len() == 0 && rec.len() == 0 {
        after.spec_seats()@[k] == before.spec_seats()@[k]
    } else {
        &&& before.spec_seats()@[k] matches Some(s)
        &&& after.spec_seats()@[k] matches Some(t)
        &&& {
            let t1 = given_tiles(s.spec_hand().spec_tiles(), s.spec_hand().spec_cursor(), rem);
            let c1 = given_cursor(s.spec_hand().spec_tiles(), s.spec_hand().spec_cursor(), rem);
            &&& c1 <= t1.len()
            &&& t.spec_hand().spec_tiles() == t1.take(c1 as int) + rec + t1.skip(c1 as int)
            &&& t.spec_hand().spec_cursor() == c1 + rec.len()
        }
        &&& t.spec_melds() == s.spec_melds()
        &&& t.spec_variant() == s.spec_variant()
    }
}

/// The tiles a seat receives in an exchange join the end of its held part, as by
/// [`Hand::receive`]: the held part grows by exactly those tiles, in their order, and the drawn
/// part is the one it had once it gave its own tiles, so no received tile counts as drawn.
pub proof fn law_exchange_receipt<V: Variant>(before: Context<V>, after: Context<V>, k: int, rem: Seq<Tile>, rec: Seq<Tile>)
    requires
        rec.len() > 0,
        exchanged_into(before, after, k, rem, rec),
    ensures
        before.spec_seats()@[k] is Some,
        after.spec_seats()@[k] is Some,
        ({
            let s = before.spec_seats()@[k]->Some_0.spec_hand();
            let t = after.spec_seats()@[k]->Some_0.spec_hand();
            let t1 = given_tiles(s.spec_tiles(), s.spec_cursor(), rem);
            let c1 = given_cursor(s.spec_tiles(), s.spec_cursor(), rem);
            &&& t.spec_cursor() == c1 + rec.len()
            &&& t.spec_held() == t1.take(c1 as int) + rec
            &&& t.spec_drawn() == t1.skip(c1 as int)
        }),
{
    let s = before.spec_seats()@[k]->Some_0.spec_hand();
    let t = after.spec_seats()@[k]->Some_0.spec_hand();
    let t1 = given_tiles(s.spec_tiles(), s.spec_cursor(), rem);
    let c1 = given_cursor(s.spec_tiles(), s.spec_cursor(), rem);
    let all = t1.take(c1 as int) + rec + t1.skip(c1 as int);
    assert(all.take((c1 + rec.len()) as int) =~= t1.take(c1 as int) + rec);
    assert(all.skip((c1 + rec.len()) as int) =~= t1.skip(c1 as int));
}

/// Once some selection fails its check, it stays the first failure.
proof fn lemma_check_stable<V: Variant>(ctx: Context<V>, sels: Seq<ExchangeSelection>, i: int, n: int)
    requires
        0 <= i < n,
        exchange_check(ctx, sels, i) is None,
        exchange_check(ctx, sels, i + 1) is Some,
    ensures
        exchange_check(ctx, sels, n) == exchange_check(ctx, sels, i + 1),
    decreases n - i,
{
    if n > i + 1 {
        lemma_check_stable(ctx, sels, i, n - 1);
    }
}

/// Once some slot cannot give, it stays the first to fail.
proof fn lemma_short_stable<V: Variant>(ctx: Context<V>, sels: Seq<ExchangeSelection>, k: int, m: int)
    requires
        0 <= k < m,
        exchange_short(ctx, sels, k + 1) == k,
    ensures
        exchange_short(ctx, sels, m) == k,
    decreases m - k,
{
    if m > k + 1 {
        lemma_short_stable(ctx, sels, k, m - 1);
    }
}

/// In a checked exchange, a seat that gives or receives tiles has joined.
proof fn lemma_moved_joined<V: Variant>(ctx: Context<V>, sels: Seq<ExchangeSelection>, seat: Seat, n: int)
    requires
        0 <= n <= sels.len(),
        exchange_check(ctx, sels, n) is None,
        exchange_removal(sels, seat@ as int, n).len() > 0 || exchange_received(sels, seat@ as int, n).len() > 0,
    ensures
        ctx.joined(seat),
    decreases n,
{
    if n > 0 {
        if exchange_removal(sels, seat@ as int, n - 1).len() > 0 || exchange_received(sels, seat@ as int, n - 1).len() > 0 {
            lemma_moved_joined(ctx, sels, seat, n - 1);
        } else if sels[n - 1].from@ == seat@ && sels[n - 1].tiles@.len() > 0 {
            crate::seat::Seat::lemma_eq(sels[n - 1].from, seat);
        } else {
            crate::seat::Seat::lemma_eq(sels[n - 1].to, seat);
        }
    }
}

/// All four seats together give exactly the tiles they receive.
proof fn lemma_exchange_balance(sels: Seq<ExchangeSelection>, n: int)
    requires
        0 <= n <= sels.len(),
        forall|i: int| 0 <= i < n ==> 1 <= #[trigger] sels[i].from@ <= 4 && 1 <= sels[i].to@ <= 4,
    ensures
        exchange_removal(sels, 1, n).to_multiset().add(exchange_removal(sels, 2, n).to_multiset()).add(
            exchange_removal(sels, 3, n).to_multiset(),
        ).add(exchange_removal(sels, 4, n).to_multiset()) == exchange_received(sels, 1, n).to_multiset().add(
            exchange_received(sels, 2, n).to_multiset(),
        ).add(exchange_received(sels, 3, n).to_multiset()).add(exchange_received(sels, 4, n).to_multiset()),
    decreases n,
{
    broadcast use vstd::seq_lib::lemma_multiset_commutative;
    broadcast use vstd::multiset::group_multiset_axioms;
    if n > 0 {
        lemma_exchange_balance(sels, n - 1);
        let sel = sels[n - 1];
        let t = sel.tiles@.to_multiset();
        let e = Multiset::<Tile>::empty();
        assert(1 <= sels[n - 1].from@ <= 4 && 1 <= sels[n - 1].to@ <= 4);
        assert(exchange_removal(sels, 1, n).to_multiset() =~= exchange_removal(sels, 1, n - 1).to_multiset().add(if sel.from@ == 1 { t } else { e }));
        assert(exchange_removal(sels, 2, n).to_multiset() =~= exchange_removal(sels, 2, n - 1).to_multiset().add(if sel.from@ == 2 { t } else { e }));
        assert(exchange_removal(sels, 3, n).to_multiset() =~= exchange_removal(sels, 3, n - 1).to_multiset().add(if sel.from@ == 3 { t } else { e }));
        assert(exchange_removal(sels, 4, n).to_multiset() =~= exchange_removal(sels, 4, n - 1).to_multiset().add(if sel.from@ == 4 { t } else { e }));
        assert(exchange_received(sels, 1, n).to_multiset() =~= exchange_received(sels, 1, n - 1).to_multiset().add(if sel.to@ == 1 { t } else { e }));
        assert(exchange_received(sels, 2, n).to_multiset() =~= exchange_received(sels, 2, n - 1).to_multiset().add(if sel.to@ == 2 { t } else { e }));
        assert(exchange_received(sels, 3, n).to_multiset() =~= exchange_received(sels, 3, n - 1).to_multiset().add(if sel.to@ == 3 { t } else { e }));
        assert(exchange_received(sels, 4, n).to_multiset() =~= exchange_received(sels, 4, n - 1).to_multiset().add(if sel.to@ == 4 { t } else { e }));
        let lhs0 = exchange_removal(sels, 1, n - 1).to_multiset().add(exchange_removal(sels, 2, n - 1).to_multiset()).add(
            exchange_removal(sels, 3, n - 1).to_multiset(),
        ).add(exchange_removal(sels, 4, n - 1).to_multiset());
        let rhs0 = exchange_received(sels, 1, n - 1).to_multiset().add(exchange_received(sels, 2, n - 1).to_multiset()).add(
            exchange_received(sels, 3, n - 1).to_multiset(),
        ).add(exchange_received(sels, 4, n - 1).to_multiset());
        let lhs = exchange_removal(sels, 1, n).to_multiset().add(exchange_removal(sels, 2, n).to_multiset()).add(
            exchange_removal(sels, 3, n).to_multiset(),
        ).add(exchange_removal(sels, 4, n).to_multiset());
        let rhs = exchange_received(sels, 1, n).to_multiset().add(exchange_received(sels, 2, n).to_multiset()).add(
            exchange_received(sels, 3, n).to_multiset(),
        ).add(exchange_received(sels, 4, n).to_multiset());
        if sel.from@ == 1 {
            assert(lhs =~= lhs0.add(t));
        } else if sel.from@ == 2 {
            assert(lhs =~= lhs0.add(t));
        } else if sel.from@ == 3 {
            assert(lhs =~= lhs0.add(t));
        } else {
            assert(lhs =~= lhs0.add(t));
        }
        if sel.to@ == 1 {
            assert(rhs =~= rhs0.add(t));
        } else if sel.to@ == 2 {
            assert(rhs =~= rhs0.add(t));
        } else if sel.to@ == 3 {
            assert(rhs =~= rhs0.add(t));
        } else {
            assert(rhs =~= rhs0.add(t));
        }
        assert(lhs =~= rhs);
    } else {
        broadcast use vstd::seq_lib::group_to_multiset_ensures;
        broadcast use vstd::multiset::group_multiset_properties;
        assert(Seq::<Tile>::empty().to_multiset() =~= Multiset::<Tile>::empty());
    }
}

/// The candidate hand planned for slot `k` of an exchange: none when the slot gives and
/// receives nothing, else the slot's hand once it gave `rem` and received `rec`.
spec fn hand_planned<V: Variant>(before: Context<V>, slot: Option<Hand>, k: int, rem: Seq<Tile>, rec: Seq<Tile>) -> bool {
    if rem.len() == 0 && rec.len() == 0 {
        slot is None
    } else {
        &&& slot matches Some(h)
        &&& before.spec_seats()@[k] matches Some(s)
        &&& {
            let t0 = s.spec_hand().spec_tiles();
            let c0 = s.spec_hand().spec_cursor();
            let t1 = given_tiles(t0, c0, rem);
            let c1 = given_cursor(t0, c0, rem);
            &&& c1 <= t1.len()
            &&& h.spec_tiles() == t1.take(c1 as int) + rec + t1.skip(c1 as int)
            &&& h.spec_cursor() == c1 + rec.len()
            &&& h.spec_tiles().to_multiset().add(rem.to_multiset()) == t0.to_multiset().add(rec.to_multiset())
        }
    }
}

/// Takes `count` tiles from one end of a wall; a shortfall changes nothing.
fn draw_tiles(wall: &mut Wall, end: WallEnd, count: usize) -> (r: Result<Vec<Tile>, ContextError>)
    ensures
        count > old(wall)@.len() ==> r == Err::<Vec<Tile>, ContextError>(
            ContextError::Wall {
                source: WallError::InsufficientTiles { requested: count, remaining: old(wall)@.len() as usize },
            },
        ) && final(wall)@ == old(wall)@,
        count <= old(wall)@.len() ==> (r matches Ok(v) && v@ == wall_take(old(wall)@, end, count as int)
            && final(wall)@ == wall_rest(old(wall)@, end, count as int)),
{
    let result = match end {
        WallEnd::Front => wall.draw_front_many(count),
        WallEnd::Back => wall.draw_back_many(count),
    };
    match result {
        Ok(tiles) => Ok(tiles),
        Err(source) => Err(ContextError::Wall { source }),
    }
}

impl<V: Variant> Context<V> {
    /// Draws `count` tiles from one end of the wall and appends them, in the order taken, to the
    /// drawn part of `seat`.
    ///
    /// The held and drawn tiles already there stay; no dealer or other seat is needed. Drawing
    /// zero tiles still checks the seat and then changes nothing.
    ///
    /// Fails with [`ContextError::MissingSeat`] when the seat has not joined and with
    /// [`ContextError::Wall`] when too few tiles remain; on failure wall and hands are unchanged.
    pub fn draw(&mut self, seat: Seat, end: WallEnd, count: usize) -> (r: Result<Vec<Tile>, ContextError>)
        ensures
            !old(self).joined(seat) ==> r == Err::<Vec<Tile>, ContextError>(ContextError::MissingSeat { seat }),
            old(self).joined(seat) && count > old(self).spec_wall()@.len() ==> r == Err::<Vec<Tile>, ContextError>(
                ContextError::Wall {
                    source: WallError::InsufficientTiles { requested: count, remaining: old(self).spec_wall()@.len() as usize },
                },
            ),
            r is Ok <==> old(self).joined(seat) && count <= old(self).spec_wall()@.len(),
            r is Err || count == 0 ==> *final(self) == *old(self),
            r matches Ok(v) ==> v@ == wall_take(old(self).spec_wall()@, end, count as int)
                && final(self).spec_wall()@ == wall_rest(old(self).spec_wall()@, end, count as int)
                && final(self).joined(seat)
                && final(self).seat_state(seat).spec_hand().spec_tiles() == old(self).seat_state(seat).spec_hand().spec_tiles() + v@
                && final(self).seat_state(seat).spec_hand().spec_cursor() == old(self).seat_state(seat).spec_hand().spec_cursor()
                && final(self).seat_state(seat).spec_melds() == old(self).seat_state(seat).spec_melds()
                && final(self).seat_state(seat).spec_variant() == old(self).seat_state(seat).spec_variant()
                && old(self).same_seats_except(*final(self), seat@ - 1)
                && old(self).same_frame(*final(self))
                && final(self).spec_river() == old(self).spec_river(),
            r is Ok ==> common_tiles(*final(self)).to_multiset() == common_tiles(*old(self)).to_multiset(),
    {
        let ghost before = *self;
        let state = match self.seats.get(seat) {
            Some(state) => state,
            None => {
                return Err(ContextError::MissingSeat { seat });
            },
        };
        if count == 0 {
            proof {
                let w = before.spec_wall()@;
                assert(w.take(0) =~= Seq::<Tile>::empty());
                assert(w.skip(0) =~= w);
                assert(w.take(w.len() as int) =~= w);
                assert(w.skip(w.len() as int).reverse() =~= Seq::<Tile>::empty());
                let t = before.seat_state(seat).spec_hand().spec_tiles();
                assert(t + Seq::<Tile>::empty() =~= t);
                before.spec_seats().lemma_len();
            }
            return Ok(Vec::new());
        }
        let mut wall = self.wall.clone();
        let mut hand = state.hand().clone();
        let tiles = draw_tiles(&mut wall, end, count)?;
        hand.draw_many(tiles.as_slice());
        self.replace_hand(seat, hand);
        self.wall = wall;
        proof {
            let k = seat@ - 1;
            let after = *self;
            before.spec_seats().lemma_len();
            lemma_common_multiset(before);
            lemma_common_multiset(after);
            lemma_wall_split(before.spec_wall()@, end, count as int);
            lemma_slots_change(before.spec_seats()@, after.spec_seats()@, k);
            let old_hand = before.seat_state(seat).spec_hand().spec_tiles();
            let f = crate::melds::flat_tiles(before.seat_state(seat).spec_melds()@);
            vstd::seq_lib::lemma_multiset_commutative(old_hand + tiles@, f);
            vstd::seq_lib::lemma_multiset_commutative(old_hand, tiles@);
            vstd::seq_lib::lemma_multiset_commutative(old_hand, f);
            broadcast use vstd::multiset::group_multiset_axioms;
            assert(slot_tiles(after.spec_seats()@[k]) == (old_hand + tiles@) + f);
            assert(slot_tiles(before.spec_seats()@[k]) == old_hand + f);
            assert(after.spec_river() == before.spec_river());
            assert(common_tiles(after).to_multiset() =~= common_tiles(before).to_multiset());
        }
        Ok(tiles)
    }

    /// Deals atomically in request order; the tiles of each request go, in the order taken, to
    /// the end of its seat's held part.
    ///
    /// A seat may appear several times and requests may use different ends; nothing is sorted and
    /// no round or count is fixed. Drawn parts keep their meaning. Outcomes match requests one to
    /// one; an empty batch succeeds and changes nothing, and a zero request still checks its
    /// seat.
    ///
    /// Fails with [`ContextError::MissingSeat`] for the first request whose seat has not joined,
    /// and with [`ContextError::Wall`] for the first request that asks for more tiles than the
    /// requests before it left; whichever fails, wall and hands are unchanged.
    pub fn deal(&mut self, requests: &[DealRequest]) -> (r: Result<Vec<DealOutcome>, ContextError>)
        ensures
            deal_absent(*old(self), requests@, requests@.len() as int) >= 0 ==> r == Err::<Vec<DealOutcome>, ContextError>(
                ContextError::MissingSeat { seat: requests@[deal_absent(*old(self), requests@, requests@.len() as int)].seat },
            ),
            deal_absent(*old(self), requests@, requests@.len() as int) < 0 && deal_shortfall(
                old(self).spec_wall()@,
                requests@,
                requests@.len() as int,
            ) >= 0 ==> r == Err::<Vec<DealOutcome>, ContextError>(
                ContextError::Wall {
                    source: WallError::InsufficientTiles {
                        requested: requests@[deal_shortfall(old(self).spec_wall()@, requests@, requests@.len() as int)].count,
                        remaining: deal_wall(
                            old(self).spec_wall()@,
                            requests@,
                            deal_shortfall(old(self).spec_wall()@, requests@, requests@.len() as int),
                        ).len() as usize,
                    },
                },
            ),
            r is Ok <==> deal_absent(*old(self), requests@, requests@.len() as int) < 0 && deal_shortfall(
                old(self).spec_wall()@,
                requests@,
                requests@.len() as int,
            ) < 0,
            r is Err ==> *final(self) == *old(self),
            r matches Ok(outcomes) ==> outcomes@.len() == requests@.len() && forall|i: int| 0 <= i < requests@.len() ==> {
                &&& (#[trigger] outcomes@[i]).seat == requests@[i].seat
                &&& outcomes@[i].end == requests@[i].end
                &&& outcomes@[i].tiles@ == deal_draw(old(self).spec_wall()@, requests@, i)
            },
            r is Ok ==> final(self).spec_wall()@ == deal_wall(old(self).spec_wall()@, requests@, requests@.len() as int)
                && final(self).spec_seats()@.len() == 4
                && (forall|k: int| 0 <= k < 4 ==> #[trigger] received_into(*old(self), *final(self), k,
                    deal_received(old(self).spec_wall()@, requests@, k + 1, requests@.len() as int)))
                && old(self).same_frame(*final(self))
                && final(self).spec_river() == old(self).spec_river(),
            r is Ok ==> common_tiles(*final(self)).to_multiset() == common_tiles(*old(self)).to_multiset(),
    {
        let ghost before = *self;
        let ghost w = self.wall@;
        let ghost reqs = requests@;
        let n = requests.len();
        let mut i: usize = 0;
        while i < n
            invariant
                i <= n,
                n == reqs.len(),
                reqs == requests@,
                *self == before,
                deal_absent(before, reqs, i as int) < 0,
                forall|j: int| 0 <= j < i ==> 1 <= #[trigger] reqs[j].seat@ <= 4,
            decreases n - i,
        {
            let seat = requests[i].seat;
            let _ = seat.code();
            if !self.seats.contains_key(seat) {
                proof {
                    lemma_absent_stable(before, reqs, i as int, n as int);
                }
                return Err(ContextError::MissingSeat { seat });
            }
            i += 1;
        }
        let mut wall = self.wall.clone();
        let mut received: SeatMap<Vec<Tile>> = SeatMap::new();
        let mut outcomes: Vec<DealOutcome> = Vec::new();
        let mut i: usize = 0;
        while i < n
            invariant
                i <= n,
                n == reqs.len(),
                reqs == requests@,
                *self == before,
                w == before.spec_wall()@,
                deal_absent(before, reqs, n as int) < 0,
                forall|j: int| 0 <= j < n ==> 1 <= #[trigger] reqs[j].seat@ <= 4,
                wall@ == deal_wall(w, reqs, i as int),
                deal_shortfall(w, reqs, i as int) < 0,
                received@.len() == 4,
                forall|k: int| 0 <= k < 4 ==> #[trigger] opt_tiles(received@[k]) == deal_received(w, reqs, k + 1, i as int),
                outcomes@.len() == i,
                forall|j: int| 0 <= j < i ==> {
                    &&& (#[trigger] outcomes@[j]).seat == reqs[j].seat
                    &&& outcomes@[j].end == reqs[j].end
                    &&& outcomes@[j].tiles@ == deal_draw(w, reqs, j)
                },
            decreases n - i,
        {
            let request = requests[i];
            let tiles = match draw_tiles(&mut wall, request.end, request.count) {
                Ok(tiles) => tiles,
                Err(e) => {
                    proof {
                        lemma_shortfall_stable(w, reqs, i as int, n as int);
                    }
                    return Err(e);
                },
            };
            append_tiles(&mut received, request.seat, tiles.as_slice());
            outcomes.push(DealOutcome { seat: request.seat, end: request.end, tiles });
            proof {
                assert forall|k: int| 0 <= k < 4 implies #[trigger] opt_tiles(received@[k]) == deal_received(
                    w,
                    reqs,
                    k + 1,
                    i as int + 1,
                ) by {
                    if k == request.seat@ - 1 {
                    } else {
                        assert(deal_received(w, reqs, k + 1, i as int + 1) =~= deal_received(w, reqs, k + 1, i as int));
                    }
                }
            }
            i += 1;
        }
        let seats = Seat::all();
        proof {
            self.seats.lemma_len();
        }
        let mut k: usize = 0;
        while k < 4
            invariant
                k <= 4,
                n == reqs.len(),
                reqs == requests@,
                w == before.spec_wall()@,
                wall@ == deal_wall(w, reqs, n as int),
                deal_absent(before, reqs, n as int) < 0,
                forall|j: int| 0 <= j < 4 ==> #[trigger] seats@[j]@ == j + 1,
                received@.len() == 4,
                forall|j: int| 0 <= j < 4 ==> #[trigger] opt_tiles(received@[j]) == deal_received(w, reqs, j + 1, n as int),
                self.spec_seats()@.len() == 4,
                before.spec_seats()@.len() == 4,
                forall|j: int| 0 <= j < k ==> #[trigger] received_into(before, *self, j, deal_received(w, reqs, j + 1, n as int)),
                forall|j: int| 0 <= j < k ==> #[trigger] slot_tiles(self.spec_seats()@[j]).to_multiset() == slot_tiles(
                    before.spec_seats()@[j],
                ).to_multiset().add(deal_received(w, reqs, j + 1, n as int).to_multiset()),
                forall|j: int| k <= j < 4 ==> #[trigger] self.spec_seats()@[j] == before.spec_seats()@[j],
                before.same_frame(*self),
                self.spec_wall() == before.spec_wall(),
                self.spec_river() == before.spec_river(),
            decreases 4 - k,
        {
            let seat = seats[k];
            let ghost mid = *self;
            let ghost recv = deal_received(w, reqs, k + 1, n as int);
            match received.get(seat) {
                Some(tiles) => {
                    proof {
                        assert(seat@ == k + 1);
                        assert(received@[k as int] == Some(*tiles));
                        assert(opt_tiles(received@[k as int]) == recv);
                        assert(tiles@ == recv);
                    }
                    if tiles.len() > 0 {
                        proof {
                            lemma_received_joined(before, w, reqs, seat, n as int);
                        }
                        let mut hand = self.seats.get(seat).unwrap().hand().clone();
                        hand.receive(tiles.as_slice());
                        self.replace_hand(seat, hand);
                        proof {
                            let s = before.seat_state(seat).spec_hand();
                            let f = crate::melds::flat_tiles(before.seat_state(seat).spec_melds()@);
                            let t = s.spec_tiles();
                            let c = s.spec_cursor() as int;
                            assert(t.take(c) + t.skip(c) =~= t);
                            vstd::seq_lib::lemma_multiset_commutative(t.take(c) + recv, t.skip(c));
                            vstd::seq_lib::lemma_multiset_commutative(t.take(c), recv);
                            vstd::seq_lib::lemma_multiset_commutative(t.take(c), t.skip(c));
                            vstd::seq_lib::lemma_multiset_commutative(t.take(c) + recv + t.skip(c), f);
                            vstd::seq_lib::lemma_multiset_commutative(t, f);
                            broadcast use vstd::multiset::group_multiset_axioms;
                            assert(slot_tiles(self.spec_seats()@[k as int]).to_multiset() =~= slot_tiles(
                                before.spec_seats()@[k as int],
                            ).to_multiset().add(recv.to_multiset()));
                        }
                    } else {
                        proof {
                            broadcast use vstd::seq_lib::group_to_multiset_ensures;
                            broadcast use vstd::multiset::group_multiset_properties;
                            assert(recv.to_multiset() =~= Multiset::<Tile>::empty());
                            assert(slot_tiles(self.spec_seats()@[k as int]).to_multiset() =~= slot_tiles(
                                before.spec_seats()@[k as int],
                            ).to_multiset().add(recv.to_multiset()));
                        }
                    }
                },
                None => {
                    proof {
                        assert(seat@ == k + 1);
                        assert(opt_tiles(received@[k as int]) == recv);
                        broadcast use vstd::seq_lib::group_to_multiset_ensures;
                        broadcast use vstd::multiset::group_multiset_properties;
                        assert(recv.to_multiset() =~= Multiset::<Tile>::empty());
                        assert(slot_tiles(self.spec_seats()@[k as int]).to_multiset() =~= slot_tiles(
                            before.spec_seats()@[k as int],
                        ).to_multiset().add(recv.to_multiset()));
                    }
                },
            }
            proof {
                assert forall|j: int| 0 <= j < k + 1 implies #[trigger] received_into(before, *self, j, deal_received(w, reqs, j + 1, n as int)) by {
                    if j < k {
                        assert(received_into(before, mid, j, deal_received(w, reqs, j + 1, n as int)));
                        assert(self.spec_seats()@[j] == mid.spec_seats()@[j]);
                    }
                }
                assert forall|j: int| 0 <= j < k + 1 implies #[trigger] slot_tiles(self.spec_seats()@[j]).to_multiset() == slot_tiles(
                    before.spec_seats()@[j],
                ).to_multiset().add(deal_received(w, reqs, j + 1, n as int).to_multiset()) by {
                    if j < k {
                        assert(self.spec_seats()@[j] == mid.spec_seats()@[j]);
                    }
                }
            }
            k += 1;
        }
        let ghost committed = *self;
        self.wall = wall;
        proof {
            let after = *self;
            assert forall|j: int| 0 <= j < 4 implies #[trigger] received_into(before, after, j, deal_received(w, reqs, j + 1, n as int)) by {
                assert(received_into(before, committed, j, deal_received(w, reqs, j + 1, n as int)));
                assert(after.spec_seats() == committed.spec_seats());
            }
            lemma_common_multiset(before);
            lemma_common_multiset(after);
            lemma_deal_conserves(w, reqs, n as int);
            let a = before.spec_seats()@;
            let b = after.spec_seats()@;
            assert(slot_tiles(b[0]).to_multiset() == slot_tiles(a[0]).to_multiset().add(deal_received(w, reqs, 1, n as int).to_multiset()));
            assert(slot_tiles(b[1]).to_multiset() == slot_tiles(a[1]).to_multiset().add(deal_received(w, reqs, 2, n as int).to_multiset()));
            assert(slot_tiles(b[2]).to_multiset() == slot_tiles(a[2]).to_multiset().add(deal_received(w, reqs, 3, n as int).to_multiset()));
            assert(slot_tiles(b[3]).to_multiset() == slot_tiles(a[3]).to_multiset().add(deal_received(w, reqs, 4, n as int).to_multiset()));
            broadcast use vstd::multiset::group_multiset_axioms;
            assert(common_tiles(after).to_multiset() =~= common_tiles(before).to_multiset());
        }
        Ok(outcomes)
    }

    /// Commits an exchange between seats atomically; count, direction and number of seats are
    /// free.
    ///
    /// Repeated tiles ask for that many copies. A source may give to several targets; its whole
    /// removal is taken at once before anything is received, so tiles received in the batch never
    /// serve a removal. Each copy is the earliest unchosen one, held part first. Remaining tiles
    /// keep their part; received tiles go, in each entry's order, to the end of the target's held
    /// part. No wildcard is used. Transfers match selections one to one; an empty batch succeeds
    /// and changes nothing, and an empty selection still checks both seats.
    ///
    /// Fails with [`ContextError::MissingSeat`] for a seat that has not joined and with
    /// [`ContextError::SelfTransfer`] for a seat that gives to itself, checking entries in order;
    /// then with [`ContextError::Hand`] for the first seat, by code, whose hand cannot give its
    /// whole removal, counting the whole batch. Failures change no hand.
    pub fn exchange(&mut self, selections: &[ExchangeSelection]) -> (r: Result<Vec<ExchangeTransfer>, ContextError>)
        ensures
            exchange_check(*old(self), selections@, selections@.len() as int) matches Some(e) ==> r == Err::<
                Vec<ExchangeTransfer>,
                ContextError,
            >(e),
            exchange_check(*old(self), selections@, selections@.len() as int) is None && exchange_short(*old(self), selections@, 4)
                >= 0 ==> (r matches Err(ContextError::Hand { seat, source }) && seat@ == exchange_short(*old(self), selections@, 4) + 1
                && source == select_error(
                slot_hand_tiles(*old(self), exchange_short(*old(self), selections@, 4)),
                exchange_removal(selections@, exchange_short(*old(self), selections@, 4) + 1, selections@.len() as int),
            )),
            r is Ok <==> exchange_check(*old(self), selections@, selections@.len() as int) is None && exchange_short(
                *old(self),
                selections@,
                4,
            ) < 0,
            r is Err ==> *final(self) == *old(self),
            r matches Ok(transfers) ==> transfers@.len() == selections@.len() && forall|i: int| 0 <= i < selections@.len() ==> {
                &&& (#[trigger] transfers@[i]).from == selections@[i].from
                &&& transfers@[i].to == selections@[i].to
                &&& transfers@[i].tiles@ == selections@[i].tiles@
            },
            r is Ok ==> final(self).spec_seats()@.len() == 4 && (forall|k: int| 0 <= k < 4 ==> #[trigger] exchanged_into(
                *old(self),
                *final(self),
                k,
                exchange_removal(selections@, k + 1, selections@.len() as int),
                exchange_received(selections@, k + 1, selections@.len() as int),
            )) && final(self).spec_wall() == old(self).spec_wall() && final(self).spec_river() == old(self).spec_river()
                && old(self).same_frame(*final(self)),
            r is Ok ==> common_tiles(*final(self)).to_multiset() == common_tiles(*old(self)).to_multiset(),
            r is Ok ==> forall|k: int| 0 <= k < 4 && #[trigger] exchange_received(selections@, k + 1, selections@.len() as int).len() > 0 ==> {
                let rem = exchange_removal(selections@, k + 1, selections@.len() as int);
                let rec = exchange_received(selections@, k + 1, selections@.len() as int);
                let s = old(self).spec_seats()@[k]->Some_0.spec_hand();
                let t = final(self).spec_seats()@[k]->Some_0.spec_hand();
                let t1 = given_tiles(s.spec_tiles(), s.spec_cursor(), rem);
                let c1 = given_cursor(s.spec_tiles(), s.spec_cursor(), rem);
                &&& final(self).spec_seats()@[k] is Some
                &&& t.spec_cursor() == c1 + rec.len()
                &&& t.spec_held() == t1.take(c1 as int) + rec
                &&& t.spec_drawn() == t1.skip(c1 as int)
            },
    {
        let ghost before = *self;
        let ghost sels = selections@;
        let n = selections.len();
        let mut removals: SeatMap<Vec<Tile>> = SeatMap::new();
        let mut receipts: SeatMap<Vec<Tile>> = SeatMap::new();
        let mut i: usize = 0;
        while i < n
            invariant
                i <= n,
                n == sels.len(),
                sels == selections@,
                *self == before,
                exchange_check(before, sels, i as int) is None,
                forall|j: int| 0 <= j < i ==> 1 <= #[trigger] sels[j].from@ <= 4 && 1 <= sels[j].to@ <= 4,
                removals@.len() == 4,
                receipts@.len() == 4,
                forall|k: int| 0 <= k < 4 ==> #[trigger] opt_tiles(removals@[k]) == exchange_removal(sels, k + 1, i as int),
                forall|k: int| 0 <= k < 4 ==> #[trigger] opt_tiles(receipts@[k]) == exchange_received(sels, k + 1, i as int),
            decreases n - i,
        {
            let from = selections[i].from;
            let to = selections[i].to;
            if !self.seats.contains_key(from) {
                proof {
                    lemma_check_stable(before, sels, i as int, n as int);
                }
                return Err(ContextError::MissingSeat { seat: from });
            }
            if !self.seats.contains_key(to) {
                proof {
                    lemma_check_stable(before, sels, i as int, n as int);
                }
                return Err(ContextError::MissingSeat { seat: to });
            }
            if from == to {
                proof {
                    lemma_check_stable(before, sels, i as int, n as int);
                }
                return Err(ContextError::SelfTransfer { seat: from });
            }
            append_tiles(&mut removals, from, selections[i].tiles.as_slice());
            append_tiles(&mut receipts, to, selections[i].tiles.as_slice());
            proof {
                assert forall|k: int| 0 <= k < 4 implies #[trigger] opt_tiles(removals@[k]) == exchange_removal(sels, k + 1, i as int + 1) by {
                    if k != from@ - 1 {
                        assert(exchange_removal(sels, k + 1, i as int + 1) =~= exchange_removal(sels, k + 1, i as int));
                    }
                }
                assert forall|k: int| 0 <= k < 4 implies #[trigger] opt_tiles(receipts@[k]) == exchange_received(sels, k + 1, i as int + 1) by {
                    if k != to@ - 1 {
                        assert(exchange_received(sels, k + 1, i as int + 1) =~= exchange_received(sels, k + 1, i as int));
                    }
                }
            }
            i += 1;
        }
        let seats = Seat::all();
        let empty: Vec<Tile> = Vec::new();
        let mut hands: SeatMap<Hand> = SeatMap::new();
        let mut k: usize = 0;
        while k < 4
            invariant
                k <= 4,
                n == sels.len(),
                sels == selections@,
                *self == before,
                exchange_check(before, sels, n as int) is None,
                exchange_short(before, sels, k as int) < 0,
                forall|j: int| 0 <= j < 4 ==> #[trigger] seats@[j]@ == j + 1,
                removals@.len() == 4,
                receipts@.len() == 4,
                forall|j: int| 0 <= j < 4 ==> #[trigger] opt_tiles(removals@[j]) == exchange_removal(sels, j + 1, n as int),
                forall|j: int| 0 <= j < 4 ==> #[trigger] opt_tiles(receipts@[j]) == exchange_received(sels, j + 1, n as int),
                empty@ == Seq::<Tile>::empty(),
                hands@.len() == 4,
                forall|j: int| 0 <= j < k ==> #[trigger] hand_planned(before, hands@[j], j,
                    exchange_removal(sels, j + 1, n as int), exchange_received(sels, j + 1, n as int)),
                forall|j: int| k <= j < 4 ==> #[trigger] hands@[j] is None,
            decreases 4 - k,
        {
            let seat = seats[k];
            let ghost rem_s = exchange_removal(sels, k + 1, n as int);
            let ghost rec_s = exchange_received(sels, k + 1, n as int);
            let rem: &Vec<Tile> = match removals.get(seat) {
                Some(v) => v,
                None => &empty,
            };
            let rec: &Vec<Tile> = match receipts.get(seat) {
                Some(v) => v,
                None => &empty,
            };
            proof {
                assert(seat@ == k + 1);
                assert(opt_tiles(removals@[k as int]) == rem_s);
                assert(opt_tiles(receipts@[k as int]) == rec_s);
                assert(rem@ == rem_s);
                assert(rec@ == rec_s);
                hands.lemma_len();
            }
            let ghost hands_before = hands@;
            if rem.len() > 0 || rec.len() > 0 {
                proof {
                    lemma_moved_joined(before, sels, seat, n as int);
                }
                let mut hand = self.seats.get(seat).unwrap().hand().clone();
                let ghost t0 = hand.spec_tiles();
                let ghost c0 = hand.spec_cursor();
                if rem.len() > 0 {
                    match hand.take_tiles_many(rem.as_slice()) {
                        Ok(_) => {},
                        Err(source) => {
                            proof {
                                lemma_short_stable(before, sels, k as int, 4);
                            }
                            return Err(ContextError::Hand { seat, source });
                        },
                    }
                    proof {
                        law_select_conserves(t0, rem_s, c0 as int);
                    }
                } else {
                    proof {
                        broadcast use vstd::seq_lib::group_to_multiset_ensures;
                        broadcast use vstd::multiset::group_multiset_properties;
                        assert(rem_s.to_multiset() =~= Multiset::<Tile>::empty());
                        assert(t0.to_multiset().add(rem_s.to_multiset()) =~= t0.to_multiset());
                    }
                }
                let ghost t1 = hand.spec_tiles();
                let c1 = hand.draw_cursor();
                hand.receive(rec.as_slice());
                proof {
                    let h = hand.spec_tiles();
                    assert(t1.take(c1 as int) + t1.skip(c1 as int) =~= t1);
                    vstd::seq_lib::lemma_multiset_commutative(t1.take(c1 as int) + rec_s, t1.skip(c1 as int));
                    vstd::seq_lib::lemma_multiset_commutative(t1.take(c1 as int), rec_s);
                    vstd::seq_lib::lemma_multiset_commutative(t1.take(c1 as int), t1.skip(c1 as int));
                    broadcast use vstd::multiset::group_multiset_axioms;
                    assert(t1.to_multiset().add(rem_s.to_multiset()) == t0.to_multiset());
                    assert(h.to_multiset().add(rem_s.to_multiset()) =~= t0.to_multiset().add(rec_s.to_multiset()));
                }
                let _ = hands.insert(seat, hand);
            }
            proof {
                assert forall|j: int| 0 <= j < k + 1 implies #[trigger] hand_planned(before, hands@[j], j,
                    exchange_removal(sels, j + 1, n as int), exchange_received(sels, j + 1, n as int)) by {
                    if j < k {
                        assert(hands@[j] == hands_before[j]);
                    }
                }
                assert(exchange_short(before, sels, k as int + 1) < 0);
            }
            k += 1;
        }
        proof {
            self.seats.lemma_len();
        }
        let mut k: usize = 0;
        while k < 4
            invariant
                k <= 4,
                n == sels.len(),
                sels == selections@,
                forall|j: int| 0 <= j < 4 ==> #[trigger] seats@[j]@ == j + 1,
                hands@.len() == 4,
                forall|j: int| k <= j < 4 ==> #[trigger] hand_planned(before, hands@[j], j,
                    exchange_removal(sels, j + 1, n as int), exchange_received(sels, j + 1, n as int)),
                self.spec_seats()@.len() == 4,
                before.spec_seats()@.len() == 4,
                forall|j: int| 0 <= j < k ==> #[trigger] exchanged_into(before, *self, j,
                    exchange_removal(sels, j + 1, n as int), exchange_received(sels, j + 1, n as int)),
                forall|j: int| 0 <= j < k ==> #[trigger] slot_tiles(self.spec_seats()@[j]).to_multiset().add(
                    exchange_removal(sels, j + 1, n as int).to_multiset(),
                ) == slot_tiles(before.spec_seats()@[j]).to_multiset().add(exchange_received(sels, j + 1, n as int).to_multiset()),
                forall|j: int| k <= j < 4 ==> #[trigger] self.spec_seats()@[j] == before.spec_seats()@[j],
                before.same_frame(*self),
                self.spec_wall() == before.spec_wall(),
                self.spec_river() == before.spec_river(),
            decreases 4 - k,
        {
            let seat = seats[k];
            let ghost mid = *self;
            let ghost rem_s = exchange_removal(sels, k + 1, n as int);
            let ghost rec_s = exchange_received(sels, k + 1, n as int);
            let ghost hands_before = hands@;
            proof {
                assert(seat@ == k + 1);
                assert(hand_planned(before, hands@[k as int], k as int, rem_s, rec_s));
            }
            match hands.remove(seat) {
                Some(hand) => {
                    proof {
                        assert(hands_before[k as int] == Some(hand));
                    }
                    self.replace_hand(seat, hand);
                    proof {
                        let s = before.spec_seats()@[k as int]->Some_0;
                        assert(before.spec_seats()@[k as int] is Some);
                        assert(self.spec_seats()@[k as int]->Some_0.spec_hand() == hand);
                        assert(self.spec_seats()@[k as int]->Some_0.spec_melds() == s.spec_melds());
                        assert(hand.spec_tiles().to_multiset().add(rem_s.to_multiset()) == s.spec_hand().spec_tiles().to_multiset().add(
                            rec_s.to_multiset(),
                        ));
                        let f = crate::melds::flat_tiles(s.spec_melds()@);
                        let t0 = s.spec_hand().spec_tiles();
                        let h = hand.spec_tiles();
                        assert(slot_tiles(self.spec_seats()@[k as int]) == h + f);
                        assert(slot_tiles(before.spec_seats()@[k as int]) == t0 + f);
                        lemma_shift_slot(h, t0, f, rem_s, rec_s);
                        assert(slot_tiles(self.spec_seats()@[k as int]).to_multiset().add(rem_s.to_multiset()) =~= slot_tiles(
                            before.spec_seats()@[k as int],
                        ).to_multiset().add(rec_s.to_multiset()));
                    }
                },
                None => {
                    proof {
                        broadcast use vstd::seq_lib::group_to_multiset_ensures;
                        broadcast use vstd::multiset::group_multiset_properties;
                        assert(rem_s.to_multiset() =~= Multiset::<Tile>::empty());
                        assert(rec_s.to_multiset() =~= Multiset::<Tile>::empty());
                        assert(slot_tiles(self.spec_seats()@[k as int]).to_multiset().add(rem_s.to_multiset()) =~= slot_tiles(
                            before.spec_seats()@[k as int],
                        ).to_multiset().add(rec_s.to_multiset()));
                    }
                },
            }
            proof {
                assert forall|j: int| k + 1 <= j < 4 implies #[trigger] hand_planned(before, hands@[j], j,
                    exchange_removal(sels, j + 1, n as int), exchange_received(sels, j + 1, n as int)) by {
                    assert(hands@[j] == hands_before[j]);
                }
                assert forall|j: int| 0 <= j < k + 1 implies #[trigger] exchanged_into(before, *self, j,
                    exchange_removal(sels, j + 1, n as int), exchange_received(sels, j + 1, n as int)) by {
                    if j < k {
                        assert(exchanged_into(before, mid, j, exchange_removal(sels, j + 1, n as int), exchange_received(sels, j + 1, n as int)));
                        assert(self.spec_seats()@[j] == mid.spec_seats()@[j]);
                    }
                }
                assert forall|j: int| 0 <= j < k + 1 implies #[trigger] slot_tiles(self.spec_seats()@[j]).to_multiset().add(
                    exchange_removal(sels, j + 1, n as int).to_multiset(),
                ) == slot_tiles(before.spec_seats()@[j]).to_multiset().add(exchange_received(sels, j + 1, n as int).to_multiset()) by {
                    if j < k {
                        assert(self.spec_seats()@[j] == mid.spec_seats()@[j]);
                    }
                }
            }
            k += 1;
        }
        let mut transfers: Vec<ExchangeTransfer> = Vec::new();
        let mut i: usize = 0;
        while i < n
            invariant
                i <= n,
                n == sels.len(),
                sels == selections@,
                transfers@.len() == i,
                forall|j: int| 0 <= j < i ==> {
                    &&& (#[trigger] transfers@[j]).from == sels[j].from
                    &&& transfers@[j].to == sels[j].to
                    &&& transfers@[j].tiles@ == sels[j].tiles@
                },
            decreases n - i,
        {
            let selection = &selections[i];
            let tiles = selection.tiles.clone();
            proof {
                assert(tiles@ =~= selection.tiles@);
            }
            transfers.push(ExchangeTransfer { from: selection.from, to: selection.to, tiles });
            i += 1;
        }
        proof {
            let after = *self;
            lemma_common_multiset(before);
            lemma_common_multiset(after);
            lemma_exchange_balance(sels, n as int);
            let a = before.spec_seats()@;
            let b = after.spec_seats()@;
            let g = seq![
                exchange_removal(sels, 1, n as int).to_multiset(),
                exchange_removal(sels, 2, n as int).to_multiset(),
                exchange_removal(sels, 3, n as int).to_multiset(),
                exchange_removal(sels, 4, n as int).to_multiset(),
            ];
            let r = seq![
                exchange_received(sels, 1, n as int).to_multiset(),
                exchange_received(sels, 2, n as int).to_multiset(),
                exchange_received(sels, 3, n as int).to_multiset(),
                exchange_received(sels, 4, n as int).to_multiset(),
            ];
            assert forall|i: int| 0 <= i < 4 implies #[trigger] slot_tiles(b[i]).to_multiset().add(g[i]) == slot_tiles(a[i]).to_multiset().add(r[i]) by {
                assert(g[i] == exchange_removal(sels, i + 1, n as int).to_multiset());
                assert(r[i] == exchange_received(sels, i + 1, n as int).to_multiset());
            }
            lemma_slots_balance(a, b, g, r);
            broadcast use vstd::multiset::group_multiset_axioms;
            assert(common_tiles(after).to_multiset() =~= common_tiles(before).to_multiset());
            assert forall|k: int| 0 <= k < 4 && #[trigger] exchange_received(sels, k + 1, n as int).len() > 0 implies
                after.spec_seats()@[k] is Some by {
                law_exchange_receipt(before, after, k, exchange_removal(sels, k + 1, n as int), exchange_received(sels, k + 1, n as int));
            }
            assert forall|k: int| 0 <= k < 4 && #[trigger] exchange_received(sels, k + 1, n as int).len() > 0 implies {
                let rem = exchange_removal(sels, k + 1, n as int);
                let rec = exchange_received(sels, k + 1, n as int);
                let s = before.spec_seats()@[k]->Some_0.spec_hand();
                let t = after.spec_seats()@[k]->Some_0.spec_hand();
                let t1 = given_tiles(s.spec_tiles(), s.spec_cursor(), rem);
                let c1 = given_cursor(s.spec_tiles(), s.spec_cursor(), rem);
                &&& t.spec_cursor() == c1 + rec.len()
                &&& t.spec_held() == t1.take(c1 as int) + rec
                &&& t.spec_drawn() == t1.skip(c1 as int)
            } by {
                law_exchange_receipt(before, after, k, exchange_removal(sels, k + 1, n as int), exchange_received(sels, k + 1, n as int));
            }
        }
        Ok(transfers)
    }

    /// Discards a batch of tiles of `seat` at once and appends them to the river in request
    /// order; returns one new id per tile.
    ///
    /// Repeated tiles ask for that many copies; each takes the earliest unchosen copy, held part
    /// first. Every record keeps the part its copy came from before the batch; a non-empty batch
    /// then moves every remaining tile into the held part. An empty batch still checks the seat
    /// and changes nothing. No wildcard is used and the wall need not hold tiles.
    ///
    /// Fails with [`ContextError::MissingSeat`] when the seat has not joined, with
    /// [`ContextError::Hand`] when some tile has too few copies and with [`ContextError::River`]
    /// when the river has no ids left for the batch; failures change nothing.
    pub fn discard_many(&mut self, seat: Seat, tiles: &[Tile]) -> (r: Result<Vec<DiscardId>, ContextError>)
        ensures
            !old(self).joined(seat) ==> r == Err::<Vec<DiscardId>, ContextError>(ContextError::MissingSeat { seat }),
            old(self).joined(seat) && tiles@.len() > 0 && select(old(self).hand_tiles(seat), tiles@) is None ==> r == Err::<
                Vec<DiscardId>,
                ContextError,
            >(ContextError::Hand { seat, source: select_error(old(self).hand_tiles(seat), tiles@) }),
            old(self).joined(seat) && tiles@.len() > 0 && select(old(self).hand_tiles(seat), tiles@) is Some && ids_exhausted(
                old(self).spec_river()@.len(),
                tiles@.len(),
            ) ==> r == Err::<Vec<DiscardId>, ContextError>(ContextError::River { source: RiverError::IdExhausted { requested: tiles@.len() as usize } }),
            r is Ok <==> old(self).joined(seat) && (tiles@.len() == 0 || (select(old(self).hand_tiles(seat), tiles@) is Some
                && !ids_exhausted(old(self).spec_river()@.len(), tiles@.len()))),
            r is Err || tiles@.len() == 0 ==> *final(self) == *old(self),
            r matches Ok(ids) ==> ids@.len() == tiles@.len()
                && forall|i: int| 0 <= i < ids@.len() ==> #[trigger] ids@[i]@ == old(self).spec_river()@.len() + i,
            r is Ok && tiles@.len() > 0 ==> discarded(*old(self), *final(self), seat, tiles@,
                select(old(self).hand_tiles(seat), tiles@)->Some_0),
            r is Ok ==> common_tiles(*final(self)).to_multiset() == common_tiles(*old(self)).to_multiset(),
    {
        let ghost before = *self;
        let state = match self.seats.get(seat) {
            Some(state) => state,
            None => {
                return Err(ContextError::MissingSeat { seat });
            },
        };
        if tiles.len() == 0 {
            return Ok(Vec::new());
        }
        let mut hand = state.hand().clone();
        let hand_discards = match hand.discard_tiles(tiles) {
            Ok(v) => v,
            Err(source) => {
                return Err(ContextError::Hand { seat, source });
            },
        };
        let ghost chosen = select(before.hand_tiles(seat), tiles@)->Some_0;
        let mut discards: Vec<Discard> = Vec::new();
        let mut i: usize = 0;
        while i < hand_discards.len()
            invariant
                i <= hand_discards@.len(),
                discards@.len() == i,
                forall|j: int| 0 <= j < i ==> (#[trigger] discards@[j]).spec_seat() == seat
                    && discards@[j].spec_hand_discard() == hand_discards@[j],
            decreases hand_discards@.len() - i,
        {
            discards.push(Discard::new(seat, hand_discards[i]));
            i += 1;
        }
        let ghost added = discards@;
        let mut river = self.river.clone();
        let ids = match river.append_many(discards) {
            Ok(ids) => ids,
            Err(source) => {
                return Err(ContextError::River { source });
            },
        };
        self.replace_hand(seat, hand);
        self.river = river;
        proof {
            let after = *self;
            let n = before.spec_river()@.len();
            before.spec_seats().lemma_len();
            assert forall|i: int| 0 <= i < tiles@.len() implies {
                let e = #[trigger] after.spec_river()@[n + i];
                &&& e.1
                &&& e.0.spec_seat() == seat
                &&& e.0.spec_hand_discard().spec_tile() == tiles@[i]
                &&& e.0.spec_hand_discard().spec_from_draw() == (chosen[i] >= before.hand_cursor(seat))
            } by {
                assert(after.spec_river()@[n + i] == added.map_values(|d: Discard| (d, true))[i]);
            }
            assert forall|i: int| 0 <= i < n implies #[trigger] after.spec_river()@[i] == before.spec_river()@[i] by {
                assert(after.spec_river()@[i] == (before.spec_river()@ + added.map_values(|d: Discard| (d, true)))[i]);
            }
            let k = seat@ - 1;
            let old_hand = before.hand_tiles(seat);
            let rest = after.hand_tiles(seat);
            let f = crate::melds::flat_tiles(before.seat_state(seat).spec_melds()@);
            law_select_conserves(old_hand, tiles@, before.hand_cursor(seat) as int);
            lemma_common_multiset(before);
            lemma_common_multiset(after);
            lemma_slots_change(before.spec_seats()@, after.spec_seats()@, k);
            lemma_present_append(before.spec_river()@, added);
            assert(added.map_values(|d: Discard| d.spec_hand_discard().spec_tile()) =~= tiles@);
            vstd::seq_lib::lemma_multiset_commutative(rest, f);
            vstd::seq_lib::lemma_multiset_commutative(old_hand, f);
            vstd::seq_lib::lemma_multiset_commutative(present_tiles(before.spec_river()@, n as int), tiles@);
            broadcast use vstd::multiset::group_multiset_axioms;
            assert(slot_tiles(after.spec_seats()@[k]) == rest + f);
            assert(slot_tiles(before.spec_seats()@[k]) == old_hand + f);
            assert(common_tiles(after).to_multiset() =~= common_tiles(before).to_multiset());
        }
        Ok(ids)
    }

    /// Discards the earliest copy of `tile` of `seat`, held part first, appends it to the river
    /// and returns its new id. The record keeps the part the copy came from; every remaining tile
    /// then becomes held. No wildcard is used.
    ///
    /// Fails with [`ContextError::MissingSeat`], [`ContextError::Hand`] when there is no copy, or
    /// [`ContextError::River`] when no id is left; failures change nothing.
    pub fn discard(&mut self, seat: Seat, tile: Tile) -> (r: Result<DiscardId, ContextError>)
        ensures
            !old(self).joined(seat) ==> r == Err::<DiscardId, ContextError>(ContextError::MissingSeat { seat }),
            old(self).joined(seat) && select(old(self).hand_tiles(seat), seq![tile]) is None ==> r == Err::<
                DiscardId,
                ContextError,
            >(ContextError::Hand { seat, source: select_error(old(self).hand_tiles(seat), seq![tile]) }),
            old(self).joined(seat) && select(old(self).hand_tiles(seat), seq![tile]) is Some && ids_exhausted(
                old(self).spec_river()@.len(),
                1,
            ) ==> r == Err::<DiscardId, ContextError>(ContextError::River { source: RiverError::IdExhausted { requested: 1 } }),
            r is Ok <==> old(self).joined(seat) && select(old(self).hand_tiles(seat), seq![tile]) is Some
                && !ids_exhausted(old(self).spec_river()@.len(), 1),
            r is Err ==> *final(self) == *old(self),
            r matches Ok(id) ==> id@ == old(self).spec_river()@.len() && discarded(*old(self), *final(self), seat, seq![tile],
                select(old(self).hand_tiles(seat), seq![tile])->Some_0),
            r is Ok ==> common_tiles(*final(self)).to_multiset() == common_tiles(*old(self)).to_multiset(),
    {
        let request = [tile];
        proof {
            assert(request@ =~= seq![tile]);
        }
        let mut ids = self.discard_many(seat, request.as_slice())?;
        let ghost all = ids@;
        let id = ids.pop().unwrap();
        proof {
            assert(id == all[0]);
        }
        Ok(id)
    }
}

} // verus!
