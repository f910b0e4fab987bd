//! Multiset accounting of the common tiles: each container's share of the total.

use vstd::prelude::*;
use vstd::multiset::Multiset;

use super::transfer::{wall_rest, wall_take, WallEnd};
use super::{common_tiles, present_tiles, seats_tiles, slot_tiles, Context, SeatContext, Variant};
use crate::discard::Discard;
use crate::tile::Tile;

verus! {

/// The tiles of the four seat slots, as one multiset.
pub open spec fn slots_multiset<V: Variant>(slots: Seq<Option<SeatContext<V>>>) -> Multiset<Tile> {
    slot_tiles(slots[0]).to_multiset().add(slot_tiles(slots[1]).to_multiset()).add(
        slot_tiles(slots[2]).to_multiset(),
    ).add(slot_tiles(slots[3]).to_multiset())
}

/// The seat part of the common tiles is the sum of the four slots.
pub proof fn lemma_seats_multiset<V: Variant>(slots: Seq<Option<SeatContext<V>>>)
    ensures
        seats_tiles(slots, 4).to_multiset() == slots_multiset(slots),
{
    broadcast use vstd::seq_lib::lemma_multiset_commutative;
    reveal_with_fuel(seats_tiles, 5);
    let e = seats_tiles(slots, 0);
    assert(e =~= Seq::<Tile>::empty());
    assert(seats_tiles(slots, 1) =~= e + slot_tiles(slots[0]));
    assert(e + slot_tiles(slots[0]) =~= slot_tiles(slots[0]));
}

/// Changing one slot changes the slot total by exactly that slot's difference.
pub proof fn lemma_slots_change<V: Variant>(a: Seq<Option<SeatContext<V>>>, b: Seq<Option<SeatContext<V>>>, k: int)
    requires
        a.len() == 4,
        b.len() == 4,
        0 <= k < 4,
        forall|i: int| 0 <= i < 4 && i != k ==> #[trigger] b[i] == a[i],
    ensures
        slots_multiset(b).add(slot_tiles(a[k]).to_multiset()) == slots_multiset(a).add(slot_tiles(b[k]).to_multiset()),
{
    broadcast use vstd::multiset::group_multiset_axioms;
    let ak = slot_tiles(a[k]).to_multiset();
    let bk = slot_tiles(b[k]).to_multiset();
    if k == 0 {
        assert(b[1] == a[1] && b[2] == a[2] && b[3] == a[3]);
    } else if k == 1 {
        assert(b[0] == a[0] && b[2] == a[2] && b[3] == a[3]);
    } else if k == 2 {
        assert(b[0] == a[0] && b[1] == a[1] && b[3] == a[3]);
    } else {
        assert(b[0] == a[0] && b[1] == a[1] && b[2] == a[2]);
    }
    assert(slots_multiset(b).add(ak) =~= slots_multiset(a).add(bk));
}

/// The common tiles are the wall, the four slots and the present river tiles, as multisets.
pub proof fn lemma_common_multiset<V: Variant>(ctx: Context<V>)
    ensures
        common_tiles(ctx).to_multiset() == ctx.spec_wall()@.to_multiset().add(slots_multiset(ctx.spec_seats()@)).add(
            present_tiles(ctx.spec_river()@, ctx.spec_river()@.len() as int).to_multiset(),
        ),
{
    broadcast use vstd::seq_lib::lemma_multiset_commutative;
    lemma_seats_multiset(ctx.spec_seats()@);
}

/// The present tiles among the first `n` records depend on those records alone.
pub proof fn lemma_present_prefix(a: Seq<(Discard, bool)>, b: Seq<(Discard, bool)>, n: int)
    requires
        0 <= n <= a.len(),
        n <= b.len(),
        forall|i: int| 0 <= i < n ==> #[trigger] a[i] == b[i],
    ensures
        present_tiles(a, n) == present_tiles(b, n),
    decreases n,
{
    if n > 0 {
        lemma_present_prefix(a, b, n - 1);
    }
}

/// Appending present records appends their tiles to the present tiles.
pub proof fn lemma_present_append(entries: Seq<(Discard, bool)>, added: Seq<Discard>)
    ensures
        present_tiles(entries + added.map_values(|d: Discard| (d, true)), (entries.len() + added.len()) as int)
            == present_tiles(entries, entries.len() as int) + added.map_values(|d: Discard| d.spec_hand_discard().spec_tile()),
    decreases added.len(),
{
    let all = entries + added.map_values(|d: Discard| (d, true));
    if added.len() == 0 {
        assert(all =~= entries);
        assert(added.map_values(|d: Discard| d.spec_hand_discard().spec_tile()) =~= Seq::<Tile>::empty());
        assert(present_tiles(entries, entries.len() as int) + Seq::<Tile>::empty() =~= present_tiles(entries, entries.len() as int));
    } else {
        let prev = added.drop_last();
        lemma_present_append(entries, prev);
        let shorter = entries + prev.map_values(|d: Discard| (d, true));
        let n = (entries.len() + prev.len()) as int;
        assert forall|i: int| 0 <= i < n implies #[trigger] all[i] == shorter[i] by {
            if i >= entries.len() {
                assert(all[i] == added.map_values(|d: Discard| (d, true))[i - entries.len()]);
                assert(shorter[i] == prev.map_values(|d: Discard| (d, true))[i - entries.len()]);
            }
        }
        lemma_present_prefix(all, shorter, n);
        assert(all[n] == (added.last(), true));
        assert(added.map_values(|d: Discard| d.spec_hand_discard().spec_tile()) =~= prev.map_values(
            |d: Discard| d.spec_hand_discard().spec_tile(),
        ).push(added.last().spec_hand_discard().spec_tile()));
    }
}

/// Clearing the presence of one present record removes exactly its tile from the present tiles.
pub proof fn lemma_present_take(entries: Seq<(Discard, bool)>, id: int, n: int)
    requires
        0 <= id < n <= entries.len(),
        entries[id].1,
    ensures
        present_tiles(entries.update(id, (entries[id].0, false)), n).to_multiset().insert(
            entries[id].0.spec_hand_discard().spec_tile(),
        ) == present_tiles(entries, n).to_multiset(),
    decreases n,
{
    broadcast use vstd::seq_lib::group_to_multiset_ensures;
    broadcast use vstd::multiset::group_multiset_axioms;
    let up = entries.update(id, (entries[id].0, false));
    let t = entries[id].0.spec_hand_discard().spec_tile();
    if n - 1 == id {
        lemma_present_prefix(up, entries, n - 1);
    } else {
        lemma_present_take(entries, id, n - 1);
        let m = present_tiles(up, n - 1).to_multiset();
        if entries[n - 1].1 {
            let x = entries[n - 1].0.spec_hand_discard().spec_tile();
            assert(m.insert(x).insert(t) =~= m.insert(t).insert(x));
        }
    }
}

/// A draw splits the wall into what remains and what was taken, as multisets.
pub proof fn lemma_wall_split(wall: Seq<Tile>, end: WallEnd, n: int)
    requires
        0 <= n <= wall.len(),
    ensures
        wall_rest(wall, end, n).to_multiset().add(wall_take(wall, end, n).to_multiset()) == wall.to_multiset(),
{
    broadcast use vstd::seq_lib::lemma_multiset_commutative;
    broadcast use vstd::multiset::group_multiset_axioms;
    match end {
        WallEnd::Front => {
            assert(wall.take(n) + wall.skip(n) =~= wall);
            assert(wall.skip(n).to_multiset().add(wall.take(n).to_multiset()) =~= wall.take(n).to_multiset().add(
                wall.skip(n).to_multiset(),
            ));
        },
        WallEnd::Back => {
            let k = wall.len() - n;
            wall.skip(k).lemma_reverse_to_multiset();
            assert(wall.take(k) + wall.skip(k) =~= wall);
        },
    }
}

/// A hand that gave `rem` and received `rec` keeps the balance with the rest of its seat.
pub proof fn lemma_shift_slot(h: Seq<Tile>, t0: Seq<Tile>, f: Seq<Tile>, rem: Seq<Tile>, rec: Seq<Tile>)
    requires
        h.to_multiset().add(rem.to_multiset()) == t0.to_multiset().add(rec.to_multiset()),
    ensures
        (h + f).to_multiset().add(rem.to_multiset()) == (t0 + f).to_multiset().add(rec.to_multiset()),
{
    broadcast use vstd::multiset::group_multiset_axioms;
    vstd::seq_lib::lemma_multiset_commutative(h, f);
    vstd::seq_lib::lemma_multiset_commutative(t0, f);
    assert((h + f).to_multiset() == h.to_multiset().add(f.to_multiset()));
    assert((t0 + f).to_multiset() == t0.to_multiset().add(f.to_multiset()));
    assert forall|x: Tile| #[trigger] (h + f).to_multiset().add(rem.to_multiset()).count(x) == (t0 + f).to_multiset().add(
        rec.to_multiset(),
    ).count(x) by {
        assert(h.to_multiset().add(rem.to_multiset()).count(x) == t0.to_multiset().add(rec.to_multiset()).count(x));
        assert(h.to_multiset().add(f.to_multiset()).count(x) == h.to_multiset().count(x) + f.to_multiset().count(x));
        assert(t0.to_multiset().add(f.to_multiset()).count(x) == t0.to_multiset().count(x) + f.to_multiset().count(x));
        assert((h + f).to_multiset().count(x) == h.to_multiset().add(f.to_multiset()).count(x));
        assert((t0 + f).to_multiset().count(x) == t0.to_multiset().add(f.to_multiset()).count(x));
        assert((h + f).to_multiset().add(rem.to_multiset()).count(x) == (h + f).to_multiset().count(x) + rem.to_multiset().count(x));
        assert((t0 + f).to_multiset().add(rec.to_multiset()).count(x) == (t0 + f).to_multiset().count(x) + rec.to_multiset().count(x));
        assert(h.to_multiset().add(rem.to_multiset()).count(x) == h.to_multiset().count(x) + rem.to_multiset().count(x));
        assert(t0.to_multiset().add(rec.to_multiset()).count(x) == t0.to_multiset().count(x) + rec.to_multiset().count(x));
    }
    assert((h + f).to_multiset().add(rem.to_multiset()) =~= (t0 + f).to_multiset().add(rec.to_multiset()));
}

/// When each slot gave `g[i]` and received `r[i]`, and the four slots together gave what they
/// received, the slot total is unchanged.
pub proof fn lemma_slots_balance<V: Variant>(
    a: Seq<Option<SeatContext<V>>>,
    b: Seq<Option<SeatContext<V>>>,
    g: Seq<Multiset<Tile>>,
    r: Seq<Multiset<Tile>>,
)
    requires
        a.len() == 4,
        b.len() == 4,
        g.len() == 4,
        r.len() == 4,
        forall|i: int| 0 <= i < 4 ==> #[trigger] slot_tiles(b[i]).to_multiset().add(g[i]) == slot_tiles(a[i]).to_multiset().add(r[i]),
        g[0].add(g[1]).add(g[2]).add(g[3]) == r[0].add(r[1]).add(r[2]).add(r[3]),
    ensures
        slots_multiset(b) == slots_multiset(a),
{
    broadcast use vstd::multiset::group_multiset_axioms;
    let sa = seq![
        slot_tiles(a[0]).to_multiset(),
        slot_tiles(a[1]).to_multiset(),
        slot_tiles(a[2]).to_multiset(),
        slot_tiles(a[3]).to_multiset(),
    ];
    let sb = seq![
        slot_tiles(b[0]).to_multiset(),
        slot_tiles(b[1]).to_multiset(),
        slot_tiles(b[2]).to_multiset(),
        slot_tiles(b[3]).to_multiset(),
    ];
    assert forall|x: Tile| #[trigger] slots_multiset(b).count(x) == slots_multiset(a).count(x) by {
        assert forall|i: int| 0 <= i < 4 implies #[trigger] sb[i].count(x) + g[i].count(x) == sa[i].count(x) + r[i].count(x) by {
            assert(slot_tiles(b[i]).to_multiset().add(g[i]) == slot_tiles(a[i]).to_multiset().add(r[i]));
            assert(sb[i].add(g[i]).count(x) == sa[i].add(r[i]).count(x));
        }
        assert(sb[0].count(x) + g[0].count(x) == sa[0].count(x) + r[0].count(x));
        assert(sb[1].count(x) + g[1].count(x) == sa[1].count(x) + r[1].count(x));
        assert(sb[2].count(x) + g[2].count(x) == sa[2].count(x) + r[2].count(x));
        assert(sb[3].count(x) + g[3].count(x) == sa[3].count(x) + r[3].count(x));
        assert(g[0].add(g[1]).add(g[2]).add(g[3]).count(x) == r[0].add(r[1]).add(r[2]).add(r[3]).count(x));
        assert(g[0].add(g[1]).add(g[2]).add(g[3]).count(x) == g[0].add(g[1]).add(g[2]).count(x) + g[3].count(x));
        assert(r[0].add(r[1]).add(r[2]).add(r[3]).count(x) == r[0].add(r[1]).add(r[2]).count(x) + r[3].count(x));
        assert(g[0].add(g[1]).add(g[2]).count(x) == g[0].add(g[1]).count(x) + g[2].count(x));
        assert(r[0].add(r[1]).add(r[2]).count(x) == r[0].add(r[1]).count(x) + r[2].count(x));
        assert(g[0].add(g[1]).count(x) == g[0].count(x) + g[1].count(x));
        assert(r[0].add(r[1]).count(x) == r[0].count(x) + r[1].count(x));
        assert(slots_multiset(b) == sb[0].add(sb[1]).add(sb[2]).add(sb[3]));
        assert(slots_multiset(a) == sa[0].add(sa[1]).add(sa[2]).add(sa[3]));
        assert(sb[0].add(sb[1]).add(sb[2]).add(sb[3]).count(x) == sb[0].add(sb[1]).add(sb[2]).count(x) + sb[3].count(x));
        assert(sa[0].add(sa[1]).add(sa[2]).add(sa[3]).count(x) == sa[0].add(sa[1]).add(sa[2]).count(x) + sa[3].count(x));
        assert(sb[0].add(sb[1]).add(sb[2]).count(x) == sb[0].add(sb[1]).count(x) + sb[2].count(x));
        assert(sa[0].add(sa[1]).add(sa[2]).count(x) == sa[0].add(sa[1]).count(x) + sa[2].count(x));
        assert(sb[0].add(sb[1]).count(x) == sb[0].count(x) + sb[1].count(x));
        assert(sa[0].add(sa[1]).count(x) == sa[0].count(x) + sa[1].count(x));
    }
    assert(slots_multiset(b) =~= slots_multiset(a));
}

/// When one seat's slot gains `y` and loses `x`, and the wall and the present river tiles
/// together gain `x` and lose `y`, the common tiles are unchanged.
pub proof fn lemma_common_move<V: Variant>(a: Context<V>, b: Context<V>, k: int, x: Multiset<Tile>, y: Multiset<Tile>)
    requires
        0 <= k < 4,
        a.spec_seats()@.len() == 4,
        a.same_seats_except(b, k),
        slot_tiles(b.spec_seats()@[k]).to_multiset().add(x) == slot_tiles(a.spec_seats()@[k]).to_multiset().add(y),
        b.spec_wall()@.to_multiset().add(present_tiles(b.spec_river()@, b.spec_river()@.len() as int).to_multiset()).add(y)
            == a.spec_wall()@.to_multiset().add(present_tiles(a.spec_river()@, a.spec_river()@.len() as int).to_multiset()).add(x),
    ensures
        common_tiles(b).to_multiset() == common_tiles(a).to_multiset(),
{
    broadcast use vstd::multiset::group_multiset_axioms;
    lemma_common_multiset(a);
    lemma_common_multiset(b);
    lemma_slots_change(a.spec_seats()@, b.spec_seats()@, k);
    let sa = slots_multiset(a.spec_seats()@);
    let sb = slots_multiset(b.spec_seats()@);
    let ka = slot_tiles(a.spec_seats()@[k]).to_multiset();
    let kb = slot_tiles(b.spec_seats()@[k]).to_multiset();
    let wa = a.spec_wall()@.to_multiset();
    let wb = b.spec_wall()@.to_multiset();
    let pa = present_tiles(a.spec_river()@, a.spec_river()@.len() as int).to_multiset();
    let pb = present_tiles(b.spec_river()@, b.spec_river()@.len() as int).to_multiset();
    assert forall|t: Tile| #[trigger] common_tiles(b).to_multiset().count(t) == common_tiles(a).to_multiset().count(t) by {
        assert(sb.add(ka).count(t) == sa.add(kb).count(t));
        assert(kb.add(x).count(t) == ka.add(y).count(t));
        assert(wb.add(pb).add(y).count(t) == wa.add(pa).add(x).count(t));
        assert(wb.add(pb).count(t) == wb.count(t) + pb.count(t));
        assert(wa.add(pa).count(t) == wa.count(t) + pa.count(t));
        assert(wb.add(sb).add(pb).count(t) == wb.add(sb).count(t) + pb.count(t));
        assert(wa.add(sa).add(pa).count(t) == wa.add(sa).count(t) + pa.count(t));
        assert(wb.add(sb).count(t) == wb.count(t) + sb.count(t));
        assert(wa.add(sa).count(t) == wa.count(t) + sa.count(t));
    }
    assert(common_tiles(b).to_multiset() =~= common_tiles(a).to_multiset());
}

} // verus!
