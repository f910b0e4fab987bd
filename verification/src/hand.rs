//! A hand: original tiles split into a held part and a drawn part.
//!
//! The hand keeps the partition and the structural rules of taking tiles. It decides no hand
//! size, no enabled faces and no legality of actions, and it stores no melds. Equal tiles do not
//! name a copy: repeating a tile in a request asks for that many copies, matched along the
//! current order with the held part first. Indices only name current positions.

use vstd::prelude::*;
use vstd::laws_cmp::obeys_cmp;
use vstd::std_specs::cmp::PartialOrdIs;
use vstd::multiset::Multiset;

use crate::tile::counts::sat_add;
use crate::tile::{code_set, count_code, count_in, lemma_count_code_push, lemma_tile_eq, Tile, TileCounts, TileMask};

verus! {

/// Why a hand could not be built or a take failed.
#[derive(Clone, Copy, Debug, PartialEq, Eq, Structural)]
pub enum HandError {
    /// The draw cursor is past the end of the tiles.
    InvalidDrawCursor {
        /// The requested cursor.
        cursor: usize,
        /// The number of tiles.
        len: usize,
    },
    /// An index is not below the number of tiles.
    IndexOutOfBounds {
        /// The index.
        index: usize,
        /// The number of tiles.
        len: usize,
    },
    /// One batch used an index twice.
    DuplicateIndex {
        /// The repeated index.
        index: usize,
    },
    /// Not enough exact copies of a tile.
    InsufficientTiles {
        /// The missing tile, read without wildcards.
        tile: Tile,
        /// Copies of it asked for by the whole batch.
        required: usize,
        /// Copies of it in the hand.
        available: usize,
    },
}

/// The first position in a hand, at or after `j`, that holds `code` and is not in `chosen`;
/// `-1` when there is none.
pub open spec fn find_from(tiles: Seq<Tile>, code: u8, chosen: Seq<usize>, j: int) -> int
    decreases tiles.len() - j,
{
    if j < 0 || j >= tiles.len() {
        -1
    } else if tiles[j]@ == code && !chosen.contains(j as usize) {
        j
    } else {
        find_from(tiles, code, chosen, j + 1)
    }
}

/// The positions a batch of requested tiles selects: for each request in turn, the earliest
/// position holding that tile that no earlier request took. `None` when some request finds none.
pub open spec fn select(tiles: Seq<Tile>, req: Seq<Tile>) -> Option<Seq<usize>>
    decreases req.len(),
{
    if req.len() == 0 {
        Some(Seq::empty())
    } else {
        match select(tiles, req.drop_last()) {
            None => None,
            Some(chosen) => {
                let k = find_from(tiles, req.last()@, chosen, 0);
                if k < 0 {
                    None
                } else {
                    Some(chosen.push(k as usize))
                }
            },
        }
    }
}

/// The position in a request of the first tile that cannot be matched.
pub open spec fn first_short(tiles: Seq<Tile>, req: Seq<Tile>) -> int
    decreases req.len(),
{
    if req.len() == 0 {
        0
    } else if select(tiles, req.drop_last()) is None {
        first_short(tiles, req.drop_last())
    } else {
        req.len() - 1
    }
}

/// The error a batch of tile requests meets, if any.
pub open spec fn select_error(tiles: Seq<Tile>, req: Seq<Tile>) -> HandError {
    let tile = req[first_short(tiles, req)];
    HandError::InsufficientTiles {
        tile,
        required: count_code(req, tile@) as usize,
        available: count_code(tiles, tile@) as usize,
    }
}

/// The first structural error of a batch of indices over `len` tiles, checking positions in
/// order: out of bounds first, then repeated.
pub open spec fn index_error(indices: Seq<usize>, len: nat) -> Option<HandError>
    decreases indices.len(),
{
    if indices.len() == 0 {
        None
    } else {
        let prev = index_error(indices.drop_last(), len);
        if prev is Some {
            prev
        } else if indices.last() >= len {
            Some(HandError::IndexOutOfBounds { index: indices.last(), len: len as usize })
        } else if indices.drop_last().contains(indices.last()) {
            Some(HandError::DuplicateIndex { index: indices.last() })
        } else {
            None
        }
    }
}

/// The tiles of positions `lo..hi` that are not in `removed`, in order.
pub open spec fn kept(tiles: Seq<Tile>, removed: Seq<usize>, lo: int, hi: int) -> Seq<Tile>
    decreases hi - lo,
{
    if hi <= lo {
        Seq::empty()
    } else {
        let prev = kept(tiles, removed, lo, hi - 1);
        if removed.contains((hi - 1) as usize) {
            prev
        } else {
            prev.push(tiles[hi - 1])
        }
    }
}

/// The tiles that remain after removing the positions `removed`: the kept held tiles followed
/// by the kept drawn tiles, each in order.
pub open spec fn remaining(tiles: Seq<Tile>, removed: Seq<usize>, cursor: int) -> Seq<Tile> {
    kept(tiles, removed, 0, cursor) + kept(tiles, removed, cursor, tiles.len() as int)
}

/// The held part that remains after removing the positions `removed`.
pub open spec fn remaining_held(tiles: Seq<Tile>, removed: Seq<usize>, cursor: int) -> Seq<Tile> {
    kept(tiles, removed, 0, cursor)
}

/// `find_from` returns a matching, unchosen position or `-1`.
proof fn lemma_find_from(tiles: Seq<Tile>, code: u8, chosen: Seq<usize>, j: int)
    requires
        0 <= j,
    ensures
        find_from(tiles, code, chosen, j) == -1 || (j <= find_from(tiles, code, chosen, j) < tiles.len()
            && tiles[find_from(tiles, code, chosen, j)]@ == code && !chosen.contains(
            find_from(tiles, code, chosen, j) as usize,
        )),
        find_from(tiles, code, chosen, j) == -1 ==> forall|k: int|
            j <= k < tiles.len() && #[trigger] tiles[k]@ == code ==> chosen.contains(k as usize),
    decreases tiles.len() - j,
{
    if j < tiles.len() {
        lemma_find_from(tiles, code, chosen, j + 1);
    }
}

/// A successful selection picks, for each request, a distinct in-bounds position holding it.
proof fn lemma_select_valid(tiles: Seq<Tile>, req: Seq<Tile>)
    requires
        select(tiles, req) is Some,
        tiles.len() <= usize::MAX,
    ensures
        select(tiles, req)->Some_0.len() == req.len(),
        forall|i: int| 0 <= i < req.len() ==> #[trigger] select(tiles, req)->Some_0[i] < tiles.len()
            && tiles[select(tiles, req)->Some_0[i] as int]@ == req[i]@,
        forall|i: int, j: int| 0 <= i < j < req.len() ==> select(tiles, req)->Some_0[i]
            != select(tiles, req)->Some_0[j],
        index_error(select(tiles, req)->Some_0, tiles.len()) is None,
    decreases req.len(),
{
    if req.len() > 0 {
        let prev = req.drop_last();
        lemma_select_valid(tiles, prev);
        let chosen = select(tiles, prev)->Some_0;
        let k = find_from(tiles, req.last()@, chosen, 0);
        lemma_find_from(tiles, req.last()@, chosen, 0);
        assert(k >= 0);
        let ch = chosen.push(k as usize);
        assert(select(tiles, req) == Some(ch));
        assert(ch.drop_last() =~= chosen);
        assert forall|i: int| 0 <= i < req.len() implies #[trigger] ch[i] < tiles.len() && tiles[ch[i] as int]@ == req[i]@ by {
            if i < prev.len() {
                assert(ch[i] == chosen[i]);
                assert(prev[i] == req[i]);
            }
        }
        assert forall|i: int, j: int| 0 <= i < j < req.len() implies ch[i] != ch[j] by {
            if j == req.len() - 1 {
                assert(chosen.contains(ch[i]));
            } else {
                assert(ch[i] == chosen[i] && ch[j] == chosen[j]);
            }
        }
    }
}

/// Splitting the kept tiles of a range at any point concatenates the two halves.
proof fn lemma_kept_split(tiles: Seq<Tile>, removed: Seq<usize>, lo: int, mid: int, hi: int)
    requires
        lo <= mid <= hi,
    ensures
        kept(tiles, removed, lo, hi) == kept(tiles, removed, lo, mid) + kept(tiles, removed, mid, hi),
    decreases hi - mid,
{
    if hi == mid {
        assert(kept(tiles, removed, lo, mid) + Seq::<Tile>::empty() =~= kept(tiles, removed, lo, mid));
    } else {
        lemma_kept_split(tiles, removed, lo, mid, hi - 1);
        if removed.contains((hi - 1) as usize) {
        } else {
            assert(kept(tiles, removed, lo, hi) =~= kept(tiles, removed, lo, mid) + kept(tiles, removed, mid, hi));
        }
    }
}

/// Keeping part of a range never yields more tiles than the range holds.
proof fn lemma_kept_len(tiles: Seq<Tile>, removed: Seq<usize>, lo: int, hi: int)
    ensures
        kept(tiles, removed, lo, hi).len() <= if hi > lo { hi - lo } else { 0 },
    decreases hi - lo,
{
    if hi > lo {
        lemma_kept_len(tiles, removed, lo, hi - 1);
    }
}

/// Removing one position keeps every other tile in order.
proof fn lemma_remove_one(tiles: Seq<Tile>, index: int, cursor: int)
    requires
        0 <= index < tiles.len(),
        tiles.len() <= usize::MAX,
        0 <= cursor <= tiles.len(),
    ensures
        remaining(tiles, seq![index as usize], cursor) == tiles.remove(index),
{
    let removed = seq![index as usize];
    lemma_kept_split(tiles, removed, 0, cursor, tiles.len() as int);
    lemma_kept_remove_one(tiles, index, tiles.len() as int);
}

proof fn lemma_kept_remove_one(tiles: Seq<Tile>, index: int, hi: int)
    requires
        0 <= index < tiles.len(),
        tiles.len() <= usize::MAX,
        0 <= hi <= tiles.len(),
    ensures
        kept(tiles, seq![index as usize], 0, hi) == if hi <= index { tiles.take(hi) } else { tiles.take(hi).remove(index) },
    decreases hi,
{
    let removed = seq![index as usize];
    if hi > 0 {
        lemma_kept_remove_one(tiles, index, hi - 1);
        assert(removed.contains((hi - 1) as usize) == (hi - 1 == index)) by {
            if removed.contains((hi - 1) as usize) {
                assert(removed[0] == (hi - 1) as usize);
            }
            if hi - 1 == index {
                assert(removed[0] == (hi - 1) as usize);
            }
        }
        if hi - 1 == index {
            assert(tiles.take(hi).remove(index) =~= tiles.take(hi - 1));
        } else if hi <= index {
            assert(tiles.take(hi) =~= tiles.take(hi - 1).push(tiles[hi - 1]));
        } else {
            assert(tiles.take(hi).remove(index) =~= tiles.take(hi - 1).remove(index).push(tiles[hi - 1]));
        }
    } else {
        assert(tiles.take(0) =~= Seq::<Tile>::empty());
    }
}

/// The tiles of positions `lo..hi` that are in `removed`, in position order.
pub open spec fn picked(tiles: Seq<Tile>, removed: Seq<usize>, lo: int, hi: int) -> Seq<Tile>
    decreases hi - lo,
{
    if hi <= lo {
        Seq::empty()
    } else {
        let prev = picked(tiles, removed, lo, hi - 1);
        if removed.contains((hi - 1) as usize) {
            prev.push(tiles[hi - 1])
        } else {
            prev
        }
    }
}

/// The kept and the picked tiles of a range together are the range.
proof fn lemma_kept_picked(tiles: Seq<Tile>, removed: Seq<usize>, lo: int, hi: int)
    requires
        0 <= lo <= hi <= tiles.len(),
    ensures
        kept(tiles, removed, lo, hi).to_multiset().add(picked(tiles, removed, lo, hi).to_multiset())
            == tiles.subrange(lo, hi).to_multiset(),
    decreases hi - lo,
{
    broadcast use vstd::seq_lib::group_to_multiset_ensures;
    broadcast use vstd::multiset::group_multiset_axioms;
    if hi > lo {
        lemma_kept_picked(tiles, removed, lo, hi - 1);
        assert(tiles.subrange(lo, hi) =~= tiles.subrange(lo, hi - 1).push(tiles[hi - 1]));
        let k = kept(tiles, removed, lo, hi - 1).to_multiset();
        let p = picked(tiles, removed, lo, hi - 1).to_multiset();
        assert(k.insert(tiles[hi - 1]).add(p) =~= k.add(p).insert(tiles[hi - 1]));
        assert(k.add(p.insert(tiles[hi - 1])) =~= k.add(p).insert(tiles[hi - 1]));
    } else {
        assert(tiles.subrange(lo, hi) =~= Seq::<Tile>::empty());
        assert(Multiset::<Tile>::empty().add(Multiset::<Tile>::empty()) =~= Multiset::<Tile>::empty());
    }
}

/// Adding one more removed position adds its tile to the picked tiles of a range holding it.
proof fn lemma_picked_push(tiles: Seq<Tile>, rest: Seq<usize>, r: usize, lo: int, hi: int)
    requires
        !rest.contains(r),
        0 <= lo <= hi <= tiles.len(),
        tiles.len() <= usize::MAX,
    ensures
        picked(tiles, rest.push(r), lo, hi).to_multiset() == if lo <= r < hi {
            picked(tiles, rest, lo, hi).to_multiset().insert(tiles[r as int])
        } else {
            picked(tiles, rest, lo, hi).to_multiset()
        },
    decreases hi - lo,
{
    broadcast use vstd::seq_lib::group_to_multiset_ensures;
    broadcast use vstd::multiset::group_multiset_axioms;
    broadcast use vstd::seq_lib::group_seq_properties;
    if hi > lo {
        lemma_picked_push(tiles, rest, r, lo, hi - 1);
        let x = (hi - 1) as usize;
        assert(rest.push(r).contains(x) <==> (rest.contains(x) || x == r)) by {
            if rest.push(r).contains(x) {
                let j = choose|j: int| 0 <= j < rest.push(r).len() && rest.push(r)[j] == x;
                if j < rest.len() {
                    assert(rest[j] == x);
                }
            }
            if rest.contains(x) {
                let j = choose|j: int| 0 <= j < rest.len() && rest[j] == x;
                assert(rest.push(r)[j] == x);
            }
            if x == r {
                assert(rest.push(r)[rest.len() as int] == x);
            }
        }
        let p = picked(tiles, rest, lo, hi - 1).to_multiset();
        if x == r {
            assert(!rest.contains(x));
        } else if rest.contains(x) {
            assert(p.insert(tiles[r as int]).insert(tiles[hi - 1]) =~= p.insert(tiles[hi - 1]).insert(tiles[r as int]));
        }
    }
}

/// No removed position picks nothing.
proof fn lemma_picked_none(tiles: Seq<Tile>, lo: int, hi: int)
    ensures
        picked(tiles, Seq::<usize>::empty(), lo, hi) == Seq::<Tile>::empty(),
    decreases hi - lo,
{
    if hi > lo {
        lemma_picked_none(tiles, lo, hi - 1);
    }
}

/// Over the whole hand, the picked tiles are the tiles at the removed positions, in any order.
proof fn lemma_picked_all(tiles: Seq<Tile>, removed: Seq<usize>)
    requires
        tiles.len() <= usize::MAX,
        forall|i: int| 0 <= i < removed.len() ==> #[trigger] removed[i] < tiles.len(),
        forall|i: int, j: int| 0 <= i < j < removed.len() ==> removed[i] != removed[j],
    ensures
        picked(tiles, removed, 0, tiles.len() as int).to_multiset()
            == removed.map_values(|i: usize| tiles[i as int]).to_multiset(),
    decreases removed.len(),
{
    broadcast use vstd::seq_lib::group_to_multiset_ensures;
    if removed.len() == 0 {
        lemma_picked_none(tiles, 0, tiles.len() as int);
        assert(removed =~= Seq::<usize>::empty());
        assert(removed.map_values(|i: usize| tiles[i as int]) =~= Seq::<Tile>::empty());
    } else {
        let rest = removed.drop_last();
        let r = removed.last();
        assert(removed =~= rest.push(r));
        assert(!rest.contains(r)) by {
            if rest.contains(r) {
                let j = choose|j: int| 0 <= j < rest.len() && rest[j] == r;
                assert(removed[j] == removed[removed.len() - 1]);
            }
        }
        assert forall|i: int, j: int| 0 <= i < j < rest.len() implies rest[i] != rest[j] by {
            assert(rest[i] == removed[i] && rest[j] == removed[j]);
        }
        assert forall|i: int| 0 <= i < rest.len() implies #[trigger] rest[i] < tiles.len() by {
            assert(rest[i] == removed[i]);
        }
        lemma_picked_all(tiles, rest);
        lemma_picked_push(tiles, rest, r, 0, tiles.len() as int);
        assert(removed.map_values(|i: usize| tiles[i as int]) =~= rest.map_values(|i: usize| tiles[i as int]).push(
            tiles[r as int],
        ));
    }
}

/// A successful selection takes exactly the requested tiles: what remains together with the
/// request is the hand before, as a multiset.
pub proof fn law_select_conserves(tiles: Seq<Tile>, req: Seq<Tile>, cursor: int)
    requires
        select(tiles, req) is Some,
        tiles.len() <= usize::MAX,
        0 <= cursor <= tiles.len(),
    ensures
        remaining(tiles, select(tiles, req)->Some_0, cursor).to_multiset().add(req.to_multiset())
            == tiles.to_multiset(),
{
    let chosen = select(tiles, req)->Some_0;
    lemma_select_valid(tiles, req);
    lemma_kept_split(tiles, chosen, 0, cursor, tiles.len() as int);
    lemma_kept_picked(tiles, chosen, 0, tiles.len() as int);
    lemma_picked_all(tiles, chosen);
    assert(chosen.map_values(|i: usize| tiles[i as int]) =~= req) by {
        assert forall|i: int| 0 <= i < req.len() implies chosen.map_values(|i: usize| tiles[i as int])[i] == req[i] by {
            lemma_tile_eq(tiles[chosen[i] as int], req[i]);
        }
    }
    assert(tiles.subrange(0, tiles.len() as int) =~= tiles);
}

/// The number of copies of a tile's code is the tile's multiplicity.
proof fn lemma_count_code_multiset(tiles: Seq<Tile>, t: Tile)
    ensures
        count_code(tiles, t@) == tiles.to_multiset().count(t),
    decreases tiles.len(),
{
    broadcast use vstd::seq_lib::group_to_multiset_ensures;
    broadcast use vstd::multiset::group_multiset_axioms;
    if tiles.len() == 0 {
        assert(tiles.to_multiset() =~= Multiset::<Tile>::empty()) by {
            broadcast use vstd::multiset::group_multiset_properties;
        }
    } else {
        let prev = tiles.drop_last();
        lemma_count_code_multiset(prev, t);
        assert(tiles =~= prev.push(tiles.last()));
        lemma_tile_eq(tiles.last(), t);
    }
}

/// A positive count of a code means some tile carries it.
proof fn lemma_count_code_witness(tiles: Seq<Tile>, code: u8)
    requires
        count_code(tiles, code) > 0,
    ensures
        exists|i: int| 0 <= i < tiles.len() && #[trigger] tiles[i]@ == code,
    decreases tiles.len(),
{
    if tiles.last()@ == code {
        assert(tiles[tiles.len() - 1]@ == code);
    } else {
        lemma_count_code_witness(tiles.drop_last(), code);
        let i = choose|i: int| 0 <= i < tiles.drop_last().len() && #[trigger] tiles.drop_last()[i]@ == code;
        assert(tiles[i]@ == code);
    }
}

/// A prefix never holds more copies of a code than the whole sequence.
proof fn lemma_count_code_prefix(tiles: Seq<Tile>, code: u8)
    requires
        tiles.len() > 0,
    ensures
        count_code(tiles.drop_last(), code) <= count_code(tiles, code),
{
}

/// A tile that is kept in a range sits at some position of the range that was not removed.
proof fn lemma_kept_has(tiles: Seq<Tile>, removed: Seq<usize>, lo: int, hi: int, t: Tile)
    requires
        kept(tiles, removed, lo, hi).contains(t),
    ensures
        exists|k: int| lo <= k < hi && !removed.contains(k as usize) && #[trigger] tiles[k] == t,
    decreases hi - lo,
{
    if hi > lo {
        let prev = kept(tiles, removed, lo, hi - 1);
        if removed.contains((hi - 1) as usize) {
            lemma_kept_has(tiles, removed, lo, hi - 1, t);
        } else {
            if prev.contains(t) {
                lemma_kept_has(tiles, removed, lo, hi - 1, t);
            } else {
                let full = prev.push(tiles[hi - 1]);
                let j = choose|j: int| 0 <= j < full.len() && #[trigger] full[j] == t;
                if j < prev.len() {
                    assert(full[j] == prev[j]);
                    assert(prev.contains(t));
                }
                assert(tiles[hi - 1] == t);
            }
        }
    }
}

/// A batch of requested tiles can be taken exactly when the hand holds at least as many copies
/// of every tile as the batch asks for; otherwise the take fails with
/// [`HandError::InsufficientTiles`].
pub proof fn law_select_iff_counts(tiles: Seq<Tile>, req: Seq<Tile>)
    requires
        tiles.len() <= usize::MAX,
    ensures
        select(tiles, req) is Some <==> forall|c: u8| #[trigger] count_code(req, c) <= count_code(tiles, c),
    decreases req.len(),
{
    broadcast use vstd::multiset::group_multiset_axioms;
    if select(tiles, req) is Some {
        law_select_conserves(tiles, req, 0);
        let rest = remaining(tiles, select(tiles, req)->Some_0, 0);
        assert forall|c: u8| #[trigger] count_code(req, c) <= count_code(tiles, c) by {
            if count_code(req, c) > 0 {
                lemma_count_code_witness(req, c);
                let i = choose|i: int| 0 <= i < req.len() && #[trigger] req[i]@ == c;
                let t = req[i];
                lemma_count_code_multiset(req, t);
                lemma_count_code_multiset(tiles, t);
                assert(rest.to_multiset().add(req.to_multiset()).count(t) == tiles.to_multiset().count(t));
            }
        }
    }
    if forall|c: u8| #[trigger] count_code(req, c) <= count_code(tiles, c) {
        if req.len() > 0 {
            let prefix = req.drop_last();
            let t = req.last();
            let c = t@;
            assert(req =~= prefix.push(t));
            assert forall|d: u8| #[trigger] count_code(prefix, d) <= count_code(tiles, d) by {
                lemma_count_code_prefix(req, d);
                assert(count_code(req, d) <= count_code(tiles, d));
            }
            law_select_iff_counts(tiles, prefix);
            let chosen = select(tiles, prefix)->Some_0;
            lemma_find_from(tiles, c, chosen, 0);
            if find_from(tiles, c, chosen, 0) < 0 {
                law_select_conserves(tiles, prefix, 0);
                let rest = remaining(tiles, chosen, 0);
                lemma_count_code_multiset(prefix, t);
                lemma_count_code_multiset(tiles, t);
                lemma_count_code_push(prefix, t, c);
                assert(count_code(req, c) <= count_code(tiles, c));
                assert(rest.to_multiset().add(prefix.to_multiset()).count(t) == tiles.to_multiset().count(t));
                assert(rest.to_multiset().count(t) > 0);
                broadcast use vstd::seq_lib::group_to_multiset_ensures;
                assert(rest.contains(t));
                lemma_kept_split(tiles, chosen, 0, 0, tiles.len() as int);
                assert(kept(tiles, chosen, 0, 0) =~= Seq::<Tile>::empty());
                assert(rest =~= kept(tiles, chosen, 0, tiles.len() as int));
                lemma_kept_has(tiles, chosen, 0, tiles.len() as int, t);
                let k = choose|k: int| 0 <= k < tiles.len() && !chosen.contains(k as usize) && #[trigger] tiles[k] == t;
                assert(tiles[k]@ == c);
                assert(false);
            }
        }
    }
}

/// Swapping two entries keeps the multiset of a sequence.
proof fn lemma_swap_multiset(s: Seq<Tile>, i: int, j: int)
    requires
        0 <= i < s.len(),
        0 <= j < s.len(),
    ensures
        s.update(i, s[j]).update(j, s[i]).to_multiset() == s.to_multiset(),
{
    broadcast use vstd::seq_lib::to_multiset_update;
    broadcast use vstd::seq_lib::to_multiset_contains;
    broadcast use vstd::multiset::group_multiset_axioms;
    let m = s.to_multiset();
    let t = s.update(i, s[j]);
    assert(t.to_multiset() == m.insert(s[j]).remove(s[i]));
    assert(t[j] == s[j]);
    assert(t.update(j, s[i]).to_multiset() == t.to_multiset().insert(s[i]).remove(t[j]));
    assert(s.contains(s[i]));
    assert(m.count(s[i]) > 0);
    let r = m.insert(s[j]).remove(s[i]).insert(s[i]).remove(s[j]);
    assert forall|x: Tile| r.count(x) == m.count(x) by {}
    assert(r =~= m);
}

/// Whether the key gives every tile one value, whichever call is asked.
pub open spec fn key_is_function<K, F: FnMut(&Tile) -> K>(key: F) -> bool {
    forall|t: Tile, a: K, b: K|
        #![trigger call_ensures(key, (&t,), a), call_ensures(key, (&t,), b)]
        call_ensures(key, (&t,), a) && call_ensures(key, (&t,), b) ==> a == b
}

/// Whether the key type's order is a total order whose comparisons follow its spec.
pub open spec fn total_key_order<K: Ord>() -> bool {
    obeys_cmp::<K>()
}

/// Whether the keys of the tiles never decrease along the sequence.
pub open spec fn sorted_by_key<K: Ord, F: FnMut(&Tile) -> K>(tiles: Seq<Tile>, key: F) -> bool {
    forall|i: int, j: int, a: K, b: K|
        #![trigger call_ensures(key, (&tiles[i],), a), call_ensures(key, (&tiles[j],), b)]
        0 <= i < j < tiles.len() && call_ensures(key, (&tiles[i],), a) && call_ensures(key, (&tiles[j],), b)
            ==> a.is_le(&b)
}

/// The tiles whose key is `k`, in their order in `tiles`.
pub open spec fn with_key<K, F: FnMut(&Tile) -> K>(tiles: Seq<Tile>, key: F, k: K) -> Seq<Tile> {
    tiles.filter(|t: Tile| call_ensures(key, (&t,), k))
}

/// Calls `slice::sort_by_key` on the first `end` tiles. Its documentation promises a stable
/// sort by the key, so the prefix is rearranged in place, the tiles after it stay, and, when the
/// key type is totally ordered and the key is a function of the tile, the prefix comes out in
/// non-decreasing key order, the tiles of each key keeping their original order. `requires` leaves out the key orders that are not total, on which the sort may
/// panic, and keys that cannot be called on every tile.
#[verifier::external_body]
fn sort_prefix_by_key<K: Ord, F: FnMut(&Tile) -> K>(tiles: &mut Vec<Tile>, end: usize, key: F)
    requires
        end <= old(tiles)@.len(),
        total_key_order::<K>(),
        forall|t: Tile| call_requires(key, (&t,)),
    ensures
        final(tiles)@.len() == old(tiles)@.len(),
        final(tiles)@.take(end as int).to_multiset() == old(tiles)@.take(end as int).to_multiset(),
        final(tiles)@.skip(end as int) == old(tiles)@.skip(end as int),
        key_is_function(key) ==> sorted_by_key(final(tiles)@.take(end as int), key),
        key_is_function(key) ==> forall|k: K| #[trigger] with_key(final(tiles)@.take(end as int), key, k)
            == with_key(old(tiles)@.take(end as int), key, k),
{
    tiles[..end].sort_by_key(key)
}

/// Whether `x` occurs in a slice of indices.
fn contains_index(indices: &[usize], x: usize) -> (r: bool)
    ensures
        r == indices@.contains(x),
{
    let mut i: usize = 0;
    while i < indices.len()
        invariant
            i <= indices@.len(),
            forall|k: int| 0 <= k < i ==> indices@[k] != x,
        decreases indices@.len() - i,
    {
        if indices[i] == x {
            return true;
        }
        i += 1;
    }
    false
}

/// Whether `x` occurs among the first `n` entries of a slice of indices.
fn contains_index_before(indices: &[usize], n: usize, x: usize) -> (r: bool)
    requires
        n <= indices@.len(),
    ensures
        r == indices@.take(n as int).contains(x),
{
    let mut i: usize = 0;
    while i < n
        invariant
            i <= n,
            n <= indices@.len(),
            forall|k: int| 0 <= k < i ==> indices@[k] != x,
        decreases n - i,
    {
        if indices[i] == x {
            proof {
                assert(indices@.take(n as int)[i as int] == x);
            }
            return true;
        }
        i += 1;
    }
    proof {
        if indices@.take(n as int).contains(x) {
            let k = choose|k: int| 0 <= k < n && indices@.take(n as int)[k] == x;
            assert(indices@[k] == x);
        }
    }
    false
}

/// One tile taken out of a hand by a discard, with the part it came from.
///
/// The part only says held or drawn; reading it as a rule's "discard from the draw" is up to
/// the rule.
#[derive(Clone, Copy, Debug, PartialEq, Eq, Structural, Hash)]
pub struct HandDiscard {
    tile: Tile,
    from_draw: bool,
}

impl HandDiscard {
    /// The discarded tile.
    pub closed spec fn spec_tile(self) -> Tile {
        self.tile
    }

    /// Whether it was in the drawn part before removal.
    pub closed spec fn spec_from_draw(self) -> bool {
        self.from_draw
    }

    /// The discarded tile.
    pub fn tile(&self) -> (r: Tile)
        ensures
            r == self.spec_tile(),
    {
        self.tile
    }

    /// Whether the tile was in the drawn part before removal.
    pub fn is_from_draw(&self) -> (r: bool)
        ensures
            r == self.spec_from_draw(),
    {
        self.from_draw
    }
}

/// Original tiles stored as a held part followed by a drawn part.
///
/// `[0, draw_cursor)` is the held part and `[draw_cursor, len)` the drawn part, which may hold
/// several tiles. Plain takes keep both parts; a successful non-empty discard moves every
/// remaining tile into the held part.
#[derive(Debug, PartialEq, Eq)]
pub struct Hand {
    tiles: Vec<Tile>,
    draw_cursor: usize,
}

impl Default for Hand {
    /// An empty hand.
    fn default() -> (r: Hand)
        ensures
            r.spec_tiles() == Seq::<Tile>::empty(),
            r.spec_cursor() == 0,
    {
        Hand::new()
    }
}

impl From<Vec<Tile>> for Hand {
    /// A hand whose tiles are all held, in the given order.
    fn from(tiles: Vec<Tile>) -> (r: Hand)
        ensures
            r.spec_tiles() == tiles@,
            r.spec_cursor() == tiles@.len(),
    {
        let draw_cursor = tiles.len();
        Hand { tiles, draw_cursor }
    }
}

impl vstd::std_specs::convert::FromSpecImpl<Vec<Tile>> for Hand {
    open spec fn obeys_from_spec() -> bool {
        true
    }

    closed spec fn from_spec(tiles: Vec<Tile>) -> Hand {
        Hand { tiles, draw_cursor: tiles@.len() as usize }
    }
}

impl core::ops::Index<usize> for Hand {
    type Output = Tile;

    /// The tile at `index` in the current order; the index must be below the number of tiles.
    fn index(&self, index: usize) -> (r: &Tile)
        ensures
            *r == self.spec_tiles()[index as int],
    {
        &self.tiles[index]
    }
}

impl vstd::std_specs::core::IndexSpecImpl<usize> for Hand {
    open spec fn index_req(&self, index: &usize) -> bool {
        *index < self.spec_tiles().len()
    }
}

impl Hand {
    #[verifier::type_invariant]
    spec fn cursor_in_range(self) -> bool {
        self.draw_cursor <= self.tiles@.len()
    }

    /// All tiles, held part first.
    pub closed spec fn spec_tiles(self) -> Seq<Tile> {
        self.tiles@
    }

    /// The length of the held part, where the drawn part starts.
    pub closed spec fn spec_cursor(self) -> nat {
        self.draw_cursor as nat
    }

    /// The held part.
    pub open spec fn spec_held(self) -> Seq<Tile> {
        self.spec_tiles().take(self.spec_cursor() as int)
    }

    /// The drawn part.
    pub open spec fn spec_drawn(self) -> Seq<Tile> {
        self.spec_tiles().skip(self.spec_cursor() as int)
    }

    /// A copy with the same tiles and partition.
    pub fn clone(&self) -> (r: Hand)
        ensures
            r.spec_tiles() == self.spec_tiles(),
            r.spec_cursor() == self.spec_cursor(),
            self.spec_cursor() <= self.spec_tiles().len() <= usize::MAX,
    {
        proof {
            use_type_invariant(self);
        }
        let _ = self.tiles.len();
        let r = Hand { tiles: self.tiles.clone(), draw_cursor: self.draw_cursor };
        proof {
            assert(r.tiles@ =~= self.tiles@);
        }
        r
    }

    /// An empty hand.
    pub fn new() -> (r: Hand)
        ensures
            r.spec_tiles() == Seq::<Tile>::empty(),
            r.spec_cursor() == 0,
    {
        Hand { tiles: Vec::new(), draw_cursor: 0 }
    }

    /// A hand whose tiles are all held, in the given order.
    pub fn from_tiles(tiles: Vec<Tile>) -> (r: Hand)
        ensures
            r.spec_tiles() == tiles@,
            r.spec_cursor() == tiles@.len(),
    {
        Hand::from(tiles)
    }

    /// Rebuilds a hand from all its tiles and the start of the drawn part.
    ///
    /// Fails with [`HandError::InvalidDrawCursor`] when `draw_cursor` exceeds the number of tiles.
    pub fn from_parts(tiles: Vec<Tile>, draw_cursor: usize) -> (r: Result<Hand, HandError>)
        ensures
            draw_cursor > tiles@.len() ==> r == Err::<Hand, HandError>(
                HandError::InvalidDrawCursor { cursor: draw_cursor, len: tiles@.len() as usize },
            ),
            draw_cursor <= tiles@.len() ==> (r matches Ok(h) && h.spec_tiles() == tiles@
                && h.spec_cursor() == draw_cursor),
    {
        if draw_cursor > tiles.len() {
            return Err(HandError::InvalidDrawCursor { cursor: draw_cursor, len: tiles.len() });
        }
        Ok(Hand { tiles, draw_cursor })
    }

    /// All tiles and the start of the drawn part.
    pub fn into_parts(self) -> (r: (Vec<Tile>, usize))
        ensures
            r.0@ == self.spec_tiles(),
            r.1 == self.spec_cursor(),
            r.1 <= r.0@.len(),
    {
        proof {
            use_type_invariant(&self);
        }
        (self.tiles, self.draw_cursor)
    }

    /// All tiles; the partition is dropped.
    pub fn into_tiles(self) -> (r: Vec<Tile>)
        ensures
            r@ == self.spec_tiles(),
    {
        self.tiles
    }

    /// All tiles in stored order, held part first.
    pub fn tiles(&self) -> (r: &[Tile])
        ensures
            r@ == self.spec_tiles(),
    {
        self.tiles.as_slice()
    }

    /// The held part.
    pub fn held_tiles(&self) -> (r: &[Tile])
        ensures
            r@ == self.spec_held(),
    {
        proof {
            use_type_invariant(self);
        }
        let all = self.tiles.as_slice();
        &all[0..self.draw_cursor]
    }

    /// The drawn part, possibly empty or with several tiles.
    pub fn drawn_tiles(&self) -> (r: &[Tile])
        ensures
            r@ == self.spec_drawn(),
    {
        proof {
            use_type_invariant(self);
        }
        let all = self.tiles.as_slice();
        &all[self.draw_cursor..self.tiles.len()]
    }

    /// Where the drawn part starts, which is also the length of the held part.
    pub fn draw_cursor(&self) -> (r: usize)
        ensures
            r == self.spec_cursor(),
            r <= self.spec_tiles().len(),
    {
        proof {
            use_type_invariant(self);
        }
        self.draw_cursor
    }

    /// The exact number of tiles.
    pub fn len(&self) -> (r: usize)
        ensures
            r == self.spec_tiles().len(),
    {
        self.tiles.len()
    }

    /// Whether the hand holds no tile.
    pub fn is_empty(&self) -> (r: bool)
        ensures
            r == (self.spec_tiles().len() == 0),
    {
        self.tiles.len() == 0
    }

    /// Whether the drawn part holds at least one tile.
    pub fn has_drawn(&self) -> (r: bool)
        ensures
            r == (self.spec_cursor() < self.spec_tiles().len()),
    {
        self.draw_cursor < self.tiles.len()
    }

    /// The tile at `index` in the current order; `None` when out of bounds.
    pub fn get(&self, index: usize) -> (r: Option<&Tile>)
        ensures
            r == if index < self.spec_tiles().len() {
                Some(&self.spec_tiles()[index as int])
            } else {
                None::<&Tile>
            },
    {
        if index < self.tiles.len() {
            Some(&self.tiles[index])
        } else {
            None
        }
    }

    /// The exact number of copies of `tile`, without wildcards or saturation.
    pub fn count(&self, tile: Tile) -> (r: usize)
        ensures
            r == count_code(self.spec_tiles(), tile@),
    {
        count_in(self.tiles.as_slice(), tile)
    }

    /// The tiles one by one in stored order, duplicates kept.
    pub fn iter(&self) -> (r: Vec<Tile>)
        ensures
            r@ == self.spec_tiles(),
    {
        let r = self.tiles.clone();
        proof {
            assert(r@ =~= self.tiles@);
        }
        r
    }

    /// The set of tiles in the hand; counts and partition are dropped.
    pub fn mask(&self) -> (r: TileMask)
        ensures
            r@ == code_set(self.spec_tiles()),
    {
        TileMask::from_tiles(self.tiles.as_slice())
    }

    /// Counts of the tiles, saturating at 255 per slot; not for exact checks of larger requests.
    pub fn counts(&self) -> (r: TileCounts)
        ensures
            r@.len() == 64,
            forall|i: int| 0 <= i < 64 ==> #[trigger] r@[i] == sat_add(count_code(self.spec_tiles(), (i + 1) as u8) as int, 0),
    {
        TileCounts::from_tiles(self.tiles.as_slice())
    }

    /// Appends a drawn tile to the end of the drawn part and returns its index.
    pub fn draw(&mut self, tile: Tile) -> (r: usize)
        ensures
            r == old(self).spec_tiles().len(),
            final(self).spec_tiles() == old(self).spec_tiles().push(tile),
            final(self).spec_cursor() == old(self).spec_cursor(),
    {
        let (mut tiles, draw_cursor) = self.take_parts();
        let index = tiles.len();
        tiles.push(tile);
        *self = Hand { tiles, draw_cursor };
        index
    }

    /// Moves the parts out, leaving an empty hand behind.
    fn take_parts(&mut self) -> (r: (Vec<Tile>, usize))
        ensures
            r.0@ == old(self).spec_tiles(),
            r.1 == old(self).spec_cursor(),
            r.1 <= r.0@.len(),
            final(self).spec_tiles() == Seq::<Tile>::empty(),
            final(self).spec_cursor() == 0,
    {
        proof {
            use_type_invariant(&*self);
        }
        let mut other = Hand::new();
        std::mem::swap(self, &mut other);
        let Hand { tiles, draw_cursor } = other;
        (tiles, draw_cursor)
    }

    /// Appends several drawn tiles in order; the held part is unchanged.
    pub fn draw_many(&mut self, tiles: &[Tile])
        ensures
            final(self).spec_tiles() == old(self).spec_tiles() + tiles@,
            final(self).spec_cursor() == old(self).spec_cursor(),
    {
        let (mut all, draw_cursor) = self.take_parts();
        let ghost start = all@;
        let mut i: usize = 0;
        while i < tiles.len()
            invariant
                i <= tiles@.len(),
                all@ == start + tiles@.take(i as int),
            decreases tiles@.len() - i,
        {
            all.push(tiles[i]);
            proof {
                assert(all@ =~= start + tiles@.take(i as int + 1));
            }
            i += 1;
        }
        proof {
            assert(tiles@.take(tiles@.len() as int) =~= tiles@);
        }
        *self = Hand { tiles: all, draw_cursor };
    }

    /// Inserts tiles that were not drawn (an exchange, for instance) at the end of the held part,
    /// in order; the drawn part keeps its tiles.
    pub fn receive(&mut self, tiles: &[Tile])
        ensures
            final(self).spec_tiles() == old(self).spec_held() + tiles@ + old(self).spec_drawn(),
            final(self).spec_cursor() == old(self).spec_cursor() + tiles@.len(),
    {
        proof {
            use_type_invariant(&*self);
        }
        let cursor = self.draw_cursor;
        let mut out: Vec<Tile> = Vec::new();
        let mut i: usize = 0;
        while i < cursor
            invariant
                i <= cursor,
                cursor <= self.tiles@.len(),
                out@ == self.tiles@.take(i as int),
            decreases cursor - i,
        {
            out.push(self.tiles[i]);
            proof {
                assert(out@ =~= self.tiles@.take(i as int + 1));
            }
            i += 1;
        }
        let mut k: usize = 0;
        while k < tiles.len()
            invariant
                k <= tiles@.len(),
                cursor <= self.tiles@.len(),
                out@ == self.tiles@.take(cursor as int) + tiles@.take(k as int),
            decreases tiles@.len() - k,
        {
            out.push(tiles[k]);
            proof {
                assert(out@ =~= self.tiles@.take(cursor as int) + tiles@.take(k as int + 1));
            }
            k += 1;
        }
        let new_cursor = out.len();
        let mut j: usize = cursor;
        while j < self.tiles.len()
            invariant
                cursor <= j <= self.tiles@.len(),
                new_cursor == cursor + tiles@.len(),
                out@ == self.tiles@.take(cursor as int) + tiles@ + self.tiles@.subrange(cursor as int, j as int),
            decreases self.tiles@.len() - j,
        {
            out.push(self.tiles[j]);
            proof {
                assert(tiles@.take(tiles@.len() as int) =~= tiles@);
                assert(out@ =~= self.tiles@.take(cursor as int) + tiles@ + self.tiles@.subrange(cursor as int, j as int + 1));
            }
            j += 1;
        }
        proof {
            assert(tiles@.take(tiles@.len() as int) =~= tiles@);
            assert(self.tiles@.subrange(cursor as int, self.tiles@.len() as int) =~= self.tiles@.skip(cursor as int));
        }
        *self = Hand { tiles: out, draw_cursor: new_cursor };
    }

    /// Moves every drawn tile into the held part; the order is unchanged.
    pub fn merge_drawn(&mut self)
        ensures
            final(self).spec_tiles() == old(self).spec_tiles(),
            final(self).spec_cursor() == old(self).spec_tiles().len(),
    {
        let (tiles, _) = self.take_parts();
        let draw_cursor = tiles.len();
        *self = Hand { tiles, draw_cursor };
    }

    /// Removes every tile and resets the cursor to zero.
    pub fn clear(&mut self)
        ensures
            final(self).spec_tiles() == Seq::<Tile>::empty(),
            final(self).spec_cursor() == 0,
    {
        *self = Hand::new();
    }

    /// Sorts the held part stably by a key of the caller's, for instance a game's display order
    /// of extension tiles; the drawn part and the partition are unchanged and held indices may
    /// change.
    pub fn sort_held_by_key<K: Ord, F: FnMut(&Tile) -> K>(&mut self, key: F)
        requires
            total_key_order::<K>(),
            forall|t: Tile| call_requires(key, (&t,)),
        ensures
            final(self).spec_cursor() == old(self).spec_cursor(),
            final(self).spec_drawn() == old(self).spec_drawn(),
            final(self).spec_held().to_multiset() == old(self).spec_held().to_multiset(),
            final(self).spec_held().len() == old(self).spec_held().len(),
            key_is_function(key) ==> sorted_by_key(final(self).spec_held(), key),
            key_is_function(key) ==> forall|k: K| #[trigger] with_key(final(self).spec_held(), key, k)
                == with_key(old(self).spec_held(), key, k),
    {
        let (mut tiles, cursor) = self.take_parts();
        let ghost before = tiles@;
        sort_prefix_by_key(&mut tiles, cursor, key);
        proof {
            assert(tiles@.take(cursor as int).len() == cursor);
        }
        *self = Hand { tiles, draw_cursor: cursor };
        proof {
            assert(self.spec_drawn() =~= before.skip(cursor as int));
        }
    }

    /// Sorts the held part by tile code; the drawn part and the partition are unchanged.
    /// Held indices may change, so callers should treat earlier indices as stale.
    pub fn sort_held(&mut self)
        ensures
            final(self).spec_cursor() == old(self).spec_cursor(),
            final(self).spec_drawn() == old(self).spec_drawn(),
            final(self).spec_held().to_multiset() == old(self).spec_held().to_multiset(),
            final(self).spec_held().len() == old(self).spec_held().len(),
            forall|a: int, b: int| 0 <= a < b < final(self).spec_held().len() ==> final(self).spec_held()[a]@
                <= final(self).spec_held()[b]@,
    {
        let (tiles, cursor) = self.take_parts();
        let mut held: Vec<Tile> = Vec::new();
        let mut k: usize = 0;
        while k < cursor
            invariant
                k <= cursor <= tiles@.len(),
                held@ == tiles@.take(k as int),
            decreases cursor - k,
        {
            held.push(tiles[k]);
            proof {
                assert(held@ =~= tiles@.take(k as int + 1));
            }
            k += 1;
        }
        let ghost original = held@;
        let n = held.len();
        let mut i: usize = 1;
        while i < n
            invariant
                n == held@.len(),
                n == original.len(),
                1 <= i || n == 0,
                held@.to_multiset() == original.to_multiset(),
                forall|a: int, b: int| 0 <= a < b < i && b < n ==> held@[a]@ <= held@[b]@,
            decreases n - i,
        {
            let mut j: usize = i;
            while j > 0 && held[j - 1].code() > held[j].code()
                invariant
                    0 <= j <= i < n,
                    n == held@.len(),
                    held@.to_multiset() == original.to_multiset(),
                    forall|a: int, b: int| 0 <= a < b <= i && a != j && b != j ==> held@[a]@ <= held@[b]@,
                    forall|b: int| j < b <= i ==> held@[j as int]@ < held@[b]@,
                    forall|a: int, b: int| 0 <= a < j && j < b <= i ==> held@[a]@ <= held@[b]@,
                decreases j,
            {
                let x = held[j - 1];
                let y = held[j];
                let ghost before = held@;
                held.set(j - 1, y);
                held.set(j, x);
                proof {
                    lemma_swap_multiset(before, j as int - 1, j as int);
                    assert(held@ =~= before.update(j as int - 1, before[j as int]).update(j as int, before[j as int - 1]));
                }
                j -= 1;
            }
            i += 1;
        }
        let mut out = held;
        proof {
            assert(out@.take(cursor as int) =~= out@);
            assert(out@.skip(cursor as int) =~= tiles@.subrange(cursor as int, cursor as int));
        }
        let mut m: usize = cursor;
        while m < tiles.len()
            invariant
                cursor <= m <= tiles@.len(),
                out@.len() == cursor + (m - cursor),
                out@.take(cursor as int).to_multiset() == original.to_multiset(),
                forall|a: int, b: int| 0 <= a < b < cursor ==> out@[a]@ <= out@[b]@,
                out@.skip(cursor as int) == tiles@.subrange(cursor as int, m as int),
            decreases tiles@.len() - m,
        {
            let ghost prev = out@;
            out.push(tiles[m]);
            proof {
                assert(out@.take(cursor as int) =~= prev.take(cursor as int));
                assert(out@.skip(cursor as int) =~= tiles@.subrange(cursor as int, m as int + 1));
            }
            m += 1;
        }
        proof {
            assert(tiles@.subrange(cursor as int, tiles@.len() as int) =~= tiles@.skip(cursor as int));
        }
        *self = Hand { tiles: out, draw_cursor: cursor };
    }

    /// Checks a batch of indices against the current order.
    fn check_indices(&self, indices: &[usize]) -> (r: Result<(), HandError>)
        ensures
            index_error(indices@, self.spec_tiles().len()) is None ==> r is Ok,
            index_error(indices@, self.spec_tiles().len()) matches Some(e) ==> r == Err::<(), HandError>(e),
    {
        let len = self.tiles.len();
        let mut p: usize = 0;
        while p < indices.len()
            invariant
                p <= indices@.len(),
                len == self.tiles@.len(),
                index_error(indices@.take(p as int), len as nat) is None,
            decreases indices@.len() - p,
        {
            let index = indices[p];
            proof {
                let next = indices@.take(p as int + 1);
                assert(next.drop_last() =~= indices@.take(p as int));
                assert(next.last() == index);
            }
            if index >= len {
                proof {
                    Self::lemma_index_error_prefix(indices@, len as nat, p as int + 1);
                }
                return Err(HandError::IndexOutOfBounds { index, len });
            }
            if contains_index_before(indices, p, index) {
                proof {
                    Self::lemma_index_error_prefix(indices@, len as nat, p as int + 1);
                }
                return Err(HandError::DuplicateIndex { index });
            }
            p += 1;
        }
        proof {
            assert(indices@.take(indices@.len() as int) =~= indices@);
        }
        Ok(())
    }

    /// An error found in a prefix stays the error of the whole batch.
    proof fn lemma_index_error_prefix(indices: Seq<usize>, len: nat, n: int)
        requires
            0 <= n <= indices.len(),
            index_error(indices.take(n), len) is Some,
        ensures
            index_error(indices, len) == index_error(indices.take(n), len),
        decreases indices.len() - n,
    {
        if n < indices.len() {
            let next = indices.take(n + 1);
            assert(next.drop_last() =~= indices.take(n));
            Self::lemma_index_error_prefix(indices, len, n + 1);
        } else {
            assert(indices.take(n) =~= indices);
        }
    }

    /// Removes the positions of a valid batch, keeping the order and the part of every
    /// remaining tile, and returns the removed tiles in batch order.
    fn remove_indices(&mut self, indices: &[usize]) -> (r: Vec<Tile>)
        requires
            index_error(indices@, old(self).spec_tiles().len()) is None,
        ensures
            r@ == indices@.map_values(|i: usize| old(self).spec_tiles()[i as int]),
            final(self).spec_tiles() == kept(old(self).spec_tiles(), indices@, 0, old(self).spec_cursor() as int)
                + kept(old(self).spec_tiles(), indices@, old(self).spec_cursor() as int, old(self).spec_tiles().len() as int),
            final(self).spec_cursor() == kept(old(self).spec_tiles(), indices@, 0, old(self).spec_cursor() as int).len(),
    {
        proof {
            use_type_invariant(&*self);
            Self::lemma_index_error_none(indices@, self.tiles@.len());
        }
        let mut taken: Vec<Tile> = Vec::new();
        let mut p: usize = 0;
        while p < indices.len()
            invariant
                p <= indices@.len(),
                forall|k: int| 0 <= k < indices@.len() ==> #[trigger] indices@[k] < self.tiles@.len(),
                taken@ == indices@.take(p as int).map_values(|i: usize| self.tiles@[i as int]),
            decreases indices@.len() - p,
        {
            taken.push(self.tiles[indices[p]]);
            proof {
                assert(taken@ =~= indices@.take(p as int + 1).map_values(|i: usize| self.tiles@[i as int]));
            }
            p += 1;
        }
        proof {
            assert(indices@.take(indices@.len() as int) =~= indices@);
        }
        let cursor = self.draw_cursor;
        let len = self.tiles.len();
        let mut out: Vec<Tile> = Vec::new();
        let mut j: usize = 0;
        while j < cursor
            invariant
                j <= cursor <= len,
                len == self.tiles@.len(),
                out@ == kept(self.tiles@, indices@, 0, j as int),
            decreases cursor - j,
        {
            if !contains_index(indices, j) {
                out.push(self.tiles[j]);
            }
            j += 1;
        }
        let new_cursor = out.len();
        let ghost held = out@;
        while j < len
            invariant
                cursor <= j <= len,
                len == self.tiles@.len(),
                held == kept(self.tiles@, indices@, 0, cursor as int),
                new_cursor == held.len(),
                out@ == held + kept(self.tiles@, indices@, cursor as int, j as int),
            decreases len - j,
        {
            if !contains_index(indices, j) {
                out.push(self.tiles[j]);
                proof {
                    assert(out@ =~= held + kept(self.tiles@, indices@, cursor as int, j as int + 1));
                }
            }
            j += 1;
        }
        proof {
            lemma_kept_len(self.tiles@, indices@, cursor as int, len as int);
        }
        *self = Hand { tiles: out, draw_cursor: new_cursor };
        taken
    }

    /// A batch without index errors is in bounds and has no repeats.
    proof fn lemma_index_error_none(indices: Seq<usize>, len: nat)
        requires
            index_error(indices, len) is None,
        ensures
            forall|k: int| 0 <= k < indices.len() ==> #[trigger] indices[k] < len,
            forall|a: int, b: int| 0 <= a < b < indices.len() ==> indices[a] != indices[b],
        decreases indices.len(),
    {
        if indices.len() > 0 {
            let prev = indices.drop_last();
            Self::lemma_index_error_none(prev, len);
            assert forall|k: int| 0 <= k < indices.len() implies #[trigger] indices[k] < len by {
                if k < prev.len() {
                    assert(prev[k] == indices[k]);
                }
            }
            assert forall|a: int, b: int| 0 <= a < b < indices.len() implies indices[a] != indices[b] by {
                if b == indices.len() - 1 {
                    assert(prev[a] == indices[a]);
                    assert(prev.contains(indices[a]));
                } else {
                    assert(prev[a] == indices[a] && prev[b] == indices[b]);
                }
            }
        }
    }

    /// A batch of distinct in-bounds indices has no index error.
    proof fn lemma_index_error_of_valid(indices: Seq<usize>, len: nat)
        requires
            forall|k: int| 0 <= k < indices.len() ==> #[trigger] indices[k] < len,
            forall|a: int, b: int| 0 <= a < b < indices.len() ==> indices[a] != indices[b],
        ensures
            index_error(indices, len) is None,
        decreases indices.len(),
    {
        if indices.len() > 0 {
            let prev = indices.drop_last();
            assert forall|k: int| 0 <= k < prev.len() implies #[trigger] prev[k] < len by {
                assert(prev[k] == indices[k]);
            }
            assert forall|a: int, b: int| 0 <= a < b < prev.len() implies prev[a] != prev[b] by {
                assert(prev[a] == indices[a] && prev[b] == indices[b]);
            }
            Self::lemma_index_error_of_valid(prev, len);
            if prev.contains(indices.last()) {
                let a = choose|a: int| 0 <= a < prev.len() && prev[a] == indices.last();
                assert(indices[a] == indices[indices.len() - 1]);
            }
        }
    }

    /// Takes the tiles at several indices at once, in index order. Indices refer to the order
    /// before the call; the remaining tiles keep their order and their part, and drawn tiles are
    /// not merged. An empty batch succeeds and changes nothing.
    ///
    /// Fails, changing nothing, with [`HandError::IndexOutOfBounds`] or
    /// [`HandError::DuplicateIndex`] for the first bad position.
    pub fn take_many(&mut self, indices: &[usize]) -> (r: Result<Vec<Tile>, HandError>)
        ensures
            index_error(indices@, old(self).spec_tiles().len()) matches Some(e) ==> r == Err::<Vec<Tile>, HandError>(e)
                && final(self).spec_tiles() == old(self).spec_tiles() && final(self).spec_cursor() == old(self).spec_cursor(),
            index_error(indices@, old(self).spec_tiles().len()) is None ==> (r matches Ok(v)
                && v@ == indices@.map_values(|i: usize| old(self).spec_tiles()[i as int])
                && final(self).spec_tiles() == kept(old(self).spec_tiles(), indices@, 0, old(self).spec_cursor() as int)
                    + kept(old(self).spec_tiles(), indices@, old(self).spec_cursor() as int, old(self).spec_tiles().len() as int)
                && final(self).spec_cursor() == kept(old(self).spec_tiles(), indices@, 0, old(self).spec_cursor() as int).len()),
    {
        match self.check_indices(indices) {
            Err(e) => Err(e),
            Ok(()) => Ok(self.remove_indices(indices)),
        }
    }

    /// Takes the tiles at the indices of an array, with the rules of [`Self::take_many`].
    pub fn take<const N: usize>(&mut self, indices: [usize; N]) -> (r: Result<[Tile; N], HandError>)
        ensures
            index_error(indices@, old(self).spec_tiles().len()) matches Some(e) ==> r == Err::<[Tile; N], HandError>(e)
                && final(self).spec_tiles() == old(self).spec_tiles() && final(self).spec_cursor() == old(self).spec_cursor(),
            index_error(indices@, old(self).spec_tiles().len()) is None ==> (r matches Ok(v)
                && v@ == indices@.map_values(|i: usize| old(self).spec_tiles()[i as int])
                && final(self).spec_tiles() == kept(old(self).spec_tiles(), indices@, 0, old(self).spec_cursor() as int)
                    + kept(old(self).spec_tiles(), indices@, old(self).spec_cursor() as int, old(self).spec_tiles().len() as int)
                && final(self).spec_cursor() == kept(old(self).spec_tiles(), indices@, 0, old(self).spec_cursor() as int).len()),
    {
        let taken = self.take_many(indices.as_slice())?;
        let filler = Tile::from_code(1).unwrap();
        let mut out: [Tile; N] = [filler; N];
        let mut i: usize = 0;
        while i < N
            invariant
                i <= N,
                out@.len() == N,
                taken@.len() == N,
                forall|k: int| 0 <= k < i ==> #[trigger] out@[k] == taken@[k],
            decreases N - i,
        {
            out[i] = taken[i];
            i += 1;
        }
        proof {
            assert(out@ =~= taken@);
        }
        Ok(out)
    }

    /// Finds, along the current order, the positions a batch of requested tiles selects.
    fn select_tiles(&self, tiles: &[Tile]) -> (r: Result<Vec<usize>, HandError>)
        ensures
            select(self.spec_tiles(), tiles@) matches Some(ch) ==> (r matches Ok(v) && v@ == ch),
            select(self.spec_tiles(), tiles@) is None ==> r == Err::<Vec<usize>, HandError>(
                select_error(self.spec_tiles(), tiles@),
            ),
    {
        let mut indices: Vec<usize> = Vec::new();
        let mut p: usize = 0;
        while p < tiles.len()
            invariant
                p <= tiles@.len(),
                select(self.tiles@, tiles@.take(p as int)) == Some(indices@),
            decreases tiles@.len() - p,
        {
            let tile = tiles[p];
            let ghost next = tiles@.take(p as int + 1);
            proof {
                assert(next.drop_last() =~= tiles@.take(p as int));
                assert(next.last() == tile);
            }
            let mut j: usize = 0;
            let mut found = false;
            while j < self.tiles.len()
                invariant_except_break
                    !found,
                invariant
                    j <= self.tiles@.len(),
                    find_from(self.tiles@, tile@, indices@, 0) == find_from(self.tiles@, tile@, indices@, j as int),
                ensures
                    found ==> j < self.tiles@.len() && find_from(self.tiles@, tile@, indices@, 0) == j,
                    !found ==> j == self.tiles@.len(),
                decreases self.tiles@.len() - j,
            {
                if self.tiles[j].code() == tile.code() && !contains_index(indices.as_slice(), j) {
                    found = true;
                    break;
                }
                j += 1;
            }
            if !found {
                proof {
                    assert(select(self.tiles@, next) is None);
                    Self::lemma_select_none_prefix(self.tiles@, tiles@, p as int + 1);
                    Self::lemma_first_short_prefix(self.tiles@, tiles@, p as int + 1);
                    assert(first_short(self.tiles@, next) == p);
                    assert(tiles@[p as int] == tile);
                }
                let required = count_in(tiles, tile);
                let available = count_in(self.tiles.as_slice(), tile);
                return Err(HandError::InsufficientTiles { tile, required, available });
            }
            indices.push(j);
            p += 1;
        }
        proof {
            assert(tiles@.take(tiles@.len() as int) =~= tiles@);
        }
        Ok(indices)
    }

    /// Discards the tiles at several indices at once, results in index order. Each result
    /// records whether its position was in the drawn part before the call. A successful
    /// non-empty batch then moves every remaining tile into the held part; an empty batch
    /// changes nothing.
    ///
    /// Fails, changing nothing, with [`HandError::IndexOutOfBounds`] or
    /// [`HandError::DuplicateIndex`] for the first bad position.
    pub fn discard_many(&mut self, indices: &[usize]) -> (r: Result<Vec<HandDiscard>, HandError>)
        ensures
            index_error(indices@, old(self).spec_tiles().len()) matches Some(e) ==> r == Err::<Vec<HandDiscard>, HandError>(e)
                && final(self).spec_tiles() == old(self).spec_tiles() && final(self).spec_cursor() == old(self).spec_cursor(),
            index_error(indices@, old(self).spec_tiles().len()) is None ==> (r matches Ok(v)
                && v@.len() == indices@.len()
                && (forall|i: int| 0 <= i < indices@.len() ==> #[trigger] v@[i].spec_tile() == old(self).spec_tiles()[indices@[i] as int]
                    && v@[i].spec_from_draw() == (indices@[i] >= old(self).spec_cursor()))
                && final(self).spec_tiles() == remaining(old(self).spec_tiles(), indices@, old(self).spec_cursor() as int)
                && final(self).spec_cursor() == if indices@.len() == 0 {
                    remaining_held(old(self).spec_tiles(), indices@, old(self).spec_cursor() as int).len()
                } else {
                    final(self).spec_tiles().len()
                }),
    {
        let old_cursor = self.draw_cursor();
        let tiles = self.take_many(indices)?;
        if indices.len() != 0 {
            self.merge_drawn();
        }
        let mut out: Vec<HandDiscard> = Vec::new();
        let mut i: usize = 0;
        while i < indices.len()
            invariant
                i <= indices@.len(),
                tiles@.len() == indices@.len(),
                out@.len() == i,
                forall|k: int| 0 <= k < i ==> #[trigger] out@[k].spec_tile() == tiles@[k]
                    && out@[k].spec_from_draw() == (indices@[k] >= old_cursor),
            decreases indices@.len() - i,
        {
            let ghost prev = out@;
            out.push(HandDiscard { tile: tiles[i], from_draw: indices[i] >= old_cursor });
            proof {
                assert forall|k: int| 0 <= k < i + 1 implies #[trigger] out@[k].spec_tile() == tiles@[k]
                    && out@[k].spec_from_draw() == (indices@[k] >= old_cursor) by {
                    if k < i {
                        assert(out@[k] == prev[k]);
                    }
                }
            }
            i += 1;
        }
        Ok(out)
    }

    /// Discards the tile at `index` (see [`Self::discard_many`]): the result records whether it
    /// was in the drawn part, and every remaining tile then becomes held.
    ///
    /// Fails with [`HandError::IndexOutOfBounds`], changing nothing, when `index` is too large.
    pub fn discard(&mut self, index: usize) -> (r: Result<HandDiscard, HandError>)
        ensures
            index >= old(self).spec_tiles().len() ==> r == Err::<HandDiscard, HandError>(
                HandError::IndexOutOfBounds { index, len: old(self).spec_tiles().len() as usize },
            ) && final(self).spec_tiles() == old(self).spec_tiles() && final(self).spec_cursor() == old(self).spec_cursor(),
            index < old(self).spec_tiles().len() ==> (r matches Ok(d)
                && d.spec_tile() == old(self).spec_tiles()[index as int]
                && d.spec_from_draw() == (index >= old(self).spec_cursor())
                && final(self).spec_tiles() == old(self).spec_tiles().remove(index as int)
                && final(self).spec_cursor() == final(self).spec_tiles().len()),
    {
        let indices = [index];
        let len = self.tiles.len();
        proof {
            use_type_invariant(&*self);
        }
        let ghost old_tiles = self.spec_tiles();
        let ghost old_cursor = self.spec_cursor() as int;
        proof {
            let s = indices@;
            assert(s =~= seq![index]);
            assert(s.drop_last() =~= Seq::<usize>::empty());
            assert(index_error(s.drop_last(), old_tiles.len()) is None);
            if index < old_tiles.len() {
                lemma_remove_one(old_tiles, index as int, old_cursor);
            }
        }
        let slice = indices.as_slice();
        proof {
            assert(slice@ =~= seq![index]);
            if index < old_tiles.len() {
                assert(index_error(slice@, old_tiles.len()) is None);
                assert(seq![index as usize] =~= slice@);
            } else {
                assert(index_error(slice@, old_tiles.len()) == Some(HandError::IndexOutOfBounds { index, len: old_tiles.len() as usize }));
            }
        }
        let mut results = self.discard_many(slice)?;
        let ghost all = results@;
        let d = results.pop().unwrap();
        proof {
            assert(d == all[0]);
            assert(d.spec_tile() == old_tiles[slice@[0] as int]);
        }
        Ok(d)
    }

    /// Takes a batch of requested tiles at once, returned in request order (each result equals
    /// its request). Repeated requests take distinct copies; each request takes the earliest
    /// untaken matching position, so held tiles go first. No wildcard or saturating count is
    /// used; the remaining tiles keep their order and part, and drawn tiles are not merged.
    ///
    /// Fails, changing nothing, with [`HandError::InsufficientTiles`] for the first request that
    /// finds no copy; it reports the batch's total request and the hand's exact count of that
    /// tile.
    pub fn take_tiles_many(&mut self, tiles: &[Tile]) -> (r: Result<Vec<Tile>, HandError>)
        ensures
            select(old(self).spec_tiles(), tiles@) is None ==> r == Err::<Vec<Tile>, HandError>(
                select_error(old(self).spec_tiles(), tiles@),
            ) && final(self).spec_tiles() == old(self).spec_tiles() && final(self).spec_cursor() == old(self).spec_cursor(),
            select(old(self).spec_tiles(), tiles@) matches Some(chosen) ==> (r matches Ok(v) && v@ == tiles@
                && final(self).spec_tiles() == remaining(old(self).spec_tiles(), chosen, old(self).spec_cursor() as int)
                && final(self).spec_cursor() == remaining_held(old(self).spec_tiles(), chosen, old(self).spec_cursor() as int).len()),
    {
        let indices = self.select_tiles(tiles)?;
        let len = self.tiles.len();
        proof {
            lemma_select_valid(self.spec_tiles(), tiles@);
        }
        let ghost old_tiles = self.spec_tiles();
        let taken = self.take_many(indices.as_slice());
        match taken {
            Ok(v) => {
                proof {
                    assert forall|i: int| 0 <= i < v@.len() implies #[trigger] v@[i] == tiles@[i] by {
                        lemma_tile_eq(v@[i], tiles@[i]);
                    }
                    assert(v@ =~= tiles@);
                }
                Ok(v)
            },
            Err(e) => Err(e),
        }
    }

    /// Takes the requested tiles of an array (see [`Self::take_tiles_many`]).
    pub fn take_tiles<const N: usize>(&mut self, tiles: [Tile; N]) -> (r: Result<[Tile; N], HandError>)
        ensures
            select(old(self).spec_tiles(), tiles@) is None ==> r == Err::<[Tile; N], HandError>(
                select_error(old(self).spec_tiles(), tiles@),
            ) && final(self).spec_tiles() == old(self).spec_tiles() && final(self).spec_cursor() == old(self).spec_cursor(),
            select(old(self).spec_tiles(), tiles@) matches Some(chosen) ==> (r == Ok::<[Tile; N], HandError>(tiles)
                && final(self).spec_tiles() == remaining(old(self).spec_tiles(), chosen, old(self).spec_cursor() as int)
                && final(self).spec_cursor() == remaining_held(old(self).spec_tiles(), chosen, old(self).spec_cursor() as int).len()),
    {
        match self.take_tiles_many(tiles.as_slice()) {
            Ok(_) => Ok(tiles),
            Err(e) => Err(e),
        }
    }

    /// Discards a batch of requested tiles at once, results in request order. Repeated requests
    /// take distinct copies; each takes the earliest untaken matching position, held part first.
    /// Every result records the part its copy came from before the call. A successful non-empty
    /// batch moves every remaining tile into the held part; an empty batch changes nothing.
    ///
    /// Fails, changing nothing, with [`HandError::InsufficientTiles`] for the first request that
    /// finds no copy.
    pub fn discard_tiles(&mut self, tiles: &[Tile]) -> (r: Result<Vec<HandDiscard>, HandError>)
        ensures
            select(old(self).spec_tiles(), tiles@) is None ==> r == Err::<Vec<HandDiscard>, HandError>(
                select_error(old(self).spec_tiles(), tiles@),
            ) && final(self).spec_tiles() == old(self).spec_tiles() && final(self).spec_cursor() == old(self).spec_cursor(),
            select(old(self).spec_tiles(), tiles@) matches Some(chosen) ==> (r matches Ok(v)
                && v@.len() == tiles@.len()
                && (forall|i: int| 0 <= i < tiles@.len() ==> #[trigger] v@[i].spec_tile() == tiles@[i]
                    && v@[i].spec_from_draw() == (chosen[i] >= old(self).spec_cursor()))
                && final(self).spec_tiles() == remaining(old(self).spec_tiles(), chosen, old(self).spec_cursor() as int)
                && final(self).spec_cursor() == if tiles@.len() == 0 {
                    remaining_held(old(self).spec_tiles(), chosen, old(self).spec_cursor() as int).len()
                } else {
                    final(self).spec_tiles().len()
                }),
    {
        let indices = self.select_tiles(tiles)?;
        let len = self.tiles.len();
        proof {
            lemma_select_valid(self.spec_tiles(), tiles@);
        }
        let ghost old_tiles = self.spec_tiles();
        let ghost old_cursor = self.spec_cursor();
        let result = self.discard_many(indices.as_slice());
        match result {
            Ok(v) => {
                proof {
                    let chosen = select(old_tiles, tiles@)->Some_0;
                    assert(indices@.len() == tiles@.len());
                    assert(self.spec_tiles() == remaining(old_tiles, chosen, old_cursor as int));
                }
                proof {
                    let chosen = select(old_tiles, tiles@)->Some_0;
                    assert(indices@ == chosen);
                    assert forall|i: int| 0 <= i < tiles@.len() implies #[trigger] v@[i].spec_tile() == tiles@[i]
                        && v@[i].spec_from_draw() == (chosen[i] >= old(self).spec_cursor()) by {
                        assert(chosen[i] < old_tiles.len() && old_tiles[chosen[i] as int]@ == tiles@[i]@);
                        assert(v@[i].spec_tile() == old_tiles[indices@[i] as int]);
                        lemma_tile_eq(v@[i].spec_tile(), tiles@[i]);
                    }
                    assert(v@.len() == tiles@.len());
                }
                Ok(v)
            },
            Err(e) => Err(e),
        }
    }

    /// Discards one copy of `tile`: the earliest in the current order, held part first. The
    /// result records the part it came from, and every remaining tile then becomes held.
    ///
    /// Fails with [`HandError::InsufficientTiles`], changing nothing, when there is no copy.
    pub fn discard_tile(&mut self, tile: Tile) -> (r: Result<HandDiscard, HandError>)
        ensures
            select(old(self).spec_tiles(), seq![tile]) is None ==> r == Err::<HandDiscard, HandError>(
                select_error(old(self).spec_tiles(), seq![tile]),
            ) && final(self).spec_tiles() == old(self).spec_tiles() && final(self).spec_cursor() == old(self).spec_cursor(),
            select(old(self).spec_tiles(), seq![tile]) matches Some(chosen) ==> (r matches Ok(d)
                && d.spec_tile() == tile
                && d.spec_from_draw() == (chosen[0] >= old(self).spec_cursor())
                && final(self).spec_tiles() == remaining(old(self).spec_tiles(), chosen, old(self).spec_cursor() as int)
                && final(self).spec_cursor() == final(self).spec_tiles().len()),
    {
        let request = [tile];
        proof {
            assert(request@ =~= seq![tile]);
        }
        let mut results = self.discard_tiles(request.as_slice())?;
        Ok(results.pop().unwrap())
    }

    /// Once a prefix of a request cannot be matched, neither can the whole request.
    proof fn lemma_select_none_prefix(tiles: Seq<Tile>, req: Seq<Tile>, n: int)
        requires
            0 <= n <= req.len(),
            select(tiles, req.take(n)) is None,
        ensures
            select(tiles, req) is None,
        decreases req.len() - n,
    {
        if n < req.len() {
            let next = req.take(n + 1);
            assert(next.drop_last() =~= req.take(n));
            Self::lemma_select_none_prefix(tiles, req, n + 1);
        } else {
            assert(req.take(n) =~= req);
        }
    }

    /// The first unmatched request of a prefix is the first unmatched request of the whole.
    proof fn lemma_first_short_prefix(tiles: Seq<Tile>, req: Seq<Tile>, n: int)
        requires
            0 <= n <= req.len(),
            select(tiles, req.take(n)) is None,
        ensures
            first_short(tiles, req) == first_short(tiles, req.take(n)),
        decreases req.len() - n,
    {
        if n < req.len() {
            let next = req.take(n + 1);
            assert(next.drop_last() =~= req.take(n));
            Self::lemma_first_short_prefix(tiles, req, n + 1);
            Self::lemma_select_none_prefix(tiles, req, n + 1);
            Self::lemma_select_none_prefix(tiles, req.take(n + 1), n);
            assert(req.take(n + 1).take(n) =~= req.take(n));
        } else {
            assert(req.take(n) =~= req);
        }
    }
}

} // verus!
