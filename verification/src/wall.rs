//! A wall: a fixed tile order with head and tail cursors, drawn from either end.
//!
//! Building a wall keeps the input order and never shuffles; dead walls, replacement draws and
//! other rule constraints belong to the layers above.

use vstd::prelude::*;

use crate::tile::counts::{sat_add, sum_counts};
use crate::tile::{code_set, codes, count_code, count_in, Tile, TileCounts, TileMask};

verus! {

/// The codes that counts expand to, by ascending code, over the first `n` slots.
pub open spec fn expand_codes(counts: Seq<u8>, n: int) -> Seq<u8>
    decreases n,
{
    if n <= 0 {
        Seq::empty()
    } else {
        expand_codes(counts, n - 1) + Seq::new(counts[n - 1] as nat, |k: int| n as u8)
    }
}

/// Number of occurrences of `c` in a sequence of codes.
pub open spec fn occurrences(codes: Seq<u8>, c: u8) -> nat
    decreases codes.len(),
{
    if codes.len() == 0 {
        0
    } else {
        occurrences(codes.drop_last(), c) + if codes.last() == c { 1nat } else { 0nat }
    }
}

proof fn lemma_occurrences_append(a: Seq<u8>, b: Seq<u8>, c: u8)
    ensures
        occurrences(a + b, c) == occurrences(a, c) + occurrences(b, c),
    decreases b.len(),
{
    if b.len() > 0 {
        lemma_occurrences_append(a, b.drop_last(), c);
        assert((a + b).drop_last() =~= a + b.drop_last());
    } else {
        assert(a + b =~= a);
    }
}

proof fn lemma_occurrences_block(k: nat, v: u8, c: u8)
    ensures
        occurrences(Seq::new(k, |i: int| v), c) == if c == v { k } else { 0 },
    decreases k,
{
    if k > 0 {
        lemma_occurrences_block((k - 1) as nat, v, c);
        assert(Seq::new(k, |i: int| v).drop_last() =~= Seq::new((k - 1) as nat, |i: int| v));
    }
}

/// The count of a code among tiles is its number of occurrences among their codes.
pub proof fn lemma_count_code_occurrences(tiles: Seq<Tile>, c: u8)
    ensures
        count_code(tiles, c) == occurrences(codes(tiles), c),
    decreases tiles.len(),
{
    if tiles.len() > 0 {
        lemma_count_code_occurrences(tiles.drop_last(), c);
        assert(codes(tiles).drop_last() =~= codes(tiles.drop_last()));
    }
}

proof fn lemma_expand(counts: Seq<u8>, n: int)
    requires
        0 <= n <= counts.len(),
        n <= 64,
    ensures
        expand_codes(counts, n).len() == sum_counts(counts.take(n)),
        forall|c: u8| 1 <= c <= n ==> occurrences(expand_codes(counts, n), c) == counts[c - 1],
        forall|c: u8| !(1 <= c <= n) ==> occurrences(expand_codes(counts, n), c) == 0,
        forall|i: int| 0 <= i < expand_codes(counts, n).len() ==> 1 <= #[trigger] expand_codes(counts, n)[i] <= n,
        forall|i: int, j: int| 0 <= i < j < expand_codes(counts, n).len() ==> expand_codes(counts, n)[i] <= expand_codes(counts, n)[j],
    decreases n,
{
    if n == 0 {
        assert(counts.take(0) =~= Seq::<u8>::empty());
    } else {
        lemma_expand(counts, n - 1);
        let prev = expand_codes(counts, n - 1);
        let block = Seq::new(counts[n - 1] as nat, |k: int| n as u8);
        assert(expand_codes(counts, n) == prev + block);
        assert(counts.take(n).drop_last() =~= counts.take(n - 1));
        assert forall|c: u8| true implies occurrences(expand_codes(counts, n), c) == occurrences(prev, c) + (if c == n as u8 { counts[n - 1] as nat } else { 0 }) by {
            lemma_occurrences_append(prev, block, c);
            lemma_occurrences_block(counts[n - 1] as nat, n as u8, c);
        }
        assert((n as u8) as int == n);
        let e = expand_codes(counts, n);
        assert forall|i: int| prev.len() <= i < e.len() implies #[trigger] e[i] == n as u8 by {
            assert(e[i] == block[i - prev.len()]);
        }
        assert forall|i: int| 0 <= i < prev.len() implies #[trigger] e[i] == prev[i] by {}
        assert forall|i: int, j: int| 0 <= i < j < e.len() implies e[i] <= e[j] by {
            if j < prev.len() {
                assert(e[i] == prev[i] && e[j] == prev[j]);
            } else if i < prev.len() {
                assert(e[i] == prev[i] && prev[i] <= n - 1);
                assert(e[j] == n as u8);
            } else {
                assert(e[i] == n as u8 && e[j] == n as u8);
            }
        }
        assert forall|i: int| 0 <= i < e.len() implies 1 <= #[trigger] e[i] <= n by {
            if i < prev.len() {
                assert(e[i] == prev[i]);
            } else {
                assert(e[i] == n as u8);
            }
        }
        assert forall|c: u8| 1 <= c <= n implies occurrences(e, c) == counts[c - 1] by {
            assert(occurrences(e, c) == occurrences(prev, c) + (if c == n as u8 { counts[n - 1] as nat } else { 0 }));
        }
        assert forall|c: u8| !(1 <= c <= n) implies occurrences(e, c) == 0 by {
            assert(occurrences(e, c) == occurrences(prev, c) + (if c == n as u8 { counts[n - 1] as nat } else { 0 }));
        }
    }
}

/// A wall built from counts holds each code exactly as many times as its count, as many tiles as
/// the counts add up to, in non-decreasing code order.
pub proof fn law_from_counts(counts: Seq<u8>, tiles: Seq<Tile>)
    requires
        counts.len() == 64,
        codes(tiles) == expand_codes(counts, 64),
    ensures
        forall|c: u8| 1 <= c <= 64 ==> count_code(tiles, c) == counts[c - 1],
        tiles.len() == sum_counts(counts),
        forall|i: int, j: int| 0 <= i < j < tiles.len() ==> tiles[i]@ <= tiles[j]@,
{
    lemma_expand(counts, 64);
    assert(counts.take(64) =~= counts);
    assert(tiles.len() == codes(tiles).len());
    assert forall|c: u8| 1 <= c <= 64 implies count_code(tiles, c) == counts[c - 1] by {
        lemma_count_code_occurrences(tiles, c);
    }
    assert forall|i: int, j: int| 0 <= i < j < tiles.len() implies tiles[i]@ <= tiles[j]@ by {
        assert(codes(tiles)[i] == tiles[i]@ && codes(tiles)[j] == tiles[j]@);
    }
}

/// The tiles `n` successive front draws return from a wall whose remaining tiles are `wall`.
pub open spec fn front_draws(wall: Seq<Tile>, n: nat) -> Seq<Tile>
    decreases n,
{
    if n == 0 || wall.len() == 0 {
        Seq::empty()
    } else {
        seq![wall[0]] + front_draws(wall.drop_first(), (n - 1) as nat)
    }
}

/// The tiles `n` successive back draws return from a wall whose remaining tiles are `wall`.
pub open spec fn back_draws(wall: Seq<Tile>, n: nat) -> Seq<Tile>
    decreases n,
{
    if n == 0 || wall.len() == 0 {
        Seq::empty()
    } else {
        seq![wall.last()] + back_draws(wall.drop_last(), (n - 1) as nat)
    }
}

/// Drawing `n` tiles at once from the front gives the tiles, in the order, of `n` single front
/// draws: the first `n` remaining tiles.
pub proof fn law_front_draws(wall: Seq<Tile>, n: nat)
    requires
        n <= wall.len(),
    ensures
        front_draws(wall, n) == wall.take(n as int),
    decreases n,
{
    if n > 0 {
        law_front_draws(wall.drop_first(), (n - 1) as nat);
        assert(seq![wall[0]] + wall.drop_first().take(n - 1) =~= wall.take(n as int));
    } else {
        assert(wall.take(0) =~= Seq::<Tile>::empty());
    }
}

/// Drawing `n` tiles at once from the back gives the tiles, in the order, of `n` single back
/// draws: the last `n` remaining tiles, last first.
pub proof fn law_back_draws(wall: Seq<Tile>, n: nat)
    requires
        n <= wall.len(),
    ensures
        back_draws(wall, n) == wall.skip(wall.len() - n).reverse(),
    decreases n,
{
    if n > 0 {
        let rest = wall.drop_last();
        law_back_draws(rest, (n - 1) as nat);
        assert(seq![wall.last()] + rest.skip(rest.len() - (n - 1)).reverse() =~= wall.skip(wall.len() - n).reverse());
    } else {
        assert(wall.skip(wall.len() as int).reverse() =~= Seq::<Tile>::empty());
    }
}

/// A fixed tile order whose remaining tiles always form one contiguous range.
///
/// Drawing only moves a cursor; the underlying order never changes and drawn tiles no longer
/// take part in any query. There is no reset or insertion. The default wall is empty.
#[derive(Debug, PartialEq, Eq)]
pub struct Wall {
    tiles: Vec<Tile>,
    head: usize,
    tail: usize,
}

impl View for Wall {
    type V = Seq<Tile>;

    /// The remaining tiles, front to back.
    closed spec fn view(&self) -> Seq<Tile> {
        self.tiles@.subrange(self.head as int, self.tail as int)
    }
}

/// Why a batch draw failed.
#[derive(Clone, Copy, Debug, PartialEq, Eq, Structural)]
pub enum WallError {
    /// Fewer tiles remain than the batch asks for.
    InsufficientTiles {
        /// Tiles asked for.
        requested: usize,
        /// Tiles remaining before the call.
        remaining: usize,
    },
}

impl Clone for Wall {
    /// A wall with the same order and cursors.
    fn clone(&self) -> (r: Wall)
        ensures
            r@ == self@,
    {
        proof {
            use_type_invariant(self);
        }
        let r = Wall { tiles: self.tiles.clone(), head: self.head, tail: self.tail };
        proof {
            assert(r.tiles@ =~= self.tiles@);
        }
        r
    }
}

impl Default for Wall {
    /// An empty wall.
    fn default() -> (r: Wall)
        ensures
            r@ == Seq::<Tile>::empty(),
    {
        Wall::new()
    }
}

impl Wall {
    #[verifier::type_invariant]
    spec fn cursors_in_range(self) -> bool {
        self.head <= self.tail <= self.tiles@.len()
    }

    /// An empty wall.
    pub fn new() -> (r: Wall)
        ensures
            r@ == Seq::<Tile>::empty(),
    {
        let r = Wall { tiles: Vec::new(), head: 0, tail: 0 };
        proof {
            assert(r@ =~= Seq::<Tile>::empty());
        }
        r
    }

    /// A wall holding `tiles` in the given order, duplicates kept; nothing is shuffled or checked.
    pub fn from_tiles(tiles: Vec<Tile>) -> (r: Wall)
        ensures
            r@ == tiles@,
    {
        let tail = tiles.len();
        let r = Wall { tiles, head: 0, tail };
        proof {
            assert(r@ =~= r.tiles@);
        }
        r
    }

    /// A wall that lists each tile as many times as `counts` says, by ascending code.
    ///
    /// The result reflects the counts only; it cannot restore an original order or counts lost
    /// to saturation.
    pub fn from_counts(counts: &TileCounts) -> (r: Wall)
        ensures
            codes(r@) == expand_codes(counts@, 64),
            forall|c: u8| 1 <= c <= 64 ==> count_code(r@, c) == counts@[c - 1],
            r@.len() == sum_counts(counts@),
            forall|i: int, j: int| 0 <= i < j < r@.len() ==> r@[i]@ <= r@[j]@,
    {
        let array = counts.as_array();
        let mut tiles: Vec<Tile> = Vec::new();
        let mut index: usize = 0;
        while index < 64
            invariant
                index <= 64,
                array@ == counts@,
                array@.len() == 64,
                codes(tiles@) == expand_codes(counts@, index as int),
            decreases 64 - index,
        {
            let tile = Tile::from_index(index).unwrap();
            let n = array[index];
            let ghost before = tiles@;
            let mut k: u8 = 0;
            while k < n
                invariant
                    k <= n,
                    tile@ == index + 1,
                    codes(tiles@) == codes(before) + Seq::new(k as nat, |j: int| (index + 1) as u8),
                decreases n - k,
            {
                let ghost prev = tiles@;
                tiles.push(tile);
                proof {
                    assert(codes(tiles@) =~= codes(prev).push(tile@));
                    assert(codes(tiles@) =~= codes(before) + Seq::new((k + 1) as nat, |j: int| (index + 1) as u8));
                }
                k += 1;
            }
            proof {
                assert(Seq::new(n as nat, |j: int| (index + 1) as u8) =~= Seq::new(counts@[index as int] as nat, |k: int| (index as int + 1) as u8));
            }
            index += 1;
        }
        let r = Wall::from_tiles(tiles);
        proof {
            law_from_counts(counts@, r@);
        }
        r
    }

    /// The exact number of remaining tiles.
    pub fn len(&self) -> (r: usize)
        ensures
            r == self@.len(),
    {
        proof {
            use_type_invariant(self);
        }
        self.tail - self.head
    }

    /// Whether no tile remains.
    pub fn is_empty(&self) -> (r: bool)
        ensures
            r == (self@.len() == 0),
    {
        proof {
            use_type_invariant(self);
        }
        self.head == self.tail
    }

    /// Borrows the remaining tiles front to back; drawn tiles are not included.
    pub fn as_slice(&self) -> (r: &[Tile])
        ensures
            r@ == self@,
    {
        proof {
            use_type_invariant(self);
        }
        let all = self.tiles.as_slice();
        &all[self.head..self.tail]
    }

    /// The front tile; `None` when the wall is empty.
    pub fn front(&self) -> (r: Option<&Tile>)
        ensures
            r == if self@.len() > 0 { Some(&self@[0]) } else { None::<&Tile> },
    {
        proof {
            use_type_invariant(self);
        }
        if self.head < self.tail {
            Some(&self.tiles[self.head])
        } else {
            None
        }
    }

    /// The back tile; `None` when the wall is empty.
    pub fn back(&self) -> (r: Option<&Tile>)
        ensures
            r == if self@.len() > 0 { Some(&self@.last()) } else { None::<&Tile> },
    {
        proof {
            use_type_invariant(self);
        }
        if self.head < self.tail {
            Some(&self.tiles[self.tail - 1])
        } else {
            None
        }
    }

    /// The tile `index` places behind the current front; `None` when out of range. The index
    /// is relative to the remaining range and changes after drawing from the front.
    pub fn get(&self, index: usize) -> (r: Option<&Tile>)
        ensures
            r == if index < self@.len() { Some(&self@[index as int]) } else { None::<&Tile> },
    {
        proof {
            use_type_invariant(self);
        }
        if index < self.tail - self.head {
            Some(&self.tiles[self.head + index])
        } else {
            None
        }
    }

    /// The remaining tiles front to back, duplicates kept.
    pub fn iter(&self) -> (r: Vec<Tile>)
        ensures
            r@ == self@,
    {
        proof {
            use_type_invariant(self);
        }
        let mut out: Vec<Tile> = Vec::new();
        let mut i = self.head;
        while i < self.tail
            invariant
                self.head <= i <= self.tail,
                self.tail <= self.tiles@.len(),
                out@ == self.tiles@.subrange(self.head as int, i as int),
            decreases self.tail - i,
        {
            out.push(self.tiles[i]);
            proof {
                assert(out@ =~= self.tiles@.subrange(self.head as int, i as int + 1));
            }
            i += 1;
        }
        out
    }

    /// Draws the front tile; `None` and no change when the wall is empty.
    pub fn draw_front(&mut self) -> (r: Option<Tile>)
        ensures
            old(self)@.len() == 0 ==> r is None && *final(self) == *old(self),
            old(self)@.len() > 0 ==> r == Some(old(self)@[0]) && final(self)@ == old(self)@.drop_first(),
    {
        proof {
            use_type_invariant(&*self);
        }
        if self.head < self.tail {
            let tile = self.tiles[self.head];
            self.head = self.head + 1;
            proof {
                assert(self@ =~= old(self)@.drop_first());
            }
            Some(tile)
        } else {
            None
        }
    }

    /// Draws the back tile; `None` and no change when the wall is empty.
    pub fn draw_back(&mut self) -> (r: Option<Tile>)
        ensures
            old(self)@.len() == 0 ==> r is None && *final(self) == *old(self),
            old(self)@.len() > 0 ==> r == Some(old(self)@.last()) && final(self)@ == old(self)@.drop_last(),
    {
        proof {
            use_type_invariant(&*self);
        }
        if self.head < self.tail {
            let tile = self.tiles[self.tail - 1];
            self.tail = self.tail - 1;
            proof {
                assert(self@ =~= old(self)@.drop_last());
            }
            Some(tile)
        } else {
            None
        }
    }

    /// Fails with [`WallError::InsufficientTiles`] when fewer than `requested` tiles remain.
    fn check_available(&self, requested: usize) -> (r: Result<(), WallError>)
        ensures
            requested <= self@.len() ==> r is Ok,
            requested > self@.len() ==> r == Err::<(), WallError>(
                WallError::InsufficientTiles { requested, remaining: self@.len() as usize },
            ),
    {
        if requested > self.len() {
            Err(WallError::InsufficientTiles { requested, remaining: self.len() })
        } else {
            Ok(())
        }
    }

    /// Draws `n` tiles from the front in the order of repeated [`Self::draw_front`] calls.
    /// Drawing zero tiles succeeds and changes nothing.
    ///
    /// Fails with [`WallError::InsufficientTiles`], moving no cursor, when fewer than `n` remain.
    pub fn draw_front_many(&mut self, n: usize) -> (r: Result<Vec<Tile>, WallError>)
        ensures
            n > old(self)@.len() ==> r == Err::<Vec<Tile>, WallError>(
                WallError::InsufficientTiles { requested: n, remaining: old(self)@.len() as usize },
            ) && *final(self) == *old(self),
            n <= old(self)@.len() ==> (r matches Ok(v) && v@ == old(self)@.take(n as int)
                && final(self)@ == old(self)@.skip(n as int)),
    {
        proof {
            use_type_invariant(&*self);
        }
        match self.check_available(n) {
            Err(e) => Err(e),
            Ok(()) => {
                let mut out: Vec<Tile> = Vec::new();
                let mut i: usize = 0;
                while i < n
                    invariant
                        i <= n,
                        n <= self.tail - self.head,
                        self.head <= self.tail <= self.tiles@.len(),
                        out@ == self.tiles@.subrange(self.head as int, self.head + i),
                    decreases n - i,
                {
                    out.push(self.tiles[self.head + i]);
                    proof {
                        assert(out@ =~= self.tiles@.subrange(self.head as int, self.head + i + 1));
                    }
                    i += 1;
                }
                self.head = self.head + n;
                proof {
                    assert(out@ =~= old(self)@.take(n as int));
                    assert(self@ =~= old(self)@.skip(n as int));
                }
                Ok(out)
            },
        }
    }

    /// Draws `n` tiles from the back in the order of repeated [`Self::draw_back`] calls: from
    /// `[A, B, C, D]`, two tiles come out as `[D, C]`. Drawing zero tiles changes nothing.
    ///
    /// Fails with [`WallError::InsufficientTiles`], moving no cursor, when fewer than `n` remain.
    pub fn draw_back_many(&mut self, n: usize) -> (r: Result<Vec<Tile>, WallError>)
        ensures
            n > old(self)@.len() ==> r == Err::<Vec<Tile>, WallError>(
                WallError::InsufficientTiles { requested: n, remaining: old(self)@.len() as usize },
            ) && *final(self) == *old(self),
            n <= old(self)@.len() ==> (r matches Ok(v) && v@ == old(self)@.skip(old(self)@.len() - n).reverse()
                && final(self)@ == old(self)@.take(old(self)@.len() - n)),
    {
        proof {
            use_type_invariant(&*self);
        }
        match self.check_available(n) {
            Err(e) => Err(e),
            Ok(()) => {
                let mut out: Vec<Tile> = Vec::new();
                let mut i: usize = 0;
                while i < n
                    invariant
                        i <= n,
                        n <= self.tail - self.head,
                        self.head <= self.tail <= self.tiles@.len(),
                        out@.len() == i,
                        forall|k: int| 0 <= k < i ==> #[trigger] out@[k] == self.tiles@[self.tail - 1 - k],
                    decreases n - i,
                {
                    out.push(self.tiles[self.tail - 1 - i]);
                    i += 1;
                }
                let start = self.tail - n;
                self.tail = start;
                proof {
                    assert(out@ =~= old(self)@.skip(old(self)@.len() - n).reverse());
                    assert(self@ =~= old(self)@.take(old(self)@.len() - n));
                }
                Ok(out)
            },
        }
    }

    /// The remaining tiles front to back; drawn tiles are dropped.
    pub fn into_tiles(self) -> (r: Vec<Tile>)
        ensures
            r@ == self@,
    {
        self.iter()
    }

    /// The exact number of remaining copies of `tile`.
    pub fn count(&self, tile: Tile) -> (r: usize)
        ensures
            r == count_code(self@, tile@),
    {
        count_in(self.as_slice(), tile)
    }

    /// The set of remaining tiles; counts and order are dropped.
    pub fn mask(&self) -> (r: TileMask)
        ensures
            r@ == code_set(self@),
    {
        TileMask::from_tiles(self.as_slice())
    }

    /// Counts of the remaining tiles, saturating at 255 per slot.
    pub fn counts(&self) -> (r: TileCounts)
        ensures
            r@.len() == 64,
            forall|i: int| 0 <= i < 64 ==> #[trigger] r@[i] == sat_add(count_code(self@, (i + 1) as u8) as int, 0),
    {
        TileCounts::from_tiles(self.as_slice())
    }
}

} // verus!

