//! The discard history of one hand, with the presence of each discarded tile.
//!
//! Records are never deleted or renumbered when a tile is taken; only present tiles count as
//! held by the river. Id scopes, response windows, claim rights and cross-container commits
//! belong to the layers above.

use vstd::prelude::*;

use crate::discard::Discard;
use crate::seat::Seat;
use crate::tile::Tile;

verus! {

/// A zero-based discard record number within one [`River`].
///
/// It names one discard event, not a physical tile. Building one from a number proves nothing
/// about the record's existence.
#[derive(Clone, Copy, Debug, PartialEq, Eq, Structural, Hash, PartialOrd, Ord)]
pub struct DiscardId(u32);

impl View for DiscardId {
    type V = u32;

    /// The raw number.
    closed spec fn view(&self) -> u32 {
        self.0
    }
}

impl DiscardId {
    /// The id with the raw zero-based number `value`; no record is checked.
    pub fn from_value(value: u32) -> (r: DiscardId)
        ensures
            r@ == value,
    {
        DiscardId(value)
    }

    /// The raw zero-based number.
    pub fn value(self) -> (r: u32)
        ensures
            r == self@,
    {
        self.0
    }

    /// Two ids are equal exactly when their numbers are.
    pub proof fn lemma_eq(a: DiscardId, b: DiscardId)
        ensures
            (a == b) == (a@ == b@),
    {
    }
}

/// Why a river operation failed.
#[derive(Clone, Copy, Debug, PartialEq, Eq, Structural)]
pub enum RiverError {
    /// No record has this id.
    UnknownDiscard {
        /// The id asked for.
        id: DiscardId,
    },
    /// The record exists but its tile was already taken.
    AlreadyTaken {
        /// The id asked for.
        id: DiscardId,
    },
    /// One batch named the same discard twice.
    DuplicateDiscard {
        /// The repeated id.
        id: DiscardId,
    },
    /// The id space cannot hold the whole batch.
    IdExhausted {
        /// Records asked for.
        requested: usize,
    },
}

/// One discard event and whether its tile is still in the river.
#[derive(Clone, Copy, Debug, PartialEq, Eq)]
struct RiverEntry {
    discard: Discard,
    present: bool,
}

/// The first structural error of a batch of ids over a river, checking positions in order:
/// unknown, then already taken, then repeated.
pub open spec fn take_error(entries: Seq<(Discard, bool)>, ids: Seq<DiscardId>) -> Option<RiverError>
    decreases ids.len(),
{
    if ids.len() == 0 {
        None
    } else {
        let prev = take_error(entries, ids.drop_last());
        let id = ids.last();
        if prev is Some {
            prev
        } else if id@ >= entries.len() {
            Some(RiverError::UnknownDiscard { id })
        } else if !entries[id@ as int].1 {
            Some(RiverError::AlreadyTaken { id })
        } else if ids.drop_last().contains(id) {
            Some(RiverError::DuplicateDiscard { id })
        } else {
            None
        }
    }
}

/// Whether appending `requested` records to a river of `len` records runs out of ids.
pub open spec fn ids_exhausted(len: nat, requested: nat) -> bool {
    requested > 0 && (len + requested > usize::MAX || len + requested - 1 > u32::MAX)
}

/// The history of the discards of one hand and, for each, whether its tile is still present.
///
/// All seats share one append-only list in event order; taking a tile only clears its presence.
/// History length and present tiles are queried apart ([`Self::len`], [`Self::present_len`]).
#[derive(Debug, PartialEq, Eq)]
pub struct River {
    entries: Vec<RiverEntry>,
}

impl View for River {
    type V = Seq<(Discard, bool)>;

    /// Each record and whether its tile is present, by id.
    closed spec fn view(&self) -> Seq<(Discard, bool)> {
        self.entries@.map_values(|e: RiverEntry| (e.discard, e.present))
    }
}

/// Number of records among the first `n` whose tile is present.
pub open spec fn present_count(entries: Seq<(Discard, bool)>, n: int) -> nat
    decreases n,
{
    if n <= 0 {
        0
    } else {
        present_count(entries, n - 1) + if entries[n - 1].1 { 1nat } else { 0nat }
    }
}

impl Default for River {
    /// A river with no record.
    fn default() -> (r: River)
        ensures
            r@ == Seq::<(Discard, bool)>::empty(),
    {
        River::new()
    }
}

impl River {
    #[verifier::type_invariant]
    spec fn ids_fit(self) -> bool {
        self.entries@.len() <= u32::MAX + 1
    }

    /// Moves the records out, leaving an empty river behind.
    fn take_entries(&mut self) -> (r: Vec<RiverEntry>)
        ensures
            r@ == old(self).entries@,
            r@.len() <= u32::MAX + 1,
            final(self)@ == Seq::<(Discard, bool)>::empty(),
    {
        proof {
            use_type_invariant(&*self);
        }
        let mut other = River { entries: Vec::new() };
        std::mem::swap(self, &mut other);
        proof {
            assert(self@ =~= Seq::<(Discard, bool)>::empty());
        }
        let River { entries } = other;
        entries
    }

    /// A river with no record.
    pub fn new() -> (r: River)
        ensures
            r@ == Seq::<(Discard, bool)>::empty(),
    {
        let r = River { entries: Vec::new() };
        proof {
            assert(r@ =~= Seq::<(Discard, bool)>::empty());
        }
        r
    }

    /// A copy with the same history and presence.
    pub fn clone(&self) -> (r: River)
        ensures
            r@ == self@,
    {
        let mut entries: Vec<RiverEntry> = Vec::new();
        let mut i: usize = 0;
        while i < self.entries.len()
            invariant
                i <= self.entries@.len(),
                entries@ == self.entries@.take(i as int),
            decreases self.entries@.len() - i,
        {
            entries.push(self.entries[i]);
            proof {
                assert(entries@ =~= self.entries@.take(i as int + 1));
            }
            i += 1;
        }
        proof {
            use_type_invariant(self);
            assert(self.entries@.take(self.entries@.len() as int) =~= self.entries@);
        }
        River { entries }
    }

    /// Number of records, including those whose tile was taken.
    pub fn len(&self) -> (r: usize)
        ensures
            r == self@.len(),
    {
        self.entries.len()
    }

    /// Whether no discard was ever appended (not whether tiles are present).
    pub fn is_empty(&self) -> (r: bool)
        ensures
            r == (self@.len() == 0),
    {
        self.entries.len() == 0
    }

    /// Appends one discard, present, and returns its id.
    ///
    /// Fails with [`RiverError::IdExhausted`], changing nothing, when no id is left.
    pub fn append(&mut self, discard: Discard) -> (r: Result<DiscardId, RiverError>)
        ensures
            ids_exhausted(old(self)@.len(), 1) ==> r == Err::<DiscardId, RiverError>(RiverError::IdExhausted { requested: 1 })
                && final(self)@ == old(self)@,
            !ids_exhausted(old(self)@.len(), 1) ==> (r matches Ok(id) && id@ == old(self)@.len()
                && final(self)@ == old(self)@.push((discard, true))),
    {
        let mut batch: Vec<Discard> = Vec::new();
        batch.push(discard);
        let ghost b = batch@;
        let mut ids = self.append_many(batch)?;
        proof {
            assert(b =~= seq![discard]);
        }
        let ghost all = ids@;
        let id = ids.pop().unwrap();
        proof {
            assert(id == all[0]);
            assert(self@ =~= old(self)@.push((discard, true)));
        }
        Ok(id)
    }

    /// Appends a batch of discards in order, all present, and returns their ids. The whole batch
    /// is checked first; ids never wrap or repeat. An empty batch succeeds even when no id is
    /// left.
    ///
    /// Fails with [`RiverError::IdExhausted`], changing nothing, when the length plus the batch
    /// cannot be represented or the last new id exceeds `u32`.
    pub fn append_many(&mut self, discards: Vec<Discard>) -> (r: Result<Vec<DiscardId>, RiverError>)
        ensures
            ids_exhausted(old(self)@.len(), discards@.len()) ==> r == Err::<Vec<DiscardId>, RiverError>(
                RiverError::IdExhausted { requested: discards@.len() as usize },
            ) && final(self)@ == old(self)@,
            !ids_exhausted(old(self)@.len(), discards@.len()) ==> (r matches Ok(ids)
                && ids@.len() == discards@.len()
                && (forall|i: int| 0 <= i < ids@.len() ==> #[trigger] ids@[i]@ == old(self)@.len() + i)
                && final(self)@ == old(self)@ + discards@.map_values(|d: Discard| (d, true))),
    {
        let requested = discards.len();
        if requested == 0 {
            proof {
                assert(old(self)@ + discards@.map_values(|d: Discard| (d, true)) =~= old(self)@);
            }
            return Ok(Vec::new());
        }
        let start = self.entries.len();
        let end = match start.checked_add(requested) {
            Some(end) => end,
            None => {
                return Err(RiverError::IdExhausted { requested });
            },
        };
        if end - 1 > 0xFFFF_FFFFusize {
            return Err(RiverError::IdExhausted { requested });
        }
        let mut entries = self.take_entries();
        let mut ids: Vec<DiscardId> = Vec::new();
        let mut i: usize = 0;
        let ghost old_entries = entries@;
        while i < requested
            invariant
                i <= requested,
                requested == discards@.len(),
                start == old_entries.len(),
                start + requested - 1 <= u32::MAX,
                ids@.len() == i,
                forall|k: int| 0 <= k < i ==> #[trigger] ids@[k]@ == start + k,
                entries@ == old_entries + discards@.take(i as int).map_values(|d: Discard| RiverEntry { discard: d, present: true }),
            decreases requested - i,
        {
            ids.push(DiscardId((start + i) as u32));
            entries.push(RiverEntry { discard: discards[i], present: true });
            proof {
                assert(entries@ =~= old_entries + discards@.take(i as int + 1).map_values(|d: Discard| RiverEntry { discard: d, present: true }));
            }
            i += 1;
        }
        *self = River { entries };
        proof {
            assert(discards@.take(requested as int) =~= discards@);
            assert(self@ =~= old(self)@ + discards@.map_values(|d: Discard| (d, true)));
        }
        Ok(ids)
    }

    /// The recorded discard for `id`, also after its tile was taken; `None` for an unknown id.
    pub fn get(&self, id: DiscardId) -> (r: Option<&Discard>)
        ensures
            r == if id@ < self@.len() { Some(&self@[id@ as int].0) } else { None::<&Discard> },
    {
        let index = id.value() as usize;
        if index < self.entries.len() {
            Some(&self.entries[index].discard)
        } else {
            None
        }
    }

    /// Every record with its id, in id order, taken tiles included.
    pub fn iter(&self) -> (r: Vec<(DiscardId, &Discard)>)
        ensures
            r@.len() == self@.len(),
            forall|i: int| 0 <= i < r@.len() ==> #[trigger] r@[i].0@ == i && *r@[i].1 == self@[i].0,
    {
        proof {
            use_type_invariant(self);
        }
        let mut out: Vec<(DiscardId, &Discard)> = Vec::new();
        let mut i: usize = 0;
        while i < self.entries.len()
            invariant
                i <= self.entries@.len(),
                self.entries@.len() <= u32::MAX + 1,
                out@.len() == i,
                forall|k: int| 0 <= k < i ==> #[trigger] out@[k].0@ == k && *out@[k].1 == self@[k].0,
            decreases self.entries@.len() - i,
        {
            out.push((DiscardId(i as u32), &self.entries[i].discard));
            i += 1;
        }
        out
    }

    /// The records of `seat` with their ids, in id order, taken tiles included.
    pub fn iter_for(&self, seat: Seat) -> (r: Vec<(DiscardId, &Discard)>)
        ensures
            forall|i: int| 0 <= i < r@.len() ==> #[trigger] r@[i].0@ < self@.len() && *r@[i].1 == self@[r@[i].0@ as int].0
                && r@[i].1.spec_seat() == seat,
            forall|i: int, j: int| 0 <= i < j < r@.len() ==> r@[i].0@ < r@[j].0@,
            forall|k: int| 0 <= k < self@.len() && #[trigger] self@[k].0.spec_seat() == seat ==> exists|i: int|
                0 <= i < r@.len() && #[trigger] r@[i].0@ == k,
    {
        proof {
            use_type_invariant(self);
        }
        let mut out: Vec<(DiscardId, &Discard)> = Vec::new();
        let mut i: usize = 0;
        while i < self.entries.len()
            invariant
                i <= self.entries@.len(),
                self.entries@.len() <= u32::MAX + 1,
                forall|j: int| 0 <= j < out@.len() ==> #[trigger] out@[j].0@ < i && *out@[j].1 == self@[out@[j].0@ as int].0
                    && out@[j].1.spec_seat() == seat,
                forall|a: int, b: int| 0 <= a < b < out@.len() ==> out@[a].0@ < out@[b].0@,
                forall|k: int| 0 <= k < i && #[trigger] self@[k].0.spec_seat() == seat ==> exists|j: int|
                    0 <= j < out@.len() && #[trigger] out@[j].0@ == k,
            decreases self.entries@.len() - i,
        {
            let d = &self.entries[i].discard;
            if d.seat() == seat {
                let ghost prev = out@;
                out.push((DiscardId(i as u32), d));
                proof {
                    assert forall|j: int| 0 <= j < prev.len() implies out@[j] == prev[j] by {}
                    assert forall|k: int| 0 <= k < i + 1 && #[trigger] self@[k].0.spec_seat() == seat implies exists|j: int|
                        0 <= j < out@.len() && #[trigger] out@[j].0@ == k by {
                        if k == i {
                            assert(out@[prev.len() as int].0@ == k);
                        } else {
                            let j = choose|j: int| 0 <= j < prev.len() && #[trigger] prev[j].0@ == k;
                            assert(out@[j].0@ == k);
                        }
                    }
                }
            } else {
                proof {
                    Seat::lemma_eq(d.spec_seat(), seat);
                }
            }
            i += 1;
        }
        out
    }

    /// Whether the tile of `id` is still present; `None` for an unknown id.
    pub fn is_present(&self, id: DiscardId) -> (r: Option<bool>)
        ensures
            r == if id@ < self@.len() { Some(self@[id@ as int].1) } else { None::<bool> },
    {
        let index = id.value() as usize;
        if index < self.entries.len() {
            Some(self.entries[index].present)
        } else {
            None
        }
    }

    /// The records whose tile is still present, with their ids, in id order.
    pub fn present(&self) -> (r: Vec<(DiscardId, &Discard)>)
        ensures
            r@.len() == present_count(self@, self@.len() as int),
            forall|i: int| 0 <= i < r@.len() ==> #[trigger] r@[i].0@ < self@.len() && *r@[i].1 == self@[r@[i].0@ as int].0
                && self@[r@[i].0@ as int].1,
            forall|i: int, j: int| 0 <= i < j < r@.len() ==> r@[i].0@ < r@[j].0@,
            forall|k: int| 0 <= k < self@.len() && #[trigger] self@[k].1 ==> exists|i: int|
                0 <= i < r@.len() && #[trigger] r@[i].0@ == k,
    {
        proof {
            use_type_invariant(self);
        }
        let mut out: Vec<(DiscardId, &Discard)> = Vec::new();
        let mut i: usize = 0;
        while i < self.entries.len()
            invariant
                i <= self.entries@.len(),
                self.entries@.len() <= u32::MAX + 1,
                out@.len() == present_count(self@, i as int),
                forall|j: int| 0 <= j < out@.len() ==> #[trigger] out@[j].0@ < i && *out@[j].1 == self@[out@[j].0@ as int].0
                    && self@[out@[j].0@ as int].1,
                forall|a: int, b: int| 0 <= a < b < out@.len() ==> out@[a].0@ < out@[b].0@,
                forall|k: int| 0 <= k < i && #[trigger] self@[k].1 ==> exists|j: int|
                    0 <= j < out@.len() && #[trigger] out@[j].0@ == k,
            decreases self.entries@.len() - i,
        {
            if self.entries[i].present {
                let ghost prev = out@;
                out.push((DiscardId(i as u32), &self.entries[i].discard));
                proof {
                    assert forall|j: int| 0 <= j < prev.len() implies out@[j] == prev[j] by {}
                    assert forall|k: int| 0 <= k < i + 1 && #[trigger] self@[k].1 implies exists|j: int|
                        0 <= j < out@.len() && #[trigger] out@[j].0@ == k by {
                        if k == i {
                            assert(out@[prev.len() as int].0@ == k);
                        } else {
                            let j = choose|j: int| 0 <= j < prev.len() && #[trigger] prev[j].0@ == k;
                            assert(out@[j].0@ == k);
                        }
                    }
                }
            }
            i += 1;
        }
        out
    }

    /// The exact number of tiles still present.
    pub fn present_len(&self) -> (r: usize)
        ensures
            r == present_count(self@, self@.len() as int),
    {
        let mut count: usize = 0;
        let mut i: usize = 0;
        while i < self.entries.len()
            invariant
                i <= self.entries@.len(),
                count == present_count(self@, i as int),
                count <= i,
            decreases self.entries@.len() - i,
        {
            if self.entries[i].present {
                count += 1;
            }
            i += 1;
        }
        count
    }

    /// Takes the present tile of `id` and returns it; the record and its id stay.
    ///
    /// Fails, changing nothing, with [`RiverError::UnknownDiscard`] for an unknown id and
    /// [`RiverError::AlreadyTaken`] when the tile is gone.
    pub fn take(&mut self, id: DiscardId) -> (r: Result<Tile, RiverError>)
        ensures
            id@ >= old(self)@.len() ==> r == Err::<Tile, RiverError>(RiverError::UnknownDiscard { id })
                && final(self)@ == old(self)@,
            id@ < old(self)@.len() && !old(self)@[id@ as int].1 ==> r == Err::<Tile, RiverError>(
                RiverError::AlreadyTaken { id },
            ) && final(self)@ == old(self)@,
            id@ < old(self)@.len() && old(self)@[id@ as int].1 ==> r == Ok::<Tile, RiverError>(
                old(self)@[id@ as int].0.spec_hand_discard().spec_tile(),
            ) && final(self)@ == old(self)@.update(id@ as int, (old(self)@[id@ as int].0, false)),
    {
        let ids = [id];
        let slice = ids.as_slice();
        proof {
            assert(slice@ =~= seq![id]);
            assert(slice@.drop_last() =~= Seq::<DiscardId>::empty());
        }
        let ghost before = self@;
        proof {
            assert(take_error(before, slice@.drop_last()) is None);
            assert(slice@.last() == id);
        }
        let mut tiles = self.take_many(slice)?;
        let ghost all = tiles@;
        let tile = tiles.pop().unwrap();
        proof {
            assert(tile == all[0]);
            assert forall|k: int| 0 <= k < before.len() implies #[trigger] self@[k] == before.update(id@ as int, (before[id@ as int].0, false))[k] by {
                if k == id@ {
                    assert(slice@[0]@ == k);
                } else {
                    if exists|j: int| 0 <= j < slice@.len() && slice@[j]@ == k {
                        let j = choose|j: int| 0 <= j < slice@.len() && slice@[j]@ == k;
                        assert(j == 0);
                    }
                }
            }
            assert(self@ =~= before.update(id@ as int, (before[id@ as int].0, false)));
        }
        Ok(tile)
    }

    /// Takes the present tiles of a batch of ids once the whole batch is checked; tiles come back
    /// in batch order and every record and id stays. An empty batch succeeds and changes nothing.
    ///
    /// Fails, changing nothing, with [`RiverError::UnknownDiscard`], [`RiverError::AlreadyTaken`]
    /// or [`RiverError::DuplicateDiscard`] for the first bad position.
    pub fn take_many(&mut self, ids: &[DiscardId]) -> (r: Result<Vec<Tile>, RiverError>)
        ensures
            take_error(old(self)@, ids@) matches Some(e) ==> r == Err::<Vec<Tile>, RiverError>(e)
                && final(self)@ == old(self)@,
            take_error(old(self)@, ids@) is None ==> (r matches Ok(v)
                && v@ == ids@.map_values(|id: DiscardId| old(self)@[id@ as int].0.spec_hand_discard().spec_tile())
                && final(self)@.len() == old(self)@.len()
                && forall|k: int| 0 <= k < old(self)@.len() ==> #[trigger] final(self)@[k] == (old(self)@[k].0,
                    old(self)@[k].1 && !(exists|j: int| 0 <= j < ids@.len() && ids@[j]@ == k))),
    {
        let mut tiles: Vec<Tile> = Vec::new();
        let mut p: usize = 0;
        while p < ids.len()
            invariant
                p <= ids@.len(),
                take_error(self@, ids@.take(p as int)) is None,
                tiles@ == ids@.take(p as int).map_values(|id: DiscardId| self@[id@ as int].0.spec_hand_discard().spec_tile()),
            decreases ids@.len() - p,
        {
            let id = ids[p];
            let ghost next = ids@.take(p as int + 1);
            proof {
                assert(next.drop_last() =~= ids@.take(p as int));
                assert(next.last() == id);
            }
            let index = id.value() as usize;
            if index >= self.entries.len() {
                proof {
                    Self::lemma_take_error_prefix(self@, ids@, p as int + 1);
                }
                return Err(RiverError::UnknownDiscard { id });
            }
            if !self.entries[index].present {
                proof {
                    Self::lemma_take_error_prefix(self@, ids@, p as int + 1);
                }
                return Err(RiverError::AlreadyTaken { id });
            }
            if contains_id_before(ids, p, id) {
                proof {
                    Self::lemma_take_error_prefix(self@, ids@, p as int + 1);
                }
                return Err(RiverError::DuplicateDiscard { id });
            }
            tiles.push(self.entries[index].discard.tile());
            proof {
                assert(tiles@ =~= next.map_values(|id: DiscardId| self@[id@ as int].0.spec_hand_discard().spec_tile()));
            }
            p += 1;
        }
        proof {
            assert(ids@.take(ids@.len() as int) =~= ids@);
        }
        let ghost before = self@;
        proof {
            Self::lemma_take_error_none(self@, ids@);
        }
        let mut entries = self.take_entries();
        let ghost before_entries = entries@;
        let mut q: usize = 0;
        while q < ids.len()
            invariant
                q <= ids@.len(),
                entries@.len() == before.len(),
                before_entries.len() == before.len(),
                before == before_entries.map_values(|e: RiverEntry| (e.discard, e.present)),
                forall|k: int| 0 <= k < ids@.len() ==> #[trigger] ids@[k]@ < before.len(),
                forall|k: int| 0 <= k < before.len() ==> #[trigger] entries@[k] == (RiverEntry {
                    discard: before_entries[k].discard,
                    present: before_entries[k].present && !(exists|j: int| 0 <= j < q && ids@[j]@ == k),
                }),
            decreases ids@.len() - q,
        {
            let index = ids[q].value() as usize;
            let entry = entries[index];
            let ghost prev_entries = entries@;
            entries.set(index, RiverEntry { discard: entry.discard, present: false });
            proof {
                assert forall|k: int| 0 <= k < before.len() implies #[trigger] entries@[k] == (RiverEntry {
                    discard: before_entries[k].discard,
                    present: before_entries[k].present && !(exists|j: int| 0 <= j < q + 1 && ids@[j]@ == k),
                }) by {
                    if k == index {
                        assert(ids@[q as int]@ == k);
                    } else {
                        assert(entries@[k] == prev_entries[k]);
                        if exists|j: int| 0 <= j < q + 1 && ids@[j]@ == k {
                            let j = choose|j: int| 0 <= j < q + 1 && ids@[j]@ == k;
                            assert(j != q);
                        }
                    }
                }
            }
            q += 1;
        }
        *self = River { entries };
        proof {
            assert forall|k: int| 0 <= k < before.len() implies #[trigger] self@[k] == (before[k].0,
                before[k].1 && !(exists|j: int| 0 <= j < ids@.len() && ids@[j]@ == k)) by {
                assert(before[k] == (before_entries[k].discard, before_entries[k].present));
            }
        }
        Ok(tiles)
    }

    /// A batch without error names known, present, distinct records.
    proof fn lemma_take_error_none(entries: Seq<(Discard, bool)>, ids: Seq<DiscardId>)
        requires
            take_error(entries, ids) is None,
        ensures
            forall|k: int| 0 <= k < ids.len() ==> #[trigger] ids[k]@ < entries.len() && entries[ids[k]@ as int].1,
            forall|a: int, b: int| 0 <= a < b < ids.len() ==> ids[a] != ids[b],
        decreases ids.len(),
    {
        if ids.len() > 0 {
            let prev = ids.drop_last();
            Self::lemma_take_error_none(entries, prev);
            assert forall|k: int| 0 <= k < ids.len() implies #[trigger] ids[k]@ < entries.len() && entries[ids[k]@ as int].1 by {
                if k < prev.len() {
                    assert(prev[k] == ids[k]);
                }
            }
            assert forall|a: int, b: int| 0 <= a < b < ids.len() implies ids[a] != ids[b] by {
                if b == ids.len() - 1 {
                    assert(prev[a] == ids[a]);
                    assert(prev.contains(ids[a]));
                } else {
                    assert(prev[a] == ids[a] && prev[b] == ids[b]);
                }
            }
        }
    }

    /// An error found in a prefix stays the error of the whole batch.
    proof fn lemma_take_error_prefix(entries: Seq<(Discard, bool)>, ids: Seq<DiscardId>, n: int)
        requires
            0 <= n <= ids.len(),
            take_error(entries, ids.take(n)) is Some,
        ensures
            take_error(entries, ids) == take_error(entries, ids.take(n)),
        decreases ids.len() - n,
    {
        if n < ids.len() {
            let next = ids.take(n + 1);
            assert(next.drop_last() =~= ids.take(n));
            Self::lemma_take_error_prefix(entries, ids, n + 1);
        } else {
            assert(ids.take(n) =~= ids);
        }
    }
}

/// Whether `id` occurs among the first `n` ids of a slice.
fn contains_id_before(ids: &[DiscardId], n: usize, id: DiscardId) -> (r: bool)
    requires
        n <= ids@.len(),
    ensures
        r == ids@.take(n as int).contains(id),
{
    let mut i: usize = 0;
    while i < n
        invariant
            i <= n,
            n <= ids@.len(),
            forall|k: int| 0 <= k < i ==> ids@[k] != id,
        decreases n - i,
    {
        if ids[i].value() == id.value() {
            proof {
                DiscardId::lemma_eq(ids@[i as int], id);
                assert(ids@.take(n as int)[i as int] == id);
            }
            return true;
        }
        proof {
            DiscardId::lemma_eq(ids@[i as int], id);
        }
        i += 1;
    }
    proof {
        if ids@.take(n as int).contains(id) {
            let k = choose|k: int| 0 <= k < n && ids@.take(n as int)[k] == id;
            assert(ids@[k] == id);
        }
    }
    false
}

} // verus!
