//! Compact tile codes together with the tile set and tile count types.

use vstd::prelude::*;

pub mod counts;
pub mod mask;

pub use counts::TileCounts;
pub use mask::TileMask;

verus! {

/// One mahjong tile face, identified by a stable code in `1..=64`.
///
/// Codes `1..=42` are the standard faces defined here (`1..=9` man, `10..=18` pin,
/// `19..=27` sou, `28..=31` winds, `32..=34` dragons, `35..=42` flowers); codes `43..=64`
/// are extension slots interpreted by a rule set. Copies of one face share the same value:
/// a `Tile` is a face, not a physical tile. Equality and ordering follow the code, and a
/// wildcard interpretation never changes it.
#[derive(Clone, Copy, Debug, PartialEq, Eq, Structural, Hash, PartialOrd, Ord)]
pub struct Tile {
    code: u8,
}

impl View for Tile {
    type V = u8;

    /// The one-based tile code.
    closed spec fn view(&self) -> u8 {
        self.code
    }
}

impl Tile {
    /// Number of code slots.
    pub const CAPACITY: usize = 64;
    /// Smallest valid code.
    pub const MIN_CODE: u8 = 1;
    /// Largest valid code.
    pub const MAX_CODE: u8 = 64;
    /// Largest code of the standard faces.
    pub const STANDARD_MAX_CODE: u8 = 42;
    /// Smallest code of the extension slots.
    pub const EXTENSION_MIN_CODE: u8 = 43;
    /// Largest code of the extension slots.
    pub const EXTENSION_MAX_CODE: u8 = 64;

    #[verifier::type_invariant]
    spec fn code_in_range(self) -> bool {
        1 <= self.code <= 64
    }

    /// The man 1 face, code 1.
    pub fn man_1() -> (r: Tile)
        ensures
            r@ == 1u8,
    {
        Tile { code: 1 }
    }

    /// The man 2 face, code 2.
    pub fn man_2() -> (r: Tile)
        ensures
            r@ == 2u8,
    {
        Tile { code: 2 }
    }

    /// The man 3 face, code 3.
    pub fn man_3() -> (r: Tile)
        ensures
            r@ == 3u8,
    {
        Tile { code: 3 }
    }

    /// The man 4 face, code 4.
    pub fn man_4() -> (r: Tile)
        ensures
            r@ == 4u8,
    {
        Tile { code: 4 }
    }

    /// The man 5 face, code 5.
    pub fn man_5() -> (r: Tile)
        ensures
            r@ == 5u8,
    {
        Tile { code: 5 }
    }

    /// The man 6 face, code 6.
    pub fn man_6() -> (r: Tile)
        ensures
            r@ == 6u8,
    {
        Tile { code: 6 }
    }

    /// The man 7 face, code 7.
    pub fn man_7() -> (r: Tile)
        ensures
            r@ == 7u8,
    {
        Tile { code: 7 }
    }

    /// The man 8 face, code 8.
    pub fn man_8() -> (r: Tile)
        ensures
            r@ == 8u8,
    {
        Tile { code: 8 }
    }

    /// The man 9 face, code 9.
    pub fn man_9() -> (r: Tile)
        ensures
            r@ == 9u8,
    {
        Tile { code: 9 }
    }

    /// The pin 1 face, code 10.
    pub fn pin_1() -> (r: Tile)
        ensures
            r@ == 10u8,
    {
        Tile { code: 10 }
    }

    /// The pin 2 face, code 11.
    pub fn pin_2() -> (r: Tile)
        ensures
            r@ == 11u8,
    {
        Tile { code: 11 }
    }

    /// The pin 3 face, code 12.
    pub fn pin_3() -> (r: Tile)
        ensures
            r@ == 12u8,
    {
        Tile { code: 12 }
    }

    /// The pin 4 face, code 13.
    pub fn pin_4() -> (r: Tile)
        ensures
            r@ == 13u8,
    {
        Tile { code: 13 }
    }

    /// The pin 5 face, code 14.
    pub fn pin_5() -> (r: Tile)
        ensures
            r@ == 14u8,
    {
        Tile { code: 14 }
    }

    /// The pin 6 face, code 15.
    pub fn pin_6() -> (r: Tile)
        ensures
            r@ == 15u8,
    {
        Tile { code: 15 }
    }

    /// The pin 7 face, code 16.
    pub fn pin_7() -> (r: Tile)
        ensures
            r@ == 16u8,
    {
        Tile { code: 16 }
    }

    /// The pin 8 face, code 17.
    pub fn pin_8() -> (r: Tile)
        ensures
            r@ == 17u8,
    {
        Tile { code: 17 }
    }

    /// The pin 9 face, code 18.
    pub fn pin_9() -> (r: Tile)
        ensures
            r@ == 18u8,
    {
        Tile { code: 18 }
    }

    /// The sou 1 face, code 19.
    pub fn sou_1() -> (r: Tile)
        ensures
            r@ == 19u8,
    {
        Tile { code: 19 }
    }

    /// The sou 2 face, code 20.
    pub fn sou_2() -> (r: Tile)
        ensures
            r@ == 20u8,
    {
        Tile { code: 20 }
    }

    /// The sou 3 face, code 21.
    pub fn sou_3() -> (r: Tile)
        ensures
            r@ == 21u8,
    {
        Tile { code: 21 }
    }

    /// The sou 4 face, code 22.
    pub fn sou_4() -> (r: Tile)
        ensures
            r@ == 22u8,
    {
        Tile { code: 22 }
    }

    /// The sou 5 face, code 23.
    pub fn sou_5() -> (r: Tile)
        ensures
            r@ == 23u8,
    {
        Tile { code: 23 }
    }

    /// The sou 6 face, code 24.
    pub fn sou_6() -> (r: Tile)
        ensures
            r@ == 24u8,
    {
        Tile { code: 24 }
    }

    /// The sou 7 face, code 25.
    pub fn sou_7() -> (r: Tile)
        ensures
            r@ == 25u8,
    {
        Tile { code: 25 }
    }

    /// The sou 8 face, code 26.
    pub fn sou_8() -> (r: Tile)
        ensures
            r@ == 26u8,
    {
        Tile { code: 26 }
    }

    /// The sou 9 face, code 27.
    pub fn sou_9() -> (r: Tile)
        ensures
            r@ == 27u8,
    {
        Tile { code: 27 }
    }

    /// The east wind face, code 28.
    pub fn east() -> (r: Tile)
        ensures
            r@ == 28u8,
    {
        Tile { code: 28 }
    }

    /// The south wind face, code 29.
    pub fn south() -> (r: Tile)
        ensures
            r@ == 29u8,
    {
        Tile { code: 29 }
    }

    /// The west wind face, code 30.
    pub fn west() -> (r: Tile)
        ensures
            r@ == 30u8,
    {
        Tile { code: 30 }
    }

    /// The north wind face, code 31.
    pub fn north() -> (r: Tile)
        ensures
            r@ == 31u8,
    {
        Tile { code: 31 }
    }

    /// The red dragon face, code 32.
    pub fn red_dragon() -> (r: Tile)
        ensures
            r@ == 32u8,
    {
        Tile { code: 32 }
    }

    /// The green dragon face, code 33.
    pub fn green_dragon() -> (r: Tile)
        ensures
            r@ == 33u8,
    {
        Tile { code: 33 }
    }

    /// The white dragon face, code 34.
    pub fn white_dragon() -> (r: Tile)
        ensures
            r@ == 34u8,
    {
        Tile { code: 34 }
    }

    /// The spring flower face, code 35.
    pub fn spring() -> (r: Tile)
        ensures
            r@ == 35u8,
    {
        Tile { code: 35 }
    }

    /// The summer flower face, code 36.
    pub fn summer() -> (r: Tile)
        ensures
            r@ == 36u8,
    {
        Tile { code: 36 }
    }

    /// The autumn flower face, code 37.
    pub fn autumn() -> (r: Tile)
        ensures
            r@ == 37u8,
    {
        Tile { code: 37 }
    }

    /// The winter flower face, code 38.
    pub fn winter() -> (r: Tile)
        ensures
            r@ == 38u8,
    {
        Tile { code: 38 }
    }

    /// The plum flower face, code 39.
    pub fn plum() -> (r: Tile)
        ensures
            r@ == 39u8,
    {
        Tile { code: 39 }
    }

    /// The orchid flower face, code 40.
    pub fn orchid() -> (r: Tile)
        ensures
            r@ == 40u8,
    {
        Tile { code: 40 }
    }

    /// The chrysanthemum flower face, code 41.
    pub fn chrysanthemum() -> (r: Tile)
        ensures
            r@ == 41u8,
    {
        Tile { code: 41 }
    }

    /// The bamboo flower face, code 42.
    pub fn bamboo() -> (r: Tile)
        ensures
            r@ == 42u8,
    {
        Tile { code: 42 }
    }

    /// Creates a tile from its one-based code; `None` unless `code` is in `1..=64`.
    pub fn from_code(code: u8) -> (r: Option<Tile>)
        ensures
            r is Some <==> 1 <= code <= 64,
            r matches Some(t) ==> t@ == code,
    {
        if code > Self::MAX_CODE || code < Self::MIN_CODE {
            None
        } else {
            Some(Tile { code })
        }
    }

    /// Returns the one-based code.
    pub fn code(self) -> (r: u8)
        ensures
            r == self@,
            1 <= r <= 64,
    {
        proof {
            use_type_invariant(self);
        }
        self.code
    }

    /// Whether the code is one of the standard faces `1..=42`.
    pub fn is_standard(self) -> (r: bool)
        ensures
            r == (self@ <= 42),
    {
        self.code() <= Self::STANDARD_MAX_CODE
    }

    /// Whether the code is one of the extension slots `43..=64`.
    pub fn is_extension(self) -> (r: bool)
        ensures
            r == (self@ >= 43),
    {
        self.code() >= Self::EXTENSION_MIN_CODE
    }

    /// The set that holds only this tile.
    pub fn to_mask(self) -> (r: TileMask)
        ensures
            r@ == set![self@],
    {
        TileMask::from_tile(self)
    }

    /// The zero-based compact index `code - 1`, in `0..=63`.
    pub fn index(self) -> (r: usize)
        ensures
            r == self@ - 1,
            r < 64,
    {
        (self.code() - 1) as usize
    }

    /// Creates a tile from its zero-based compact index; `None` unless `index < 64`.
    pub fn from_index(index: usize) -> (r: Option<Tile>)
        ensures
            r is Some <==> index < 64,
            r matches Some(t) ==> t@ == index + 1,
    {
        if index >= Self::CAPACITY {
            return None;
        }
        Self::from_code((index + 1) as u8)
    }
}

/// The codes of a sequence of tiles, in order.
pub open spec fn codes(tiles: Seq<Tile>) -> Seq<u8> {
    tiles.map_values(|t: Tile| t@)
}

/// Number of tiles in a sequence whose code is `code`.
pub open spec fn count_code(tiles: Seq<Tile>, code: u8) -> nat
    decreases tiles.len(),
{
    if tiles.len() == 0 {
        0
    } else {
        count_code(tiles.drop_last(), code) + if tiles.last()@ == code { 1nat } else { 0nat }
    }
}

/// Appending one tile adds one to its own count and leaves the others unchanged.
pub proof fn lemma_count_code_push(tiles: Seq<Tile>, tile: Tile, code: u8)
    ensures
        count_code(tiles.push(tile), code) == count_code(tiles, code) + if tile@ == code {
            1nat
        } else {
            0nat
        },
{
    assert(tiles.push(tile).drop_last() =~= tiles);
}

/// The exact number of copies of `tile` in a slice.
pub fn count_in(tiles: &[Tile], tile: Tile) -> (r: usize)
    ensures
        r == count_code(tiles@, tile@),
{
    let mut count: usize = 0;
    let mut i: usize = 0;
    while i < tiles.len()
        invariant
            i <= tiles@.len(),
            count == count_code(tiles@.take(i as int), tile@),
            count <= i,
        decreases tiles@.len() - i,
    {
        proof {
            assert(tiles@.take(i as int + 1).drop_last() =~= tiles@.take(i as int));
        }
        if tiles[i].code() == tile.code() {
            count += 1;
        }
        i += 1;
    }
    proof {
        assert(tiles@.take(tiles@.len() as int) =~= tiles@);
    }
    count
}

/// Two tiles are equal exactly when their codes are.
pub proof fn lemma_tile_eq(a: Tile, b: Tile)
    ensures
        (a == b) == (a@ == b@),
{
}

/// Two tile sequences with the same codes are the same sequence.
pub proof fn lemma_codes_injective(a: Seq<Tile>, b: Seq<Tile>)
    requires
        codes(a) == codes(b),
    ensures
        a == b,
{
    assert(a.len() == codes(a).len() && b.len() == codes(b).len());
    assert forall|i: int| 0 <= i < a.len() implies a[i] == b[i] by {
        assert(codes(a)[i] == a[i]@ && codes(b)[i] == b[i]@);
        lemma_tile_eq(a[i], b[i]);
    }
    assert(a =~= b);
}

/// The set of codes that occur in a sequence of tiles.
pub open spec fn code_set(tiles: Seq<Tile>) -> Set<u8> {
    Set::new(|c: u8| exists|i: int| 0 <= i < tiles.len() && #[trigger] tiles[i]@ == c)
}

} // verus!
