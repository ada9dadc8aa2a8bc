use vstd::prelude::*;

verus! {

/// A set of the eight compass directions around a tile, one bit each:
///
/// ```text
/// 1  2  4
/// 8  T  16
/// 32 64 128
/// ```
#[derive(Clone, Copy, Debug, PartialEq, Eq, Structural)]
pub struct NeighborMask(pub u8);

impl NeighborMask {
    pub const EMPTY: u8 = 0;
    pub const TOP_LEFT: u8 = 1;
    pub const TOP: u8 = 2;
    pub const TOP_RIGHT: u8 = 4;
    pub const LEFT: u8 = 8;
    pub const RIGHT: u8 = 16;
    pub const BOT_LEFT: u8 = 32;
    pub const BOT: u8 = 64;
    pub const BOT_RIGHT: u8 = 128;

    /// Whether the two masks share a direction.
    pub fn is(&self, other: &NeighborMask) -> (r: bool)
        ensures
            r == (self.0 & other.0 != 0),
    {
        self.0 & other.0 != 0
    }

    /// The directions in either mask.
    pub fn union(self, rhs: NeighborMask) -> (r: NeighborMask)
        ensures
            r.0 == self.0 | rhs.0,
    {
        NeighborMask(self.0 | rhs.0)
    }

    /// The directions in both masks.
    pub fn intersection(self, rhs: NeighborMask) -> (r: NeighborMask)
        ensures
            r.0 == self.0 & rhs.0,
    {
        NeighborMask(self.0 & rhs.0)
    }
}

/// Tiles along each axis of the logical grid.
pub const SIZE: usize = 256;

/// Tiles along each axis of the stored grid: one cell of padding on every side.
pub const SIZE_PAD: usize = 258;

/// Cells in the stored grid.
pub const SIZE_PAD_SQ: usize = 66564;

/// The bit of direction `d`, in the order top-left, top, top-right, left,
/// right, bottom-left, bottom, bottom-right.
pub open spec fn dir_bit(d: int) -> u8 {
    if d == 0 {
        1
    } else if d == 1 {
        2
    } else if d == 2 {
        4
    } else if d == 3 {
        8
    } else if d == 4 {
        16
    } else if d == 5 {
        32
    } else if d == 6 {
        64
    } else {
        128
    }
}

/// The horizontal step of direction `d`.
pub open spec fn dir_dx(d: int) -> int {
    if d == 0 || d == 3 || d == 5 {
        -1
    } else if d == 1 || d == 6 {
        0
    } else {
        1
    }
}

/// The vertical step of direction `d`.
pub open spec fn dir_dy(d: int) -> int {
    if d <= 2 {
        -1
    } else if d <= 4 {
        0
    } else {
        1
    }
}

/// The bit of direction `d` and its steps along each axis, each plus one.
fn direction(d: usize) -> (r: (u8, usize, usize))
    requires
        d < 8,
    ensures
        r.0 == dir_bit(d as int),
        r.1 == dir_dx(d as int) + 1,
        r.2 == dir_dy(d as int) + 1,
{
    match d {
        0 => (NeighborMask::TOP_LEFT, 0, 0),
        1 => (NeighborMask::TOP, 1, 0),
        2 => (NeighborMask::TOP_RIGHT, 2, 0),
        3 => (NeighborMask::LEFT, 0, 1),
        4 => (NeighborMask::RIGHT, 2, 1),
        5 => (NeighborMask::BOT_LEFT, 0, 2),
        6 => (NeighborMask::BOT, 1, 2),
        _ => (NeighborMask::BOT_RIGHT, 2, 2),
    }
}

/// Distinct positions of the padded grid are stored at distinct indices.
proof fn lemma_index_distinct(a: int, b: int, x: int, y: int)
    requires
        -1 <= a <= 256,
        -1 <= b <= 256,
        -1 <= x <= 256,
        -1 <= y <= 256,
        a != x || b != y,
    ensures
        (a + 1) * 258 + (b + 1) != (x + 1) * 258 + (y + 1),
        0 <= (a + 1) * 258 + (b + 1) < 66564,
{
    assert((a + 1) * 258 + (b + 1) != (x + 1) * 258 + (y + 1)) by (nonlinear_arith)
        requires
            0 <= a + 1 < 258,
            0 <= b + 1 < 258,
            0 <= x + 1 < 258,
            0 <= y + 1 < 258,
            a != x || b != y,
    ;
    assert(0 <= (a + 1) * 258 + (b + 1) < 66564) by (nonlinear_arith)
        requires
            0 <= a + 1 < 258,
            0 <= b + 1 < 258,
    ;
}

/// Whether `f` returns `true` on `t`.
pub open spec fn accepts<Tile, F: Fn(&Tile) -> bool>(f: F, t: Tile) -> bool {
    f.ensures((&t,), true)
}

/// A `SIZE` x `SIZE` grid of tiles, stored with one cell of padding on every
/// side so that the neighbours of any tile of the grid can be read without
/// bounds checks.
pub struct TileMap<Tile> {
    map: Vec<Tile>,
}

impl<Tile> TileMap<Tile> {
    /// The stored cells, row by row along `x`.
    pub closed spec fn cells(&self) -> Seq<Tile> {
        self.map@
    }

    pub open spec fn wf(&self) -> bool {
        self.cells().len() == SIZE_PAD_SQ
    }

    /// The tile at logical position (`x`, `y`); the padding lies at -1 and
    /// `SIZE` on each axis.
    pub open spec fn at(&self, x: int, y: int) -> Tile {
        self.cells()[(x + 1) * SIZE_PAD + (y + 1)]
    }

    /// Whether (`x`, `y`) is a logical position, padding included.
    pub open spec fn in_padded(x: int, y: int) -> bool {
        -1 <= x <= SIZE && -1 <= y <= SIZE
    }

    /// The mask of the first `k` neighbours of (`x`, `y`) that satisfy `p`.
    pub open spec fn mask_upto<F: Fn(&Tile) -> bool>(&self, x: int, y: int, p: F, k: int) -> u8
        decreases k,
    {
        if k <= 0 {
            0
        } else {
            self.mask_upto(x, y, p, k - 1) | (if accepts(
                p,
                self.at(x + dir_dx(k - 1), y + dir_dy(k - 1)),
            ) {
                dir_bit(k - 1)
            } else {
                0
            })
        }
    }

    /// The mask of all neighbours of (`x`, `y`) that satisfy `p`.
    pub open spec fn neighbor_mask<F: Fn(&Tile) -> bool>(&self, x: int, y: int, p: F) -> u8 {
        self.mask_upto(x, y, p, 8)
    }

    /// Every cell, padding included, holds `fill`.
    pub fn new(fill: Tile) -> (r: Self) where Tile: Copy
        ensures
            r.wf(),
            forall|x: int, y: int| Self::in_padded(x, y) ==> r.at(x, y) == fill,
    {
        let mut map: Vec<Tile> = Vec::with_capacity(SIZE_PAD_SQ);
        let mut i: usize = 0;
        while i < SIZE_PAD_SQ
            invariant
                i <= SIZE_PAD_SQ,
                map@.len() == i,
                forall|j: int| 0 <= j < i ==> map@[j] == fill,
            decreases SIZE_PAD_SQ - i,
        {
            map.push(fill);
            i = i + 1;
        }
        let r = TileMap { map };
        assert forall|x: int, y: int| Self::in_padded(x, y) implies r.at(x, y) == fill by {
            assert(0 <= (x + 1) * SIZE_PAD + (y + 1) < SIZE_PAD_SQ) by (nonlinear_arith)
                requires
                    -1 <= x <= 256,
                    -1 <= y <= 256,
            ;
        }
        r
    }

    /// A copy of this map.
    pub fn duplicate(&self) -> (r: Self) where Tile: Copy
        ensures
            r.cells() == self.cells(),
    {
        let mut map: Vec<Tile> = Vec::with_capacity(self.map.len());
        let mut i: usize = 0;
        while i < self.map.len()
            invariant
                i <= self.map@.len(),
                map@ == self.map@.subrange(0, i as int),
            decreases self.map@.len() - i,
        {
            map.push(self.map[i]);
            i = i + 1;
            assert(map@ =~= self.map@.subrange(0, i as int));
        }
        assert(map@ =~= self.map@);
        TileMap { map }
    }

    /// Whether the map has all its cells.
    pub fn is_wf(&self) -> (r: bool)
        ensures
            r == self.wf(),
    {
        self.map.len() == SIZE_PAD_SQ
    }

    /// Tiles along one axis.
    pub fn size(&self) -> (r: usize)
        ensures
            r == SIZE,
    {
        SIZE
    }

    /// The tile at (`x`, `y`).
    pub fn get(&self, x: usize, y: usize) -> (r: &Tile)
        requires
            self.wf(),
            x < SIZE,
            y < SIZE,
        ensures
            *r == self.at(x as int, y as int),
    {
        &self.map[(x + 1) * SIZE_PAD + (y + 1)]
    }

    /// The cell at stored position (`px`, `py`), padding included.
    fn padded(&self, px: usize, py: usize) -> (r: &Tile)
        requires
            self.wf(),
            px < SIZE_PAD,
            py < SIZE_PAD,
        ensures
            *r == self.at(px - 1, py - 1),
    {
        assert(px * SIZE_PAD + py < SIZE_PAD_SQ) by (nonlinear_arith)
            requires
                px < 258,
                py < 258,
        ;
        &self.map[px * SIZE_PAD + py]
    }

    /// A mutable reference to the tile at (`x`, `y`).
    pub fn get_mut(&mut self, x: usize, y: usize) -> (r: &mut Tile)
        requires
            old(self).wf(),
            x < SIZE,
            y < SIZE,
        ensures
            *r == old(self).at(x as int, y as int),
            final(self).cells() == old(self).cells().update(
                (x + 1) * SIZE_PAD + (y + 1),
                *final(r),
            ),
    {
        &mut self.map[(x + 1) * SIZE_PAD + (y + 1)]
    }

    /// Replaces the tile at (`x`, `y`).
    pub fn set(&mut self, x: usize, y: usize, tile: Tile)
        requires
            old(self).wf(),
            x < SIZE,
            y < SIZE,
        ensures
            final(self).wf(),
            final(self).cells() == old(self).cells().update((x + 1) * SIZE_PAD + (y + 1), tile),
            final(self).at(x as int, y as int) == tile,
            forall|a: int, b: int|
                Self::in_padded(a, b) && (a != x || b != y) ==> #[trigger] final(self).at(a, b) == old(
                    self,
                ).at(a, b),
    {
        self.map.set((x + 1) * SIZE_PAD + (y + 1), tile);
        assert forall|a: int, b: int|
            Self::in_padded(a, b) && (a != x || b != y) implies #[trigger] self.at(a, b) == old(
            self,
        ).at(a, b) by {
            lemma_index_distinct(a, b, x as int, y as int);
        }
    }

    /// The eight neighbours of (`x`, `y`) with the bit of their direction, in
    /// the order of the bits.
    pub fn iter_neighbors(&self, x: usize, y: usize) -> (r: Vec<(NeighborMask, &Tile)>)
        requires
            self.wf(),
            x < SIZE,
            y < SIZE,
        ensures
            r@.len() == 8,
            forall|d: int|
                0 <= d < 8 ==> (#[trigger] r@[d]).0.0 == dir_bit(d) && *r@[d].1 == self.at(
                    x + dir_dx(d),
                    y + dir_dy(d),
                ),
    {
        let mut r: Vec<(NeighborMask, &Tile)> = Vec::with_capacity(8);
        let mut d: usize = 0;
        while d < 8
            invariant
                d <= 8,
                self.wf(),
                x < SIZE,
                y < SIZE,
                r@.len() == d,
                forall|e: int|
                    0 <= e < d ==> (#[trigger] r@[e]).0.0 == dir_bit(e) && *r@[e].1 == self.at(
                        x + dir_dx(e),
                        y + dir_dy(e),
                    ),
            decreases 8 - d,
        {
            let (bit, pdx, pdy) = direction(d);
            r.push((NeighborMask(bit), self.padded(x + pdx, y + pdy)));
            d = d + 1;
        }
        r
    }

    /// The mask of the neighbours of (`x`, `y`) for which `predicate` holds.
    pub fn filter_neighbors<F: Fn(&Tile) -> bool>(&self, x: usize, y: usize, predicate: F) -> (r:
        NeighborMask)
        requires
            self.wf(),
            x < SIZE,
            y < SIZE,
            forall|t: &Tile| #[trigger] predicate.requires((t,)),
            forall|t: &Tile, a: bool, b: bool|
                predicate.ensures((t,), a) && predicate.ensures((t,), b) ==> a == b,
        ensures
            r.0 == self.neighbor_mask(x as int, y as int, predicate),
    {
        let mut acc: u8 = 0;
        let mut d: usize = 0;
        while d < 8
            invariant
                d <= 8,
                self.wf(),
                x < SIZE,
                y < SIZE,
                forall|t: &Tile| #[trigger] predicate.requires((t,)),
                forall|t: &Tile, a: bool, b: bool|
                    predicate.ensures((t,), a) && predicate.ensures((t,), b) ==> a == b,
                acc == self.mask_upto(x as int, y as int, predicate, d as int),
            decreases 8 - d,
        {
            let (bit, pdx, pdy) = direction(d);
            let tile = self.padded(x + pdx, y + pdy);
            let hit = predicate(tile);
            proof {
                if !hit && accepts(predicate, *tile) {
                    assert(predicate.ensures((tile,), true));
                    assert(predicate.ensures((tile,), false));
                }
            }
            if hit {
                acc = acc | bit;
            } else {
                assert(acc | 0 == acc) by (bit_vector);
            }
            d = d + 1;
        }
        NeighborMask(acc)
    }
}

/// When `p` holds of a single tile, the mask of the tile one step away from
/// it has exactly one bit: that of direction `d`, which points from the
/// queried tile to the single one.
pub proof fn lemma_isolated_tile_mask<Tile, F: Fn(&Tile) -> bool>(
    m: &TileMap<Tile>,
    p: F,
    sx: int,
    sy: int,
    d: int,
)
    requires
        m.wf(),
        0 <= d < 8,
        0 <= sx - dir_dx(d) < SIZE,
        0 <= sy - dir_dy(d) < SIZE,
        forall|x: int, y: int|
            TileMap::<Tile>::in_padded(x, y) ==> (accepts(p, #[trigger] m.at(x, y)) <==> (x == sx && y
                == sy)),
    ensures
        m.neighbor_mask(sx - dir_dx(d), sy - dir_dy(d), p) == dir_bit(d),
{
    let qx = sx - dir_dx(d);
    let qy = sy - dir_dy(d);
    assert forall|e: int| 0 <= e < 8 implies accepts(p, m.at(qx + dir_dx(e), qy + dir_dy(e))) == (e
        == d) by {
        assert(TileMap::<Tile>::in_padded(qx + dir_dx(e), qy + dir_dy(e)));
    }
    assert forall|a: u8| a | 0 == a && 0u8 | a == a by {
        assert(a | 0 == a && 0u8 | a == a) by (bit_vector);
    }
    reveal_with_fuel(TileMap::mask_upto, 9);
}

} // verus!
