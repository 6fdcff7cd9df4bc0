//! Axial hex coordinates, the six unit directions, chunk grouping and range
//! queries.

use crate::ordered_map::Key;
use vstd::prelude::*;

verus! {

/// Edge length of a chunk, in tiles.
pub const CHUNK_SIZE: i32 = 16;

/// A position on the hex grid, as an axial pair.
#[derive(Clone, Copy, Debug, PartialEq, Eq, Structural)]
pub struct TileCoord {
    pub q: i32,
    pub r: i32,
}

/// A chunk of `CHUNK_SIZE` by `CHUNK_SIZE` tiles, named by its position on the
/// chunk grid.
#[derive(Clone, Copy, Debug, PartialEq, Eq, Structural)]
pub struct ChunkCoord {
    pub q: i32,
    pub r: i32,
}

/// All coordinates within `radius` steps of `center`.
#[derive(Clone, Copy, Debug, PartialEq, Eq, Structural)]
pub struct CullingRange {
    pub center: TileCoord,
    pub radius: u32,
}

/// Absolute value on mathematical integers.
pub open spec fn abs(x: int) -> int {
    if x < 0 {
        -x
    } else {
        x
    }
}

/// Whether `x` is representable as a coordinate component.
pub open spec fn fits_i32(x: int) -> bool {
    i32::MIN <= x <= i32::MAX
}

/// Number of steps between two axial positions.
pub open spec fn hex_distance(aq: int, ar: int, bq: int, br: int) -> int {
    let dq = abs(aq - bq);
    let dr = abs(ar - br);
    let ds = abs((aq - bq) + (ar - br));
    if dq >= dr && dq >= ds {
        dq
    } else if dr >= ds {
        dr
    } else {
        ds
    }
}

/// The `i`-th unit direction, clockwise from the top right.
pub open spec fn direction(i: int) -> TileCoord {
    if i == 0 {
        TileCoord { q: 1, r: (-1) as i32 }
    } else if i == 1 {
        TileCoord { q: 1, r: 0 }
    } else if i == 2 {
        TileCoord { q: 0, r: 1 }
    } else if i == 3 {
        TileCoord { q: (-1) as i32, r: 1 }
    } else if i == 4 {
        TileCoord { q: (-1) as i32, r: 0 }
    } else {
        TileCoord { q: 0, r: (-1) as i32 }
    }
}

impl TileCoord {
    /// The origin.
    pub fn zero() -> (c: TileCoord)
        ensures
            c == (TileCoord { q: 0, r: 0 }),
    {
        TileCoord { q: 0, r: 0 }
    }

    /// The unit step to the top right.
    pub fn top_right() -> (c: TileCoord)
        ensures
            c == (TileCoord { q: 1, r: (-1) as i32 }),
    {
        TileCoord { q: 1, r: -1 }
    }

    /// The unit step to the right.
    pub fn right() -> (c: TileCoord)
        ensures
            c == (TileCoord { q: 1, r: 0 }),
    {
        TileCoord { q: 1, r: 0 }
    }

    /// The unit step to the bottom right.
    pub fn bottom_right() -> (c: TileCoord)
        ensures
            c == (TileCoord { q: 0, r: 1 }),
    {
        TileCoord { q: 0, r: 1 }
    }

    /// The unit step to the bottom left.
    pub fn bottom_left() -> (c: TileCoord)
        ensures
            c == (TileCoord { q: (-1) as i32, r: 1 }),
    {
        TileCoord { q: -1, r: 1 }
    }

    /// The unit step to the left.
    pub fn left() -> (c: TileCoord)
        ensures
            c == (TileCoord { q: (-1) as i32, r: 0 }),
    {
        TileCoord { q: -1, r: 0 }
    }

    /// The unit step to the top left.
    pub fn top_left() -> (c: TileCoord)
        ensures
            c == (TileCoord { q: 0, r: (-1) as i32 }),
    {
        TileCoord { q: 0, r: -1 }
    }

    /// The coordinate with the components `q` and `r`.
    pub fn new(q: i32, r: i32) -> (c: TileCoord)
        ensures
            c.q == q,
            c.r == r,
    {
        TileCoord { q, r }
    }

    /// The componentwise sum, as a mathematical pair.
    pub open spec fn sum(self, other: TileCoord) -> (int, int) {
        (self.q + other.q, self.r + other.r)
    }

    /// The componentwise difference, as a mathematical pair.
    pub open spec fn difference(self, other: TileCoord) -> (int, int) {
        (self.q - other.q, self.r - other.r)
    }

    /// Whether `self + other` is a coordinate.
    pub open spec fn can_add(self, other: TileCoord) -> bool {
        fits_i32(self.q + other.q) && fits_i32(self.r + other.r)
    }

    /// Whether `self - other` is a coordinate.
    pub open spec fn can_sub(self, other: TileCoord) -> bool {
        fits_i32(self.q - other.q) && fits_i32(self.r - other.r)
    }

    /// `self + other`, or `None` where a component leaves the `i32` range.
    pub fn checked_add(self, other: TileCoord) -> (out: Option<TileCoord>)
        ensures
            out is Some <==> self.can_add(other),
            out matches Some(c) ==> c.q == self.q + other.q && c.r == self.r + other.r,
    {
        let q: i64 = self.q as i64 + other.q as i64;
        let r: i64 = self.r as i64 + other.r as i64;
        if q < i32::MIN as i64 || q > i32::MAX as i64 || r < i32::MIN as i64 || r > i32::MAX as i64 {
            None
        } else {
            Some(TileCoord { q: q as i32, r: r as i32 })
        }
    }

    /// `self - other`, or `None` where a component leaves the `i32` range.
    pub fn checked_sub(self, other: TileCoord) -> (out: Option<TileCoord>)
        ensures
            out is Some <==> self.can_sub(other),
            out matches Some(c) ==> c.q == self.q - other.q && c.r == self.r - other.r,
    {
        let q: i64 = self.q as i64 - other.q as i64;
        let r: i64 = self.r as i64 - other.r as i64;
        if q < i32::MIN as i64 || q > i32::MAX as i64 || r < i32::MIN as i64 || r > i32::MAX as i64 {
            None
        } else {
            Some(TileCoord { q: q as i32, r: r as i32 })
        }
    }

    /// Componentwise sum.
    pub fn add(self, other: TileCoord) -> (c: TileCoord)
        requires
            self.can_add(other),
        ensures
            c.q == self.q + other.q,
            c.r == self.r + other.r,
    {
        TileCoord { q: self.q + other.q, r: self.r + other.r }
    }

    /// Componentwise difference.
    pub fn sub(self, other: TileCoord) -> (c: TileCoord)
        requires
            self.can_sub(other),
        ensures
            c.q == self.q - other.q,
            c.r == self.r - other.r,
    {
        TileCoord { q: self.q - other.q, r: self.r - other.r }
    }

    /// The number of steps from `self` to `other`.
    pub fn distance(self, other: TileCoord) -> (d: u64)
        ensures
            d == hex_distance(self.q as int, self.r as int, other.q as int, other.r as int),
    {
        let dq: i64 = self.q as i64 - other.q as i64;
        let dr: i64 = self.r as i64 - other.r as i64;
        let ds: i64 = dq + dr;
        let aq: i64 = if dq < 0 { -dq } else { dq };
        let ar: i64 = if dr < 0 { -dr } else { dr };
        let az: i64 = if ds < 0 { -ds } else { ds };
        if aq >= ar && aq >= az {
            aq as u64
        } else if ar >= az {
            ar as u64
        } else {
            az as u64
        }
    }

    /// Whether `other` is one step away from `self`.
    pub fn is_neighbor(self, other: TileCoord) -> (b: bool)
        ensures
            b == (hex_distance(self.q as int, self.r as int, other.q as int, other.r as int) == 1),
    {
        self.distance(other) == 1
    }

    /// Which of the six unit directions `self` is, counted clockwise from the
    /// top right.
    pub fn direction_index(self) -> (out: Option<usize>)
        ensures
            out matches Some(i) ==> i < 6 && self == direction(i as int),
            out is None ==> forall|i: int| 0 <= i < 6 ==> self != direction(i),
    {
        if self.q == 1 && self.r == -1 {
            Some(0)
        } else if self.q == 1 && self.r == 0 {
            Some(1)
        } else if self.q == 0 && self.r == 1 {
            Some(2)
        } else if self.q == -1 && self.r == 1 {
            Some(3)
        } else if self.q == -1 && self.r == 0 {
            Some(4)
        } else if self.q == 0 && self.r == -1 {
            Some(5)
        } else {
            None
        }
    }

    /// How far a tile that points in the direction `self` is turned, in
    /// degrees: sixty for each step clockwise from the top right, counted
    /// negative. `None` where `self` is no unit direction.
    pub fn rotation_degrees(self) -> (out: Option<i32>)
        ensures
            out matches Some(degrees) ==> exists|i: int|
                0 <= i < 6 && self == direction(i) && degrees == -60 * i,
            out is None ==> forall|i: int| 0 <= i < 6 ==> self != direction(i),
    {
        match self.direction_index() {
            Some(i) => {
                let degrees: i32 = -60 * (i as i32);
                assert(self == direction(i as int) && degrees == -60 * (i as int));
                Some(degrees)
            },
            None => None,
        }
    }

    /// The six unit directions, clockwise from the top right.
    pub fn directions() -> (out: Vec<TileCoord>)
        ensures
            out@.len() == 6,
            forall|i: int| 0 <= i < 6 ==> out@[i] == direction(i),
    {
        let mut out: Vec<TileCoord> = Vec::new();
        out.push(TileCoord { q: 1, r: -1 });
        out.push(TileCoord { q: 1, r: 0 });
        out.push(TileCoord { q: 0, r: 1 });
        out.push(TileCoord { q: -1, r: 1 });
        out.push(TileCoord { q: -1, r: 0 });
        out.push(TileCoord { q: 0, r: -1 });
        out
    }

    /// The neighbours of `self` that are coordinates, in the order of
    /// `directions`, each with the index of its direction.
    pub fn neighbors(self) -> (out: Vec<(usize, TileCoord)>)
        ensures
            forall|k: int| 0 <= k < out@.len() ==> {
                &&& 0 <= (#[trigger] out@[k]).0 < 6
                &&& self.can_add(direction(out@[k].0 as int))
                &&& out@[k].1.q == self.q + direction(out@[k].0 as int).q
                &&& out@[k].1.r == self.r + direction(out@[k].0 as int).r
            },
            forall|k: int, l: int| 0 <= k < l < out@.len() ==> out@[k].0 < out@[l].0,
            forall|i: int|
                0 <= i < 6 && self.can_add(direction(i)) ==> exists|k: int|
                    0 <= k < out@.len() && (#[trigger] out@[k]).0 == i,
    {
        let dirs = TileCoord::directions();
        let mut out: Vec<(usize, TileCoord)> = Vec::new();
        let mut i: usize = 0;
        while i < 6
            invariant
                i <= 6,
                dirs@.len() == 6,
                forall|j: int| 0 <= j < 6 ==> dirs@[j] == direction(j),
                forall|k: int| 0 <= k < out@.len() ==> {
                    &&& 0 <= (#[trigger] out@[k]).0 < i
                    &&& self.can_add(direction(out@[k].0 as int))
                    &&& out@[k].1.q == self.q + direction(out@[k].0 as int).q
                    &&& out@[k].1.r == self.r + direction(out@[k].0 as int).r
                },
                forall|k: int, l: int| 0 <= k < l < out@.len() ==> out@[k].0 < out@[l].0,
                forall|j: int|
                    0 <= j < i && self.can_add(direction(j)) ==> exists|k: int|
                        0 <= k < out@.len() && (#[trigger] out@[k]).0 == j,
            decreases 6 - i,
        {
            let ghost before = out@;
            match self.checked_add(dirs[i]) {
                Some(c) => {
                    out.push((i, c));
                    assert(out@[before.len() as int].0 == i);
                    assert forall|j: int|
                        0 <= j < i + 1 && self.can_add(direction(j)) implies exists|k: int|
                        0 <= k < out@.len() && (#[trigger] out@[k]).0 == j by {
                        if j < i {
                            let k = choose|k: int| 0 <= k < before.len() && (#[trigger] before[k]).0 == j;
                            assert(out@[k].0 == j);
                        } else {
                            assert(out@[before.len() as int].0 == j);
                        }
                    }
                },
                None => {},
            }
            i = i + 1;
        }
        out
    }

}

impl Key for TileCoord {
    /// Coordinates ascend first by `q`, then by `r`.
    open spec fn key_rank(&self) -> int {
        (self.q + 0x8000_0000) * 0x1_0000_0000 + (self.r + 0x8000_0000)
    }

    proof fn rank_is_injective(a: Self, b: Self) {
    }

    fn key_before(&self, other: &Self) -> (b: bool) {
        self.q < other.q || (self.q == other.q && self.r < other.r)
    }
}

impl ChunkCoord {
    /// The chunk that holds `tile`.
    pub fn from_tile(tile: TileCoord) -> (c: ChunkCoord)
        ensures
            c.contains(tile),
            c.q == tile.q as int / CHUNK_SIZE as int,
            c.r == tile.r as int / CHUNK_SIZE as int,
    {
        ChunkCoord { q: floor_div_chunk(tile.q), r: floor_div_chunk(tile.r) }
    }

    /// Whether `tile` lies in this chunk.
    pub open spec fn contains(self, tile: TileCoord) -> bool {
        &&& self.q * CHUNK_SIZE <= tile.q < self.q * CHUNK_SIZE + CHUNK_SIZE
        &&& self.r * CHUNK_SIZE <= tile.r < self.r * CHUNK_SIZE + CHUNK_SIZE
    }

    /// Whether `tile` lies in this chunk.
    pub fn holds(self, tile: TileCoord) -> (b: bool)
        ensures
            b == self.contains(tile),
    {
        let c = ChunkCoord::from_tile(tile);
        c.q == self.q && c.r == self.r
    }
}

/// The quotient of a coordinate component by the chunk size, rounded down.
fn floor_div_chunk(x: i32) -> (d: i32)
    ensures
        d == x as int / CHUNK_SIZE as int,
        d * CHUNK_SIZE <= x < d * CHUNK_SIZE + CHUNK_SIZE,
{
    let shifted: u64 = (x as i64 + 0x8000_0000) as u64;
    let cell: u64 = shifted / 16;
    (cell as i64 - 0x800_0000) as i32
}

impl CullingRange {
    /// The range of `radius` steps around `center`.
    pub fn new(center: TileCoord, radius: u32) -> (range: CullingRange)
        ensures
            range.center == center,
            range.radius == radius,
    {
        CullingRange { center, radius }
    }

    /// Whether `coord` lies within the range.
    pub open spec fn contains(self, coord: TileCoord) -> bool {
        hex_distance(
            self.center.q as int,
            self.center.r as int,
            coord.q as int,
            coord.r as int,
        ) <= self.radius
    }

    /// Whether `coord` lies within the range.
    pub fn is_in_bounds(self, coord: TileCoord) -> (b: bool)
        ensures
            b == self.contains(coord),
    {
        self.center.distance(coord) <= self.radius as u64
    }
}

} // verus!
