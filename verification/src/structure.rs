//! Tile positions, facing directions and the footprint of structures.
use vstd::prelude::*;

verus! {

/// The side of a tile, in pixels.
pub const TILE_SIZE_I: i32 = 32;

/// A tile position on the map.
#[derive(Clone, Copy, PartialEq, Eq, Structural, Debug, Hash)]
pub struct Position {
    pub x: i32,
    pub y: i32,
}

/// One of the four directions a structure can face.
#[derive(Clone, Copy, PartialEq, Eq, Structural, Debug, Hash)]
pub enum Rotation {
    Left,
    Top,
    Right,
    Bottom,
}

/// The unit step `(dx, dy)` of a direction.
pub open spec fn delta_spec(r: Rotation) -> (int, int) {
    match r {
        Rotation::Left => (-1, 0),
        Rotation::Top => (0, -1),
        Rotation::Right => (1, 0),
        Rotation::Bottom => (0, 1),
    }
}

/// The direction after turning a quarter clockwise (screen coordinates):
/// left, top, right, bottom, and round again.
pub open spec fn next_spec(r: Rotation) -> Rotation {
    match r {
        Rotation::Left => Rotation::Top,
        Rotation::Top => Rotation::Right,
        Rotation::Right => Rotation::Bottom,
        Rotation::Bottom => Rotation::Left,
    }
}

/// The direction before `r` in the order left, top, right, bottom.
pub open spec fn prev_spec(r: Rotation) -> Rotation {
    match r {
        Rotation::Left => Rotation::Bottom,
        Rotation::Top => Rotation::Left,
        Rotation::Right => Rotation::Top,
        Rotation::Bottom => Rotation::Right,
    }
}

/// The angle of a direction in quarter turns, counted from right.
pub open spec fn angle_4_spec(r: Rotation) -> int {
    match r {
        Rotation::Left => 2,
        Rotation::Top => 3,
        Rotation::Right => 0,
        Rotation::Bottom => 1,
    }
}

/// Whether a direction points along the x axis.
pub open spec fn is_horizontal_spec(r: Rotation) -> bool {
    r == Rotation::Left || r == Rotation::Right
}

impl Rotation {
    /// The unit step of this direction.
    pub fn delta(&self) -> (ret: (i32, i32))
        ensures
            ret.0 == delta_spec(*self).0,
            ret.1 == delta_spec(*self).1,
    {
        match self {
            Rotation::Left => (-1, 0),
            Rotation::Top => (0, -1),
            Rotation::Right => (1, 0),
            Rotation::Bottom => (0, 1),
        }
    }

    /// The unit step opposite to this direction.
    pub fn delta_inv(&self) -> (ret: (i32, i32))
        ensures
            ret.0 == -delta_spec(*self).0,
            ret.1 == -delta_spec(*self).1,
    {
        let delta = self.delta();
        (-delta.0, -delta.1)
    }

    /// The angle of this direction in degrees, counted clockwise from right.
    pub fn angle_deg(&self) -> (ret: i32)
        ensures
            ret == angle_4_spec(*self) * 90,
    {
        self.angle_4() * 90
    }

    /// The angle of this direction in quarter turns, counted clockwise from
    /// right.
    pub fn angle_4(&self) -> (ret: i32)
        ensures
            ret == angle_4_spec(*self),
    {
        match self {
            Rotation::Left => 2,
            Rotation::Top => 3,
            Rotation::Right => 0,
            Rotation::Bottom => 1,
        }
    }

    pub fn is_horizontal(&self) -> (ret: bool)
        ensures
            ret == is_horizontal_spec(*self),
    {
        match self {
            Rotation::Left | Rotation::Right => true,
            _ => false,
        }
    }

    pub fn is_vertical(&self) -> (ret: bool)
        ensures
            ret == !is_horizontal_spec(*self),
    {
        !self.is_horizontal()
    }

    /// The next direction in the order left, top, right, bottom (wrapping).
    pub fn next(&self) -> (ret: Rotation)
        ensures
            ret == next_spec(*self),
    {
        match self {
            Rotation::Left => Rotation::Top,
            Rotation::Top => Rotation::Right,
            Rotation::Right => Rotation::Bottom,
            Rotation::Bottom => Rotation::Left,
        }
    }

    /// The previous direction in the order left, top, right, bottom
    /// (wrapping).
    pub fn prev(&self) -> (ret: Rotation)
        ensures
            ret == prev_spec(*self),
    {
        match self {
            Rotation::Left => Rotation::Bottom,
            Rotation::Top => Rotation::Left,
            Rotation::Right => Rotation::Top,
            Rotation::Bottom => Rotation::Right,
        }
    }
}

/// Turning is a quarter turn: `next` and `prev` undo each other, four turns
/// come back, each turn rotates the step by a quarter (`(dx, dy)` becomes
/// `(-dy, dx)`) and adds one to the angle, the opposite step is two turns
/// away, and each turn swaps horizontal and vertical.
pub proof fn lemma_rotation_laws(r: Rotation)
    ensures
        prev_spec(next_spec(r)) == r,
        next_spec(prev_spec(r)) == r,
        next_spec(next_spec(next_spec(next_spec(r)))) == r,
        delta_spec(next_spec(r)) == (-delta_spec(r).1, delta_spec(r).0),
        delta_spec(next_spec(next_spec(r))) == (-delta_spec(r).0, -delta_spec(r).1),
        angle_4_spec(next_spec(r)) == (angle_4_spec(r) + 1) % 4,
        is_horizontal_spec(next_spec(r)) == !is_horizontal_spec(r),
{
}

/// The step to the `i`-th neighbour, in the order left, top, right, bottom.
pub open spec fn neighbor_delta(i: int) -> (int, int) {
    if i == 0 {
        (-1, 0)
    } else if i == 1 {
        (0, -1)
    } else if i == 2 {
        (1, 0)
    } else {
        (0, 1)
    }
}

/// Whether `a` is one of the four tiles next to `b`.
pub open spec fn is_neighbor_spec(a: Position, b: Position) -> bool {
    exists|i: int| 0 <= i < 4 && a.x == b.x + neighbor_delta(i).0 && a.y == b.y + neighbor_delta(i).1
}

/// The Chebyshev distance between two positions.
pub open spec fn distance_spec(a: Position, b: Position) -> int {
    let dx = if b.x - a.x >= 0 { b.x - a.x } else { a.x - b.x };
    let dy = if b.y - a.y >= 0 { b.y - a.y } else { a.y - b.y };
    if dx >= dy { dx } else { dy }
}

/// Whether the four neighbours of `p` have coordinates that fit in `i32`.
pub open spec fn inner(p: Position) -> bool {
    i32::MIN < p.x < i32::MAX && i32::MIN < p.y < i32::MAX
}

/// Whether the tiles from `c - reach` to `c + reach` along one axis all
/// have their pixels (32 to a tile) inside `i32`.
pub open spec fn tile_reach(c: int, reach: int) -> bool {
    i32::MIN <= (c - reach) * 32 && (c + reach) * 32 + 31 <= i32::MAX
}

/// Whether the tiles within `reach` of `p` have their pixels inside `i32`.
pub open spec fn within_pixels(p: Position, reach: int) -> bool {
    tile_reach(p.x as int, reach) && tile_reach(p.y as int, reach)
}

impl Position {
    /// Whether the tiles within `reach` of this position have their pixels
    /// inside `i32`.
    pub fn fits_pixels(&self, reach: i32) -> (ret: bool)
        requires
            0 <= reach <= 4,
        ensures
            ret == within_pixels(*self, reach as int),
    {
        let (x, y, r) = (self.x as i64, self.y as i64, reach as i64);
        let lo = i32::MIN as i64;
        let hi = i32::MAX as i64;
        lo <= (x - r) * 32 && (x + r) * 32 + 31 <= hi && lo <= (y - r) * 32 && (y + r) * 32 + 31 <= hi
    }

    pub fn new(x: i32, y: i32) -> (ret: Self)
        ensures
            ret.x == x,
            ret.y == y,
    {
        Position { x, y }
    }

    /// The position of the block of `size` tiles that holds this position,
    /// and the position within that block.
    pub fn div_mod(&self, size: i32) -> (ret: (Position, Position))
        requires
            size != 0,
            size == -1 ==> self.x != i32::MIN && self.y != i32::MIN,
        ensures
            ret.0.x == self.x as int / size as int,
            ret.0.y == self.y as int / size as int,
            ret.1.x == self.x as int % size as int,
            ret.1.y == self.y as int % size as int,
    {
        let dx = self.x.checked_div_euclid(size);
        let dy = self.y.checked_div_euclid(size);
        let mx = self.x.checked_rem_euclid(size);
        let my = self.y.checked_rem_euclid(size);
        proof {
            lemma_euclid_in_range(self.x as int, size as int);
            lemma_euclid_in_range(self.y as int, size as int);
        }
        match (dx, dy, mx, my) {
            (Some(dx), Some(dy), Some(mx), Some(my)) => (Position::new(dx, dy), Position::new(mx, my)),
            _ => (Position::new(0, 0), Position::new(0, 0)),
        }
    }

    /// This position moved by `o`.
    pub fn add(&self, o: (i32, i32)) -> (ret: Position)
        requires
            i32::MIN <= self.x + o.0 <= i32::MAX,
            i32::MIN <= self.y + o.1 <= i32::MAX,
        ensures
            ret.x == self.x + o.0,
            ret.y == self.y + o.1,
    {
        Position { x: self.x + o.0, y: self.y + o.1 }
    }

    /// The Chebyshev distance to `position`: the larger of the distances
    /// along the two axes.
    pub fn distance(&self, position: &Position) -> (ret: i32)
        requires
            -i32::MAX <= position.x - self.x <= i32::MAX,
            -i32::MAX <= position.y - self.y <= i32::MAX,
        ensures
            ret == distance_spec(*self, *position),
    {
        let dx = position.x - self.x;
        let dy = position.y - self.y;
        let ax = if dx >= 0 { dx } else { -dx };
        let ay = if dy >= 0 { dy } else { -dy };
        if ax >= ay { ax } else { ay }
    }

    /// Whether this position is one of the four tiles next to `pos2`
    /// (never the tile itself).
    pub fn is_neighbor(&self, pos2: &Position) -> (ret: bool)
        requires
            inner(*pos2),
        ensures
            ret == is_neighbor_spec(*self, *pos2),
    {
        self.neighbor_index(pos2).is_some()
    }

    /// Which neighbour of `pos2` this position is: 0 left, 1 top, 2 right,
    /// 3 bottom.
    pub fn neighbor_index(&self, pos2: &Position) -> (ret: Option<u32>)
        requires
            inner(*pos2),
        ensures
            match ret {
                Some(i) => i < 4 && self.x == pos2.x + neighbor_delta(i as int).0 && self.y == pos2.y
                    + neighbor_delta(i as int).1,
                None => !is_neighbor_spec(*self, *pos2),
            },
    {
        let rel: [(i32, i32); 4] = [(-1, 0), (0, -1), (1, 0), (0, 1)];
        let mut i: usize = 0;
        while i < 4
            invariant
                i <= 4,
                inner(*pos2),
                rel@ == seq![(-1i32, 0i32), (0i32, -1i32), (1i32, 0i32), (0i32, 1i32)],
                forall|j: int|
                    0 <= j < i ==> !(self.x == pos2.x + neighbor_delta(j).0 && self.y == pos2.y
                        + neighbor_delta(j).1),
            decreases 4 - i,
        {
            let (dx, dy) = rel[i];
            let pos = Position { x: pos2.x + dx, y: pos2.y + dy };
            if *self == pos {
                return Some(i as u32);
            }
            i = i + 1;
        }
        None
    }
}

proof fn lemma_euclid_in_range(v: int, size: int)
    requires
        i32::MIN <= v <= i32::MAX,
        size != 0,
        i32::MIN <= size <= i32::MAX,
        size == -1 ==> v != i32::MIN,
    ensures
        i32::MIN <= v / size <= i32::MAX,
        0 <= v % size < if size > 0 { size } else { -size },
{
    assert(i32::MIN <= v / size <= i32::MAX) by (nonlinear_arith)
        requires
            i32::MIN <= v <= i32::MAX,
            size != 0,
            i32::MIN <= size <= i32::MAX,
            size == -1 ==> v != i32::MIN;
}

/// The neighbours of a tile, in index order, are its tiles to the left, top,
/// right and bottom: the steps of the four directions; each is at distance
/// one.
pub proof fn lemma_neighbors_are_rotation_steps(i: int, a: Position, b: Position)
    requires
        0 <= i < 4,
        a.x == b.x + neighbor_delta(i).0,
        a.y == b.y + neighbor_delta(i).1,
    ensures
        neighbor_delta(i) == delta_spec(
            if i == 0 {
                Rotation::Left
            } else if i == 1 {
                Rotation::Top
            } else if i == 2 {
                Rotation::Right
            } else {
                Rotation::Bottom
            },
        ),
        is_neighbor_spec(a, b),
        distance_spec(a, b) == 1,
        a != b,
{
}

/// The footprint of a structure in tiles.
pub struct Size {
    pub width: i32,
    pub height: i32,
}

/// A rectangle of tiles, `x0 <= x < x1` and `y0 <= y < y1`.
#[derive(Clone, Copy, PartialEq, Eq, Structural, Debug)]
pub struct BoundingBox {
    pub x0: i32,
    pub y0: i32,
    pub x1: i32,
    pub y1: i32,
}

/// Whether a rectangle holds a tile.
pub open spec fn bb_contains(bb: BoundingBox, pos: Position) -> bool {
    bb.x0 <= pos.x < bb.x1 && bb.y0 <= pos.y < bb.y1
}

/// The rectangle of a structure of `size` whose top left tile is at
/// `position`.
pub fn bounding_box(position: &Position, size: &Size) -> (ret: BoundingBox)
    requires
        position.x + size.width <= i32::MAX,
        position.y + size.height <= i32::MAX,
        i32::MIN <= position.x + size.width,
        i32::MIN <= position.y + size.height,
    ensures
        ret == (BoundingBox {
            x0: position.x,
            y0: position.y,
            x1: (position.x + size.width) as i32,
            y1: (position.y + size.height) as i32,
        }),
{
    BoundingBox {
        x0: position.x,
        y0: position.y,
        x1: position.x + size.width,
        y1: position.y + size.height,
    }
}

/// Whether the rectangle `bb`, if any, holds `pos`.
pub fn contains(bb: &Option<BoundingBox>, pos: &Position) -> (ret: bool)
    ensures
        ret == match bb {
            Some(b) => bb_contains(*b, *pos),
            None => false,
        },
{
    match bb {
        Some(b) => b.x0 <= pos.x && pos.x < b.x1 && b.y0 <= pos.y && pos.y < b.y1,
        None => false,
    }
}

/// The handle of a structure: its slot and the slot's generation.
#[derive(Clone, Copy, PartialEq, Eq, Structural, Debug, Hash)]
pub struct StructureId {
    pub id: u32,
    pub gen: u32,
}

/// What a structure reports after a step of simulation.
#[derive(Clone, Copy, PartialEq, Eq, Structural, Debug)]
pub enum FrameProcResult {
    Nothing,
    InventoryChanged(Position),
    UpdateResearch,
}

/// What a structure does with an item lying on it.
#[derive(Clone, Copy, PartialEq, Eq, Structural, Debug)]
pub enum ItemResponse {
    Nothing,
    Move(i32, i32),
    Consume,
}

} // verus!
