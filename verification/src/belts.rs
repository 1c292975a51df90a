//! How belts, splitters and underground belts move items, in pixel
//! coordinates.
use crate::structure::{
    within_pixels,
    delta_spec, is_horizontal_spec, next_spec, BoundingBox, ItemResponse, Position, Rotation, TILE_SIZE_I,
};
use vstd::prelude::*;

verus! {

/// The centre of the tile row or column that pixel coordinate `v` lies in.
pub open spec fn tile_center(v: int) -> int {
    (v / 32) * 32 + 16
}

/// The tile that pixel coordinate `v` lies in.
pub open spec fn tile_of(v: int) -> int {
    v / 32
}

/// Whether pixel coordinates are far enough from the ends of `i32` for
/// the belt arithmetic.
pub open spec fn pixel_in_range(v: int) -> bool {
    i32::MIN + 64 <= v <= i32::MAX - 64
}

/// The centre of the tile that pixel coordinate `v` lies in.
fn center_of_tile(v: i32) -> (ret: i32)
    requires
        pixel_in_range(v as int),
    ensures
        ret == tile_center(v as int),
{
    let t = v.checked_div_euclid(TILE_SIZE_I);
    proof {
        assert(i32::MIN <= v / 32 <= i32::MAX);
        assert((v as int / 32) * 32 <= v) by (nonlinear_arith);
        assert((v as int / 32) * 32 > v - 32) by (nonlinear_arith);
    }
    match t {
        Some(t) => t * TILE_SIZE_I + TILE_SIZE_I / 2,
        None => 0,
    }
}

/// Where a belt facing `rotation` moves an item at pixel `(x, y)`: one
/// pixel along the belt, centred across it.
pub open spec fn transport_spec(rotation: Rotation, x: int, y: int) -> (int, int) {
    let ax = if !is_horizontal_spec(rotation) { tile_center(x) } else { x };
    let ay = if is_horizontal_spec(rotation) { tile_center(y) } else { y };
    (ax + delta_spec(rotation).0, ay + delta_spec(rotation).1)
}

/// Where a belt facing `rotation` moves an item at pixel `(x, y)`: one
/// pixel along the belt, centred across it.
pub fn transport_item(rotation: Rotation, x: i32, y: i32) -> (ret: (i32, i32))
    requires
        pixel_in_range(x as int),
        pixel_in_range(y as int),
    ensures
        ret.0 == transport_spec(rotation, x as int, y as int).0,
        ret.1 == transport_spec(rotation, x as int, y as int).1,
{
    let (vx, vy) = rotation.delta();
    let ax = if rotation.is_vertical() { center_of_tile(x) } else { x };
    let ay = if rotation.is_horizontal() { center_of_tile(y) } else { y };
    (ax + vx, ay + vy)
}

/// A belt moves an item by one pixel along itself and keeps it on the
/// centre line across itself.
pub proof fn lemma_transport_moves_one_step(rotation: Rotation, x: int, y: int)
    ensures
        ({
            let (mx, my) = transport_spec(rotation, x, y);
            if is_horizontal_spec(rotation) {
                &&& mx == x + delta_spec(rotation).0
                &&& my % 32 == 16
                &&& tile_of(my) == tile_of(y)
            } else {
                &&& my == y + delta_spec(rotation).1
                &&& mx % 32 == 16
                &&& tile_of(mx) == tile_of(x)
            }
        }),
{
    assert(((x / 32) * 32 + 16) % 32 == 16) by (nonlinear_arith);
    assert(((y / 32) * 32 + 16) % 32 == 16) by (nonlinear_arith);
    assert(((x / 32) * 32 + 16) / 32 == x / 32) by (nonlinear_arith);
    assert(((y / 32) * 32 + 16) / 32 == y / 32) by (nonlinear_arith);
}

/// The state of a splitter: which of its two lanes the next item goes to.
pub struct Splitter {
    pub direction: i8,
}

/// Where a splitter at `position` facing `rotation`, sending items to lane
/// `direction`, moves an item at pixel `(x, y)`, and whether the item
/// crosses into the next tile (which switches the lane).
pub open spec fn split_spec(position: Position, rotation: Rotation, direction: int, x: int, y: int) -> ((int, int), bool) {
    let (vx, vy) = delta_spec(rotation);
    let ax = if !is_horizontal_spec(rotation) { tile_center(x) } else { x };
    let ay = if is_horizontal_spec(rotation) { tile_center(y) } else { y };
    let shift = delta_spec(next_spec(rotation));
    if is_horizontal_spec(rotation) {
        if tile_of(ax + 16) != tile_of(ax + vx + 16) {
            ((ax + vx, (position.y + direction * shift.1) * 32 + 16 + vy), true)
        } else {
            ((ax + vx, ay + vy), false)
        }
    } else {
        if tile_of(ay + 16) != tile_of(ay + vy + 16) {
            (((position.x + direction * shift.0) * 32 + 16 + vx, ay + vy), true)
        } else {
            ((ax + vx, ay + vy), false)
        }
    }
}

impl Splitter {
    pub fn new() -> (ret: Self)
        ensures
            ret.direction == 0,
    {
        Splitter { direction: 0 }
    }

    /// Moves an item at pixel `(x, y)` over the splitter at `position`
    /// facing `rotation`: like a belt, except that an item crossing into
    /// the next tile is put on the current lane, and the lane switches.
    pub fn item_response(&mut self, position: Position, rotation: Rotation, x: i32, y: i32) -> (ret: (i32, i32))
        requires
            0 <= old(self).direction <= 1,
            pixel_in_range(x as int),
            pixel_in_range(y as int),
            within_pixels(position, 1),
        ensures
            ({
                let (moved, switch) = split_spec(position, rotation, old(self).direction as int, x as int, y as int);
                &&& ret.0 == moved.0
                &&& ret.1 == moved.1
                &&& final(self).direction == if switch { (old(self).direction + 1) % 2 } else { old(self).direction as int }
            }),
            final(self).direction == if crosses_midline(rotation, x as int, y as int) {
                (old(self).direction + 1) % 2
            } else {
                old(self).direction as int
            },
            0 <= final(self).direction <= 1,
    {
        proof {
            lemma_splitter_lane(position, rotation, self.direction as int, x as int, y as int);
        }
        let (vx, vy) = rotation.delta();
        let mut ax = if rotation.is_vertical() { center_of_tile(x) } else { x };
        let mut ay = if rotation.is_horizontal() { center_of_tile(y) } else { y };
        let half = TILE_SIZE_I / 2;
        let mut postdirection = false;
        let shift_direction = rotation.next().delta();
        let d = self.direction as i32;
        proof {
            assert(-1 <= d * shift_direction.0 <= 1 && -1 <= d * shift_direction.1 <= 1) by (nonlinear_arith)
                requires
                    0 <= d <= 1,
                    -1 <= shift_direction.0 <= 1,
                    -1 <= shift_direction.1 <= 1;
        }
        if rotation.is_horizontal() {
            if (ax + half).checked_div_euclid(TILE_SIZE_I) != (ax + vx + half).checked_div_euclid(TILE_SIZE_I) {
                ay = (position.y + d * shift_direction.1) * TILE_SIZE_I + half;
                postdirection = true;
            }
        } else if (ay + half).checked_div_euclid(TILE_SIZE_I) != (ay + vy + half).checked_div_euclid(TILE_SIZE_I) {
            ax = (position.x + d * shift_direction.0) * TILE_SIZE_I + half;
            postdirection = true;
        }
        if postdirection {
            self.direction = (self.direction + 1) % 2;
        }
        (ax + vx, ay + vy)
    }
}

/// Whether one pixel of travel along `rotation` carries an item at pixel
/// `(x, y)` across the middle of a tile (a multiple of 32 plus 16 along
/// the direction of travel).
pub open spec fn crosses_midline(rotation: Rotation, x: int, y: int) -> bool {
    let along = if is_horizontal_spec(rotation) { x } else { y };
    let step = if is_horizontal_spec(rotation) { delta_spec(rotation).0 } else { delta_spec(rotation).1 };
    (along - 16) / 32 != (along + step - 16) / 32
}

/// The coordinate of pixel `p` along the direction of travel `rotation`.
pub open spec fn along(rotation: Rotation, p: (int, int)) -> int {
    if is_horizontal_spec(rotation) { p.0 } else { p.1 }
}

/// The coordinate of pixel `p` across the direction of travel `rotation`.
pub open spec fn across(rotation: Rotation, p: (int, int)) -> int {
    if is_horizontal_spec(rotation) { p.1 } else { p.0 }
}

/// A splitter, whatever way it faces, moves an item one pixel along, and
/// switches its lane exactly when the item crosses the middle of a tile,
/// putting that item on the centre of the lane's tile: its own tile for
/// lane 0 and the tile beside it for lane 1. An item that does not cross
/// is centred across the tile it is on.
pub proof fn lemma_splitter_lane(position: Position, rotation: Rotation, direction: int, x: int, y: int)
    ensures
        split_spec(position, rotation, direction, x, y).1 == crosses_midline(rotation, x, y),
        crosses_midline(rotation, x, y) ==> {
            let side = delta_spec(next_spec(rotation));
            let lane_tile = if is_horizontal_spec(rotation) { position.y + direction * side.1 } else { position.x + direction * side.0 };
            across(rotation, split_spec(position, rotation, direction, x, y).0) == lane_tile * 32 + 16
        },
        !crosses_midline(rotation, x, y) ==> {
            let a = across(rotation, split_spec(position, rotation, direction, x, y).0);
            let a0 = across(rotation, (x, y));
            a % 32 == 16 && a / 32 == a0 / 32
        },
        along(rotation, split_spec(position, rotation, direction, x, y).0) == along(rotation, (x, y)) + (if is_horizontal_spec(
            rotation,
        ) {
            delta_spec(rotation).0
        } else {
            delta_spec(rotation).1
        }),
{
    let along = if is_horizontal_spec(rotation) { x } else { y };
    assert((along - 16) / 32 == (along + 16) / 32 - 1);
    let step = if is_horizontal_spec(rotation) { delta_spec(rotation).0 } else { delta_spec(rotation).1 };
    assert((along + step - 16) / 32 == (along + step + 16) / 32 - 1);
}

/// Two items crossing the middle of the splitter's tile one after the
/// other switch the lane twice and land on lanes a tile apart, whichever
/// way the splitter faces.
pub proof fn lemma_splitter_alternates(position: Position, rotation: Rotation, direction: int, x: int, y: int)
    requires
        0 <= direction <= 1,
    ensures
        ({
            let (m1, s1) = split_spec(position, rotation, direction, x, y);
            let d2 = if s1 { (direction + 1) % 2 } else { direction };
            let (m2, s2) = split_spec(position, rotation, d2, x, y);
            crosses_midline(rotation, x, y) ==> s1 && s2 && d2 != direction && (across(rotation, m1) - across(rotation, m2) == 32
                || across(rotation, m2) - across(rotation, m1) == 32)
        }),
{
    lemma_splitter_lane(position, rotation, direction, x, y);
    let d2 = (direction + 1) % 2;
    lemma_splitter_lane(position, rotation, d2, x, y);
    if crosses_midline(rotation, x, y) {
        let side = delta_spec(next_spec(rotation));
        if direction == 0 {
            assert(d2 == 1);
            assert(direction * side.0 == 0 && direction * side.1 == 0) by (nonlinear_arith)
                requires
                    direction == 0;
            assert(d2 * side.0 == side.0 && d2 * side.1 == side.1);
        } else {
            assert(d2 == 0);
            assert(direction * side.0 == side.0 && direction * side.1 == side.1) by (nonlinear_arith)
                requires
                    direction == 1;
            assert(d2 * side.0 == 0 && d2 * side.1 == 0);
        }
        match rotation {
            Rotation::Left => {},
            Rotation::Top => {},
            Rotation::Right => {},
            Rotation::Bottom => {},
        }
    }
}

/// The tiles a splitter covers: its own tile and the one beside it, to the
/// right of its direction of travel.
pub open spec fn splitter_bb_spec(position: Position, rotation: Rotation) -> BoundingBox {
    match rotation {
        Rotation::Left => BoundingBox { x0: position.x, y0: (position.y - 1) as i32, x1: (position.x + 1) as i32, y1: (position.y + 1) as i32 },
        Rotation::Top => BoundingBox { x0: position.x, y0: position.y, x1: (position.x + 2) as i32, y1: (position.y + 1) as i32 },
        Rotation::Right => BoundingBox { x0: position.x, y0: position.y, x1: (position.x + 1) as i32, y1: (position.y + 2) as i32 },
        Rotation::Bottom => BoundingBox { x0: (position.x - 1) as i32, y0: position.y, x1: (position.x + 1) as i32, y1: (position.y + 1) as i32 },
    }
}

/// The tiles a splitter at `position` facing `rotation` covers.
pub fn splitter_bounding_box(position: &Position, rotation: &Rotation) -> (ret: BoundingBox)
    requires
        i32::MIN + 2 <= position.x <= i32::MAX - 2,
        i32::MIN + 2 <= position.y <= i32::MAX - 2,
    ensures
        ret == splitter_bb_spec(*position, *rotation),
{
    match rotation {
        Rotation::Left => BoundingBox { x0: position.x, y0: position.y - 1, x1: position.x + 1, y1: position.y + 1 },
        Rotation::Top => BoundingBox { x0: position.x, y0: position.y, x1: position.x + 2, y1: position.y + 1 },
        Rotation::Right => BoundingBox { x0: position.x, y0: position.y, x1: position.x + 1, y1: position.y + 2 },
        Rotation::Bottom => BoundingBox { x0: position.x - 1, y0: position.y, x1: position.x + 1, y1: position.y + 1 },
    }
}

/// Turns a splitter around its covered tiles: it moves one tile to the
/// right of its direction and turns half round.
pub fn splitter_rotate(position: &mut Position, rotation: &mut Rotation)
    requires
        i32::MIN + 1 <= old(position).x <= i32::MAX - 1,
        i32::MIN + 1 <= old(position).y <= i32::MAX - 1,
    ensures
        final(position).x == old(position).x + delta_spec(next_spec(*old(rotation))).0,
        final(position).y == old(position).y + delta_spec(next_spec(*old(rotation))).1,
        *final(rotation) == next_spec(next_spec(*old(rotation))),
{
    let d = rotation.next().delta();
    *position = position.add(d);
    *rotation = rotation.next().next();
}

/// Turning a splitter keeps it on the same two tiles.
pub proof fn lemma_splitter_rotate_keeps_tiles(position: Position, rotation: Rotation)
    requires
        i32::MIN + 4 <= position.x <= i32::MAX - 4,
        i32::MIN + 4 <= position.y <= i32::MAX - 4,
    ensures
        ({
            let p2 = Position {
                x: (position.x + delta_spec(next_spec(rotation)).0) as i32,
                y: (position.y + delta_spec(next_spec(rotation)).1) as i32,
            };
            splitter_bb_spec(p2, next_spec(next_spec(rotation))) == splitter_bb_spec(position, rotation)
        }),
{
}

/// How far `target` lies ahead of `src` along `rotation`, if it lies on the
/// same line (negative when it lies behind).
pub open spec fn under_distance_spec(src: Position, rotation: Rotation, target: Position) -> Option<int> {
    if is_horizontal_spec(rotation) && target.y != src.y {
        None
    } else if !is_horizontal_spec(rotation) && target.x != src.x {
        None
    } else {
        Some(
            match rotation {
                Rotation::Left => src.x - target.x,
                Rotation::Right => target.x - src.x,
                Rotation::Top => src.y - target.y,
                Rotation::Bottom => target.y - src.y,
            },
        )
    }
}

/// How far `target` lies ahead of an underground belt at `src` facing
/// `rotation`, if it lies on the same line.
pub fn under_distance(src: &Position, rotation: &Rotation, target: &Position) -> (ret: Option<i32>)
    requires
        -0x3fff_ffff <= src.x <= 0x3fff_ffff,
        -0x3fff_ffff <= src.y <= 0x3fff_ffff,
        -0x3fff_ffff <= target.x <= 0x3fff_ffff,
        -0x3fff_ffff <= target.y <= 0x3fff_ffff,
    ensures
        match ret {
            Some(d) => under_distance_spec(*src, *rotation, *target) == Some(d as int),
            None => under_distance_spec(*src, *rotation, *target) is None,
        },
{
    let same_line = match rotation {
        Rotation::Left | Rotation::Right => target.y == src.y,
        Rotation::Top | Rotation::Bottom => target.x == src.x,
    };
    if !same_line {
        return None;
    }
    let dx = target.x - src.x;
    let dy = target.y - src.y;
    Some(
        match rotation {
            Rotation::Left => -dx,
            Rotation::Right => dx,
            Rotation::Top => -dy,
            Rotation::Bottom => dy,
        },
    )
}

/// A transport belt at `position` facing `rotation`.
#[derive(Clone, Copy, PartialEq, Eq, Structural, Debug)]
pub struct TransportBelt {
    pub position: Position,
    pub rotation: Rotation,
}

impl TransportBelt {
    pub fn new(position: Position, rotation: Rotation) -> (ret: Self)
        ensures
            ret.position == position,
            ret.rotation == rotation,
    {
        TransportBelt { position, rotation }
    }

    /// Moves an item lying on the belt at pixel `(x, y)` one pixel along it.
    pub fn item_response(&self, x: i32, y: i32) -> (ret: ItemResponse)
        requires
            pixel_in_range(x as int),
            pixel_in_range(y as int),
        ensures
            ret == ItemResponse::Move(transport_spec(self.rotation, x as int, y as int).0 as i32, transport_spec(self.rotation, x as int, y as int).1 as i32),
    {
        let (mx, my) = transport_item(self.rotation, x, y);
        ItemResponse::Move(mx, my)
    }

    /// Items may be dropped on a belt.
    pub fn movable(&self) -> (ret: bool)
        ensures
            ret,
    {
        true
    }

    /// Turns the belt a quarter clockwise.
    pub fn rotate(&mut self)
        ensures
            final(self).rotation == next_spec(old(self).rotation),
            final(self).position == old(self).position,
    {
        self.rotation = self.rotation.next();
    }

    /// Turns the belt to face `rotation`.
    pub fn set_rotation(&mut self, rotation: &Rotation)
        ensures
            final(self).rotation == *rotation,
            final(self).position == old(self).position,
    {
        self.rotation = *rotation;
    }
}

} // verus!
