//! Underground belts: an entrance that swallows items and carries them
//! under the ground to an exit facing it up to four tiles away.
use crate::belts::{transport_spec, under_distance, under_distance_spec};
use crate::inventory::{count_of, lemma_merge_sums, Inventory};
use crate::items::ItemType;
use crate::structure::{delta_spec, next_spec, ItemResponse, Position, Rotation, StructureId};
use vstd::prelude::*;

verus! {

/// How far apart, in tiles, an entrance and its exit may be.
pub const UNDERGROUND_REACH: i32 = 4;

/// How much room, in pixels, an item takes on a belt.
pub const DROP_ITEM_SIZE_I: i32 = 8;

/// Whether an underground belt takes items down or brings them up.
#[derive(Clone, Copy, PartialEq, Eq, Structural, Debug)]
pub enum UnderDirection {
    ToGround,
    ToSurface,
}

/// An underground belt. `items` are the items under way, each with how far
/// (in pixels) it has gone from the entrance; the newest comes first.
pub struct UndergroundBelt {
    pub position: Position,
    pub rotation: Rotation,
    pub direction: UnderDirection,
    pub target: Option<StructureId>,
    pub items: Vec<(i32, ItemType)>,
}

/// Whether a position is far enough inside `i32` for the distance
/// arithmetic of underground belts: the pixel distance between two such
/// positions, and one tile more, fits in `i32`.
pub open spec fn small(p: Position) -> bool {
    -0x100_0000 <= p.x <= 0x100_0000 && -0x100_0000 <= p.y <= 0x100_0000
}

/// Whether a belt at `other_pos` facing `other_rot` can be the far end of
/// `belt`: it faces back at it, on its line, one to four tiles ahead, and
/// no nearer than the current far end at `current` (if any).
pub open spec fn connects(belt: UndergroundBelt, other_pos: Position, other_rot: Rotation, current: Option<Position>) -> bool {
    &&& other_rot == next_spec(next_spec(belt.rotation))
    &&& under_distance_spec(belt.position, belt.rotation, other_pos) matches Some(d) && 1 <= d <= UNDERGROUND_REACH && !(
    current matches Some(cp) && under_distance_spec(belt.position, belt.rotation, cp) matches Some(td) && td < d)
}

/// The tile `k` tiles ahead of `from` along `rotation`, as coordinates.
pub open spec fn tiles_ahead(from: Position, rotation: Rotation, k: int) -> (int, int) {
    (from.x + k * delta_spec(rotation).0, from.y + k * delta_spec(rotation).1)
}

/// The far end of an underground belt lies ahead of it, one to
/// `UNDERGROUND_REACH` tiles along the way it faces, and faces back at it:
/// a belt beside or behind it, or further away, is never its far end; nor
/// is one further ahead than the far end it already has.
pub proof fn lemma_far_end_ahead(belt: UndergroundBelt, other_pos: Position, other_rot: Rotation, current: Option<Position>)
    requires
        connects(belt, other_pos, other_rot, current),
    ensures
        exists|k: int| 1 <= k <= UNDERGROUND_REACH && #[trigger] tiles_ahead(belt.position, belt.rotation, k) == (other_pos.x as int, other_pos.y as int),
        delta_spec(other_rot) == (-delta_spec(belt.rotation).0, -delta_spec(belt.rotation).1),
        forall|k: int, t: int|
            #![trigger tiles_ahead(belt.position, belt.rotation, k), tiles_ahead(belt.position, belt.rotation, t)]
            (current matches Some(cp) && tiles_ahead(belt.position, belt.rotation, t) == (cp.x as int, cp.y as int))
                && tiles_ahead(belt.position, belt.rotation, k) == (other_pos.x as int, other_pos.y as int) ==> k <= t,
{
    let d = under_distance_spec(belt.position, belt.rotation, other_pos)->0;
    assert forall|k: int, t: int|
        #![trigger tiles_ahead(belt.position, belt.rotation, k), tiles_ahead(belt.position, belt.rotation, t)]
        (current matches Some(cp) && tiles_ahead(belt.position, belt.rotation, t) == (cp.x as int, cp.y as int))
            && tiles_ahead(belt.position, belt.rotation, k) == (other_pos.x as int, other_pos.y as int) implies k <= t by {
        let cp = current->0;
        match belt.rotation {
            Rotation::Left => {
                assert(under_distance_spec(belt.position, belt.rotation, cp) == Some(t));
                assert(k == d);
            },
            Rotation::Right => {
                assert(under_distance_spec(belt.position, belt.rotation, cp) == Some(t));
                assert(k == d);
            },
            Rotation::Top => {
                assert(under_distance_spec(belt.position, belt.rotation, cp) == Some(t));
                assert(k == d);
            },
            Rotation::Bottom => {
                assert(under_distance_spec(belt.position, belt.rotation, cp) == Some(t));
                assert(k == d);
            },
        }
    }
    match belt.rotation {
        Rotation::Left => {
            assert(other_pos.x == belt.position.x + d * -1 && other_pos.y == belt.position.y + d * 0);
            assert(tiles_ahead(belt.position, belt.rotation, d) == (other_pos.x as int, other_pos.y as int));
        },
        Rotation::Right => {
            assert(other_pos.x == belt.position.x + d * 1 && other_pos.y == belt.position.y + d * 0);
            assert(tiles_ahead(belt.position, belt.rotation, d) == (other_pos.x as int, other_pos.y as int));
        },
        Rotation::Top => {
            assert(other_pos.x == belt.position.x + d * 0 && other_pos.y == belt.position.y + d * -1);
            assert(tiles_ahead(belt.position, belt.rotation, d) == (other_pos.x as int, other_pos.y as int));
        },
        Rotation::Bottom => {
            assert(other_pos.x == belt.position.x + d * 0 && other_pos.y == belt.position.y + d * 1);
            assert(tiles_ahead(belt.position, belt.rotation, d) == (other_pos.x as int, other_pos.y as int));
        },
    }
}

/// Whether an entrance runs with its far end at `target` (with its
/// direction, if an underground belt): the far end must be an exit on its
/// line.
pub open spec fn feeds_exit(belt: UndergroundBelt, target: Option<(Position, Option<UnderDirection>)>) -> bool {
    belt.direction == UnderDirection::ToGround && match target {
        Some((p, d)) => d is Some && d != Some(belt.direction) && under_distance_spec(belt.position, belt.rotation, p) is Some,
        None => false,
    }
}

/// Whether an exit with its entrance at `target` hands items out: the
/// entrance must be on its line.
pub open spec fn exit_ready(belt: UndergroundBelt, target: Option<Position>) -> bool {
    belt.direction == UnderDirection::ToSurface && match target {
        Some(p) => under_distance_spec(belt.position, belt.rotation, p) is Some,
        None => false,
    }
}

/// Whether entry `k` of `others` is an underground belt that `connects`.
pub open spec fn fits_at(
    belt: UndergroundBelt,
    others: Seq<(StructureId, Option<(Position, Rotation)>)>,
    current: Option<Position>,
    k: int,
) -> bool {
    match others[k].1 {
        Some((p, r)) => connects(belt, p, r, current),
        None => false,
    }
}

/// The position of the first item, from index `i` on, that has gone past
/// `limit` pixels.
pub open spec fn first_past_from(items: Seq<(i32, ItemType)>, limit: int, i: int) -> Option<int>
    decreases items.len() - i,
{
    if i < 0 || i >= items.len() {
        None
    } else if limit < items[i].0 {
        Some(i)
    } else {
        first_past_from(items, limit, i + 1)
    }
}

/// Where item `i` moves in a frame: one pixel on when there is more than
/// an item's room before the next item (or before the far end, for the
/// item furthest on).
pub open spec fn advanced(items: Seq<(i32, ItemType)>, distance: int, i: int) -> (i32, ItemType) {
    let next_pos = if i + 1 < items.len() { items[i + 1].0 as int } else { (distance + 1) * 32 };
    if items[i].0 + DROP_ITEM_SIZE_I < next_pos {
        ((items[i].0 + 1) as i32, items[i].1)
    } else {
        items[i]
    }
}

/// The number of items of kind `t` in `items`.
pub open spec fn count_kind(items: Seq<(i32, ItemType)>, t: ItemType) -> nat
    decreases items.len(),
{
    if items.len() == 0 {
        0
    } else {
        count_kind(items.drop_last(), t) + if items.last().1 == t { 1nat } else { 0nat }
    }
}

proof fn lemma_count_kind_bound(items: Seq<(i32, ItemType)>, t: ItemType)
    ensures
        count_kind(items, t) <= items.len(),
    decreases items.len(),
{
    if items.len() > 0 {
        lemma_count_kind_bound(items.drop_last(), t);
    }
}

proof fn lemma_first_past_from(items: Seq<(i32, ItemType)>, limit: int, i: int)
    requires
        0 <= i,
    ensures
        match first_past_from(items, limit, i) {
            Some(d) => i <= d < items.len() && limit < items[d].0 && forall|j: int| i <= j < d ==> items[j].0 <= limit,
            None => forall|j: int| i <= j < items.len() ==> items[j].0 <= limit,
        },
    decreases items.len() - i,
{
    if i < items.len() && !(limit < items[i].0) {
        lemma_first_past_from(items, limit, i + 1);
    }
}

impl UndergroundBelt {
    /// A belt with nothing under way and no far end.
    pub fn new(x: i32, y: i32, rotation: Rotation, direction: UnderDirection) -> (ret: Self)
        ensures
            ret.position == (Position { x, y }),
            ret.rotation == rotation,
            ret.direction == direction,
            ret.target is None,
            ret.items@ == Seq::<(i32, ItemType)>::empty(),
    {
        UndergroundBelt { position: Position { x, y }, rotation, direction, target: None, items: Vec::new() }
    }

    /// How far `target` lies ahead of this belt, if on its line.
    pub fn distance(&self, target: &Position) -> (ret: Option<i32>)
        requires
            small(self.position),
            small(*target),
        ensures
            match ret {
                Some(d) => under_distance_spec(self.position, self.rotation, *target) == Some(d as int),
                None => under_distance_spec(self.position, self.rotation, *target) is None,
            },
    {
        under_distance(&self.position, &self.rotation, target)
    }

    /// What the belt does with an item lying on it at pixel `(x, y)`: an
    /// entrance with a far end swallows it unless the newest item under way
    /// is still within an item's room of the entrance; an entrance without
    /// far end refuses it; an exit moves it on like a belt facing away from
    /// the entrance.
    pub fn item_response(&mut self, item_type: &ItemType, x: i32, y: i32) -> (ret: Result<ItemResponse, ()>)
        requires
            i32::MIN + 64 <= x <= i32::MAX - 64,
            i32::MIN + 64 <= y <= i32::MAX - 64,
        ensures
            final(self).position == old(self).position,
            final(self).rotation == old(self).rotation,
            final(self).direction == old(self).direction,
            final(self).target == old(self).target,
            old(self).direction == UnderDirection::ToGround ==> if old(self).target is Some && !(old(self).items@.len() > 0
                && old(self).items@[0].0 < DROP_ITEM_SIZE_I) {
                ret == Ok::<ItemResponse, ()>(ItemResponse::Consume) && final(self).items@ == seq![(0i32, *item_type)] + old(self).items@
            } else {
                ret is Err && final(self).items@ == old(self).items@
            },
            old(self).direction == UnderDirection::ToSurface ==> final(self).items@ == old(self).items@ && ({
                let (mx, my) = transport_spec(next_spec(next_spec(old(self).rotation)), x as int, y as int);
                ret == Ok::<ItemResponse, ()>(ItemResponse::Move(mx as i32, my as i32))
            }),
    {
        match self.direction {
            UnderDirection::ToGround => {
                if self.target.is_some() {
                    if self.items.len() > 0 && self.items[0].0 < DROP_ITEM_SIZE_I {
                        return Err(());
                    }
                    self.items.insert(0, (0, *item_type));
                    assert(self.items@ =~= seq![(0i32, *item_type)] + old(self).items@);
                    Ok(ItemResponse::Consume)
                } else {
                    Err(())
                }
            },
            UnderDirection::ToSurface => {
                let (mx, my) = crate::belts::transport_item(self.rotation.next().next(), x, y);
                Ok(ItemResponse::Move(mx, my))
            },
        }
    }

    /// Whether the belt takes items: an entrance does.
    pub fn can_input(&self, _item_type: &ItemType) -> (ret: bool)
        ensures
            ret == (self.direction == UnderDirection::ToGround),
    {
        self.direction == UnderDirection::ToGround
    }

    /// One frame of an entrance whose far end stands at `target` (with its
    /// direction, if it is an underground belt): when the far end is an
    /// exit on the belt's line, every item up to the first one past the
    /// far end moves one pixel on if there is room before the next item,
    /// and the position of that first item past the far end is returned
    /// (the items from there on are to come out at the far end). Exits, and
    /// entrances without a proper far end, do nothing.
    pub fn frame_proc(&mut self, target: Option<(Position, Option<UnderDirection>)>) -> (ret: Option<usize>)
        requires
            small(old(self).position),
            target matches Some((p, _)) ==> small(p),
        ensures
            final(self).position == old(self).position,
            final(self).rotation == old(self).rotation,
            final(self).direction == old(self).direction,
            final(self).target == old(self).target,
            final(self).items@.len() == old(self).items@.len(),
            ({
                if feeds_exit(*old(self), target) {
                    let distance = under_distance_spec(old(self).position, old(self).rotation, (target->0).0)->0;
                    let first = first_past_from(old(self).items@, distance * 32, 0);
                    &&& ret == match first { Some(d) => Some(d as usize), None => None::<usize> }
                    &&& forall|i: int| 0 <= i < old(self).items@.len() ==> #[trigger] final(self).items@[i] == if (first matches Some(d) && i >= d) {
                        old(self).items@[i]
                    } else {
                        advanced(old(self).items@, distance, i)
                    }
                } else {
                    ret is None && final(self).items@ == old(self).items@
                }
            }),
    {
        if self.direction == UnderDirection::ToSurface {
            return None;
        }
        let (tpos, tdir) = match target {
            Some(t) => t,
            None => {
                return None;
            },
        };
        match tdir {
            Some(d) => {
                if d == self.direction {
                    return None;
                }
            },
            None => {
                return None;
            },
        }
        let distance = match self.distance(&tpos) {
            Some(d) => d,
            None => {
                return None;
            },
        };
        let limit = distance * 32;
        let ghost items0 = self.items@;
        proof {
            lemma_first_past_from(items0, limit as int, 0);
            assert(feeds_exit(*old(self), target));
        }
        let mut i: usize = 0;
        while i < self.items.len()
            invariant
                self.items@.len() == items0.len(),
                i <= items0.len(),
                limit == distance * 32,
                -0x200_0000 <= distance <= 0x200_0000,
                forall|j: int| 0 <= j < i ==> items0[j].0 <= limit,
                forall|j: int| 0 <= j < i ==> #[trigger] self.items@[j] == advanced(items0, distance as int, j),
                forall|j: int| i <= j < items0.len() ==> #[trigger] self.items@[j] == items0[j],
                first_past_from(items0, limit as int, 0) == first_past_from(items0, limit as int, i as int),
                items0 == old(self).items@,
                feeds_exit(*old(self), target),
                under_distance_spec(old(self).position, old(self).rotation, (target->0).0) == Some(distance as int),
                self.position == old(self).position,
                self.rotation == old(self).rotation,
                self.direction == old(self).direction,
                self.target == old(self).target,
            decreases items0.len() - i,
        {
            let next_pos: i32 = if i + 1 < self.items.len() {
                self.items[i + 1].0
            } else {
                (distance + 1) * 32
            };
            let (pos, kind) = self.items[i];
            if limit < pos {
                proof {
                    assert(first_past_from(items0, limit as int, i as int) == Some(i as int));
                    assert forall|j: int| 0 <= j < items0.len() implies #[trigger] self.items@[j] == if (Some(i as int) matches Some(d) && j >= d) {
                        items0[j]
                    } else {
                        advanced(items0, distance as int, j)
                    } by {}
                }
                return Some(i);
            } else if pos + DROP_ITEM_SIZE_I < next_pos {
                self.items.set(i, (pos + 1, kind));
            }
            i += 1;
        }
        proof {
            assert(first_past_from(items0, limit as int, i as int) is None);
        }
        None
    }

    /// Takes the item furthest on out of the belt (it came out at the far
    /// end).
    pub fn release_back(&mut self) -> (ret: Option<(i32, ItemType)>)
        ensures
            final(self).position == old(self).position,
            final(self).rotation == old(self).rotation,
            final(self).direction == old(self).direction,
            final(self).target == old(self).target,
            old(self).items@.len() == 0 ==> ret is None && final(self).items@ == old(self).items@,
            old(self).items@.len() > 0 ==> ret == Some(old(self).items@.last()) && final(self).items@ == old(self).items@.drop_last(),
    {
        self.items.pop()
    }

    /// What an exit whose entrance stands at `target` can hand out: one of
    /// each kind that has come past the far end; anything else hands out
    /// nothing.
    pub fn can_output(&self, target: Option<Position>) -> (ret: Inventory)
        requires
            small(self.position),
            target matches Some(p) ==> small(p),
        ensures
            ret@ == if exit_ready(*self, target) {
                let distance = under_distance_spec(self.position, self.rotation, target->0)->0;
                Map::new(
                    |t: ItemType| exists|i: int| 0 <= i < self.items@.len() && distance * 32 < self.items@[i].0 && #[trigger] self.items@[i].1 == t,
                    |t: ItemType| 1usize,
                )
            } else {
                Map::<ItemType, usize>::empty()
            },
    {
        let mut ret = Inventory::new();
        if self.direction == UnderDirection::ToSurface {
            if let Some(p) = target {
                if let Some(distance) = self.distance(&p) {
                    let limit = distance * 32;
                    let ghost m = Map::new(
                        |t: ItemType| exists|i: int| 0 <= i < self.items@.len() && limit < self.items@[i].0 && #[trigger] self.items@[i].1 == t,
                        |t: ItemType| 1usize,
                    );
                    let mut i: usize = 0;
                    while i < self.items.len()
                        invariant
                            i <= self.items@.len(),
                            ret@ == Map::new(
                                |t: ItemType| exists|j: int| 0 <= j < i && limit < self.items@[j].0 && #[trigger] self.items@[j].1 == t,
                                |t: ItemType| 1usize,
                            ),
                        decreases self.items@.len() - i,
                    {
                        let (pos, kind) = self.items[i];
                        let ghost before = ret@;
                        if limit < pos {
                            ret.insert(&kind, 1);
                        }
                        proof {
                            let now = Map::new(
                                |t: ItemType| exists|j: int| 0 <= j < i + 1 && limit < self.items@[j].0 && #[trigger] self.items@[j].1 == t,
                                |t: ItemType| 1usize,
                            );
                            assert forall|t: ItemType| #![trigger now.contains_key(t)] ret@.contains_key(t) == now.contains_key(t) by {
                                if before.contains_key(t) {
                                    let j = choose|j: int| 0 <= j < i && limit < self.items@[j].0 && #[trigger] self.items@[j].1 == t;
                                    assert(0 <= j < i + 1 && limit < self.items@[j].0 && self.items@[j].1 == t);
                                }
                                if now.contains_key(t) {
                                    let j = choose|j: int| 0 <= j < i + 1 && limit < self.items@[j].0 && #[trigger] self.items@[j].1 == t;
                                    if j < i {
                                        assert(before.contains_key(t));
                                    }
                                }
                            }
                            assert(ret@ =~= now);
                        }
                        i += 1;
                    }
                    assert(ret@ =~= m);
                    return ret;
                }
            }
        }
        assert(ret@ =~= Map::<ItemType, usize>::empty());
        ret
    }

    /// Notes a structure built (`construct`) or removed near the belt.
    /// `other` is the position and direction of the structure when it is an
    /// underground belt; `current` is where the present far end stands, if
    /// there is one. A removed far end is forgotten; a built underground belt
    /// that `connects` becomes the far end.
    pub fn on_construction(&mut self, other_id: StructureId, other: Option<(Position, Rotation)>, current: Option<Position>, construct: bool)
        requires
            small(old(self).position),
            other matches Some((p, _)) ==> small(p),
            current matches Some(p) ==> small(p),
        ensures
            final(self).position == old(self).position,
            final(self).rotation == old(self).rotation,
            final(self).direction == old(self).direction,
            final(self).items@ == old(self).items@,
            !construct ==> final(self).target == if old(self).target == Some(other_id) { None } else { old(self).target },
            construct ==> final(self).target == if (other matches Some((p, r)) && connects(*old(self), p, r, current)) {
                Some(other_id)
            } else {
                old(self).target
            },
            construct && final(self).target != old(self).target ==> (other matches Some((p, r)) && exists|k: int|
                1 <= k <= UNDERGROUND_REACH && #[trigger] tiles_ahead(old(self).position, old(self).rotation, k) == (
                    p.x as int,
                    p.y as int,
                )),
    {
        if !construct {
            if self.target == Some(other_id) {
                self.target = None;
            }
            return;
        }
        if let Some((p, r)) = other {
            if self.connects_to(&p, r, current) {
                proof {
                    lemma_far_end_ahead(*self, p, r, current);
                }
                self.target = Some(other_id);
            }
        }
    }

    fn connects_to(&self, p: &Position, r: Rotation, current: Option<Position>) -> (ret: bool)
        requires
            small(self.position),
            small(*p),
            current matches Some(c) ==> small(c),
        ensures
            ret == connects(*self, *p, r, current),
    {
        if r != self.rotation.next().next() {
            return false;
        }
        let d = match self.distance(p) {
            Some(d) => d,
            None => {
                return false;
            },
        };
        if d < 1 || UNDERGROUND_REACH < d {
            return false;
        }
        if let Some(c) = current {
            if let Some(td) = self.distance(&c) {
                if td < d {
                    return false;
                }
            }
        }
        true
    }

    /// Looks for its far end among the structures around a newly built
    /// belt: the first underground belt of `others` that `connects` becomes
    /// it.
    pub fn on_construction_self(&mut self, others: &Vec<(StructureId, Option<(Position, Rotation)>)>, current: Option<Position>)
        requires
            small(old(self).position),
            forall|k: int| 0 <= k < others.len() ==> ((#[trigger] others@[k]).1 matches Some((p, _)) ==> small(p)),
            current matches Some(p) ==> small(p),
        ensures
            final(self).position == old(self).position,
            final(self).rotation == old(self).rotation,
            final(self).direction == old(self).direction,
            final(self).items@ == old(self).items@,
            if exists|k: int| 0 <= k < others.len() && #[trigger] fits_at(*old(self), others@, current, k) {
                exists|k: int| 0 <= k < others.len() && #[trigger] fits_at(*old(self), others@, current, k)
                    && (forall|j: int| 0 <= j < k ==> !#[trigger] fits_at(*old(self), others@, current, j))
                    && final(self).target == Some(others@[k].0)
            } else {
                final(self).target == old(self).target
            },
    {
        let mut k: usize = 0;
        while k < others.len()
            invariant
                small(self.position),
                forall|j: int| 0 <= j < others.len() ==> ((#[trigger] others@[j]).1 matches Some((p, _)) ==> small(p)),
                current matches Some(p) ==> small(p),
                k <= others.len(),
                *self == *old(self),
                forall|j: int| 0 <= j < k ==> !#[trigger] fits_at(*old(self), others@, current, j),
            decreases others.len() - k,
        {
            let (id, other) = others[k];
            assert(others@[k as int].1 == other);
            if let Some((p, r)) = other {
                if self.connects_to(&p, r, current) {
                    proof {
                        assert(fits_at(*old(self), others@, current, k as int));
                    }
                    self.target = Some(id);
                    return;
                }
            }
            assert(!fits_at(*old(self), others@, current, k as int));
            k += 1;
        }
    }

    /// Empties the belt: the items under way, counted by kind.
    pub fn destroy_inventory(&mut self) -> (ret: Inventory)
        ensures
            final(self).position == old(self).position,
            final(self).rotation == old(self).rotation,
            final(self).direction == old(self).direction,
            final(self).target == old(self).target,
            final(self).items@ == Seq::<(i32, ItemType)>::empty(),
            forall|t: ItemType| #[trigger] count_of(ret@, t) == count_kind(old(self).items@, t),
    {
        let mut ret = Inventory::new();
        let ghost items0 = self.items@;
        let mut i: usize = 0;
        while i < self.items.len()
            invariant
                self.items@ == items0,
                i <= items0.len(),
                forall|t: ItemType| #[trigger] count_of(ret@, t) == count_kind(items0.take(i as int), t),
            decreases items0.len() - i,
        {
            let (_, kind) = self.items[i];
            let ghost before = ret@;
            proof {
                assert(items0.take(i + 1).drop_last() =~= items0.take(i as int));
                assert(items0.take(i + 1).last() == items0[i as int]);
                lemma_count_kind_bound(items0.take(i as int), kind);
            }
            ret.add_item(&kind);
            proof {
                assert forall|t: ItemType| #[trigger] count_of(ret@, t) == count_kind(items0.take(i + 1), t) by {
                    assert(count_of(before, t) == count_kind(items0.take(i as int), t));
                }
            }
            i += 1;
        }
        assert(items0.take(items0.len() as int) =~= items0);
        self.items = Vec::new();
        ret
    }

    /// Turns an entrance into an exit and back; an entrance turned into an
    /// exit gives the items under way to `player_inventory`.
    pub fn rotate(&mut self, player_inventory: &mut Inventory)
        requires
            forall|t: ItemType| count_of(old(player_inventory)@, t) + old(self).items@.len() <= usize::MAX,
        ensures
            final(self).position == old(self).position,
            final(self).rotation == old(self).rotation,
            final(self).target == old(self).target,
            old(self).direction == UnderDirection::ToGround ==> final(self).direction == UnderDirection::ToSurface
                && final(self).items@ == Seq::<(i32, ItemType)>::empty()
                && forall|t: ItemType| #[trigger] count_of(final(player_inventory)@, t) == count_of(old(player_inventory)@, t) + count_kind(old(self).items@, t),
            old(self).direction == UnderDirection::ToSurface ==> final(self).direction == UnderDirection::ToGround
                && final(self).items@ == old(self).items@ && final(player_inventory)@ == old(player_inventory)@,
    {
        match self.direction {
            UnderDirection::ToGround => {
                self.direction = UnderDirection::ToSurface;
                let ghost items0 = self.items@;
                let gone = self.destroy_inventory();
                proof {
                    assert forall|t: ItemType| count_of(player_inventory@, t) + count_of(gone@, t) <= usize::MAX by {
                        lemma_count_kind_bound(items0, t);
                    }
                }
                let ghost before = player_inventory@;
                let ghost g = gone@;
                player_inventory.merge(gone);
                proof {
                    assert forall|t: ItemType| #[trigger] count_of(player_inventory@, t) == count_of(before, t) + count_kind(items0, t) by {
                        lemma_count_kind_bound(items0, t);
                        lemma_merge_sums(before, g, t);
                    }
                }
            },
            UnderDirection::ToSurface => {
                self.direction = UnderDirection::ToGround;
            },
        }
    }

    /// Turns the belt to face `rotation`.
    pub fn set_rotation(&mut self, rotation: &Rotation)
        ensures
            final(self).rotation == *rotation,
            final(self).position == old(self).position,
            final(self).direction == old(self).direction,
            final(self).target == old(self).target,
            final(self).items@ == old(self).items@,
    {
        self.rotation = *rotation;
    }
}

} // verus!
