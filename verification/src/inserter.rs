//! Inserters: arms that move items from the structure behind them to the
//! structure in front of them.
//!
//! One step of an inserter is split between the arm's decisions, made here,
//! and the world they act on: the caller shows the arm what lies behind and
//! in front of it, carries out the returned action, and reports back how a
//! delivery went.
use crate::inventory::Inventory;
use crate::items::ItemType;
use crate::structure::{delta_spec, next_spec, Position, Rotation, StructureId};
use vstd::prelude::*;

verus! {

/// How many frames the arm takes to swing one way.
pub const INSERTER_TIME: u32 = 20;

/// An inserter facing `rotation`: it takes from behind and puts in front.
/// `cooldown` counts the frames left of the current swing.
pub struct Inserter {
    pub rotation: Rotation,
    pub cooldown: u32,
    pub hold_item: Option<ItemType>,
    pub input_structure: Option<StructureId>,
    pub output_structure: Option<StructureId>,
}

/// What the arm sees of the structure in front of it: whether it lets items
/// be dropped on it (a belt), and which items it takes in.
pub struct InserterTarget {
    pub movable: bool,
    pub accepts: Vec<ItemType>,
}

/// What the caller is to do for the arm this frame.
#[derive(Clone, Copy, PartialEq, Eq, Structural, Debug)]
pub enum InserterAction {
    /// Nothing.
    Wait,
    /// Remove the item lying on the tile behind: the arm holds it now.
    TakeFromGround(ItemType),
    /// Take the item out of the structure behind: the arm holds it now.
    TakeFromStructure(ItemType),
    /// Hand the held item to the structure in front, then report with
    /// `delivered`.
    PutIntoStructure(ItemType),
    /// Drop the held item on the tile in front, then report with `dropped`.
    DropOnGround(ItemType),
}

/// The link of an arm at `position` on the side `(dx, dy)` after noting
/// each of `others` in turn: a structure on that tile sets the link when
/// built and clears it when removed.
pub open spec fn links_after(link: Option<StructureId>, others: Seq<(StructureId, Position)>, position: Position, dx: int, dy: int, construct: bool) -> Option<StructureId>
    decreases others.len(),
{
    if others.len() == 0 {
        link
    } else {
        let prev = links_after(link, others.drop_last(), position, dx, dy, construct);
        let (id, p) = others.last();
        if p.x == position.x + dx && p.y == position.y + dy {
            if construct { Some(id) } else { None }
        } else {
            prev
        }
    }
}

/// Whether the arm may pick up `item` for the destination `target`: with
/// nothing in front anything goes; a belt takes anything; another structure
/// only what it accepts.
pub open spec fn takes(target: Option<InserterTarget>, item: ItemType) -> bool {
    match target {
        None => true,
        Some(t) => t.movable || t.accepts@.contains(item),
    }
}

/// The position of the first entry of `offer` that `target` takes, if any.
pub open spec fn first_taken(offer: Seq<ItemType>, target: Option<InserterTarget>) -> Option<int> {
    if exists|i: int| 0 <= i < offer.len() && takes(target, #[trigger] offer[i]) {
        Some(choose|i: int| 0 <= i < offer.len() && takes(target, #[trigger] offer[i])
            && forall|j: int| 0 <= j < i ==> !takes(target, #[trigger] offer[j]))
    } else {
        None
    }
}

fn target_takes(target: Option<&InserterTarget>, item: ItemType) -> (ret: bool)
    ensures
        ret == takes(match target { Some(t) => Some(*t), None => None }, item),
{
    match target {
        None => true,
        Some(t) => {
            if t.movable {
                return true;
            }
            let mut i: usize = 0;
            while i < t.accepts.len()
                invariant
                    target == Some(t),
                    !t.movable,
                    i <= t.accepts.len(),
                    forall|j: int| 0 <= j < i ==> t.accepts@[j] != item,
                decreases t.accepts.len() - i,
            {
                if t.accepts[i] == item {
                    assert(t.accepts@[i as int] == item);
                    assert(t.accepts@.contains(item));
                    return true;
                }
                i += 1;
            }
            false
        },
    }
}

/// The first entry of `offer` that `target` takes.
fn pick_from_offer(offer: &Vec<ItemType>, target: Option<&InserterTarget>) -> (ret: Option<ItemType>)
    ensures
        match first_taken(offer@, match target { Some(t) => Some(*t), None => None }) {
            Some(i) => ret == Some(offer@[i]),
            None => ret is None,
        },
{
    let ghost tg = match target { Some(t) => Some(*t), None => None };
    let mut i: usize = 0;
    while i < offer.len()
        invariant
            i <= offer.len(),
            tg == match target { Some(t) => Some(*t), None => None },
            forall|j: int| 0 <= j < i ==> !takes(tg, #[trigger] offer@[j]),
        decreases offer.len() - i,
    {
        if target_takes(target, offer[i]) {
            proof {
                let k = i as int;
                assert(takes(tg, offer@[k]));
                let c = choose|c: int| 0 <= c < offer.len() && takes(tg, #[trigger] offer@[c])
                    && forall|j: int| 0 <= j < c ==> !takes(tg, #[trigger] offer@[j]);
                if c < k {
                    assert(!takes(tg, offer@[c]));
                } else if c > k {
                    assert(!takes(tg, offer@[k]));
                }
            }
            return Some(offer[i]);
        }
        i += 1;
    }
    None
}

impl Inserter {
    /// An idle inserter linked to nothing.
    pub fn new(rotation: Rotation) -> (ret: Self)
        ensures
            ret.rotation == rotation,
            ret.cooldown == 0,
            ret.input_structure is None,
            ret.output_structure is None,
            ret.hold_item is None,
    {
        Inserter { rotation, cooldown: 0, input_structure: None, output_structure: None, hold_item: None }
    }

    /// Notes a structure built (`construct`) or removed at `other_position`
    /// near an inserter at `position`: one behind becomes (or stops being)
    /// its source, one in front its destination.
    pub fn on_construction_common(&mut self, position: &Position, other_id: StructureId, other_position: &Position, construct: bool)
        requires
            i32::MIN < position.x < i32::MAX,
            i32::MIN < position.y < i32::MAX,
        ensures
            final(self).rotation == old(self).rotation,
            final(self).hold_item == old(self).hold_item,
            final(self).cooldown == old(self).cooldown,
            ({
                let d = delta_spec(old(self).rotation);
                let is_input = other_position.x == position.x - d.0 && other_position.y == position.y - d.1;
                let is_output = other_position.x == position.x + d.0 && other_position.y == position.y + d.1;
                &&& final(self).input_structure == if is_input { if construct { Some(other_id) } else { None } } else { old(self).input_structure }
                &&& final(self).output_structure == if is_output { if construct { Some(other_id) } else { None } } else { old(self).output_structure }
            }),
    {
        let input_position = position.add(self.rotation.delta_inv());
        let output_position = position.add(self.rotation.delta());
        if *other_position == input_position {
            self.input_structure = if construct { Some(other_id) } else { None };
        }
        if *other_position == output_position {
            self.output_structure = if construct { Some(other_id) } else { None };
        }
    }

    /// Notes the structures around a newly built (`construct`) or removed
    /// inserter at `position`, in order (see
    /// [`Inserter::on_construction_common`]).
    pub fn on_construction_self(&mut self, position: &Position, others: &Vec<(StructureId, Position)>, construct: bool)
        requires
            i32::MIN < position.x < i32::MAX,
            i32::MIN < position.y < i32::MAX,
        ensures
            final(self).rotation == old(self).rotation,
            final(self).hold_item == old(self).hold_item,
            final(self).cooldown == old(self).cooldown,
            final(self).input_structure == links_after(old(self).input_structure, others@, *position, -delta_spec(old(self).rotation).0, -delta_spec(old(self).rotation).1, construct),
            final(self).output_structure == links_after(old(self).output_structure, others@, *position, delta_spec(old(self).rotation).0, delta_spec(old(self).rotation).1, construct),
    {
        let mut k: usize = 0;
        while k < others.len()
            invariant
                i32::MIN < position.x < i32::MAX,
                i32::MIN < position.y < i32::MAX,
                k <= others.len(),
                self.rotation == old(self).rotation,
                self.hold_item == old(self).hold_item,
                self.cooldown == old(self).cooldown,
                self.input_structure == links_after(old(self).input_structure, others@.take(k as int), *position, -delta_spec(old(self).rotation).0, -delta_spec(old(self).rotation).1, construct),
                self.output_structure == links_after(old(self).output_structure, others@.take(k as int), *position, delta_spec(old(self).rotation).0, delta_spec(old(self).rotation).1, construct),
            decreases others.len() - k,
        {
            let (id, p) = others[k];
            proof {
                assert(others@.take(k + 1).drop_last() =~= others@.take(k as int));
                assert(others@.take(k + 1).last() == (id, p));
            }
            self.on_construction_common(position, id, &p, construct);
            k += 1;
        }
        assert(others@.take(others.len() as int) =~= others@);
    }

    /// Turns the inserter a quarter clockwise and links it to the
    /// structures now behind and in front of it, among `others`; links
    /// that no structure replaces stay.
    pub fn rotate(&mut self, position: &Position, others: &Vec<(StructureId, Position)>)
        requires
            i32::MIN < position.x < i32::MAX,
            i32::MIN < position.y < i32::MAX,
        ensures
            final(self).rotation == next_spec(old(self).rotation),
            final(self).hold_item == old(self).hold_item,
            final(self).cooldown == old(self).cooldown,
            final(self).input_structure == links_after(old(self).input_structure, others@, *position, -delta_spec(next_spec(old(self).rotation)).0, -delta_spec(next_spec(old(self).rotation)).1, true),
            final(self).output_structure == links_after(old(self).output_structure, others@, *position, delta_spec(next_spec(old(self).rotation)).0, delta_spec(next_spec(old(self).rotation)).1, true),
    {
        self.rotation = self.rotation.next();
        self.on_construction_self(position, others, true);
    }

    /// One frame of the arm. `ground` is the item lying on the tile behind,
    /// `offer` what the structure behind can give (when there is one), and
    /// `target` the structure in front (when there is one).
    ///
    /// An empty arm still swinging back counts down. Once back it picks up
    /// the item on the ground if the destination takes it, or else the first
    /// item offered that the destination takes, and starts a swing. A full
    /// arm swinging forward counts down; once there it hands the item to the
    /// structure in front, or drops it on the ground when nothing is there.
    pub fn frame_proc(&mut self, ground: Option<ItemType>, offer: Option<&Vec<ItemType>>, target: Option<&InserterTarget>) -> (ret: InserterAction)
        ensures
            final(self).rotation == old(self).rotation,
            final(self).input_structure == old(self).input_structure,
            final(self).output_structure == old(self).output_structure,
            ({
                let tg = match target { Some(t) => Some(*t), None => None };
                match old(self).hold_item {
                    None => if old(self).cooldown > 1 {
                        ret == InserterAction::Wait && final(self).hold_item is None
                            && final(self).cooldown == old(self).cooldown - 1
                    } else {
                        match ground {
                            Some(t) => if takes(tg, t) {
                                ret == InserterAction::TakeFromGround(t) && final(self).hold_item == Some(t)
                                    && final(self).cooldown == INSERTER_TIME
                            } else {
                                ret == InserterAction::Wait && final(self).hold_item is None && final(self).cooldown == 0
                            },
                            None => match offer {
                                Some(o) => match first_taken(o@, tg) {
                                    Some(i) => ret == InserterAction::TakeFromStructure(o@[i])
                                        && final(self).hold_item == Some(o@[i]) && final(self).cooldown == INSERTER_TIME,
                                    None => ret == InserterAction::Wait && final(self).hold_item is None && final(self).cooldown == 0,
                                },
                                None => ret == InserterAction::Wait && final(self).hold_item is None && final(self).cooldown == 0,
                            },
                        }
                    },
                    Some(t) => if old(self).cooldown >= 1 {
                        ret == InserterAction::Wait && final(self).hold_item == Some(t)
                            && final(self).cooldown == old(self).cooldown - 1
                    } else {
                        final(self).hold_item == Some(t) && final(self).cooldown == 0
                            && ret == if target is Some { InserterAction::PutIntoStructure(t) } else { InserterAction::DropOnGround(t) }
                    },
                }
            }),
    {
        match self.hold_item {
            None => {
                if self.cooldown > 1 {
                    self.cooldown = self.cooldown - 1;
                    return InserterAction::Wait;
                }
                self.cooldown = 0;
                if let Some(t) = ground {
                    if target_takes(target, t) {
                        self.hold_item = Some(t);
                        self.cooldown = self.cooldown + INSERTER_TIME;
                        return InserterAction::TakeFromGround(t);
                    }
                    InserterAction::Wait
                } else if let Some(o) = offer {
                    match pick_from_offer(o, target) {
                        Some(t) => {
                            self.hold_item = Some(t);
                            self.cooldown = self.cooldown + INSERTER_TIME;
                            InserterAction::TakeFromStructure(t)
                        },
                        None => InserterAction::Wait,
                    }
                } else {
                    InserterAction::Wait
                }
            },
            Some(t) => {
                if self.cooldown >= 1 {
                    self.cooldown = self.cooldown - 1;
                    return InserterAction::Wait;
                }
                self.cooldown = 0;
                if target.is_some() {
                    InserterAction::PutIntoStructure(t)
                } else {
                    InserterAction::DropOnGround(t)
                }
            },
        }
    }

    /// Reports how `PutIntoStructure` went. When the structure took the
    /// item the arm is empty and swings back; when it refused, a belt gets
    /// the item dropped on it instead, and anything else leaves the arm
    /// waiting with the item.
    pub fn delivered(&mut self, accepted: bool, movable: bool) -> (ret: InserterAction)
        requires
            old(self).hold_item is Some,
            old(self).cooldown == 0,
        ensures
            final(self).rotation == old(self).rotation,
            final(self).input_structure == old(self).input_structure,
            final(self).output_structure == old(self).output_structure,
            accepted ==> ret == InserterAction::Wait && final(self).hold_item is None && final(self).cooldown == INSERTER_TIME,
            !accepted ==> final(self).hold_item == old(self).hold_item && final(self).cooldown == 0 && ret == if movable {
                InserterAction::DropOnGround(old(self).hold_item->0)
            } else {
                InserterAction::Wait
            },
    {
        let t = self.hold_item.unwrap();
        if accepted {
            self.cooldown = self.cooldown + INSERTER_TIME;
            self.hold_item = None;
            InserterAction::Wait
        } else if movable {
            InserterAction::DropOnGround(t)
        } else {
            InserterAction::Wait
        }
    }

    /// Reports how `DropOnGround` went: once the item lies on the ground the
    /// arm is empty and swings back; if the tile was taken it keeps waiting.
    pub fn dropped(&mut self, ok: bool)
        requires
            old(self).hold_item is Some,
            old(self).cooldown == 0,
        ensures
            final(self).rotation == old(self).rotation,
            final(self).input_structure == old(self).input_structure,
            final(self).output_structure == old(self).output_structure,
            ok ==> final(self).hold_item is None && final(self).cooldown == INSERTER_TIME,
            !ok ==> final(self).hold_item == old(self).hold_item && final(self).cooldown == 0,
    {
        if ok {
            self.cooldown = self.cooldown + INSERTER_TIME;
            self.hold_item = None;
        }
    }

    /// Empties the arm: what it held, as an inventory.
    pub fn destroy_inventory(&mut self) -> (ret: Inventory)
        ensures
            final(self).hold_item is None,
            final(self).rotation == old(self).rotation,
            final(self).cooldown == old(self).cooldown,
            match old(self).hold_item {
                Some(t) => ret@ == map![t => 1usize],
                None => ret@ == Map::<ItemType, usize>::empty(),
            },
    {
        let mut ret = Inventory::new();
        if let Some(item) = self.hold_item {
            ret.add_item(&item);
            assert(ret@ =~= map![item => 1usize]);
        }
        self.hold_item = None;
        ret
    }
}

} // verus!
