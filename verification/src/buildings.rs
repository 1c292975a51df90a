//! The structures that stand on the map, what each holds, and how each
//! answers an item handed to it or asked of it.
use crate::assembler::Assembler;
use crate::belts::{pixel_in_range, transport_spec, TransportBelt};
use crate::boiler::Boiler;
use crate::burner::FUEL_CAPACITY;
use crate::capacity::RECIPE_CAPACITY_MULTIPLIER;
use crate::chest::{Chest, CHEST_CAPACITY};
use crate::drop_items::DropItem;
use crate::furnace::{furnace_input_of, smeltable, Furnace};
use crate::inserter::Inserter;
use crate::inventory::{added, count_of, entries_of, merged, removed, Inventory};
use crate::items::{item_name, item_name_str, ItemType};
use crate::ore_mine::OreMine;
use crate::player::move_inventory_item;
use crate::power_network::{DEFAULT_WIRE_REACH, POLE_WIRE_REACH};
use crate::recipe::Recipe;
use crate::structure::{BoundingBox, FrameProcResult, ItemResponse, Position, Rotation};
use vstd::prelude::*;

verus! {

/// A structure standing on the map.
pub enum Structure {
    TransportBelt(TransportBelt),
    /// An inserter and the tile it stands on.
    Inserter(Position, Inserter),
    OreMine(OreMine),
    Chest(Chest),
    Furnace(Furnace),
    Assembler(Assembler),
    Boiler(Boiler),
    /// A water well, pipe, steam engine or electric pole: its kind and
    /// tile. What flows through them (water, steam, power) is simulated
    /// elsewhere.
    Utility(ItemType, Position),
}

/// The tile a structure stands on.
pub open spec fn position_of(s: Structure) -> Position {
    match s {
        Structure::TransportBelt(b) => b.position,
        Structure::Inserter(p, _) => p,
        Structure::OreMine(m) => m.position,
        Structure::Chest(c) => c.position,
        Structure::Furnace(f) => f.position,
        Structure::Assembler(a) => a.position,
        Structure::Boiler(b) => b.position,
        Structure::Utility(_, p) => p,
    }
}

/// The item a structure is built from and given back as when harvested.
pub open spec fn kind_of(s: Structure) -> ItemType {
    match s {
        Structure::TransportBelt(_) => ItemType::TransportBelt,
        Structure::Inserter(_, _) => ItemType::Inserter,
        Structure::OreMine(_) => ItemType::OreMine,
        Structure::Chest(_) => ItemType::Chest,
        Structure::Furnace(_) => ItemType::Furnace,
        Structure::Assembler(_) => ItemType::Assembler,
        Structure::Boiler(_) => ItemType::Boiler,
        Structure::Utility(k, _) => k,
    }
}

/// What a structure gives back when it is taken down: everything in its
/// stores, what an inserter holds, and the ingredients of a run under way.
pub open spec fn contents_of(s: Structure) -> Map<ItemType, usize> {
    match s {
        Structure::TransportBelt(_) => Map::empty(),
        Structure::Inserter(_, ins) => match ins.hold_item {
            Some(t) => map![t => 1usize],
            None => Map::empty(),
        },
        Structure::OreMine(m) => match m.recipe {
            Some(r) => if m.in_progress { merged(m.input_inventory@, r.input@) } else { m.input_inventory@ },
            None => m.input_inventory@,
        },
        Structure::Chest(c) => c.inventory@,
        Structure::Furnace(f) => {
            let held = merged(merged(f.input_inventory@, f.output_inventory@), f.burner_inventory@);
            match f.recipe {
                Some(r) => if f.in_progress { merged(held, r.input@) } else { held },
                None => held,
            }
        },
        Structure::Assembler(a) => {
            let held = merged(a.factory.input_inventory@, a.factory.output_inventory@);
            match a.factory.recipe {
                Some(r) => if a.factory.in_progress { merged(held, r.input@) } else { held },
                None => held,
            }
        },
        Structure::Boiler(b) => match b.recipe {
            Some(r) => if b.in_progress { merged(b.inventory@, r.input@) } else { b.inventory@ },
            None => b.inventory@,
        },
        Structure::Utility(_, _) => Map::empty(),
    }
}

/// Whether the counts that make up [`contents_of`] can be summed in a
/// machine word.
pub open spec fn contents_fit(s: Structure) -> bool {
    match s {
        Structure::OreMine(m) => forall|t: ItemType| count_of(m.input_inventory@, t) + match m.recipe {
            Some(r) => if m.in_progress { count_of(r.input@, t) } else { 0 },
            None => 0,
        } <= usize::MAX,
        Structure::Furnace(f) => forall|t: ItemType|
            count_of(f.input_inventory@, t) + count_of(f.output_inventory@, t) + count_of(f.burner_inventory@, t)
                + match f.recipe {
                Some(r) => if f.in_progress { count_of(r.input@, t) } else { 0 },
                None => 0,
            } <= usize::MAX,
        Structure::Assembler(a) => forall|t: ItemType|
            count_of(a.factory.input_inventory@, t) + count_of(a.factory.output_inventory@, t) + match a.factory.recipe {
                Some(r) => if a.factory.in_progress { count_of(r.input@, t) } else { 0 },
                None => 0,
            } <= usize::MAX,
        Structure::Boiler(b) => forall|t: ItemType| count_of(b.inventory@, t) + match b.recipe {
            Some(r) => count_of(r.input@, t),
            None => 0,
        } <= usize::MAX,
        _ => true,
    }
}

/// Whether items may lie on a structure: only belts carry them.
pub open spec fn movable_spec(s: Structure) -> bool {
    s is TransportBelt
}

/// Whether a structure shows a store to the player: chests, furnaces and
/// assemblers do.
pub open spec fn has_inventory_spec(s: Structure) -> bool {
    s is Chest || s is Furnace || s is Assembler
}

impl Structure {
    /// The tile the structure stands on.
    pub fn position(&self) -> (ret: Position)
        ensures
            ret == position_of(*self),
    {
        match self {
            Structure::TransportBelt(b) => b.position,
            Structure::Inserter(p, _) => *p,
            Structure::OreMine(m) => m.position,
            Structure::Chest(c) => c.position,
            Structure::Furnace(f) => f.position,
            Structure::Assembler(a) => a.position,
            Structure::Boiler(b) => b.position,
            Structure::Utility(_, p) => *p,
        }
    }

    /// The item the structure is built from.
    pub fn kind(&self) -> (ret: ItemType)
        ensures
            ret == kind_of(*self),
    {
        match self {
            Structure::TransportBelt(_) => ItemType::TransportBelt,
            Structure::Inserter(_, _) => ItemType::Inserter,
            Structure::OreMine(_) => ItemType::OreMine,
            Structure::Chest(_) => ItemType::Chest,
            Structure::Furnace(_) => ItemType::Furnace,
            Structure::Assembler(_) => ItemType::Assembler,
            Structure::Boiler(_) => ItemType::Boiler,
            Structure::Utility(k, _) => *k,
        }
    }

    /// The structure's display name: that of its item.
    pub fn name(&self) -> (ret: &'static str)
        ensures
            ret@ == item_name(kind_of(*self)),
    {
        item_name_str(&self.kind())
    }

    /// Whether items may lie on the structure.
    pub fn movable(&self) -> (ret: bool)
        ensures
            ret == movable_spec(*self),
    {
        match self {
            Structure::TransportBelt(b) => b.movable(),
            _ => false,
        }
    }

    /// Whether the structure shows a store to the player.
    pub fn has_inventory(&self) -> (ret: bool)
        ensures
            ret == has_inventory_spec(*self),
    {
        match self {
            Structure::Chest(_) | Structure::Furnace(_) | Structure::Assembler(_) => true,
            _ => false,
        }
    }

    /// Takes everything out of the structure and returns it (see
    /// [`contents_of`]); the structure keeps its tile and kind and holds
    /// nothing afterwards.
    pub fn destroy_inventory(&mut self) -> (ret: Inventory)
        requires
            contents_fit(*old(self)),
        ensures
            ret@ == contents_of(*old(self)),
            contents_of(*final(self)) == Map::<ItemType, usize>::empty(),
            position_of(*final(self)) == position_of(*old(self)),
            kind_of(*final(self)) == kind_of(*old(self)),
    {
        match self {
            Structure::TransportBelt(_) => Inventory::new(),
            Structure::Inserter(_, ins) => ins.destroy_inventory(),
            Structure::OreMine(m) => m.destroy_inventory(),
            Structure::Chest(c) => c.destroy_inventory(),
            Structure::Furnace(f) => {
                let ret = f.destroy_inventory();
                assert(merged(merged(f.input_inventory@, f.output_inventory@), f.burner_inventory@) =~= Map::empty());
                ret
            },
            Structure::Assembler(a) => {
                let ret = a.factory.destroy_inventory();
                assert(merged(a.factory.input_inventory@, a.factory.output_inventory@) =~= Map::empty());
                ret
            },
            Structure::Boiler(b) => b.destroy_inventory(),
            Structure::Utility(_, _) => Inventory::new(),
        }
    }

    /// The structure's store `is_input` (see [`store_of`]), if it has one.
    pub fn inventory(&self, is_input: bool) -> (ret: Option<&Inventory>)
        ensures
            match store_of(*self, is_input) {
                Some(m) => ret matches Some(inv) && inv@ == m,
                None => ret is None,
            },
    {
        match self {
            Structure::Chest(c) => if is_input { Some(&c.inventory) } else { None },
            Structure::Furnace(f) => Some(if is_input { &f.input_inventory } else { &f.output_inventory }),
            Structure::Assembler(a) => Some(if is_input { &a.factory.input_inventory } else { &a.factory.output_inventory }),
            _ => None,
        }
    }

    /// Moves the whole entry of `item` between the structure's store
    /// `is_input` (see [`store_of`]) and the inventory `player`: to the
    /// player (`to_player`) or into the store. Says whether there was an
    /// entry to move; a structure without such a store moves nothing.
    pub fn move_store_item(&mut self, is_input: bool, to_player: bool, player: &mut Inventory, item: &ItemType) -> (ret: bool)
        requires
            store_of(*old(self), is_input) matches Some(m) ==> count_of(m, *item) + count_of(old(player)@, *item) <= usize::MAX,
        ensures
            match store_of(*old(self), is_input) {
                None => !ret && *final(self) == *old(self) && final(player)@ == old(player)@,
                Some(m) => if to_player {
                    &&& ret == moved_entry(m, old(player)@, *item).2
                    &&& store_set(*old(self), *final(self), is_input, moved_entry(m, old(player)@, *item).0)
                    &&& final(player)@ == moved_entry(m, old(player)@, *item).1
                } else {
                    &&& ret == moved_entry(old(player)@, m, *item).2
                    &&& store_set(*old(self), *final(self), is_input, moved_entry(old(player)@, m, *item).1)
                    &&& final(player)@ == moved_entry(old(player)@, m, *item).0
                },
            },
    {
        match self {
            Structure::Chest(c) => {
                if !is_input {
                    return false;
                }
                if to_player {
                    move_inventory_item(&mut c.inventory, player, item)
                } else {
                    move_inventory_item(player, &mut c.inventory, item)
                }
            },
            Structure::Furnace(f) => {
                let store = if is_input {
                    &mut f.input_inventory
                } else {
                    &mut f.output_inventory
                };
                if to_player {
                    move_inventory_item(store, player, item)
                } else {
                    move_inventory_item(player, store, item)
                }
            },
            Structure::Assembler(a) => {
                let store = a.factory.inventory_mut(is_input);
                if to_player {
                    move_inventory_item(store, player, item)
                } else {
                    move_inventory_item(player, store, item)
                }
            },
            _ => false,
        }
    }

    /// Whether the structure takes item `t` in (see [`accepts`]).
    pub fn can_input(&self, t: &ItemType) -> (ret: bool)
        requires
            input_fits(*self, *t),
        ensures
            ret == accepts(*self, *t),
    {
        match self {
            Structure::Chest(c) => c.can_input(t),
            Structure::Furnace(f) => f.can_input(t),
            Structure::Assembler(a) => a.can_input(t),
            Structure::OreMine(m) => m.can_input(t),
            Structure::Boiler(b) => b.can_input(t),
            _ => false,
        }
    }

    /// The items the structure can hand out: a copy of its store (see
    /// [`output_store_of`]).
    pub fn can_output(&self) -> (ret: Inventory)
        ensures
            ret@ == output_store_of(*self),
    {
        match self {
            Structure::Chest(c) => c.can_output(),
            Structure::Furnace(f) => f.can_output(),
            Structure::Assembler(a) => a.factory.can_output(),
            _ => Inventory::new(),
        }
    }

    /// Hands out one item `t` (see [`handed_out`]).
    pub fn output(&mut self, t: &ItemType) -> (ret: Result<(), ()>)
        ensures
            handed_out(*old(self), *t, *final(self), ret is Ok),
    {
        match self {
            Structure::Chest(c) => c.output(t),
            Structure::Furnace(f) => f.output(t),
            Structure::Assembler(a) => a.factory.output(t),
            Structure::Boiler(b) => b.output(t),
            _ => Err(()),
        }
    }

    /// Takes in one item `t` (see [`took_in`]).
    pub fn input(&mut self, t: &ItemType) -> (ret: Result<(), ()>)
        requires
            input_fits(*old(self), *t),
        ensures
            took_in(*old(self), *t, *final(self), ret is Ok),
    {
        match self {
            Structure::Chest(c) => c.input(t),
            Structure::Furnace(f) => f.input(t),
            Structure::Assembler(a) => a.input(t),
            Structure::OreMine(m) => m.input(t),
            Structure::Boiler(b) => b.input(t),
            _ => Err(()),
        }
    }

    /// What the structure does with an item lying on it at pixel
    /// `(item.x, item.y)`: a belt moves it one pixel along, a chest with
    /// room takes it in; other structures do not respond.
    pub fn item_response(&mut self, item: &DropItem) -> (ret: Result<(ItemResponse, Option<FrameProcResult>), ()>)
        requires
            pixel_in_range(item.x as int),
            pixel_in_range(item.y as int),
            *old(self) is Chest ==> count_of((*old(self))->Chest_0.inventory@, item.type_) < usize::MAX,
        ensures
            position_of(*final(self)) == position_of(*old(self)),
            kind_of(*final(self)) == kind_of(*old(self)),
            match *old(self) {
                Structure::TransportBelt(b) => *final(self) == *old(self) && ret == Ok::<(ItemResponse, Option<FrameProcResult>), ()>((
                    ItemResponse::Move(
                        transport_spec(b.rotation, item.x as int, item.y as int).0 as i32,
                        transport_spec(b.rotation, item.x as int, item.y as int).1 as i32,
                    ),
                    None,
                )),
                Structure::Chest(c) => *final(self) is Chest && if entries_of(c.inventory@).len() < CHEST_CAPACITY {
                    &&& ret == Ok::<(ItemResponse, Option<FrameProcResult>), ()>((ItemResponse::Consume, Some(FrameProcResult::InventoryChanged(c.position))))
                    &&& (*final(self))->Chest_0.inventory@ == added(c.inventory@, item.type_, 1)
                } else {
                    &&& ret is Err
                    &&& *final(self) == *old(self)
                },
                _ => ret is Err && *final(self) == *old(self),
            },
    {
        match self {
            Structure::TransportBelt(b) => Ok((b.item_response(item.x, item.y), None)),
            Structure::Chest(c) => c.item_response(&item.type_),
            _ => Err(()),
        }
    }
}

/// Whether a recipe's counts leave room for the capacity arithmetic of the
/// machines.
pub open spec fn recipe_fits(r: Option<Recipe>) -> bool {
    r matches Some(x) ==> forall|t: ItemType| count_of(x.input@, t) * RECIPE_CAPACITY_MULTIPLIER <= isize::MAX
}

/// Whether a structure's counts leave room for checking and taking in one
/// more item of kind `t`.
pub open spec fn input_fits(s: Structure, t: ItemType) -> bool {
    match s {
        Structure::Chest(c) => count_of(c.inventory@, t) < usize::MAX,
        Structure::Furnace(f) => count_of(f.burner_inventory@, t) < usize::MAX && count_of(f.input_inventory@, t) < usize::MAX
            && recipe_fits(f.recipe),
        Structure::Assembler(a) => count_of(a.factory.input_inventory@, t) < usize::MAX && recipe_fits(a.factory.recipe),
        Structure::OreMine(m) => count_of(m.input_inventory@, ItemType::CoalOre) < usize::MAX,
        Structure::Boiler(b) => count_of(b.inventory@, ItemType::CoalOre) < usize::MAX,
        _ => true,
    }
}

/// Whether a structure takes item `t` in: a chest while it has room for
/// another kind; a furnace coal while its burner has room, or an
/// ingredient of its recipe up to `RECIPE_CAPACITY_MULTIPLIER` runs (with
/// no recipe, anything it smelts); an assembler an ingredient of its
/// recipe up to two runs; a mine or a boiler coal while its fuel store has
/// room.
pub open spec fn accepts(s: Structure, t: ItemType) -> bool {
    match s {
        Structure::Chest(c) => entries_of(c.inventory@).len() < CHEST_CAPACITY,
        Structure::Furnace(f) => if t == ItemType::CoalOre && count_of(f.burner_inventory@, ItemType::CoalOre) < FUEL_CAPACITY {
            true
        } else {
            match f.recipe {
                Some(r) => r.input@.contains_key(t) && count_of(f.input_inventory@, t) < r.input@[t] * RECIPE_CAPACITY_MULTIPLIER,
                None => smeltable(t),
            }
        },
        Structure::Assembler(a) => match a.factory.recipe {
            Some(r) => count_of(a.factory.input_inventory@, t) < count_of(r.input@, t) * 2,
            None => false,
        },
        Structure::OreMine(m) => t == ItemType::CoalOre && count_of(m.input_inventory@, ItemType::CoalOre) < FUEL_CAPACITY,
        Structure::Boiler(b) => t == ItemType::CoalOre && count_of(b.inventory@, ItemType::CoalOre) < FUEL_CAPACITY,
        _ => false,
    }
}

/// The store a structure hands items out of: a chest's inventory, or the
/// output store of a furnace or assembler; others offer nothing.
pub open spec fn output_store_of(s: Structure) -> Map<ItemType, usize> {
    match s {
        Structure::Chest(c) => c.inventory@,
        Structure::Furnace(f) => f.output_inventory@,
        Structure::Assembler(a) => a.factory.output_inventory@,
        _ => Map::empty(),
    }
}

/// Handing out one item `t` took structure `s0` to `s1`, answering `ok`:
/// a chest, furnace, assembler or boiler gives one from its store when it
/// has any; other structures give nothing.
pub open spec fn handed_out(s0: Structure, t: ItemType, s1: Structure, ok: bool) -> bool {
    match (s0, s1) {
        (Structure::Chest(a), Structure::Chest(b)) => {
            &&& b.position == a.position
            &&& b.inventory@ == removed(a.inventory@, t, 1).0
            &&& ok == (count_of(a.inventory@, t) > 0)
        },
        (Structure::Furnace(a), Structure::Furnace(b)) => {
            &&& b.position == a.position
            &&& b.output_inventory@ == removed(a.output_inventory@, t, 1).0
            &&& b.input_inventory@ == a.input_inventory@
            &&& b.burner_inventory@ == a.burner_inventory@
            &&& b.recipe == a.recipe
            &&& b.in_progress == a.in_progress
            &&& ok == (count_of(a.output_inventory@, t) > 0)
        },
        (Structure::Assembler(a), Structure::Assembler(b)) => {
            &&& b.position == a.position
            &&& b.factory.output_inventory@ == removed(a.factory.output_inventory@, t, 1).0
            &&& b.factory.input_inventory@ == a.factory.input_inventory@
            &&& b.factory.recipe == a.factory.recipe
            &&& b.factory.in_progress == a.factory.in_progress
            &&& ok == (count_of(a.factory.output_inventory@, t) > 0)
        },
        (Structure::Boiler(a), Structure::Boiler(b)) => {
            &&& b.position == a.position
            &&& b.inventory@ == removed(a.inventory@, t, 1).0
            &&& b.recipe == a.recipe
            &&& b.in_progress == a.in_progress
            &&& ok == (count_of(a.inventory@, t) > 0)
        },
        _ => !(s0 is Chest || s0 is Furnace || s0 is Assembler || s0 is Boiler) && s1 == s0 && !ok,
    }
}

/// Taking in one item `t` took structure `s0` to `s1`, answering `ok` (see
/// each structure's `input`): a chest with room adds it; a furnace burns
/// coal while its burner has room, else takes an ingredient of its recipe
/// (choosing one by the item when it has none) up to
/// `RECIPE_CAPACITY_MULTIPLIER` runs; an assembler takes an ingredient of
/// its recipe up to that many runs; a mine or boiler takes coal while its
/// fuel store has room; other structures take nothing.
pub open spec fn took_in(s0: Structure, t: ItemType, s1: Structure, ok: bool) -> bool {
    match (s0, s1) {
        (Structure::Chest(a), Structure::Chest(b)) => {
            &&& b.position == a.position
            &&& if entries_of(a.inventory@).len() < CHEST_CAPACITY {
                ok && b.inventory@ == added(a.inventory@, t, 1)
            } else {
                !ok && b.inventory@ == a.inventory@
            }
        },
        (Structure::Furnace(a), Structure::Furnace(b)) => {
            &&& b.position == a.position
            &&& b.output_inventory@ == a.output_inventory@
            &&& b.in_progress == a.in_progress
            &&& if t == ItemType::CoalOre && count_of(a.burner_inventory@, ItemType::CoalOre) < FUEL_CAPACITY {
                &&& ok
                &&& b.burner_inventory@ == added(a.burner_inventory@, ItemType::CoalOre, 1)
                &&& b.input_inventory@ == a.input_inventory@
                &&& b.recipe == a.recipe
            } else if a.recipe is None && !smeltable(t) {
                &&& !ok
                &&& b.burner_inventory@ == a.burner_inventory@
                &&& b.input_inventory@ == a.input_inventory@
                &&& b.recipe is None
            } else {
                let r = match a.recipe {
                    Some(r) => r,
                    None => b.recipe->0,
                };
                let cap = count_of(r.input@, t) * RECIPE_CAPACITY_MULTIPLIER;
                let existing = count_of(a.input_inventory@, t);
                &&& b.burner_inventory@ == a.burner_inventory@
                &&& b.recipe is Some
                &&& a.recipe is Some ==> b.recipe == a.recipe
                &&& a.recipe is None ==> b.recipe->0.input@ == furnace_input_of(t)
                &&& if existing < cap {
                    ok && b.input_inventory@ == added(a.input_inventory@, t, 1)
                } else {
                    !ok && b.input_inventory@ == removed(a.input_inventory@, t, 0).0
                }
            }
        },
        (Structure::Assembler(a), Structure::Assembler(b)) => {
            &&& b.position == a.position
            &&& b.factory.output_inventory@ == a.factory.output_inventory@
            &&& b.factory.recipe == a.factory.recipe
            &&& b.factory.in_progress == a.factory.in_progress
            &&& match a.factory.recipe {
                Some(r) => if count_of(a.factory.input_inventory@, t) < count_of(r.input@, t) * RECIPE_CAPACITY_MULTIPLIER {
                    ok && b.factory.input_inventory@ == added(a.factory.input_inventory@, t, 1)
                } else {
                    !ok && b.factory.input_inventory@ == removed(a.factory.input_inventory@, t, 0).0
                },
                None => !ok && b.factory.input_inventory@ == a.factory.input_inventory@,
            }
        },
        (Structure::OreMine(a), Structure::OreMine(b)) => {
            &&& b.position == a.position
            &&& b.rotation == a.rotation
            &&& b.recipe == a.recipe
            &&& b.output_structure == a.output_structure
            &&& b.in_progress == a.in_progress
            &&& if t == ItemType::CoalOre && count_of(a.input_inventory@, ItemType::CoalOre) < FUEL_CAPACITY {
                ok && b.input_inventory@ == added(a.input_inventory@, ItemType::CoalOre, 1)
            } else {
                !ok && b.input_inventory@ == a.input_inventory@
            }
        },
        (Structure::Boiler(a), Structure::Boiler(b)) => {
            &&& b.position == a.position
            &&& b.recipe == a.recipe
            &&& b.in_progress == a.in_progress
            &&& if t == ItemType::CoalOre && count_of(a.inventory@, ItemType::CoalOre) < FUEL_CAPACITY {
                ok && b.inventory@ == added(a.inventory@, ItemType::CoalOre, 1)
            } else {
                !ok && b.inventory@ == a.inventory@
            }
        },
        _ => !(s0 is Chest || s0 is Furnace || s0 is Assembler || s0 is OreMine || s0 is Boiler) && s1 == s0 && !ok,
    }
}

/// Whether handing out item `t` succeeds: the store has one.
pub open spec fn hands_out(s: Structure, t: ItemType) -> bool {
    match s {
        Structure::Chest(c) => count_of(c.inventory@, t) > 0,
        Structure::Furnace(f) => count_of(f.output_inventory@, t) > 0,
        Structure::Assembler(a) => count_of(a.factory.output_inventory@, t) > 0,
        Structure::Boiler(b) => count_of(b.inventory@, t) > 0,
        _ => false,
    }
}

/// Whether taking in item `t` succeeds (see [`took_in`]).
pub open spec fn takes_in(s: Structure, t: ItemType) -> bool {
    match s {
        Structure::Chest(c) => entries_of(c.inventory@).len() < CHEST_CAPACITY,
        Structure::Furnace(f) => (t == ItemType::CoalOre && count_of(f.burner_inventory@, ItemType::CoalOre) < FUEL_CAPACITY)
            || match f.recipe {
            Some(r) => count_of(f.input_inventory@, t) < count_of(r.input@, t) * RECIPE_CAPACITY_MULTIPLIER,
            None => smeltable(t) && count_of(f.input_inventory@, t) < count_of(furnace_input_of(t), t) * RECIPE_CAPACITY_MULTIPLIER,
        },
        Structure::Assembler(a) => match a.factory.recipe {
            Some(r) => count_of(a.factory.input_inventory@, t) < count_of(r.input@, t) * RECIPE_CAPACITY_MULTIPLIER,
            None => false,
        },
        Structure::OreMine(m) => t == ItemType::CoalOre && count_of(m.input_inventory@, ItemType::CoalOre) < FUEL_CAPACITY,
        Structure::Boiler(b) => t == ItemType::CoalOre && count_of(b.inventory@, ItemType::CoalOre) < FUEL_CAPACITY,
        _ => false,
    }
}

/// The answer of handing out or taking in is the one [`hands_out`] and
/// [`takes_in`] give.
pub proof fn lemma_answers_determined(s0: Structure, t: ItemType, s1: Structure, ok: bool)
    ensures
        handed_out(s0, t, s1, ok) ==> ok == hands_out(s0, t),
        took_in(s0, t, s1, ok) ==> ok == takes_in(s0, t),
{
}

/// Whether a structure can be built from item `t`.
pub open spec fn buildable(t: ItemType) -> bool {
    ||| t == ItemType::TransportBelt
    ||| t == ItemType::Inserter
    ||| t == ItemType::OreMine
    ||| t == ItemType::Chest
    ||| t == ItemType::Furnace
    ||| t == ItemType::Assembler
    ||| t == ItemType::Boiler
    ||| t == ItemType::WaterWell
    ||| t == ItemType::Pipe
    ||| t == ItemType::SteamEngine
}

/// `s` is a structure just built from item `t` on tile `cursor`, facing
/// `rotation` where it has a direction: idle, linked to nothing and
/// holding nothing.
pub open spec fn fresh(s: Structure, t: ItemType, cursor: Position, rotation: Rotation) -> bool {
    &&& kind_of(s) == t
    &&& position_of(s) == cursor
    &&& contents_of(s) == Map::<ItemType, usize>::empty()
    &&& match s {
        Structure::TransportBelt(b) => b.rotation == rotation,
        Structure::Inserter(_, i) => i.rotation == rotation && i.cooldown == 0 && i.input_structure is None
            && i.output_structure is None,
        Structure::OreMine(m) => m.rotation == rotation && m.recipe is None && m.output_structure is None && !m.in_progress,
        Structure::Chest(_) => true,
        Structure::Furnace(f) => f.recipe is None && !f.in_progress,
        Structure::Assembler(a) => a.factory.recipe is None && !a.factory.in_progress,
        Structure::Boiler(b) => !b.in_progress && (b.recipe matches Some(r) && r.input@ == map![ItemType::CoalOre => 1usize]
            && r.output@ == Map::<ItemType, usize>::empty() && r.power_cost == 100 && r.recipe_time == 30),
        Structure::Utility(_, _) => true,
    }
}

/// The side of a structure's square footprint in tiles: mines and
/// furnaces take 2 by 2 tiles, the others one.
pub open spec fn side_of(s: Structure) -> int {
    if s is OreMine || s is Furnace { 2 } else { 1 }
}

/// The tiles a structure covers.
pub open spec fn footprint_of(s: Structure) -> BoundingBox {
    let p = position_of(s);
    BoundingBox { x0: p.x, y0: p.y, x1: (p.x + side_of(s)) as i32, y1: (p.y + side_of(s)) as i32 }
}

/// The store of a structure that the player sees: the input
/// (`is_input`) or output store of a furnace or assembler, or a chest's
/// inventory as its input store.
pub open spec fn store_of(s: Structure, is_input: bool) -> Option<Map<ItemType, usize>> {
    match s {
        Structure::Chest(c) => if is_input { Some(c.inventory@) } else { None },
        Structure::Furnace(f) => Some(if is_input { f.input_inventory@ } else { f.output_inventory@ }),
        Structure::Assembler(a) => Some(if is_input { a.factory.input_inventory@ } else { a.factory.output_inventory@ }),
        _ => None,
    }
}

/// `s1` is `s0` with its store `is_input` (see [`store_of`]) holding `m`
/// and everything else as it was.
pub open spec fn store_set(s0: Structure, s1: Structure, is_input: bool, m: Map<ItemType, usize>) -> bool {
    match (s0, s1) {
        (Structure::Chest(c0), Structure::Chest(c1)) => is_input && c1.position == c0.position && c1.inventory@ == m,
        (Structure::Furnace(f0), Structure::Furnace(f1)) => {
            &&& f1.position == f0.position
            &&& f1.burner_inventory == f0.burner_inventory
            &&& f1.recipe == f0.recipe
            &&& f1.in_progress == f0.in_progress
            &&& if is_input {
                f1.input_inventory@ == m && f1.output_inventory == f0.output_inventory
            } else {
                f1.output_inventory@ == m && f1.input_inventory == f0.input_inventory
            }
        },
        (Structure::Assembler(a0), Structure::Assembler(a1)) => {
            &&& a1.position == a0.position
            &&& a1.factory.recipe == a0.factory.recipe
            &&& a1.factory.in_progress == a0.factory.in_progress
            &&& if is_input {
                a1.factory.input_inventory@ == m && a1.factory.output_inventory == a0.factory.output_inventory
            } else {
                a1.factory.output_inventory@ == m && a1.factory.input_inventory == a0.factory.input_inventory
            }
        },
        _ => false,
    }
}

/// Moving the whole entry of `item` from `src` to `dst`: the two
/// inventories after, and whether `src` had an entry to move.
pub open spec fn moved_entry(src: Map<ItemType, usize>, dst: Map<ItemType, usize>, item: ItemType) -> (Map<ItemType, usize>, Map<ItemType, usize>, bool) {
    (
        src.remove(item),
        if src.contains_key(item) { added(dst, item, count_of(src, item)) } else { dst },
        src.contains_key(item),
    )
}

/// Whether a structure feeds the power grid: steam engines and electric
/// poles do.
pub open spec fn is_power_source(s: Structure) -> bool {
    match s {
        Structure::Utility(k, _) => k == ItemType::SteamEngine || k == ItemType::ElectPole,
        _ => false,
    }
}

/// Whether a structure draws from the power grid: assemblers and electric
/// poles do.
pub open spec fn is_power_sink(s: Structure) -> bool {
    match s {
        Structure::Assembler(_) => true,
        Structure::Utility(k, _) => k == ItemType::ElectPole,
        _ => false,
    }
}

/// How far a structure's wires reach: electric poles reach farther.
pub open spec fn reach_of(s: Structure) -> u32 {
    match s {
        Structure::Utility(k, _) => if k == ItemType::ElectPole { POLE_WIRE_REACH } else { DEFAULT_WIRE_REACH },
        _ => DEFAULT_WIRE_REACH,
    }
}

/// The first structure, from index `i` on, standing on tile `pos`.
pub open spec fn first_at_from(ss: Seq<Structure>, pos: Position, i: int) -> Option<int>
    decreases ss.len() - i,
{
    if i < 0 || i >= ss.len() {
        None
    } else if position_of(ss[i]) == pos {
        Some(i)
    } else {
        first_at_from(ss, pos, i + 1)
    }
}

/// The first structure standing on tile `pos`.
pub open spec fn first_at(ss: Seq<Structure>, pos: Position) -> Option<int> {
    first_at_from(ss, pos, 0)
}

/// The first structure found from `k` on is the earliest one there.
pub proof fn lemma_first_at_from(ss: Seq<Structure>, pos: Position, k: int)
    requires
        0 <= k,
    ensures
        match first_at_from(ss, pos, k) {
            Some(i) => k <= i < ss.len() && position_of(ss[i]) == pos && forall|j: int|
                k <= j < i ==> position_of(#[trigger] ss[j]) != pos,
            None => forall|j: int| k <= j < ss.len() ==> position_of(#[trigger] ss[j]) != pos,
        },
    decreases ss.len() - k,
{
    if k < ss.len() && position_of(ss[k]) != pos {
        lemma_first_at_from(ss, pos, k + 1);
    }
}


} // verus!
