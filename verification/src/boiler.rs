//! Boilers: burners that turn water into steam. This module keeps their
//! fuel store and recipe; the water and steam they hold are amounts of
//! fluid kept by the caller.
use crate::burner::{add_fuel, fuel_moved, FUEL_CAPACITY};
use crate::inventory::{added, count_of, merged, removed, Inventory};
use crate::items::ItemType;
use crate::recipe::{item_set_1, Recipe};
use crate::structure::Position;
use vstd::prelude::*;

verus! {

/// A boiler: its fuel store, its recipe (one coal per run) and whether a
/// run is under way.
pub struct Boiler {
    pub position: Position,
    pub inventory: Inventory,
    pub recipe: Option<Recipe>,
    pub in_progress: bool,
}

impl Boiler {
    /// An idle boiler without fuel, burning one coal per run at a cost of
    /// 100 kilojoules over 30 frames.
    pub fn new(position: &Position) -> (ret: Self)
        ensures
            ret.position == *position,
            ret.inventory@ == Map::<ItemType, usize>::empty(),
            ret.recipe matches Some(r) && r.input@ == map![ItemType::CoalOre => 1usize] && r.output@ == Map::<ItemType, usize>::empty()
                && r.power_cost == 100 && r.recipe_time == 30,
            !ret.in_progress,
    {
        Boiler {
            position: *position,
            inventory: Inventory::new(),
            recipe: Some(Recipe::new(item_set_1(ItemType::CoalOre, 1), Inventory::new(), 100, 30)),
            in_progress: false,
        }
    }

    /// Takes one item: coal while the fuel store has room.
    pub fn input(&mut self, item_type: &ItemType) -> (ret: Result<(), ()>)
        requires
            count_of(old(self).inventory@, ItemType::CoalOre) < usize::MAX,
        ensures
            final(self).position == old(self).position,
            final(self).recipe == old(self).recipe,
            final(self).in_progress == old(self).in_progress,
            if *item_type == ItemType::CoalOre && count_of(old(self).inventory@, ItemType::CoalOre) < FUEL_CAPACITY {
                ret is Ok && final(self).inventory@ == added(old(self).inventory@, ItemType::CoalOre, 1)
            } else {
                ret is Err && final(self).inventory@ == old(self).inventory@
            },
    {
        if *item_type == ItemType::CoalOre && self.inventory.count_item(&ItemType::CoalOre) < FUEL_CAPACITY {
            self.inventory.add_item(&ItemType::CoalOre);
            return Ok(());
        }
        Err(())
    }

    /// Whether the boiler takes an item: coal while the fuel store has room.
    pub fn can_input(&self, item_type: &ItemType) -> (ret: bool)
        ensures
            ret == (*item_type == ItemType::CoalOre && count_of(self.inventory@, ItemType::CoalOre) < FUEL_CAPACITY),
    {
        *item_type == ItemType::CoalOre && self.inventory.count_item(&ItemType::CoalOre) < FUEL_CAPACITY
    }

    /// Hands out one item of `item_type` from the fuel store.
    pub fn output(&mut self, item_type: &ItemType) -> (ret: Result<(), ()>)
        ensures
            final(self).position == old(self).position,
            final(self).recipe == old(self).recipe,
            final(self).in_progress == old(self).in_progress,
            final(self).inventory@ == removed(old(self).inventory@, *item_type, 1).0,
            ret is Ok == (count_of(old(self).inventory@, *item_type) > 0),
    {
        if self.inventory.remove_item(item_type) {
            Ok(())
        } else {
            Err(())
        }
    }

    /// Adds (positive `amount`) or removes (negative `amount`) items of the
    /// fuel store and returns the signed number moved (see [`add_fuel`]).
    pub fn add_burner_inventory(&mut self, item_type: &ItemType, amount: isize) -> (ret: isize)
        requires
            amount != isize::MIN,
            count_of(old(self).inventory@, ItemType::CoalOre) <= FUEL_CAPACITY,
        ensures
            final(self).position == old(self).position,
            final(self).recipe == old(self).recipe,
            final(self).in_progress == old(self).in_progress,
            (final(self).inventory@, ret as int) == fuel_moved(old(self).inventory@, FUEL_CAPACITY as int, *item_type, amount as int),
    {
        add_fuel(&mut self.inventory, FUEL_CAPACITY, item_type, amount)
    }

    /// Empties the boiler and drops its recipe, returning the fuel held and,
    /// when a run was under way, the coal it was burning.
    pub fn destroy_inventory(&mut self) -> (ret: Inventory)
        requires
            forall|t: ItemType| count_of(old(self).inventory@, t) + match old(self).recipe {
                Some(r) => count_of(r.input@, t),
                None => 0,
            } <= usize::MAX,
        ensures
            final(self).inventory@ == Map::<ItemType, usize>::empty(),
            final(self).recipe is None,
            final(self).position == old(self).position,
            ret@ == match old(self).recipe {
                Some(r) => if old(self).in_progress { merged(old(self).inventory@, r.input@) } else { old(self).inventory@ },
                None => old(self).inventory@,
            },
    {
        let mut ret = self.inventory.take_all();
        let recipe = self.recipe.take();
        if let Some(mut r) = recipe {
            if self.in_progress {
                let ingredients = r.input.take_all();
                ret.merge(ingredients);
            }
        }
        ret
    }
}

} // verus!
