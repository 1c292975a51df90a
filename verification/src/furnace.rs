//! Furnaces: burner-fed machines that pick their smelting recipe by what
//! they are fed.
use crate::burner::{add_fuel, fuel_moved, FUEL_CAPACITY};
use crate::capacity::{
    capped_count, default_add_inventory, find_recipe_with_input, input_capacity,
    lemma_first_index_with_bounds, RECIPE_CAPACITY_MULTIPLIER,
};
use crate::inventory::{
    added, added_all, count_of, holds_all, merged, one_of_each, removed, subtracted, Inventory,
    InventoryType,
};
use crate::items::ItemType;
use crate::recipe::{furnace_recipe_input, furnace_recipes, Recipe};
use crate::structure::Position;
use vstd::prelude::*;

verus! {

/// A furnace. A run of its recipe takes the ingredients out of the input
/// store when it starts and puts one of each product into the output store
/// when it ends; `in_progress` says whether a run has started and not
/// ended. (How far a run has got, and the energy stored, are kept by the
/// caller.)
pub struct Furnace {
    pub position: Position,
    pub burner_inventory: Inventory,
    pub input_inventory: Inventory,
    pub output_inventory: Inventory,
    pub recipe: Option<Recipe>,
    pub in_progress: bool,
}

/// Whether `t` is an ingredient of one of the smelting recipes.
pub open spec fn smeltable(t: ItemType) -> bool {
    t == ItemType::IronOre || t == ItemType::CopperOre || t == ItemType::IronPlate
}

impl Furnace {
    /// An idle, empty furnace.
    pub fn new(position: &Position) -> (ret: Self)
        ensures
            ret.position == *position,
            ret.burner_inventory@ == Map::<ItemType, usize>::empty(),
            ret.input_inventory@ == Map::<ItemType, usize>::empty(),
            ret.output_inventory@ == Map::<ItemType, usize>::empty(),
            ret.recipe is None,
            !ret.in_progress,
    {
        Furnace {
            position: *position,
            burner_inventory: Inventory::new(),
            input_inventory: Inventory::new(),
            output_inventory: Inventory::new(),
            recipe: None,
            in_progress: false,
        }
    }

    /// Takes one item: coal goes to the burner while it has room; anything
    /// else selects the first smelting recipe that uses it (if no recipe is
    /// selected yet) and goes to the input store, up to
    /// `RECIPE_CAPACITY_MULTIPLIER` runs of that recipe.
    pub fn input(&mut self, item_type: &ItemType) -> (ret: Result<(), ()>)
        requires
            count_of(old(self).burner_inventory@, *item_type) < usize::MAX,
            count_of(old(self).input_inventory@, *item_type) < usize::MAX,
            old(self).recipe matches Some(r) ==> count_of(r.input@, *item_type) * RECIPE_CAPACITY_MULTIPLIER <= isize::MAX,
        ensures
            final(self).position == old(self).position,
            final(self).output_inventory@ == old(self).output_inventory@,
            final(self).in_progress == old(self).in_progress,
            if *item_type == ItemType::CoalOre && count_of(old(self).burner_inventory@, ItemType::CoalOre) < FUEL_CAPACITY {
                &&& ret is Ok
                &&& final(self).burner_inventory@ == added(old(self).burner_inventory@, ItemType::CoalOre, 1)
                &&& final(self).input_inventory@ == old(self).input_inventory@
                &&& final(self).recipe == old(self).recipe
            } else if old(self).recipe is None && !smeltable(*item_type) {
                &&& ret is Err
                &&& final(self).burner_inventory@ == old(self).burner_inventory@
                &&& final(self).input_inventory@ == old(self).input_inventory@
                &&& final(self).recipe is None
            } else {
                let r = match old(self).recipe {
                    Some(r) => r,
                    None => final(self).recipe->0,
                };
                let cap = count_of(r.input@, *item_type) * RECIPE_CAPACITY_MULTIPLIER;
                let existing = count_of(old(self).input_inventory@, *item_type);
                &&& final(self).burner_inventory@ == old(self).burner_inventory@
                &&& final(self).recipe is Some
                &&& old(self).recipe is Some ==> final(self).recipe == old(self).recipe
                &&& old(self).recipe is None ==> final(self).recipe->0.input@ == furnace_input_of(*item_type)
                &&& if existing < cap {
                    &&& ret is Ok
                    &&& final(self).input_inventory@ == added(old(self).input_inventory@, *item_type, 1)
                } else {
                    &&& ret is Err
                    &&& final(self).input_inventory@ == removed(old(self).input_inventory@, *item_type, 0).0
                }
            },
    {
        if *item_type == ItemType::CoalOre && self.burner_inventory.count_item(&ItemType::CoalOre) < FUEL_CAPACITY {
            self.burner_inventory.add_item(&ItemType::CoalOre);
            return Ok(());
        }
        let recipes = furnace_recipes();
        if self.recipe.is_none() {
            match find_recipe_with_input(&recipes, item_type) {
                Some(i) => {
                    self.recipe = Some(recipes[i].clone());
                },
                None => {
                    return Err(());
                },
            }
        }
        let cap = input_capacity(&self.recipe, true, &recipes, item_type);
        if 0 < default_add_inventory(&mut self.input_inventory, InventoryType::Input, cap, item_type, 1) {
            Ok(())
        } else {
            Err(())
        }
    }
}

impl Furnace {
    /// Whether the furnace takes an item: coal while the burner has room;
    /// an ingredient of the selected recipe while the input store holds
    /// fewer than `RECIPE_CAPACITY_MULTIPLIER` runs of it; without a
    /// recipe, any ingredient of a smelting recipe.
    pub fn can_input(&self, item_type: &ItemType) -> (ret: bool)
        requires
            self.recipe matches Some(r) ==> count_of(r.input@, *item_type) * RECIPE_CAPACITY_MULTIPLIER <= usize::MAX,
        ensures
            ret == if *item_type == ItemType::CoalOre && count_of(self.burner_inventory@, ItemType::CoalOre) < FUEL_CAPACITY {
                true
            } else {
                match self.recipe {
                    Some(r) => r.input@.contains_key(*item_type) && count_of(self.input_inventory@, *item_type) < r.input@[*item_type] * RECIPE_CAPACITY_MULTIPLIER,
                    None => smeltable(*item_type),
                }
            },
    {
        if *item_type == ItemType::CoalOre && self.burner_inventory.count_item(item_type) < FUEL_CAPACITY {
            return true;
        }
        match &self.recipe {
            Some(recipe) => match recipe.input.get(item_type) {
                Some(count) => self.input_inventory.count_item(item_type) < count * RECIPE_CAPACITY_MULTIPLIER,
                None => false,
            },
            None => {
                let recipes = furnace_recipes();
                find_recipe_with_input(&recipes, item_type).is_some()
            },
        }
    }

    /// The items the furnace can hand out: a copy of its output store.
    pub fn can_output(&self) -> (ret: Inventory)
        ensures
            ret@ == self.output_inventory@,
    {
        self.output_inventory.clone()
    }

    /// Hands out one item of `item_type` from the output store.
    pub fn output(&mut self, item_type: &ItemType) -> (ret: Result<(), ()>)
        ensures
            final(self).position == old(self).position,
            final(self).output_inventory@ == removed(old(self).output_inventory@, *item_type, 1).0,
            final(self).input_inventory@ == old(self).input_inventory@,
            final(self).burner_inventory@ == old(self).burner_inventory@,
            final(self).recipe == old(self).recipe,
            final(self).in_progress == old(self).in_progress,
            ret is Ok == (count_of(old(self).output_inventory@, *item_type) > 0),
    {
        if self.output_inventory.remove_item(item_type) {
            Ok(())
        } else {
            Err(())
        }
    }

    /// The store of an inventory type: burner, input or output (a furnace
    /// has no storage).
    pub fn inventory(&self, invtype: InventoryType) -> (ret: Option<&Inventory>)
        ensures
            ret == match invtype {
                InventoryType::Burner => Some(&self.burner_inventory),
                InventoryType::Input => Some(&self.input_inventory),
                InventoryType::Output => Some(&self.output_inventory),
                InventoryType::Storage => None,
            },
    {
        match invtype {
            InventoryType::Burner => Some(&self.burner_inventory),
            InventoryType::Input => Some(&self.input_inventory),
            InventoryType::Output => Some(&self.output_inventory),
            InventoryType::Storage => None,
        }
    }

    /// Empties every store and drops the recipe, returning everything held;
    /// the ingredients of a run in progress are given back too.
    pub fn destroy_inventory(&mut self) -> (ret: Inventory)
        requires
            forall|t: ItemType|
                count_of(old(self).input_inventory@, t) + count_of(old(self).output_inventory@, t)
                    + count_of(old(self).burner_inventory@, t) + match old(self).recipe {
                    Some(r) => if old(self).in_progress { count_of(r.input@, t) } else { 0 },
                    None => 0,
                } <= usize::MAX,
        ensures
            final(self).input_inventory@ == Map::<ItemType, usize>::empty(),
            final(self).output_inventory@ == Map::<ItemType, usize>::empty(),
            final(self).burner_inventory@ == Map::<ItemType, usize>::empty(),
            final(self).recipe is None,
            final(self).position == old(self).position,
            ret@ == match old(self).recipe {
                Some(r) => if old(self).in_progress {
                    merged(merged(merged(old(self).input_inventory@, old(self).output_inventory@), old(self).burner_inventory@), r.input@)
                } else {
                    merged(merged(old(self).input_inventory@, old(self).output_inventory@), old(self).burner_inventory@)
                },
                None => merged(merged(old(self).input_inventory@, old(self).output_inventory@), old(self).burner_inventory@),
            },
    {
        let mut ret = self.input_inventory.take_all();
        let out = self.output_inventory.take_all();
        ret.merge(out);
        let burner = self.burner_inventory.take_all();
        ret.merge(burner);
        let recipe = self.recipe.take();
        match recipe {
            Some(mut recipe) => {
                if self.in_progress {
                    let ingredients = recipe.input.take_all();
                    ret.merge(ingredients);
                }
            },
            None => {},
        }
        ret
    }

    /// Without a recipe, selects the first smelting recipe whose
    /// ingredients the input store holds.
    pub fn pick_recipe(&mut self)
        ensures
            final(self).input_inventory@ == old(self).input_inventory@,
            final(self).output_inventory@ == old(self).output_inventory@,
            final(self).burner_inventory@ == old(self).burner_inventory@,
            final(self).in_progress == old(self).in_progress,
            old(self).recipe is Some ==> final(self).recipe == old(self).recipe,
            old(self).recipe is None ==> match final(self).recipe {
                Some(r) => exists|k: int|
                    0 <= k < 3 && r.input@ == #[trigger] furnace_recipe_input(k) && holds_all(old(self).input_inventory@, furnace_recipe_input(k))
                        && forall|j: int| 0 <= j < k ==> !holds_all(old(self).input_inventory@, #[trigger] furnace_recipe_input(j)),
                None => forall|k: int| 0 <= k < 3 ==> !holds_all(old(self).input_inventory@, #[trigger] furnace_recipe_input(k)),
            },
    {
        if self.recipe.is_none() {
            let recipes = furnace_recipes();
            let mut i: usize = 0;
            while i < recipes.len()
                invariant
                    i <= recipes@.len(),
                    self.recipe is None,
                    self.input_inventory@ == old(self).input_inventory@,
                    self.output_inventory@ == old(self).output_inventory@,
                    self.burner_inventory@ == old(self).burner_inventory@,
                    self.in_progress == old(self).in_progress,
                    old(self).recipe is None,
                    recipes@.len() == 3,
                    forall|k: int| 0 <= k < 3 ==> (#[trigger] recipes@[k]).input@ == furnace_recipe_input(k),
                    forall|j: int| 0 <= j < i ==> !holds_all(old(self).input_inventory@, #[trigger] furnace_recipe_input(j)),
                decreases recipes@.len() - i,
            {
                if self.input_inventory.has_all(&recipes[i].input) {
                    self.recipe = Some(recipes[i].clone());
                    proof {
                        assert(recipes@[i as int].input@ == furnace_recipe_input(i as int));
                    }
                    return;
                }
                i = i + 1;
            }
        }
    }

    /// Starts a run when a recipe is selected and no run is in progress:
    /// if the input store holds every ingredient they are taken out and the
    /// run starts, otherwise the recipe is dropped. Says whether a run
    /// started.
    pub fn try_start(&mut self) -> (ret: bool)
        ensures
            final(self).output_inventory@ == old(self).output_inventory@,
            final(self).burner_inventory@ == old(self).burner_inventory@,
            ret == match old(self).recipe {
                Some(r) => !old(self).in_progress && holds_all(old(self).input_inventory@, r.input@),
                None => false,
            },
            ret ==> final(self).in_progress && final(self).recipe == old(self).recipe && final(self).input_inventory@ == subtracted(
                old(self).input_inventory@,
                old(self).recipe->0.input@,
            ),
            !ret ==> final(self).in_progress == old(self).in_progress
                && final(self).input_inventory@ == old(self).input_inventory@,
            !ret && old(self).recipe is Some && !old(self).in_progress ==> final(self).recipe is None,
            !ret && !(old(self).recipe is Some && !old(self).in_progress) ==> final(self).recipe == old(self).recipe,
    {
        let ready = match &self.recipe {
            Some(recipe) => {
                if self.in_progress {
                    return false;
                }
                self.input_inventory.has_all(&recipe.input)
            },
            None => {
                return false;
            },
        };
        if ready {
            match &self.recipe {
                Some(recipe) => {
                    self.input_inventory.remove_all(&recipe.input);
                },
                None => {},
            }
            self.in_progress = true;
            true
        } else {
            self.recipe = None;
            false
        }
    }

    /// Ends a run in progress: one of each product of the recipe goes into
    /// the output store. Says whether a run ended.
    pub fn finish(&mut self) -> (ret: bool)
        requires
            old(self).recipe matches Some(r) ==> forall|t: ItemType|
                count_of(old(self).output_inventory@, t) + 1 <= usize::MAX,
        ensures
            final(self).input_inventory@ == old(self).input_inventory@,
            final(self).burner_inventory@ == old(self).burner_inventory@,
            final(self).recipe == old(self).recipe,
            ret == (old(self).recipe is Some && old(self).in_progress),
            ret ==> !final(self).in_progress && final(self).output_inventory@ == added_all(
                old(self).output_inventory@,
                one_of_each(old(self).recipe->0.output@),
            ),
            !ret ==> final(self).in_progress == old(self).in_progress
                && final(self).output_inventory@ == old(self).output_inventory@,
    {
        match &self.recipe {
            Some(recipe) => {
                if self.in_progress {
                    let ones = recipe.output.one_of_each();
                    self.output_inventory.add_all(&ones);
                    self.in_progress = false;
                    true
                } else {
                    false
                }
            },
            None => false,
        }
    }

    /// Adds (positive `count`) or removes (negative `count`) items of one
    /// of the stores and returns the signed count moved: the burner takes
    /// only coal, up to `FUEL_CAPACITY`; the input store is limited by the
    /// smelting recipes (see [`default_add_inventory`]); the output store
    /// is not limited; a furnace has no storage.
    #[verifier::rlimit(40)]
    pub fn add_inventory(&mut self, inventory_type: InventoryType, item_type: &ItemType, count: isize) -> (ret: isize)
        requires
            count != isize::MIN,
            count_of(old(self).burner_inventory@, ItemType::CoalOre) <= FUEL_CAPACITY,
            old(self).recipe matches Some(r) ==> count_of(r.input@, *item_type) * RECIPE_CAPACITY_MULTIPLIER <= isize::MAX,
            count_of(old(self).input_inventory@, *item_type) + count <= usize::MAX,
            count_of(old(self).output_inventory@, *item_type) + count <= usize::MAX,
        ensures
            final(self).recipe == old(self).recipe,
            final(self).in_progress == old(self).in_progress,
            match inventory_type {
                InventoryType::Burner => {
                    &&& (final(self).burner_inventory@, ret as int) == fuel_moved(old(self).burner_inventory@, FUEL_CAPACITY as int, *item_type, count as int)
                    &&& final(self).input_inventory@ == old(self).input_inventory@
                    &&& final(self).output_inventory@ == old(self).output_inventory@
                },
                InventoryType::Input => {
                    let cap: Option<usize> = match old(self).recipe {
                        Some(r) => Some((count_of(r.input@, *item_type) * RECIPE_CAPACITY_MULTIPLIER) as usize),
                        None => if smeltable(*item_type) {
                            Some((count_of(furnace_input_of(*item_type), *item_type) * RECIPE_CAPACITY_MULTIPLIER) as usize)
                        } else {
                            None
                        },
                    };
                    let c = capped_count(old(self).input_inventory@, InventoryType::Input, cap, *item_type, count as int);
                    &&& final(self).burner_inventory@ == old(self).burner_inventory@
                    &&& final(self).output_inventory@ == old(self).output_inventory@
                    &&& if 0 < count && cap is None {
                        ret == 0 && final(self).input_inventory@ == old(self).input_inventory@
                    } else if 0 < c {
                        ret == c && final(self).input_inventory@ == added(old(self).input_inventory@, *item_type, c as nat)
                    } else {
                        ret == -removed(old(self).input_inventory@, *item_type, (-c) as nat).1
                            && final(self).input_inventory@ == removed(old(self).input_inventory@, *item_type, (-c) as nat).0
                    }
                },
                InventoryType::Output => {
                    &&& final(self).burner_inventory@ == old(self).burner_inventory@
                    &&& final(self).input_inventory@ == old(self).input_inventory@
                    &&& if 0 < count {
                        ret == count && final(self).output_inventory@ == added(old(self).output_inventory@, *item_type, count as nat)
                    } else {
                        ret == -removed(old(self).output_inventory@, *item_type, (-count) as nat).1
                            && final(self).output_inventory@ == removed(old(self).output_inventory@, *item_type, (-count) as nat).0
                    }
                },
                InventoryType::Storage => {
                    &&& ret == 0
                    &&& final(self).burner_inventory@ == old(self).burner_inventory@
                    &&& final(self).input_inventory@ == old(self).input_inventory@
                    &&& final(self).output_inventory@ == old(self).output_inventory@
                },
            },
            0 < count ==> 0 <= ret <= count,
            count <= 0 ==> count <= ret <= 0,
            ret == match inventory_type {
                InventoryType::Burner => count_of(final(self).burner_inventory@, *item_type) - count_of(old(self).burner_inventory@, *item_type),
                InventoryType::Input => count_of(final(self).input_inventory@, *item_type) - count_of(old(self).input_inventory@, *item_type),
                InventoryType::Output => count_of(final(self).output_inventory@, *item_type) - count_of(old(self).output_inventory@, *item_type),
                InventoryType::Storage => 0int,
            },
            forall|t: ItemType|
                t != *item_type ==> count_of(#[trigger] final(self).input_inventory@, t) == count_of(old(self).input_inventory@, t)
                    && count_of(final(self).output_inventory@, t) == count_of(old(self).output_inventory@, t)
                    && count_of(final(self).burner_inventory@, t) == count_of(old(self).burner_inventory@, t),
    {
        match inventory_type {
            InventoryType::Burner => {
                let ret = add_fuel(&mut self.burner_inventory, FUEL_CAPACITY, item_type, count);
                ret
            },
            InventoryType::Input => {
                let recipes = furnace_recipes();
                let cap = input_capacity(&self.recipe, true, &recipes, item_type);
                proof {
                    lemma_first_index_with_bounds(recipes@, *item_type);
                }
                default_add_inventory(&mut self.input_inventory, InventoryType::Input, cap, item_type, count)
            },
            InventoryType::Output => default_add_inventory(&mut self.output_inventory, InventoryType::Output, None, item_type, count),
            InventoryType::Storage => 0,
        }
    }

    /// Burns one piece of coal from the burner store, if there is any; says
    /// whether it did. (The energy it gives is kept by the caller.)
    pub fn burn_fuel(&mut self) -> (ret: bool)
        ensures
            ret == (count_of(old(self).burner_inventory@, ItemType::CoalOre) > 0),
            ret ==> final(self).burner_inventory@ == removed(old(self).burner_inventory@, ItemType::CoalOre, 1).0,
            !ret ==> final(self).burner_inventory@ == old(self).burner_inventory@,
            final(self).input_inventory@ == old(self).input_inventory@,
            final(self).output_inventory@ == old(self).output_inventory@,
            final(self).recipe == old(self).recipe,
            final(self).in_progress == old(self).in_progress,
    {
        if self.burner_inventory.count_item(&ItemType::CoalOre) > 0 {
            self.burner_inventory.remove_item(&ItemType::CoalOre);
            true
        } else {
            false
        }
    }
}

/// The ingredients of the smelting recipe that uses `t`.
pub open spec fn furnace_input_of(t: ItemType) -> Map<ItemType, usize> {
    if t == ItemType::IronOre {
        map![ItemType::IronOre => 1usize]
    } else if t == ItemType::CopperOre {
        map![ItemType::CopperOre => 1usize]
    } else {
        map![ItemType::IronPlate => 5usize]
    }
}

} // verus!
