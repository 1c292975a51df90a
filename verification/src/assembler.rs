//! Assemblers: machines that craft the recipe the player selects.
use crate::capacity::{
    default_add_inventory, factory_add_inventory, factory_input_count, factory_output_spec, moved_count,
    RECIPE_CAPACITY_MULTIPLIER,
};
use crate::factory::Factory;
use crate::inventory::{added, count_of, removed, InventoryType};
use crate::items::ItemType;
use crate::recipe::{
    assembler_recipe_cost, assembler_recipe_input, assembler_recipe_output, assembler_recipe_tech, assembler_recipes, Recipe,
};
use crate::structure::Position;
use vstd::prelude::*;

verus! {

/// An assembler at a position, with its crafting state.
pub struct Assembler {
    pub position: Position,
    pub factory: Factory,
}

impl Assembler {
    /// An idle assembler without recipe.
    pub fn new(position: &Position) -> (ret: Self)
        ensures
            ret.position == *position,
            ret.factory.input_inventory@ == Map::<ItemType, usize>::empty(),
            ret.factory.output_inventory@ == Map::<ItemType, usize>::empty(),
            ret.factory.recipe is None,
            !ret.factory.in_progress,
    {
        Assembler { position: *position, factory: Factory::new() }
    }

    /// The recipes an assembler can craft.
    pub fn get_recipes(&self) -> (ret: Vec<Recipe>)
        ensures
            ret@.len() == 20,
            forall|k: int| 0 <= k < 20 ==> (#[trigger] ret@[k]).input@ == assembler_recipe_input(k) && ret@[k].output@ == assembler_recipe_output(k),
            forall|k: int| 0 <= k < 20 ==> (#[trigger] ret@[k]).power_cost == assembler_recipe_cost(k).0 && ret@[k].recipe_time
                == assembler_recipe_cost(k).1 && ret@[k].requires_technology@ == assembler_recipe_tech(k),
    {
        assembler_recipes()
    }

    /// Selects the recipe at `index` of [`assembler_recipes`]; an index out
    /// of range is refused and leaves the assembler as it is.
    pub fn select_recipe(&mut self, index: usize) -> (ret: Result<bool, ()>)
        ensures
            final(self).position == old(self).position,
            final(self).factory.input_inventory@ == old(self).factory.input_inventory@,
            final(self).factory.output_inventory@ == old(self).factory.output_inventory@,
            final(self).factory.in_progress == old(self).factory.in_progress,
            index < 20 ==> ret == Ok::<bool, ()>(true) && final(self).factory.recipe is Some
                && final(self).factory.recipe->0.input@ == assembler_recipe_input(index as int)
                && final(self).factory.recipe->0.output@ == assembler_recipe_output(index as int)
                && final(self).factory.recipe->0.power_cost == assembler_recipe_cost(index as int).0
                && final(self).factory.recipe->0.recipe_time == assembler_recipe_cost(index as int).1
                && final(self).factory.recipe->0.requires_technology@ == assembler_recipe_tech(index as int),
            index >= 20 ==> ret is Err && final(self).factory.recipe == old(self).factory.recipe,
    {
        let recipes = assembler_recipes();
        if index < recipes.len() {
            self.factory.recipe = Some(recipes[index].clone());
            Ok(true)
        } else {
            Err(())
        }
    }

    /// Adds (positive `count`) or removes (negative `count`) items of the
    /// assembler's input or output store and returns the signed count
    /// moved (see [`factory_add_inventory`]); other stores move nothing.
    pub fn add_inventory(&mut self, inventory_type: InventoryType, item: &ItemType, count: isize) -> (ret: isize)
        requires
            count != isize::MIN,
            old(self).factory.recipe matches Some(r) ==> count_of(r.input@, *item) * RECIPE_CAPACITY_MULTIPLIER <= isize::MAX
                && count_of(r.output@, *item) * RECIPE_CAPACITY_MULTIPLIER <= isize::MAX,
            count_of(old(self).factory.input_inventory@, *item) + (if 0 < count { count as int } else { 0 }) <= isize::MAX,
            count_of(old(self).factory.output_inventory@, *item) + (if 0 < count { count as int } else { 0 }) <= isize::MAX,
        ensures
            final(self).position == old(self).position,
            final(self).factory.recipe == old(self).factory.recipe,
            final(self).factory.in_progress == old(self).factory.in_progress,
            match inventory_type {
                InventoryType::Input => {
                    let c = factory_input_count(old(self).factory, false, Seq::empty(), *item, count as int);
                    &&& final(self).factory.output_inventory@ == old(self).factory.output_inventory@
                    &&& (final(self).factory.input_inventory@, ret as int) == moved_count(old(self).factory.input_inventory@, *item, c)
                },
                InventoryType::Output => {
                    let c = factory_output_spec(old(self).factory, *item, count as int);
                    &&& final(self).factory.input_inventory@ == old(self).factory.input_inventory@
                    &&& (final(self).factory.output_inventory@, ret as int) == moved_count(old(self).factory.output_inventory@, *item, c)
                },
                _ => ret == 0 && final(self).factory.input_inventory@ == old(self).factory.input_inventory@
                    && final(self).factory.output_inventory@ == old(self).factory.output_inventory@,
            },
            0 < count ==> 0 <= ret <= count,
            count <= 0 ==> count <= ret <= 0,
            inventory_type == InventoryType::Input ==> ret == count_of(final(self).factory.input_inventory@, *item) - count_of(
                old(self).factory.input_inventory@,
                *item,
            ),
            inventory_type == InventoryType::Output ==> ret == count_of(final(self).factory.output_inventory@, *item)
                - count_of(old(self).factory.output_inventory@, *item),
            forall|t: ItemType|
                t != *item ==> count_of(#[trigger] final(self).factory.input_inventory@, t) == count_of(
                    old(self).factory.input_inventory@,
                    t,
                ) && count_of(final(self).factory.output_inventory@, t) == count_of(old(self).factory.output_inventory@, t),
    {
        let mut taken = Factory::new();
        std::mem::swap(&mut taken, &mut self.factory);
        let mut slot = Some(taken);
        let no_recipes: Vec<Recipe> = Vec::new();
        proof {
            assert(no_recipes@ =~= Seq::<Recipe>::empty());
        }
        let ret = factory_add_inventory(&mut slot, inventory_type, false, &no_recipes, item, count);
        if let Some(g) = slot {
            self.factory = g;
        }
        ret
    }

    /// Takes one item into the input store, up to
    /// `RECIPE_CAPACITY_MULTIPLIER` runs of the selected recipe; refused
    /// without a recipe.
    pub fn input(&mut self, item_type: &ItemType) -> (ret: Result<(), ()>)
        requires
            count_of(old(self).factory.input_inventory@, *item_type) < usize::MAX,
            old(self).factory.recipe matches Some(r) ==> count_of(r.input@, *item_type) * RECIPE_CAPACITY_MULTIPLIER <= isize::MAX,
        ensures
            final(self).position == old(self).position,
            final(self).factory.output_inventory@ == old(self).factory.output_inventory@,
            final(self).factory.recipe == old(self).factory.recipe,
            final(self).factory.in_progress == old(self).factory.in_progress,
            match old(self).factory.recipe {
                Some(r) => if count_of(old(self).factory.input_inventory@, *item_type) < count_of(r.input@, *item_type) * RECIPE_CAPACITY_MULTIPLIER {
                    &&& ret is Ok
                    &&& final(self).factory.input_inventory@ == added(old(self).factory.input_inventory@, *item_type, 1)
                } else {
                    &&& ret is Err
                    &&& final(self).factory.input_inventory@ == removed(old(self).factory.input_inventory@, *item_type, 0).0
                },
                None => ret is Err && final(self).factory.input_inventory@ == old(self).factory.input_inventory@,
            },
    {
        match &self.factory.recipe {
            Some(recipe) => {
                let cap = Some(recipe.input.count_item(item_type) * RECIPE_CAPACITY_MULTIPLIER);
                if 0 < default_add_inventory(&mut self.factory.input_inventory, InventoryType::Input, cap, item_type, 1) {
                    Ok(())
                } else {
                    Err(())
                }
            },
            None => Err(()),
        }
    }

    /// Whether the assembler takes an item: one its selected recipe uses,
    /// while the input store holds fewer than twice the amount a run uses.
    pub fn can_input(&self, item_type: &ItemType) -> (ret: bool)
        requires
            self.factory.recipe matches Some(r) ==> count_of(r.input@, *item_type) * 2 <= usize::MAX,
        ensures
            ret == match self.factory.recipe {
                Some(r) => count_of(self.factory.input_inventory@, *item_type) < count_of(r.input@, *item_type) * 2,
                None => false,
            },
    {
        match &self.factory.recipe {
            Some(recipe) => self.factory.input_inventory.count_item(item_type) < recipe.input.count_item(item_type) * 2,
            None => false,
        }
    }
}

} // verus!
