//! Electric furnaces: smelters built from a factory and a burner, that pick
//! their recipe by what they are fed.
use crate::burner::{Burner, FUEL_CAPACITY};
use crate::capacity::find_recipe_with_input;
use crate::factory::Factory;
use crate::furnace::{furnace_input_of, smeltable};
use crate::inventory::{added, count_of};
use crate::items::ItemType;
use crate::recipe::furnace_recipes;
use vstd::prelude::*;

verus! {

/// Takes one item into an electric furnace: coal goes to the burner while
/// it has room; anything else selects the first smelting recipe that uses
/// it (if no recipe is selected yet) and is accepted (it is not stored).
/// An item no smelting recipe uses is refused when no recipe is selected.
pub fn input(factory: &mut Factory, burner: &mut Burner, item_type: &ItemType) -> (ret: Result<(), ()>)
    requires
        count_of(old(burner).inventory@, ItemType::CoalOre) < usize::MAX,
    ensures
        final(factory).input_inventory@ == old(factory).input_inventory@,
        final(factory).output_inventory@ == old(factory).output_inventory@,
        final(factory).in_progress == old(factory).in_progress,
        final(burner).capacity == old(burner).capacity,
        if *item_type == ItemType::CoalOre && count_of(old(burner).inventory@, ItemType::CoalOre) < FUEL_CAPACITY {
            &&& ret is Ok
            &&& final(burner).inventory@ == added(old(burner).inventory@, ItemType::CoalOre, 1)
            &&& final(factory).recipe == old(factory).recipe
        } else {
            &&& final(burner).inventory@ == old(burner).inventory@
            &&& if old(factory).recipe is Some {
                ret is Ok && final(factory).recipe == old(factory).recipe
            } else if smeltable(*item_type) {
                ret is Ok && final(factory).recipe is Some && final(factory).recipe->0.input@ == furnace_input_of(*item_type)
            } else {
                ret is Err && final(factory).recipe is None
            }
        },
{
    if *item_type == ItemType::CoalOre && burner.inventory.count_item(&ItemType::CoalOre) < FUEL_CAPACITY {
        burner.inventory.add_item(&ItemType::CoalOre);
        return Ok(());
    }
    if factory.recipe.is_none() {
        let recipes = furnace_recipes();
        match find_recipe_with_input(&recipes, item_type) {
            Some(i) => {
                factory.recipe = Some(recipes[i].clone());
            },
            None => {
                return Err(());
            },
        }
    }
    Ok(())
}

/// Whether an electric furnace takes an item: one its selected recipe
/// uses, or, without a recipe, one that some smelting recipe uses.
pub fn can_input(factory: &Factory, item_type: &ItemType) -> (ret: bool)
    ensures
        ret == match factory.recipe {
            Some(r) => r.input@.contains_key(*item_type),
            None => smeltable(*item_type),
        },
{
    match &factory.recipe {
        Some(recipe) => recipe.input.get(item_type).is_some(),
        None => {
            let recipes = furnace_recipes();
            find_recipe_with_input(&recipes, item_type).is_some()
        },
    }
}

} // verus!
