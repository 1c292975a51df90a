use factorish::assembler::Assembler;
use factorish::factory::Factory;
use factorish::furnace::Furnace;
use factorish::inventory::{Inventory, InventoryType};
use factorish::items::ItemType;
use factorish::recipe::{assembler_recipes, furnace_recipes, item_set_1, item_set_2, Recipe};
use factorish::structure::Position;

fn gear_recipe() -> Recipe {
    Recipe::new(item_set_1(ItemType::IronPlate, 2), item_set_1(ItemType::Gear, 1), 20, 50)
}

#[test]
fn factory_runs_a_recipe() {
    let mut f = Factory::new();
    // Without a recipe nothing is stored, yet the input counts as taken.
    assert_eq!(f.input(&ItemType::IronPlate), Ok(()));
    assert_eq!(f.input_inventory.count_item(&ItemType::IronPlate), 0);
    f.recipe = Some(gear_recipe());
    assert_eq!(f.input(&ItemType::Circuit), Err(()));
    assert_eq!(f.input(&ItemType::IronPlate), Ok(()));
    assert!(!f.try_start());
    assert_eq!(f.input(&ItemType::IronPlate), Ok(()));
    assert_eq!(f.input(&ItemType::IronPlate), Ok(()));
    assert!(f.try_start());
    assert!(f.in_progress);
    assert_eq!(f.input_inventory.count_item(&ItemType::IronPlate), 1);
    // A second start waits for the run in progress.
    assert!(!f.try_start());
    assert!(f.finish());
    assert!(!f.finish());
    assert_eq!(f.output_inventory.count_item(&ItemType::Gear), 1);
    assert_eq!(f.can_output().count_item(&ItemType::Gear), 1);
    assert_eq!(f.output(&ItemType::Gear), Ok(()));
    assert_eq!(f.output(&ItemType::Gear), Err(()));
}

#[test]
fn factory_destroy_gives_back_ingredients_of_a_run() {
    let mut f = Factory::new();
    f.recipe = Some(gear_recipe());
    f.input_inventory.add_items(&ItemType::IronPlate, 3);
    f.output_inventory.add_items(&ItemType::Gear, 4);
    assert!(f.try_start());
    let all = f.destroy_inventory();
    assert_eq!(all.count_item(&ItemType::IronPlate), 3);
    assert_eq!(all.count_item(&ItemType::Gear), 4);
    assert!(f.recipe.is_none());
    assert_eq!(f.input_inventory.len(), 0);
    assert_eq!(f.output_inventory.len(), 0);
}

#[test]
fn factory_picks_first_recipe_it_can_run() {
    let mut f = Factory::new();
    f.input_inventory.add_items(&ItemType::CopperOre, 1);
    f.pick_recipe(&furnace_recipes());
    let r = f.recipe.as_ref().unwrap();
    assert_eq!(r.output.count_item(&ItemType::CopperPlate), 1);
}

#[test]
fn furnace_takes_coal_and_ore() {
    let mut fu = Furnace::new(&Position::new(8, 3));
    assert_eq!(fu.input(&ItemType::CoalOre), Ok(()));
    assert_eq!(fu.burner_inventory.count_item(&ItemType::CoalOre), 1);
    assert_eq!(fu.input(&ItemType::Gear), Err(()));
    assert!(fu.recipe.is_none());
    assert!(fu.can_input(&ItemType::IronOre));
    assert_eq!(fu.input(&ItemType::IronOre), Ok(()));
    let r = fu.recipe.as_ref().unwrap();
    assert_eq!(r.output.count_item(&ItemType::IronPlate), 1);
    // Up to three runs of ore are stored.
    assert_eq!(fu.input(&ItemType::IronOre), Ok(()));
    assert_eq!(fu.input(&ItemType::IronOre), Ok(()));
    assert_eq!(fu.input(&ItemType::IronOre), Err(()));
    assert!(!fu.can_input(&ItemType::IronOre));
    assert!(!fu.can_input(&ItemType::CopperOre));
}

#[test]
fn furnace_smelts_one_plate_per_run() {
    let mut fu = Furnace::new(&Position::new(0, 0));
    fu.input(&ItemType::IronOre).unwrap();
    assert!(fu.try_start());
    assert_eq!(fu.input_inventory.count_item(&ItemType::IronOre), 0);
    assert!(fu.finish());
    assert_eq!(fu.output_inventory.count_item(&ItemType::IronPlate), 1);
    assert_eq!(fu.output(&ItemType::IronPlate), Ok(()));
    // Nothing left to smelt: the recipe is dropped.
    assert!(!fu.try_start());
    assert!(fu.recipe.is_none());
}

#[test]
fn furnace_burns_fuel_and_moves_burner_items() {
    let mut fu = Furnace::new(&Position::new(0, 0));
    assert!(!fu.burn_fuel());
    assert_eq!(fu.add_inventory(InventoryType::Burner, &ItemType::CoalOre, 15), 10);
    assert!(fu.burn_fuel());
    assert_eq!(fu.burner_inventory.count_item(&ItemType::CoalOre), 9);
    assert_eq!(fu.add_inventory(InventoryType::Burner, &ItemType::CoalOre, -20), -9);
}

#[test]
fn assembler_selects_recipes_by_index() {
    let mut a = Assembler::new(&Position::new(6, 3));
    assert_eq!(a.get_recipes().len(), 20);
    assert_eq!(a.input(&ItemType::IronPlate), Err(()));
    assert_eq!(a.select_recipe(0), Ok(true));
    assert!(a.can_input(&ItemType::IronPlate));
    assert!(!a.can_input(&ItemType::CopperPlate));
    for _ in 0..6 {
        assert_eq!(a.input(&ItemType::IronPlate), Ok(()));
    }
    assert_eq!(a.input(&ItemType::IronPlate), Err(()));
    assert_eq!(a.select_recipe(20), Err(()));
    assert_eq!(a.factory.recipe.as_ref().unwrap().output.count_item(&ItemType::Gear), 1);
}

#[test]
fn recipe_tables_have_their_sizes_and_costs() {
    let f = furnace_recipes();
    assert_eq!(f.len(), 3);
    assert_eq!(f[2].input.count_item(&ItemType::IronPlate), 5);
    assert_eq!(f[2].output.count_item(&ItemType::SteelPlate), 1);
    assert_eq!(f[2].recipe_time, 250);
    let a = assembler_recipes();
    assert_eq!(a.len(), 20);
    assert_eq!(a[9].output.count_item(&ItemType::Assembler), 1);
    assert_eq!(a[9].input.count_item(&ItemType::Circuit), 3);
    assert_eq!(a[12].power_cost, 100);
    let s = item_set_2(ItemType::Gear, 2, ItemType::Pipe, 3);
    assert_eq!(s.count_item(&ItemType::Pipe), 3);
    let _ = Inventory::new();
}

#[test]
fn assembler_add_inventory_follows_its_recipe() {
    let mut a = Assembler::new(&Position::new(1, 1));
    // Without a recipe a positive count moves at most what was asked.
    assert_eq!(a.add_inventory(InventoryType::Input, &ItemType::IronPlate, 1), 1);
    assert_eq!(a.add_inventory(InventoryType::Input, &ItemType::IronPlate, 80), 49);
    assert_eq!(a.add_inventory(InventoryType::Input, &ItemType::IronPlate, -60), -50);
    a.factory.recipe = Some(gear_recipe());
    assert_eq!(a.add_inventory(InventoryType::Input, &ItemType::IronPlate, 10), 6);
    assert_eq!(a.add_inventory(InventoryType::Output, &ItemType::Gear, 5), 3);
    assert_eq!(a.add_inventory(InventoryType::Burner, &ItemType::CoalOre, 5), 0);
    assert_eq!(a.factory.input_inventory.count_item(&ItemType::IronPlate), 6);
    assert_eq!(a.factory.output_inventory.count_item(&ItemType::Gear), 3);
}
