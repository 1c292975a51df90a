use factorish::capacity::{
    default_add_inventory, factory_add_inventory, factory_can_input, factory_output_count, find_recipe_with_input, input_capacity,
    limit_by_capacity, move_items, storage_room, DEFAULT_MAX_CAPACITY,
};
use factorish::factory::Factory;
use factorish::inventory::{Inventory, InventoryType};
use factorish::items::ItemType;
use factorish::recipe::{assembler_recipes, furnace_recipes, item_set_1, Recipe};

#[test]
fn limits_by_room_left() {
    assert_eq!(limit_by_capacity(5, 2, 6), 4);
    assert_eq!(limit_by_capacity(3, 2, 6), 3);
    assert_eq!(limit_by_capacity(3, 6, 6), 0);
    assert_eq!(limit_by_capacity(3, 9, 6), 0);
}

#[test]
fn finds_first_recipe_using_an_item() {
    let f = furnace_recipes();
    assert_eq!(find_recipe_with_input(&f, &ItemType::CopperOre), Some(1));
    assert_eq!(find_recipe_with_input(&f, &ItemType::IronPlate), Some(2));
    assert_eq!(find_recipe_with_input(&f, &ItemType::Gear), None);
}

#[test]
fn input_capacity_from_selected_or_first_recipe() {
    let f = furnace_recipes();
    let gear = Recipe::new(item_set_1(ItemType::IronPlate, 2), item_set_1(ItemType::Gear, 1), 20, 50);
    assert_eq!(input_capacity(&Some(gear), false, &f, &ItemType::IronPlate), Some(6));
    assert_eq!(input_capacity(&None, true, &f, &ItemType::IronPlate), Some(15));
    assert_eq!(input_capacity(&None, true, &f, &ItemType::Gear), None);
    assert_eq!(input_capacity(&None, false, &f, &ItemType::IronOre), None);
}

#[test]
fn storage_room_counts_stacks() {
    let mut inv = Inventory::new();
    assert_eq!(storage_room(&inv, &ItemType::IronOre), 2400);
    inv.add_items(&ItemType::IronOre, 60);
    assert_eq!(storage_room(&inv, &ItemType::IronOre), 2340);
    assert_eq!(storage_room(&inv, &ItemType::Gear), 2300);
}

#[test]
fn move_items_signed() {
    let mut inv = Inventory::new();
    assert_eq!(move_items(&mut inv, &ItemType::Gear, 5), 5);
    assert_eq!(move_items(&mut inv, &ItemType::Gear, -3), -3);
    assert_eq!(move_items(&mut inv, &ItemType::Gear, -9), -2);
    assert_eq!(inv.count_item(&ItemType::Gear), 0);
}

#[test]
fn default_add_inventory_caps_each_store() {
    let mut inv = Inventory::new();
    assert_eq!(default_add_inventory(&mut inv, InventoryType::Input, None, &ItemType::Gear, 4), 0);
    assert_eq!(default_add_inventory(&mut inv, InventoryType::Input, Some(3), &ItemType::Gear, 4), 3);
    assert_eq!(default_add_inventory(&mut inv, InventoryType::Input, Some(3), &ItemType::Gear, 4), 0);
    assert_eq!(default_add_inventory(&mut inv, InventoryType::Input, Some(3), &ItemType::Gear, -5), -3);
    let mut store = Inventory::new();
    assert_eq!(default_add_inventory(&mut store, InventoryType::Storage, None, &ItemType::Pipe, 3000), 2400);
    assert_eq!(store.count_item(&ItemType::Pipe), 2400);
    // A storage already past its slots takes nothing more and loses nothing.
    let mut full = Inventory::new();
    full.insert(&ItemType::IronOre, 2450);
    assert_eq!(default_add_inventory(&mut full, InventoryType::Storage, None, &ItemType::IronOre, 1), 0);
    assert_eq!(full.count_item(&ItemType::IronOre), 2450);
    let mut out = Inventory::new();
    assert_eq!(default_add_inventory(&mut out, InventoryType::Output, None, &ItemType::Pipe, 7), 7);
}

#[test]
fn factory_input_and_output_counts() {
    let a = assembler_recipes();
    assert_eq!(factory_can_input(&None, false, &a, &ItemType::IronPlate, 5), 0);
    let mut f = Factory::new();
    // Without a recipe a factory holds up to DEFAULT_MAX_CAPACITY items and
    // never takes more than it was offered.
    assert_eq!(factory_can_input(&Some(Factory::new()), false, &a, &ItemType::IronPlate, 5), 5);
    assert_eq!(factory_can_input(&Some(Factory::new()), false, &a, &ItemType::IronPlate, 80), DEFAULT_MAX_CAPACITY as isize);
    // Without a recipe a removal still takes no more than is held.
    let mut held = Factory::new();
    held.input_inventory.add_items(&ItemType::IronPlate, 3);
    assert_eq!(factory_can_input(&Some(held), false, &a, &ItemType::IronPlate, -5), -3);
    f.recipe = Some(Recipe::new(item_set_1(ItemType::IronPlate, 2), item_set_1(ItemType::Gear, 1), 20, 50));
    f.input_inventory.add_items(&ItemType::IronPlate, 4);
    let fo = Some(f);
    assert_eq!(factory_can_input(&fo, false, &a, &ItemType::IronPlate, 5), 2);
    assert_eq!(factory_can_input(&fo, false, &a, &ItemType::IronPlate, -10), -4);
    let f = fo.unwrap();
    assert_eq!(factory_output_count(&f, &ItemType::Gear, 10), 3);
    assert_eq!(factory_output_count(&Factory::new(), &ItemType::Gear, 10), 10);
    assert_eq!(factory_output_count(&Factory::new(), &ItemType::Gear, 70), DEFAULT_MAX_CAPACITY as isize);
    // Auto recipe: the furnace table gives iron ore a capacity of three.
    let g = Some(Factory::new());
    assert_eq!(factory_can_input(&g, true, &furnace_recipes(), &ItemType::IronOre, 5), 3);
    assert_eq!(factory_can_input(&g, true, &furnace_recipes(), &ItemType::Gear, 5), 5);
}

#[test]
fn factory_stores_move_what_their_recipe_allows() {
    let a = assembler_recipes();
    let mut none: Option<Factory> = None;
    assert_eq!(factory_add_inventory(&mut none, InventoryType::Input, false, &a, &ItemType::IronPlate, 5), 0);
    let mut f = Factory::new();
    f.recipe = Some(Recipe::new(item_set_1(ItemType::IronPlate, 2), item_set_1(ItemType::Gear, 1), 20, 50));
    let mut fo = Some(f);
    assert_eq!(factory_add_inventory(&mut fo, InventoryType::Input, false, &a, &ItemType::IronPlate, 10), 6);
    assert_eq!(factory_add_inventory(&mut fo, InventoryType::Input, false, &a, &ItemType::IronPlate, 1), 0);
    assert_eq!(factory_add_inventory(&mut fo, InventoryType::Input, false, &a, &ItemType::IronPlate, -4), -4);
    assert_eq!(factory_add_inventory(&mut fo, InventoryType::Output, false, &a, &ItemType::Gear, 5), 3);
    assert_eq!(factory_add_inventory(&mut fo, InventoryType::Output, false, &a, &ItemType::Gear, -9), -3);
    assert_eq!(factory_add_inventory(&mut fo, InventoryType::Burner, false, &a, &ItemType::CoalOre, 2), 0);
    // Asked to add one, a factory without recipe adds one.
    let mut bare = Some(Factory::new());
    assert_eq!(factory_add_inventory(&mut bare, InventoryType::Input, false, &a, &ItemType::IronPlate, 1), 1);
    assert_eq!(bare.unwrap().input_inventory.count_item(&ItemType::IronPlate), 1);
    let f = fo.unwrap();
    assert_eq!(f.input_inventory.count_item(&ItemType::IronPlate), 2);
    assert_eq!(f.output_inventory.count_item(&ItemType::Gear), 0);
}
