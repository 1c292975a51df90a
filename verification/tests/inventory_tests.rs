use factorish::inventory::{filter_inventory, Inventory, STACK_SIZE};
use factorish::items::{item_to_str, str_to_item, ItemType};

#[test]
fn add_and_count() {
    let mut inv = Inventory::new();
    assert_eq!(inv.count_item(&ItemType::IronOre), 0);
    inv.add_items(&ItemType::IronOre, 5);
    inv.add_item(&ItemType::IronOre);
    assert_eq!(inv.count_item(&ItemType::IronOre), 6);
    inv.add_items(&ItemType::Gear, 0);
    assert!(!inv.contains_key(&ItemType::Gear));
    assert_eq!(inv.len(), 1);
}

#[test]
fn remove_items_reports_count_removed() {
    let mut inv = Inventory::new();
    inv.add_items(&ItemType::Gear, 5);
    assert_eq!(inv.remove_items(&ItemType::Gear, 3), 3);
    assert_eq!(inv.count_item(&ItemType::Gear), 2);
    assert_eq!(inv.remove_items(&ItemType::Gear, 10), 2);
    assert!(!inv.contains_key(&ItemType::Gear));
    assert_eq!(inv.remove_items(&ItemType::Gear, 1), 0);
    assert!(!inv.remove_item(&ItemType::Gear));
}

#[test]
fn remove_undoes_add() {
    let mut inv = Inventory::new();
    inv.add_items(&ItemType::Circuit, 4);
    inv.add_items(&ItemType::Circuit, 7);
    assert_eq!(inv.remove_items(&ItemType::Circuit, 7), 7);
    assert_eq!(inv.count_item(&ItemType::Circuit), 4);
    let mut empty = Inventory::new();
    empty.add_items(&ItemType::Pipe, 2);
    assert_eq!(empty.remove_items(&ItemType::Pipe, 2), 2);
    assert_eq!(empty.len(), 0);
}

#[test]
fn merge_sums_counts() {
    let mut a = Inventory::new();
    a.add_items(&ItemType::IronPlate, 3);
    a.add_items(&ItemType::Gear, 1);
    let mut b = Inventory::new();
    b.add_items(&ItemType::IronPlate, 4);
    b.add_items(&ItemType::Chest, 2);
    a.merge(b);
    assert_eq!(a.count_item(&ItemType::IronPlate), 7);
    assert_eq!(a.count_item(&ItemType::Gear), 1);
    assert_eq!(a.count_item(&ItemType::Chest), 2);
    assert_eq!(a.len(), 3);
}

#[test]
fn count_slots_rounds_stacks_up() {
    let mut inv = Inventory::new();
    assert_eq!(inv.count_slots(), 0);
    inv.add_items(&ItemType::IronOre, STACK_SIZE);
    assert_eq!(inv.count_slots(), 1);
    inv.add_items(&ItemType::IronOre, 1);
    assert_eq!(inv.count_slots(), 2);
    inv.add_items(&ItemType::CoalOre, 120);
    assert_eq!(inv.count_slots(), 5);
    inv.insert(&ItemType::Gear, 0);
    assert_eq!(inv.count_slots(), 6);
}

#[test]
fn describe_lists_entries() {
    let mut inv = Inventory::new();
    inv.add_items(&ItemType::Gear, 12);
    inv.add_items(&ItemType::IronOre, 3);
    assert_eq!(inv.describe(), "IronOre: 3<br>Gear: 12<br>");
    assert_eq!(Inventory::new().describe(), "");
}

#[test]
fn entries_in_item_order() {
    let mut inv = Inventory::new();
    inv.add_items(&ItemType::Splitter, 1);
    inv.add_items(&ItemType::CoalOre, 2);
    assert_eq!(inv.entries(), vec![(ItemType::CoalOre, 2), (ItemType::Splitter, 1)]);
}

#[test]
fn take_all_and_remove() {
    let mut inv = Inventory::new();
    inv.add_items(&ItemType::Lab, 2);
    assert_eq!(inv.get(&ItemType::Lab), Some(2));
    assert_eq!(inv.remove(&ItemType::Lab), Some(2));
    assert_eq!(inv.remove(&ItemType::Lab), None);
    inv.add_items(&ItemType::Lab, 1);
    let taken = inv.take_all();
    assert_eq!(taken.count_item(&ItemType::Lab), 1);
    assert_eq!(inv.len(), 0);
}

#[test]
fn filter_splits_inventory() {
    let mut inv = Inventory::new();
    inv.add_items(&ItemType::CoalOre, 3);
    inv.add_items(&ItemType::IronOre, 4);
    let mut residual = Inventory::new();
    residual.add_items(&ItemType::IronOre, 1);
    let kept = filter_inventory(inv, |t| *t == ItemType::CoalOre, &mut residual);
    assert_eq!(kept.count_item(&ItemType::CoalOre), 3);
    assert!(!kept.contains_key(&ItemType::IronOre));
    assert_eq!(residual.count_item(&ItemType::IronOre), 5);
    assert!(!residual.contains_key(&ItemType::CoalOre));
}

#[test]
fn has_all_remove_all_add_all() {
    let mut inv = Inventory::new();
    inv.add_items(&ItemType::IronPlate, 5);
    inv.add_items(&ItemType::Gear, 2);
    let mut need = Inventory::new();
    need.add_items(&ItemType::IronPlate, 5);
    need.add_items(&ItemType::Gear, 1);
    assert!(inv.has_all(&need));
    inv.remove_all(&need);
    assert!(!inv.contains_key(&ItemType::IronPlate));
    assert_eq!(inv.count_item(&ItemType::Gear), 1);
    assert!(!inv.has_all(&need));
    inv.add_all(&need);
    assert_eq!(inv.count_item(&ItemType::IronPlate), 5);
    assert_eq!(inv.count_item(&ItemType::Gear), 2);
}

#[test]
fn item_names_round_trip() {
    assert_eq!(item_to_str(&ItemType::IronOre), "Iron Ore");
    assert_eq!(item_to_str(&ItemType::ElectPole), "Electric Pole");
    assert_eq!(str_to_item("Underground Belt"), Some(ItemType::UndergroundBelt));
    assert_eq!(str_to_item("Steam Engine"), Some(ItemType::SteamEngine));
    assert_eq!(str_to_item("Iron ore"), None);
    assert_eq!(str_to_item(""), None);
    let all = [
        ItemType::IronOre, ItemType::CoalOre, ItemType::CopperOre, ItemType::IronPlate,
        ItemType::StoneOre, ItemType::CopperPlate, ItemType::Gear, ItemType::CopperWire,
        ItemType::Circuit, ItemType::SteelPlate, ItemType::SciencePack1, ItemType::SciencePack2,
        ItemType::TransportBelt, ItemType::Chest, ItemType::Inserter, ItemType::OreMine,
        ItemType::Furnace, ItemType::ElectricFurnace, ItemType::Assembler, ItemType::Lab,
        ItemType::Boiler, ItemType::WaterWell, ItemType::OffshorePump, ItemType::Pipe,
        ItemType::UndergroundPipe, ItemType::SteamEngine, ItemType::ElectPole, ItemType::Splitter,
        ItemType::UndergroundBelt,
    ];
    for t in all.iter() {
        assert_eq!(str_to_item(&item_to_str(t)), Some(*t));
    }
}
