use factorish::burner::{Burner, FUEL_CAPACITY};
use factorish::chest::{Chest, CHEST_CAPACITY};

use factorish::items::{item_at, ItemType};
use factorish::structure::{FrameProcResult, ItemResponse, Position};

#[test]
fn burner_takes_coal_up_to_capacity() {
    let mut b = Burner::new(FUEL_CAPACITY);
    assert!(b.can_input(&ItemType::CoalOre));
    assert!(!b.can_input(&ItemType::IronOre));
    assert_eq!(b.input(&ItemType::IronOre), Err(()));
    for _ in 0..FUEL_CAPACITY {
        assert_eq!(b.input(&ItemType::CoalOre), Ok(()));
    }
    assert_eq!(b.inventory.count_item(&ItemType::CoalOre), 10);
    assert_eq!(b.input(&ItemType::CoalOre), Err(()));
    assert!(!b.can_input(&ItemType::CoalOre));
}

#[test]
fn burner_inventory_moves_are_capped() {
    let mut b = Burner::new(10);
    assert_eq!(b.add_burner_inventory(&ItemType::CoalOre, 7), 7);
    assert_eq!(b.add_burner_inventory(&ItemType::CoalOre, 7), 3);
    assert_eq!(b.add_burner_inventory(&ItemType::IronOre, 2), 0);
    assert_eq!(b.add_burner_inventory(&ItemType::CoalOre, -4), -4);
    assert_eq!(b.add_burner_inventory(&ItemType::CoalOre, -100), -6);
    assert_eq!(b.inventory.count_item(&ItemType::CoalOre), 0);
}

#[test]
fn burner_burns_and_empties() {
    let mut b = Burner::new(10);
    assert!(!b.burn_fuel());
    b.add_burner_inventory(&ItemType::CoalOre, 2);
    assert!(b.burn_fuel());
    assert_eq!(b.inventory.count_item(&ItemType::CoalOre), 1);
    let taken = b.destroy_inventory();
    assert_eq!(taken.count_item(&ItemType::CoalOre), 1);
    assert_eq!(b.inventory.len(), 0);
}

#[test]
fn chest_takes_items_and_hands_them_out() {
    let pos = Position::new(3, 4);
    let mut c = Chest::new(&pos);
    assert_eq!(
        c.item_response(&ItemType::Gear),
        Ok((ItemResponse::Consume, Some(FrameProcResult::InventoryChanged(pos))))
    );
    assert_eq!(c.input(&ItemType::Gear), Ok(()));
    assert_eq!(c.inventory.count_item(&ItemType::Gear), 2);
    assert_eq!(c.can_output().count_item(&ItemType::Gear), 2);
    assert_eq!(c.output(&ItemType::Gear), Ok(()));
    assert_eq!(c.output(&ItemType::Circuit), Err(()));
    assert_eq!(c.inventory.count_item(&ItemType::Gear), 1);
    assert!(c.inventory(true).is_some());
    assert!(c.inventory(false).is_none());
}

#[test]
fn chest_refuses_when_full_of_kinds() {
    // A chest counts kinds: fill it with every kind there is (fewer than
    // its capacity), it still takes more.
    let mut c = Chest::new(&Position::new(0, 0));
    for i in 0..29 {
        c.input(&item_at(i)).unwrap();
    }
    assert!(c.inventory.len() < CHEST_CAPACITY);
    assert!(c.can_input(&ItemType::Gear));
}
