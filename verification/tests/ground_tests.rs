use factorish::drop_items::DropItem;
use factorish::gen_set::GenSet;
use factorish::ground::{apply_item_response, find_item, new_object, pick_up_items, ItemStep, NewObjectErr};
use factorish::inventory::Inventory;
use factorish::items::ItemType;
use factorish::structure::{ItemResponse, Position};

#[test]
fn placing_items_on_the_map() {
    let mut items: GenSet<DropItem> = GenSet::new();
    let a = new_object(&mut items, 10, 10, 2, 3, ItemType::Gear, None).unwrap();
    assert_eq!(items.get(a), Some(&DropItem { type_: ItemType::Gear, x: 80, y: 112 }));
    assert_eq!(new_object(&mut items, 10, 10, 2, 3, ItemType::Pipe, None), Err(NewObjectErr::BlockedByItem));
    assert_eq!(new_object(&mut items, 10, 10, -1, 0, ItemType::Pipe, None), Err(NewObjectErr::OutOfMap));
    assert_eq!(new_object(&mut items, 10, 10, 10, 0, ItemType::Pipe, None), Err(NewObjectErr::OutOfMap));
    assert_eq!(new_object(&mut items, 10, 10, 5, 5, ItemType::Pipe, Some(false)), Err(NewObjectErr::BlockedByStructure));
    assert!(new_object(&mut items, 10, 10, 5, 5, ItemType::Pipe, Some(true)).is_ok());
    assert_eq!(items.len(), 2);
}

#[test]
fn finding_the_item_on_a_tile() {
    let mut items: GenSet<DropItem> = GenSet::new();
    items.add(DropItem { type_: ItemType::Gear, x: 10, y: 10 });
    let b = items.add(DropItem { type_: ItemType::Pipe, x: 80, y: 112 });
    let (id, it) = find_item(&items, &Position::new(2, 3)).unwrap();
    assert_eq!((id.id, id.gen), (b.id, b.gen));
    assert_eq!(it.type_, ItemType::Pipe);
    assert!(find_item(&items, &Position::new(3, 3)).is_none());
    // Pixels round towards zero: -5 lies on tile 0.
    items.add(DropItem { type_: ItemType::Chest, x: -5, y: -40 });
    assert_eq!(find_item(&items, &Position::new(0, -1)).unwrap().1.type_, ItemType::Chest);
}

#[test]
fn items_move_consume_or_stay() {
    let mut items: GenSet<DropItem> = GenSet::new();
    let a = items.add(DropItem { type_: ItemType::Gear, x: 16, y: 16 });
    let b = items.add(DropItem { type_: ItemType::Pipe, x: 40, y: 16 });
    // Moving close to another item is refused.
    assert_eq!(apply_item_response(&mut items, a, ItemResponse::Move(33, 16), Some(true)), ItemStep::Stayed);
    // Moving where nothing takes items is refused.
    assert_eq!(apply_item_response(&mut items, b, ItemResponse::Move(41, 16), None), ItemStep::Stayed);
    assert_eq!(apply_item_response(&mut items, b, ItemResponse::Move(41, 16), Some(false)), ItemStep::Stayed);
    assert_eq!(apply_item_response(&mut items, b, ItemResponse::Move(41, 16), Some(true)), ItemStep::Moved);
    assert_eq!(items.get(b).map(|it| (it.x, it.y)), Some((41, 16)));
    assert_eq!(apply_item_response(&mut items, a, ItemResponse::Nothing, Some(true)), ItemStep::Stayed);
    assert_eq!(apply_item_response(&mut items, a, ItemResponse::Consume, None), ItemStep::Removed);
    assert_eq!(items.get(a), None);
}

#[test]
fn picking_up_a_tile() {
    let mut items: GenSet<DropItem> = GenSet::new();
    items.add(DropItem { type_: ItemType::Gear, x: 70, y: 100 });
    items.add(DropItem { type_: ItemType::Gear, x: 90, y: 110 });
    let c = items.add(DropItem { type_: ItemType::Pipe, x: 200, y: 100 });
    let mut inv = Inventory::new();
    assert!(pick_up_items(&mut items, &Position::new(2, 3), &mut inv));
    assert_eq!(inv.count_item(&ItemType::Gear), 2);
    assert_eq!(items.iter().len(), 1);
    assert!(items.get(c).is_some());
    assert!(!pick_up_items(&mut items, &Position::new(2, 3), &mut inv));
}
