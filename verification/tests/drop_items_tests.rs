use factorish::drop_items::{
    add_index, build_index, hit_check, hit_check_with_index, intersecting_chunks, remove_index, update_index, DropItem,
    DropItemIndex, DROP_ITEM_SIZE_I, INDEX_GRID_SIZE,
};
use factorish::gen_set::{GenId, GenSet};
use factorish::items::ItemType;

#[test]
fn test_hit_check() {
    fn tr(x: i32) -> i32 {
        x * 32 * 4
    }

    let items = GenSet::from_iter(
        vec![(4, 1), (6, 1), (3, 1), (1, 1), (7, 1), (5, 1), (2, 1), (8, 1), (3, 10)]
            .into_iter()
            .map(|(x, y)| DropItem { type_: ItemType::CoalOre, x: tr(x), y: tr(y) })
            .collect(),
    );

    let index = build_index(&items);

    assert_eq!(index.len(), 4);
    assert_eq!(index.values().iter().map(|v| v.len()).reduce(|acc, v| acc + v).unwrap(), items.len());

    assert_eq!(hit_check_with_index(&items, &index, tr(3), tr(1), None), true);
    assert_eq!(hit_check_with_index(&items, &index, tr(3), tr(10), None), true);
    assert_eq!(hit_check_with_index(&items, &index, tr(3), tr(5), None), false);
}

#[test]
fn test_rounding() {
    assert_eq!(intersecting_chunks(INDEX_GRID_SIZE / 2, INDEX_GRID_SIZE / 2), [0; 4]);
    assert_eq!(intersecting_chunks(0, INDEX_GRID_SIZE / 2), [-1, 0, 0, 0]);
    assert_eq!(intersecting_chunks(0, 0), [-1, -1, 0, 0]);
    assert_eq!(intersecting_chunks(-INDEX_GRID_SIZE, 0), [-2, -1, -1, 0]);
    assert_eq!(intersecting_chunks(INDEX_GRID_SIZE, DROP_ITEM_SIZE_I), [0, 0, 1, 0]);
}

#[test]
fn drop_item_sits_at_tile_centre() {
    let it = DropItem::new(ItemType::Gear, 2, -1);
    assert_eq!((it.x, it.y), (80, -16));
}

#[test]
fn hit_check_skips_the_ignored_item() {
    let mut items: GenSet<DropItem> = GenSet::new();
    let a = items.add(DropItem::new(ItemType::Gear, 0, 0));
    assert!(hit_check(&items, 20, 16, None));
    assert!(!hit_check(&items, 24, 16, None));
    assert!(!hit_check(&items, 20, 16, Some(a)));
    let index = build_index(&items);
    assert!(hit_check_with_index(&items, &index, 20, 16, None));
    assert!(!hit_check_with_index(&items, &index, 20, 16, Some(a)));
}

#[test]
fn index_follows_moving_items() {
    let mut items: GenSet<DropItem> = GenSet::new();
    let a = items.add(DropItem { type_: ItemType::Gear, x: 500, y: 10 });
    let b = items.add(DropItem { type_: ItemType::Pipe, x: 100, y: 10 });
    let mut index = build_index(&items);
    assert_eq!(index.get((0, 0)).map(|v| v.len()), Some(2));
    // Moving within a cell changes nothing.
    update_index(&mut index, a, 500, 10, 510, 10);
    assert_eq!(index.get((0, 0)).map(|v| v.len()), Some(2));
    // Moving across cells moves the handle.
    update_index(&mut index, a, 510, 10, 515, 10);
    assert_eq!(index.get((0, 0)).map(|v| v.clone()), Some(vec![b]));
    assert_eq!(index.get((1, 0)).map(|v| v.clone()), Some(vec![a]));
    remove_index(&mut index, a, 515, 10);
    assert_eq!(index.get((1, 0)).map(|v| v.len()), Some(0));
    add_index(&mut index, a, -1, -1);
    assert_eq!(index.get((-1, -1)).map(|v| v.clone()), Some(vec![a]));
    assert_eq!(index.len(), 3);
    let _ = GenId::<DropItem>::new(0, 0);
    let fresh = DropItemIndex::new();
    assert_eq!(fresh.len(), 0);
}

#[test]
fn index_finds_items_at_the_edge_of_the_coordinates() {
    let mut items: GenSet<DropItem> = GenSet::new();
    items.add(DropItem { type_: ItemType::Gear, x: i32::MAX - 3, y: i32::MIN + 2 });
    let index = build_index(&items);
    assert!(hit_check_with_index(&items, &index, i32::MAX, i32::MIN, None));
    assert!(hit_check(&items, i32::MAX, i32::MIN, None));
    assert!(!hit_check_with_index(&items, &index, i32::MAX - 20, i32::MIN, None));
    assert_eq!(intersecting_chunks(i32::MAX, i32::MIN), [4194303, -4194305, 4194304, -4194304]);
    let far = DropItem::new(ItemType::Gear, 67108863, -67108864);
    assert_eq!((far.x, far.y), (i32::MAX - 15, i32::MIN + 16));
}
