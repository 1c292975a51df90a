use factorish::belts::TransportBelt;
use factorish::boiler::Boiler;
use factorish::burner::FUEL_CAPACITY;
use factorish::inserter::Inserter;
use factorish::items::ItemType;
use factorish::ore_mine::OreMine;
use factorish::structure::{BoundingBox, ItemResponse, Position, Rotation, StructureId};

fn sid(id: u32) -> StructureId {
    StructureId { id, gen: 0 }
}

#[test]
fn boiler_burns_coal() {
    let mut b = Boiler::new(&Position::new(13, 5));
    let r = b.recipe.as_ref().unwrap();
    assert_eq!(r.input.count_item(&ItemType::CoalOre), 1);
    assert_eq!((r.power_cost, r.recipe_time), (100, 30));
    assert_eq!(b.input(&ItemType::IronOre), Err(()));
    assert!(!b.can_input(&ItemType::IronOre));
    for _ in 0..FUEL_CAPACITY {
        assert_eq!(b.input(&ItemType::CoalOre), Ok(()));
    }
    assert_eq!(b.input(&ItemType::CoalOre), Err(()));
    assert_eq!(b.add_burner_inventory(&ItemType::CoalOre, -3), -3);
    assert_eq!(b.add_burner_inventory(&ItemType::CoalOre, 5), 3);
    assert_eq!(b.output(&ItemType::CoalOre), Ok(()));
    assert_eq!(b.output(&ItemType::Gear), Err(()));
    b.in_progress = true;
    let back = b.destroy_inventory();
    assert_eq!(back.count_item(&ItemType::CoalOre), 10);
    assert!(b.recipe.is_none());
    assert_eq!(b.inventory.len(), 0);
}

#[test]
fn belts_move_items_and_turn() {
    let mut belt = TransportBelt::new(Position::new(0, 1), Rotation::Right);
    assert_eq!(belt.item_response(5, 40), ItemResponse::Move(6, 48));
    assert!(belt.movable());
    belt.rotate();
    assert_eq!(belt.rotation, Rotation::Bottom);
    assert_eq!(belt.item_response(5, 40), ItemResponse::Move(16, 41));
    belt.set_rotation(&Rotation::Top);
    assert_eq!(belt.rotation, Rotation::Top);
}

#[test]
fn inserter_links_to_neighbours() {
    let pos = Position::new(5, 5);
    let mut ins = Inserter::new(Rotation::Right);
    ins.on_construction_self(&pos, &vec![(sid(1), Position::new(4, 5)), (sid(2), Position::new(6, 5)), (sid(3), Position::new(6, 5))], true);
    assert_eq!(ins.input_structure, Some(sid(1)));
    assert_eq!(ins.output_structure, Some(sid(3)));
    ins.on_construction_self(&pos, &vec![(sid(3), Position::new(6, 5))], false);
    assert_eq!(ins.output_structure, None);
    let mut turning = Inserter::new(Rotation::Right);
    turning.rotate(&pos, &vec![(sid(1), Position::new(5, 6)), (sid(2), Position::new(5, 4))]);
    assert_eq!(turning.rotation, Rotation::Bottom);
    assert_eq!(turning.input_structure, Some(sid(2)));
    assert_eq!(turning.output_structure, Some(sid(1)));
}

#[test]
fn mine_feeds_what_covers_its_output() {
    let mut m = OreMine::new(0, 0, Rotation::Left);
    let left_bb = BoundingBox { x0: -1, y0: 1, x1: 0, y1: 2 };
    m.on_construction_self(&vec![(sid(1), left_bb)], true);
    assert_eq!(m.output_structure, Some(sid(1)));
    let top_bb = BoundingBox { x0: 0, y0: -1, x1: 1, y1: 0 };
    m.rotate(&vec![(sid(1), left_bb), (sid(2), top_bb)]);
    assert_eq!(m.rotation, Rotation::Top);
    assert_eq!(m.output_pos(), Position::new(0, -1));
    assert_eq!(m.output_structure, Some(sid(2)));
    m.rotate(&vec![]);
    assert_eq!(m.output_structure, None);
}
