use factorish::inventory::Inventory;
use factorish::items::ItemType;
use factorish::structure::{ItemResponse, Position, Rotation, StructureId};
use factorish::underground_belt::{UnderDirection, UndergroundBelt};

fn sid(id: u32) -> StructureId {
    StructureId { id, gen: 0 }
}

#[test]
fn entrance_and_exit_find_each_other() {
    let mut ent = UndergroundBelt::new(0, 0, Rotation::Right, UnderDirection::ToGround);
    let mut exit = UndergroundBelt::new(3, 0, Rotation::Left, UnderDirection::ToSurface);
    ent.on_construction(sid(2), Some((Position::new(3, 0), Rotation::Left)), None, true);
    assert_eq!(ent.target, Some(sid(2)));
    exit.on_construction(sid(1), Some((Position::new(0, 0), Rotation::Right)), None, true);
    assert_eq!(exit.target, Some(sid(1)));
    // A belt facing the same way, or too far, does not connect.
    let mut other = UndergroundBelt::new(0, 5, Rotation::Right, UnderDirection::ToGround);
    other.on_construction(sid(3), Some((Position::new(3, 5), Rotation::Right)), None, true);
    other.on_construction(sid(4), Some((Position::new(5, 5), Rotation::Left)), None, true);
    assert_eq!(other.target, None);
    // A nearer far end stays.
    ent.on_construction(sid(5), Some((Position::new(4, 0), Rotation::Left)), Some(Position::new(3, 0)), true);
    assert_eq!(ent.target, Some(sid(2)));
    // Removing the far end forgets it.
    ent.on_construction(sid(2), None, None, false);
    assert_eq!(ent.target, None);
}

#[test]
fn new_belt_takes_first_fitting_neighbour() {
    let mut ent = UndergroundBelt::new(0, 0, Rotation::Right, UnderDirection::ToGround);
    let others = vec![
        (sid(1), None),
        (sid(2), Some((Position::new(5, 0), Rotation::Left))),
        (sid(3), Some((Position::new(2, 0), Rotation::Left))),
        (sid(4), Some((Position::new(1, 0), Rotation::Left))),
    ];
    ent.on_construction_self(&others, None);
    assert_eq!(ent.target, Some(sid(3)));
}

#[test]
fn items_travel_under_ground() {
    let mut ent = UndergroundBelt::new(0, 0, Rotation::Right, UnderDirection::ToGround);
    assert_eq!(ent.item_response(&ItemType::IronOre, 10, 16), Err(()));
    ent.target = Some(sid(2));
    assert_eq!(ent.item_response(&ItemType::IronOre, 10, 16), Ok(ItemResponse::Consume));
    assert_eq!(ent.item_response(&ItemType::IronOre, 10, 16), Err(()));
    let far = Some((Position::new(3, 0), Some(UnderDirection::ToSurface)));
    assert_eq!(ent.frame_proc(far), None);
    assert_eq!(ent.items, vec![(1, ItemType::IronOre)]);
    for _ in 0..96 {
        assert_eq!(ent.frame_proc(far), None);
    }
    assert_eq!(ent.items[0].0, 97);
    assert_eq!(ent.frame_proc(far), Some(0));
    assert_eq!(ent.items[0].0, 97);
    // A far end facing the same way stops the belt.
    assert_eq!(ent.frame_proc(Some((Position::new(3, 0), Some(UnderDirection::ToGround)))), None);
    assert_eq!(ent.release_back(), Some((97, ItemType::IronOre)));
    assert_eq!(ent.release_back(), None);
}

#[test]
fn items_keep_their_distance() {
    let mut ent = UndergroundBelt::new(0, 0, Rotation::Right, UnderDirection::ToGround);
    ent.items = vec![(0, ItemType::Gear), (8, ItemType::Pipe), (50, ItemType::Gear)];
    let far = Some((Position::new(3, 0), Some(UnderDirection::ToSurface)));
    assert_eq!(ent.frame_proc(far), None);
    assert_eq!(ent.items, vec![(0, ItemType::Gear), (9, ItemType::Pipe), (51, ItemType::Gear)]);
}

#[test]
fn exits_move_items_and_offer_what_came_through() {
    let mut exit = UndergroundBelt::new(3, 0, Rotation::Left, UnderDirection::ToSurface);
    assert_eq!(exit.item_response(&ItemType::Gear, 100, 10), Ok(ItemResponse::Move(101, 16)));
    assert!(!exit.can_input(&ItemType::Gear));
    exit.items = vec![(100, ItemType::Gear), (10, ItemType::Pipe), (120, ItemType::Gear)];
    let offer = exit.can_output(Some(Position::new(0, 0)));
    assert_eq!(offer.count_item(&ItemType::Gear), 1);
    assert_eq!(offer.count_item(&ItemType::Pipe), 0);
    assert_eq!(exit.can_output(None).len(), 0);
}

#[test]
fn turning_an_entrance_gives_its_items_back() {
    let mut ent = UndergroundBelt::new(0, 0, Rotation::Right, UnderDirection::ToGround);
    ent.items = vec![(1, ItemType::IronOre), (5, ItemType::IronOre), (9, ItemType::Gear)];
    let mut player = Inventory::new();
    player.add_items(&ItemType::Gear, 2);
    ent.rotate(&mut player);
    assert_eq!(ent.direction, UnderDirection::ToSurface);
    assert!(ent.items.is_empty());
    assert_eq!(player.count_item(&ItemType::IronOre), 2);
    assert_eq!(player.count_item(&ItemType::Gear), 3);
    ent.rotate(&mut player);
    assert_eq!(ent.direction, UnderDirection::ToGround);
    let mut other = UndergroundBelt::new(0, 0, Rotation::Top, UnderDirection::ToGround);
    other.items = vec![(1, ItemType::Pipe)];
    assert_eq!(other.destroy_inventory().count_item(&ItemType::Pipe), 1);
    other.set_rotation(&Rotation::Bottom);
    assert_eq!(other.rotation, Rotation::Bottom);
}
