use factorish::chest::Chest;
use factorish::drop_items::DropItem;
use factorish::furnace::Furnace;
use factorish::ground::new_object;
use factorish::inserter::Inserter;
use factorish::items::ItemType;
use factorish::structure::{FrameProcResult, Position, Rotation, StructureId};
use factorish::buildings::Structure;
use factorish::world::{ClickEvent, RotateErr, World};

fn pos(x: i32, y: i32) -> Position {
    Position::new(x, y)
}

fn kinds(w: &World) -> Vec<ItemType> {
    w.structures.iter().map(|s| s.kind()).collect()
}

#[test]
fn new_world_has_the_starting_layout() {
    let w = World::new();
    assert_eq!(w.width, 64);
    assert_eq!(w.height, 64);
    assert_eq!(
        kinds(&w),
        vec![
            ItemType::TransportBelt,
            ItemType::TransportBelt,
            ItemType::TransportBelt,
            ItemType::OreMine,
            ItemType::Furnace,
            ItemType::Assembler,
            ItemType::WaterWell,
            ItemType::Boiler,
            ItemType::SteamEngine,
        ]
    );
    assert_eq!(w.structures[3].position(), pos(12, 2));
    assert_eq!(w.structures[8].position(), pos(12, 5));
    assert_eq!(w.player.inventory.count_item(&ItemType::TransportBelt), 10);
    assert_eq!(w.player.inventory.count_item(&ItemType::Pipe), 15);
    assert_eq!(w.drop_items.len(), 0);
    assert!(w.tools.selected_tool.is_none());
}

#[test]
fn structure_lookup_finds_the_first_on_a_tile() {
    let mut w = World::new();
    assert_eq!(w.find_structure_tile(&pos(12, 2)), Some(3));
    assert_eq!(w.find_structure_tile(&pos(0, 0)), None);
    w.structures.push(Structure::Chest(Chest::new(&pos(12, 2))));
    assert_eq!(w.find_structure_tile(&pos(12, 2)), Some(3));
}

#[test]
fn structure_names_come_from_their_items() {
    let w = World::new();
    assert_eq!(w.structures[0].name(), "Transport Belt");
    assert_eq!(w.structures[3].name(), "Ore Mine");
    assert_eq!(w.structures[6].name(), "Water Well");
    assert!(w.structures[0].movable());
    assert!(!w.structures[4].movable());
    assert!(w.structures[4].has_inventory());
    assert!(!w.structures[7].has_inventory());
}

#[test]
fn harvesting_a_structure_returns_it_and_its_contents() {
    let mut w = World::new();
    let mut furnace = Furnace::new(&pos(30, 30));
    furnace.input_inventory.add_items(&ItemType::IronOre, 4);
    furnace.burner_inventory.add_items(&ItemType::CoalOre, 2);
    w.structures.push(Structure::Furnace(furnace));
    assert!(w.harvest(&pos(30, 30)));
    assert_eq!(w.structures.len(), 9);
    assert_eq!(w.player.inventory.count_item(&ItemType::Furnace), 4);
    assert_eq!(w.player.inventory.count_item(&ItemType::IronOre), 4);
    assert_eq!(w.player.inventory.count_item(&ItemType::CoalOre), 2);
}

#[test]
fn harvesting_an_inserter_returns_what_it_holds() {
    let mut w = World::new();
    let mut ins = Inserter::new(Rotation::Left);
    ins.hold_item = Some(ItemType::Gear);
    w.structures.push(Structure::Inserter(pos(30, 30), ins));
    assert!(w.harvest(&pos(30, 30)));
    assert_eq!(w.player.inventory.count_item(&ItemType::Inserter), 6);
    assert_eq!(w.player.inventory.count_item(&ItemType::Gear), 1);
}

#[test]
fn harvesting_bare_ground_picks_up_items() {
    let mut w = World::new();
    assert!(!w.harvest(&pos(40, 40)));
    let placed = new_object(&mut w.drop_items, 64, 64, 40, 40, ItemType::IronPlate, None);
    assert!(placed.is_ok());
    assert!(w.harvest(&pos(40, 40)));
    assert_eq!(w.player.inventory.count_item(&ItemType::IronPlate), 1);
    assert!(!w.harvest(&pos(40, 40)));
    assert_eq!(w.structures.len(), 9);
}

#[test]
fn building_with_a_tool_places_a_structure() {
    let mut w = World::new();
    assert!(w.tools.select_tool(0));
    let ret = w.mouse_down(&pos(20, 20), 0);
    assert_eq!(ret, Ok(Some(ClickEvent::UpdatePlayerInventory)));
    assert_eq!(w.structures.len(), 10);
    assert_eq!(w.structures[9].kind(), ItemType::TransportBelt);
    assert_eq!(w.structures[9].position(), pos(20, 20));
    match &w.structures[9] {
        Structure::TransportBelt(b) => assert_eq!(b.rotation, Rotation::Left),
        _ => panic!("a belt was built"),
    }
    assert_eq!(w.player.inventory.count_item(&ItemType::TransportBelt), 9);
}

#[test]
fn building_then_harvesting_gives_everything_back() {
    let mut w = World::new();
    assert!(w.tools.select_tool(3));
    assert_eq!(w.mouse_down(&pos(20, 20), 0), Ok(Some(ClickEvent::UpdatePlayerInventory)));
    assert_eq!(w.player.inventory.count_item(&ItemType::Chest), 2);
    assert!(w.harvest(&pos(20, 20)));
    assert_eq!(kinds(&w), kinds(&World::new()));
    assert_eq!(w.player.inventory.count_item(&ItemType::Chest), 3);
    assert_eq!(w.player.inventory.entries(), World::new().player.inventory.entries());
}

#[test]
fn building_over_a_structure_replaces_it() {
    let mut w = World::new();
    assert!(w.tools.select_tool(3));
    assert_eq!(w.mouse_down(&pos(8, 3), 0), Ok(Some(ClickEvent::UpdatePlayerInventory)));
    assert_eq!(w.structures.len(), 9);
    assert_eq!(w.structures[8].kind(), ItemType::Chest);
    assert_eq!(w.player.inventory.count_item(&ItemType::Furnace), 4);
    assert_eq!(w.player.inventory.count_item(&ItemType::Chest), 2);
}

#[test]
fn building_needs_an_item_for_the_tool() {
    let mut w = World::new();
    w.player.inventory.remove(&ItemType::Inserter);
    assert!(w.tools.select_tool(1));
    assert_eq!(w.mouse_down(&pos(20, 20), 0), Ok(None));
    assert_eq!(w.structures.len(), 9);
}

#[test]
fn clicking_without_a_tool_shows_a_store() {
    let mut w = World::new();
    assert_eq!(w.mouse_down(&pos(8, 3), 0), Ok(Some(ClickEvent::ShowInventory(pos(8, 3)))));
    assert_eq!(w.selected_inventory, Some(pos(8, 3)));
    let mut w = World::new();
    assert_eq!(w.mouse_down(&pos(10, 3), 0), Ok(None));
    assert_eq!(w.selected_inventory, None);
    assert_eq!(w.mouse_down(&pos(40, 40), 0), Ok(None));
}

#[test]
fn the_other_button_harvests() {
    let mut w = World::new();
    assert_eq!(w.mouse_down(&pos(13, 5), 2), Ok(Some(ClickEvent::UpdatePlayerInventory)));
    assert_eq!(w.structures.len(), 8);
    assert_eq!(w.player.inventory.count_item(&ItemType::Boiler), 4);
}

#[test]
fn items_that_build_nothing_are_refused() {
    let w = World::new();
    assert!(w.new_structure(&ItemType::IronOre, &pos(1, 1)).is_err());
    assert!(w.new_structure(&ItemType::Pipe, &pos(1, 1)).is_ok());
}

#[test]
fn opening_a_store_needs_a_structure() {
    let mut w = World::new();
    assert_eq!(w.open_structure_inventory(&pos(40, 40)), Err(()));
    assert_eq!(w.selected_inventory, None);
    assert_eq!(w.open_structure_inventory(&pos(6, 3)), Ok(()));
    assert_eq!(w.selected_inventory, Some(pos(6, 3)));
}

#[test]
fn rotating_turns_the_structure_under_the_cursor() {
    let mut w = World::new();
    assert_eq!(w.rotate(Some(pos(10, 3))), Ok(false));
    match &w.structures[0] {
        Structure::TransportBelt(b) => assert_eq!(b.rotation, Rotation::Top),
        _ => panic!("a belt stands there"),
    }
    assert_eq!(w.rotate(Some(pos(12, 2))), Ok(false));
    match &w.structures[3] {
        Structure::OreMine(m) => assert_eq!(m.rotation, Rotation::Left),
        _ => panic!("a mine stands there"),
    }
    assert_eq!(w.rotate(Some(pos(8, 3))), Err(RotateErr::NotSupported));
    assert_eq!(w.rotate(Some(pos(40, 40))), Err(RotateErr::NotFound));
    assert_eq!(w.rotate(None), Err(RotateErr::NotFound));
    assert!(w.tools.select_tool(0));
    assert_eq!(w.rotate(Some(pos(10, 3))), Ok(true));
    assert_eq!(w.tools.tool_rotation, Rotation::Left);
}

#[test]
fn a_turned_inserter_links_to_its_new_neighbours() {
    let mut w = World::new();
    w.structures.push(Structure::Inserter(pos(30, 30), Inserter::new(Rotation::Left)));
    w.structures.push(Structure::Chest(Chest::new(&pos(30, 29))));
    w.structures.push(Structure::Chest(Chest::new(&pos(30, 31))));
    assert_eq!(w.rotate(Some(pos(30, 30))), Ok(false));
    match &w.structures[9] {
        Structure::Inserter(p, ins) => {
            assert_eq!(*p, pos(30, 30));
            assert_eq!(ins.rotation, Rotation::Top);
            assert_eq!(ins.output_structure, Some(StructureId { id: 10, gen: 0 }));
            assert_eq!(ins.input_structure, Some(StructureId { id: 11, gen: 0 }));
        },
        _ => panic!("an inserter stands there"),
    }
}

#[test]
fn a_turned_mine_feeds_the_structure_at_its_new_output() {
    let mut w = World::new();
    assert_eq!(w.rotate(Some(pos(12, 2))), Ok(false));
    match &w.structures[3] {
        Structure::OreMine(m) => assert_eq!(m.output_structure, Some(StructureId { id: 1, gen: 0 })),
        _ => panic!("a mine stands there"),
    }
    let mut w = World::new();
    w.structures.push(Structure::Chest(Chest::new(&pos(11, 3))));
    assert_eq!(w.rotate(Some(pos(12, 2))), Ok(false));
    match &w.structures[3] {
        Structure::OreMine(m) => {
            assert_eq!(m.rotation, Rotation::Left);
            assert_eq!(m.output_structure, Some(StructureId { id: 9, gen: 0 }));
        },
        _ => panic!("a mine stands there"),
    }
}

#[test]
fn only_the_rotation_key_rotates() {
    let mut w = World::new();
    assert_eq!(w.on_key_down(Some(pos(10, 3)), 65), Ok(false));
    match &w.structures[0] {
        Structure::TransportBelt(b) => assert_eq!(b.rotation, Rotation::Left),
        _ => panic!("a belt stands there"),
    }
    assert_eq!(w.on_key_down(Some(pos(10, 3)), 82), Ok(false));
    match &w.structures[0] {
        Structure::TransportBelt(b) => assert_eq!(b.rotation, Rotation::Top),
        _ => panic!("a belt stands there"),
    }
}

#[test]
fn belts_carry_items_one_pixel() {
    let mut w = World::new();
    let id = new_object(&mut w.drop_items, 64, 64, 11, 3, ItemType::IronOre, Some(true)).unwrap();
    assert_eq!(w.step_items(), vec![]);
    let it = *w.drop_items.get(id).unwrap();
    assert_eq!(it, DropItem { type_: ItemType::IronOre, x: 11 * 32 + 15, y: 3 * 32 + 16 });
}

#[test]
fn belts_do_not_push_items_into_each_other() {
    let mut w = World::new();
    let a = new_object(&mut w.drop_items, 64, 64, 11, 3, ItemType::IronOre, Some(true)).unwrap();
    let b = w.drop_items.add(DropItem { type_: ItemType::CoalOre, x: 11 * 32 + 9, y: 3 * 32 + 16 });
    w.step_items();
    assert_eq!(w.drop_items.get(a).unwrap().x, 11 * 32 + 16);
    assert_eq!(w.drop_items.get(b).unwrap().x, 11 * 32 + 8);
}

#[test]
fn chests_take_items_lying_on_them() {
    let mut w = World::new();
    w.structures.push(Structure::Chest(Chest::new(&pos(20, 20))));
    let id = w.drop_items.add(DropItem { type_: ItemType::Gear, x: 20 * 32 + 16, y: 20 * 32 + 16 });
    let events = w.step_items();
    assert_eq!(events, vec![FrameProcResult::InventoryChanged(pos(20, 20))]);
    assert!(w.drop_items.get(id).is_none());
    match &w.structures[9] {
        Structure::Chest(c) => assert_eq!(c.inventory.count_item(&ItemType::Gear), 1),
        _ => panic!("a chest stands there"),
    }
}

#[test]
fn items_off_structures_stay() {
    let mut w = World::new();
    let id = w.drop_items.add(DropItem { type_: ItemType::Gear, x: 40 * 32 + 16, y: 40 * 32 + 16 });
    assert_eq!(w.step_items(), vec![]);
    assert_eq!(*w.drop_items.get(id).unwrap(), DropItem { type_: ItemType::Gear, x: 40 * 32 + 16, y: 40 * 32 + 16 });
}

#[test]
fn store_items_move_between_player_and_structure() {
    let mut w = World::new();
    w.structures.push(Structure::Chest(Chest::new(&pos(20, 20))));
    assert!(!w.move_selected_inventory_item(false, true));
    assert_eq!(w.open_structure_inventory(&pos(20, 20)), Ok(()));
    assert_eq!(w.player.select_item(&ItemType::Pipe), Ok(()));
    assert!(w.move_selected_inventory_item(false, true));
    assert_eq!(w.player.inventory.count_item(&ItemType::Pipe), 0);
    match &w.structures[9] {
        Structure::Chest(c) => assert_eq!(c.inventory.count_item(&ItemType::Pipe), 15),
        _ => panic!("a chest stands there"),
    }
    assert!(!w.move_selected_inventory_item(false, false));
    assert_eq!(w.select_structure_inventory("Pipe"), Ok(()));
    assert_eq!(w.select_structure_inventory("Nothing"), Err(()));
    assert_eq!(w.selected_structure_item, Some(ItemType::Pipe));
    assert!(w.move_selected_inventory_item(true, true));
    assert_eq!(w.player.inventory.count_item(&ItemType::Pipe), 15);
    assert!(!w.move_selected_inventory_item(true, true));
}

#[test]
fn structure_stores_can_be_read() {
    let mut w = World::new();
    let mut c = Chest::new(&pos(20, 20));
    c.inventory.add_items(&ItemType::Gear, 4);
    w.structures.push(Structure::Chest(c));
    let inv = w.get_structure_inventory(&pos(20, 20), true).unwrap();
    assert_eq!(inv.count_item(&ItemType::Gear), 4);
    let none = w.get_structure_inventory(&pos(20, 20), false).unwrap();
    assert_eq!(none.len(), 0);
    assert_eq!(w.get_structure_inventory(&pos(0, 0), true).map(|i| i.len()), Err(()));
    assert_eq!(w.get_selected_inventory(), None);
    assert_eq!(w.open_structure_inventory(&pos(20, 20)), Ok(()));
    assert_eq!(w.get_selected_inventory(), Some(pos(20, 20)));
}

#[test]
fn the_player_picks_items_by_name() {
    let mut w = World::new();
    let (entries, picked) = w.get_player_inventory();
    assert_eq!(entries.len(), 10);
    assert!(entries.contains(&(ItemType::Pipe, 15)));
    assert_eq!(picked, None);
    assert_eq!(w.select_player_inventory("Pipe"), Ok(()));
    assert_eq!(w.player.selected_item, Some(ItemType::Pipe));
    assert_eq!(w.select_player_inventory("Nothing"), Err(()));
    assert_eq!(w.player.selected_item, Some(ItemType::Pipe));
    assert_eq!(w.select_player_inventory("Gear"), Err(()));
    assert_eq!(w.player.selected_item, None);
    assert_eq!(w.get_player_inventory().1, None);
}

#[test]
fn structures_list_their_recipes() {
    let w = World::new();
    assert_eq!(w.get_structure_recipes(&pos(6, 3)).unwrap().len(), 20);
    assert_eq!(w.get_structure_recipes(&pos(8, 3)).unwrap().len(), 3);
    assert_eq!(w.get_structure_recipes(&pos(10, 3)).unwrap().len(), 0);
    assert!(w.get_structure_recipes(&pos(40, 40)).is_err());
}

#[test]
fn only_assemblers_take_a_recipe() {
    let mut w = World::new();
    assert_eq!(w.select_recipe(&pos(6, 3), 0), Ok(true));
    match &w.structures[5] {
        Structure::Assembler(a) => {
            let r = a.factory.recipe.as_ref().unwrap();
            assert_eq!(r.input.count_item(&ItemType::IronPlate), 2);
            assert_eq!(r.output.count_item(&ItemType::Gear), 1);
        },
        _ => panic!("an assembler stands there"),
    }
    assert_eq!(w.select_recipe(&pos(6, 3), 25), Err(()));
    assert_eq!(w.select_recipe(&pos(8, 3), 0), Err(()));
    assert_eq!(w.select_recipe(&pos(40, 40), 0), Err(()));
}

#[test]
fn destroying_empties_a_structure() {
    let mut c = Chest::new(&pos(1, 1));
    c.inventory.add_items(&ItemType::Circuit, 3);
    let mut s = Structure::Chest(c);
    let got = s.destroy_inventory();
    assert_eq!(got.count_item(&ItemType::Circuit), 3);
    assert_eq!(s.destroy_inventory().len(), 0);
}

#[test]
fn power_nodes_read_generators_and_consumers() {
    let mut w = World::new();
    w.structures.push(Structure::Utility(ItemType::ElectPole, pos(12, 8)));
    let nodes = w.power_nodes();
    assert_eq!(nodes.len(), 10);
    assert!(nodes[8].source && !nodes[8].sink);
    assert!(!nodes[5].source && nodes[5].sink);
    assert!(nodes[9].source && nodes[9].sink);
    assert_eq!(nodes[9].wire_reach, 5);
    assert_eq!(nodes[4].wire_reach, 3);
    assert!(!nodes[0].source && !nodes[0].sink);
    assert_eq!(nodes[9].id, StructureId { id: 9, gen: 0 });
    assert_eq!(nodes[9].position, pos(12, 8));
}

#[test]
fn updating_the_cache_links_recipes_and_wires() {
    let mut w = World::new();
    w.structures.push(Structure::Utility(ItemType::ElectPole, pos(12, 8)));
    w.structures.push(Structure::Assembler(factorish::assembler::Assembler::new(&pos(14, 9))));
    w.structures.push(Structure::Inserter(pos(20, 20), Inserter::new(Rotation::Left)));
    w.structures.push(Structure::Chest(Chest::new(&pos(19, 20))));
    w.structures.push(Structure::Chest(Chest::new(&pos(21, 20))));
    let mut wires = Vec::new();
    let (nets, index) = w.update_cache(&mut wires);
    assert_eq!(index.len(), 0);
    assert_eq!(
        wires,
        vec![
            factorish::power_network::PowerWire(pos(12, 5), pos(12, 8)),
            factorish::power_network::PowerWire(pos(12, 8), pos(14, 9)),
        ]
    );
    assert!(!nets.is_empty());
    assert_eq!(nets[0].sources[0], StructureId { id: 8, gen: 0 });
    assert!(nets[0].sinks.contains(&StructureId { id: 10, gen: 0 }));
    match &w.structures[5] {
        Structure::Assembler(a) => {
            let r = a.factory.recipe.as_ref().unwrap();
            assert_eq!(r.output.count_item(&ItemType::Gear), 1);
        },
        _ => panic!("an assembler stands there"),
    }
    match &w.structures[11] {
        Structure::Inserter(_, ins) => {
            assert_eq!(ins.output_structure, Some(StructureId { id: 12, gen: 0 }));
            assert_eq!(ins.input_structure, Some(StructureId { id: 13, gen: 0 }));
        },
        _ => panic!("an inserter stands there"),
    }
    let mut again = wires.clone();
    w.update_cache(&mut again);
    assert_eq!(again, wires);
}

fn arm(w: &World, i: usize) -> Inserter {
    match &w.structures[i] {
        Structure::Inserter(_, ins) => Inserter {
            rotation: ins.rotation,
            cooldown: ins.cooldown,
            hold_item: ins.hold_item,
            input_structure: ins.input_structure,
            output_structure: ins.output_structure,
        },
        _ => panic!("an inserter stands there"),
    }
}

fn chest_count(w: &World, i: usize, t: ItemType) -> usize {
    match &w.structures[i] {
        Structure::Chest(c) => c.inventory.count_item(&t),
        _ => panic!("a chest stands there"),
    }
}

#[test]
fn an_inserter_carries_from_chest_to_chest() {
    let mut w = World::new();
    let mut source = Chest::new(&pos(19, 20));
    source.inventory.add_items(&ItemType::IronOre, 2);
    w.structures.push(Structure::Chest(source));
    w.structures.push(Structure::Inserter(pos(20, 20), Inserter::new(Rotation::Right)));
    w.structures.push(Structure::Chest(Chest::new(&pos(21, 20))));
    let mut wires = Vec::new();
    w.update_cache(&mut wires);
    assert_eq!(arm(&w, 10).input_structure, Some(StructureId { id: 9, gen: 0 }));
    assert_eq!(arm(&w, 10).output_structure, Some(StructureId { id: 11, gen: 0 }));
    assert_eq!(w.step_inserter(10), Ok(Some(FrameProcResult::InventoryChanged(pos(19, 20)))));
    assert_eq!(arm(&w, 10).hold_item, Some(ItemType::IronOre));
    assert_eq!(arm(&w, 10).cooldown, 20);
    assert_eq!(chest_count(&w, 9, ItemType::IronOre), 1);
    for _ in 0..20 {
        assert_eq!(w.step_inserter(10), Ok(None));
    }
    assert_eq!(arm(&w, 10).cooldown, 0);
    assert_eq!(w.step_inserter(10), Ok(Some(FrameProcResult::InventoryChanged(pos(21, 20)))));
    assert_eq!(arm(&w, 10).hold_item, None);
    assert_eq!(arm(&w, 10).cooldown, 20);
    assert_eq!(chest_count(&w, 11, ItemType::IronOre), 1);
}

#[test]
fn an_inserter_picks_up_from_the_ground_and_drops_in_front() {
    let mut w = World::new();
    w.structures.push(Structure::Inserter(pos(20, 20), Inserter::new(Rotation::Right)));
    let id = new_object(&mut w.drop_items, 64, 64, 19, 20, ItemType::Gear, None).unwrap();
    assert_eq!(w.step_inserter(9), Ok(None));
    assert!(w.drop_items.get(id).is_none());
    assert_eq!(arm(&w, 9).hold_item, Some(ItemType::Gear));
    for _ in 0..20 {
        assert_eq!(w.step_inserter(9), Ok(None));
    }
    assert_eq!(w.step_inserter(9), Ok(None));
    assert_eq!(arm(&w, 9).hold_item, None);
    assert_eq!(arm(&w, 9).cooldown, 20);
    let dropped: Vec<DropItem> = w.drop_items.iter().into_iter().map(|d| *d).collect();
    assert_eq!(dropped, vec![DropItem { type_: ItemType::Gear, x: 21 * 32 + 16, y: 20 * 32 + 16 }]);
}

#[test]
fn an_inserter_waits_for_what_its_target_takes() {
    let mut w = World::new();
    let mut source = Chest::new(&pos(19, 20));
    source.inventory.add_items(&ItemType::Gear, 1);
    w.structures.push(Structure::Chest(source));
    w.structures.push(Structure::Inserter(pos(20, 20), Inserter::new(Rotation::Right)));
    w.structures.push(Structure::Boiler(factorish::boiler::Boiler::new(&pos(21, 20))));
    let mut wires = Vec::new();
    w.update_cache(&mut wires);
    assert_eq!(w.step_inserter(10), Ok(None));
    assert_eq!(arm(&w, 10).hold_item, None);
    assert_eq!(chest_count(&w, 9, ItemType::Gear), 1);
}

fn iron_cells(amount: u32) -> Vec<factorish::terrain::Cell> {
    let mut first = factorish::terrain::Cell::new();
    first.ore = Some(factorish::terrain::OreValue(factorish::terrain::Ore::Iron, amount));
    vec![first, factorish::terrain::Cell::new(), factorish::terrain::Cell::new(), factorish::terrain::Cell::new()]
}

fn start_mining(w: &mut World) {
    match &mut w.structures[3] {
        Structure::OreMine(m) => {
            m.recipe = Some(factorish::ore_mine::mining_recipe(ItemType::IronOre));
            m.in_progress = true;
        },
        _ => panic!("a mine stands there"),
    }
}

#[test]
fn a_mine_drops_its_ore_in_front() {
    let mut w = World::new();
    start_mining(&mut w);
    let mut cells = iron_cells(5);
    assert_eq!(w.deliver_ore(3, &mut cells, true), Ok(None));
    let dropped: Vec<DropItem> = w.drop_items.iter().into_iter().map(|d| *d).collect();
    assert_eq!(dropped, vec![DropItem { type_: ItemType::IronOre, x: 13 * 32 + 16, y: 4 * 32 + 16 }]);
    assert_eq!(cells[0].ore, Some(factorish::terrain::OreValue(factorish::terrain::Ore::Iron, 4)));
    match &w.structures[3] {
        Structure::OreMine(m) => {
            assert!(!m.in_progress);
            assert!(m.recipe.is_some());
        },
        _ => panic!("a mine stands there"),
    }
    assert_eq!(w.deliver_ore(3, &mut cells, true), Ok(None));
    assert_eq!(w.drop_items.len(), 1);
    assert_eq!(cells[0].ore, Some(factorish::terrain::OreValue(factorish::terrain::Ore::Iron, 4)));
    let mut w = World::new();
    start_mining(&mut w);
    assert_eq!(w.deliver_ore(3, &mut cells, false), Ok(None));
    assert_eq!(w.drop_items.len(), 0);
}

#[test]
fn a_mine_feeds_the_structure_in_front() {
    let mut w = World::new();
    w.structures.push(Structure::Chest(Chest::new(&pos(13, 4))));
    let mut wires = Vec::new();
    w.update_cache(&mut wires);
    start_mining(&mut w);
    let mut cells = iron_cells(1);
    assert_eq!(w.deliver_ore(3, &mut cells, true), Ok(Some(FrameProcResult::InventoryChanged(pos(13, 4)))));
    assert_eq!(chest_count(&w, 9, ItemType::IronOre), 1);
    assert_eq!(cells[0].ore, None);
    match &w.structures[3] {
        Structure::OreMine(m) => assert!(m.recipe.is_none()),
        _ => panic!("a mine stands there"),
    }
    assert_eq!(w.deliver_ore(3, &mut cells, true), Err(()));
}

#[test]
fn a_mine_without_ore_left_stops() {
    let mut w = World::new();
    w.structures.push(Structure::Chest(Chest::new(&pos(13, 4))));
    let mut wires = Vec::new();
    w.update_cache(&mut wires);
    start_mining(&mut w);
    let mut cells = iron_cells(0);
    cells[0].ore = None;
    assert_eq!(w.deliver_ore(3, &mut cells, true), Err(()));
    match &w.structures[3] {
        Structure::OreMine(m) => assert!(m.recipe.is_none()),
        _ => panic!("a mine stands there"),
    }
    assert_eq!(chest_count(&w, 9, ItemType::IronOre), 0);
}

#[test]
fn no_water_is_left_under_structures() {
    let mut wet = factorish::terrain::Cell::new();
    wet.water = true;
    wet.ore = Some(factorish::terrain::OreValue(factorish::terrain::Ore::Iron, 7));
    let mut t = factorish::terrain::Terrain::new();
    t.insert_chunk(pos(0, 0), vec![wet; 256]);
    let ss = vec![
        Structure::Chest(Chest::new(&pos(1, 1))),
        Structure::Furnace(Furnace::new(&pos(3, 3))),
    ];
    let touched = factorish::world::clear_water_under(&ss, &mut t);
    assert_eq!(touched, vec![pos(0, 0)]);
    for p in [pos(1, 1), pos(3, 3), pos(4, 3), pos(3, 4), pos(4, 4)] {
        let c = t.get_tile(&p).unwrap();
        assert!(!c.water);
        assert_eq!(c.ore, wet.ore);
    }
    assert!(t.get_tile(&pos(2, 2)).unwrap().water);
    assert!(t.get_tile(&pos(5, 3)).unwrap().water);
}

#[test]
fn cache_update_is_refused_where_coordinates_do_not_fit() {
    let mut w = World::new();
    let mut wires = Vec::new();
    assert!(w.positions_fit());
    assert!(w.try_update_cache(&mut wires).is_some());
    let n = w.structures.len();
    w.structures.push(Structure::Utility(ItemType::ElectPole, pos(i32::MAX - 1, 0)));
    assert!(!w.positions_fit());
    let mut more = wires.clone();
    assert!(w.try_update_cache(&mut more).is_none());
    assert_eq!(more, wires);
    assert_eq!(w.structures.len(), n + 1);
    w.structures.pop();
    w.structures.push(Structure::Utility(ItemType::ElectPole, pos(i32::MIN + 2, 0)));
    w.structures.push(Structure::Utility(ItemType::ElectPole, pos(i32::MAX - 2, 0)));
    assert!(w.positions_fit());
    assert!(w.try_update_cache(&mut more).is_none());
}
