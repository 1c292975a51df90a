use factorish::fluid_box::{list_connections, update_connections, FluidEntity};
use factorish::inserter::{Inserter, InserterAction, InserterTarget, INSERTER_TIME};
use factorish::items::ItemType;
use factorish::ore_mine::{output_plan, remove_ore_from_tiles, MineOutput, OreMine};
use factorish::player::{move_inventory_item, tool_inventory, Player, ToolState};
use factorish::power_network::{build_power_networks, connect_power_wires, is_measurable, PowerNode, PowerWire, DEFAULT_WIRE_REACH, POLE_WIRE_REACH};
use factorish::research::{technologies, technology_image, technology_unlocks, TechnologyTag};
use factorish::structure::{Position, Rotation, StructureId};
use factorish::terrain::{back_image, gen_terrain, pick_ore, Cell, Ore, OreValue, Terrain, CHUNK_SIZE2};

fn node(id: u32, x: i32, y: i32, source: bool, sink: bool, reach: u32) -> PowerNode {
    PowerNode { id: StructureId { id, gen: 0 }, position: Position::new(x, y), source, sink, wire_reach: reach }
}

#[test]
fn wires_join_feeders_in_reach() {
    let nodes = vec![
        node(0, 0, 0, true, true, POLE_WIRE_REACH),
        node(1, 2, 0, true, false, DEFAULT_WIRE_REACH),
        node(2, 4, 0, false, true, DEFAULT_WIRE_REACH),
        node(3, 20, 20, false, true, DEFAULT_WIRE_REACH),
    ];
    let mut wires = Vec::new();
    connect_power_wires(&nodes, &mut wires);
    assert_eq!(
        wires,
        vec![
            PowerWire(Position::new(0, 0), Position::new(2, 0)),
            PowerWire(Position::new(2, 0), Position::new(4, 0)),
        ]
    );
    // Wires already strung are not strung twice.
    connect_power_wires(&nodes, &mut wires);
    assert_eq!(wires.len(), 2);
}

#[test]
fn networks_grow_along_wires() {
    let nodes = vec![
        node(0, 0, 0, true, true, POLE_WIRE_REACH),
        node(1, 2, 0, true, false, DEFAULT_WIRE_REACH),
        node(2, 4, 0, false, true, DEFAULT_WIRE_REACH),
        node(3, 20, 20, false, true, DEFAULT_WIRE_REACH),
    ];
    let wires = vec![
        PowerWire(Position::new(0, 0), Position::new(2, 0)),
        PowerWire(Position::new(2, 0), Position::new(4, 0)),
    ];
    let nets = build_power_networks(&nodes, &wires);
    assert_eq!(nets.len(), 1);
    let ids = |v: &Vec<StructureId>| v.iter().map(|s| s.id).collect::<Vec<_>>();
    assert_eq!(ids(&nets[0].sources), vec![0, 1]);
    assert_eq!(ids(&nets[0].sinks), vec![0, 2]);
    assert!(nets[0].wires.is_empty());
    // Without wires only a structure that both feeds and consumes makes a
    // network on its own.
    assert_eq!(build_power_networks(&nodes, &Vec::new()).len(), 1);
    assert_eq!(build_power_networks(&nodes[1..].to_vec(), &Vec::new()).len(), 0);
    // A generator wired straight to a consumer starts the first network.
    let pair = build_power_networks(&nodes[1..].to_vec(), &wires[1..].to_vec());
    assert_eq!(pair.len(), 1);
    assert_eq!(ids(&pair[0].sources), vec![1]);
    assert_eq!(ids(&pair[0].sinks), vec![2]);
    // A wire reached from its second end files the structure at that end
    // again, not the one at its first end: the consumer at (10, 0) is left
    // out, and the pole, which both feeds and consumes, starts a network of
    // its own.
    let chain = vec![
        node(0, 0, 0, true, false, DEFAULT_WIRE_REACH),
        node(1, 10, 0, false, true, DEFAULT_WIRE_REACH),
        node(2, 5, 0, true, true, POLE_WIRE_REACH),
    ];
    let chain_wires = vec![
        PowerWire(Position::new(0, 0), Position::new(5, 0)),
        PowerWire(Position::new(10, 0), Position::new(5, 0)),
    ];
    let nets = build_power_networks(&chain, &chain_wires);
    assert_eq!(nets.len(), 2);
    assert_eq!(ids(&nets[0].sources), vec![0, 2, 2]);
    assert_eq!(ids(&nets[0].sinks), vec![2, 2]);
    assert_eq!(ids(&nets[1].sources), vec![2]);
    assert_eq!(ids(&nets[1].sinks), vec![2]);
}

#[test]
fn fluid_boxes_connect_to_boxed_neighbours() {
    let es = vec![
        FluidEntity { entity: 1, position: Position::new(0, 0), has_fluid_box: true },
        FluidEntity { entity: 2, position: Position::new(1, 0), has_fluid_box: true },
        FluidEntity { entity: 3, position: Position::new(0, 1), has_fluid_box: false },
        FluidEntity { entity: 4, position: Position::new(5, 5), has_fluid_box: true },
    ];
    let conns = list_connections(&es);
    assert_eq!(conns, vec![(1, 2, 2), (2, 1, 0)]);
    assert_eq!(update_connections(1, &conns), [None, None, Some(2), None]);
    assert_eq!(update_connections(2, &conns), [Some(1), None, None, None]);
    assert_eq!(update_connections(4, &conns), [None, None, None, None]);
}

#[test]
fn inserter_carries_from_ground_to_ground() {
    let mut ins = Inserter::new(Rotation::Right);
    assert_eq!(ins.frame_proc(Some(ItemType::IronOre), None, None), InserterAction::TakeFromGround(ItemType::IronOre));
    assert_eq!(ins.hold_item, Some(ItemType::IronOre));
    assert_eq!(ins.cooldown, INSERTER_TIME);
    for _ in 0..INSERTER_TIME {
        assert_eq!(ins.frame_proc(None, None, None), InserterAction::Wait);
    }
    assert_eq!(ins.cooldown, 0);
    assert_eq!(ins.frame_proc(None, None, None), InserterAction::DropOnGround(ItemType::IronOre));
    ins.dropped(false);
    assert_eq!(ins.hold_item, Some(ItemType::IronOre));
    ins.dropped(true);
    assert_eq!(ins.hold_item, None);
    assert_eq!(ins.cooldown, INSERTER_TIME);
    for _ in 0..INSERTER_TIME - 1 {
        assert_eq!(ins.frame_proc(Some(ItemType::Gear), None, None), InserterAction::Wait);
    }
    assert_eq!(ins.frame_proc(Some(ItemType::Gear), None, None), InserterAction::TakeFromGround(ItemType::Gear));
}

#[test]
fn inserter_picks_what_the_target_takes() {
    let target = InserterTarget { movable: false, accepts: vec![ItemType::CoalOre] };
    let offer = vec![ItemType::IronOre, ItemType::CoalOre];
    let mut ins = Inserter::new(Rotation::Left);
    assert_eq!(ins.frame_proc(Some(ItemType::IronOre), Some(&offer), Some(&target)), InserterAction::Wait);
    assert_eq!(ins.hold_item, None);
    assert_eq!(ins.frame_proc(None, Some(&offer), Some(&target)), InserterAction::TakeFromStructure(ItemType::CoalOre));
    let belt = InserterTarget { movable: true, accepts: vec![] };
    let mut ins2 = Inserter::new(Rotation::Left);
    assert_eq!(ins2.frame_proc(None, Some(&offer), Some(&belt)), InserterAction::TakeFromStructure(ItemType::IronOre));
    let mut ins3 = Inserter::new(Rotation::Left);
    assert_eq!(ins3.frame_proc(None, Some(&vec![ItemType::Gear]), Some(&target)), InserterAction::Wait);
    assert_eq!(ins3.frame_proc(None, None, None), InserterAction::Wait);
}

#[test]
fn inserter_delivery_outcomes() {
    let target = InserterTarget { movable: false, accepts: vec![ItemType::CoalOre] };
    let mut ins = Inserter::new(Rotation::Top);
    ins.frame_proc(Some(ItemType::CoalOre), None, Some(&target));
    for _ in 0..INSERTER_TIME {
        ins.frame_proc(None, None, Some(&target));
    }
    assert_eq!(ins.frame_proc(None, None, Some(&target)), InserterAction::PutIntoStructure(ItemType::CoalOre));
    assert_eq!(ins.delivered(false, false), InserterAction::Wait);
    assert_eq!(ins.hold_item, Some(ItemType::CoalOre));
    assert_eq!(ins.delivered(false, true), InserterAction::DropOnGround(ItemType::CoalOre));
    assert_eq!(ins.delivered(true, false), InserterAction::Wait);
    assert_eq!(ins.hold_item, None);
    assert_eq!(ins.cooldown, INSERTER_TIME);
    let mut full = Inserter::new(Rotation::Top);
    full.frame_proc(Some(ItemType::Gear), None, None);
    let inv = full.destroy_inventory();
    assert_eq!(inv.count_item(&ItemType::Gear), 1);
    assert_eq!(full.hold_item, None);
}

fn ore_cell(ore: Ore, amount: u32) -> Cell {
    let mut c = Cell::new();
    c.ore = Some(OreValue(ore, amount));
    c
}

#[test]
fn mines_dig_the_first_tile_with_ore() {
    let mut cells = vec![Cell::new(), ore_cell(Ore::Iron, 2), ore_cell(Ore::Iron, 5), ore_cell(Ore::Coal, 9)];
    assert_eq!(remove_ore_from_tiles(&mut cells, &ItemType::IronOre), Some(1));
    assert_eq!(cells[1].ore, Some(OreValue(Ore::Iron, 1)));
    assert_eq!(remove_ore_from_tiles(&mut cells, &ItemType::IronOre), Some(0));
    assert_eq!(cells[1].ore, None);
    assert_eq!(remove_ore_from_tiles(&mut cells, &ItemType::IronOre), Some(4));
    assert_eq!(remove_ore_from_tiles(&mut cells, &ItemType::StoneOre), None);
    assert_eq!(cells[3].ore, Some(OreValue(Ore::Coal, 9)));
}

#[test]
fn mines_pick_the_last_ore_and_stop_when_it_runs_out() {
    let mut m = OreMine::new(12, 2, Rotation::Bottom);
    m.pick_recipe(&vec![None, Some(ItemType::IronOre), Some(ItemType::CoalOre), None]);
    let r = m.recipe.as_ref().unwrap();
    assert_eq!(r.output.count_item(&ItemType::CoalOre), 1);
    assert_eq!(r.recipe_time, 80);
    let mut cells = vec![ore_cell(Ore::Coal, 1)];
    assert_eq!(m.dig_for_structure(&mut cells, &ItemType::CoalOre), Ok(()));
    assert!(m.recipe.is_none());
    m.pick_recipe(&vec![Some(ItemType::CoalOre)]);
    assert_eq!(m.dig_for_structure(&mut cells, &ItemType::CoalOre), Err(()));
    assert!(m.recipe.is_none());
    let mut empty = OreMine::new(0, 0, Rotation::Left);
    empty.pick_recipe(&vec![None, None]);
    assert!(empty.recipe.is_none());
}

#[test]
fn mine_output_plans() {
    assert_eq!(output_plan(Some((true, false)), false), MineOutput::Feed);
    assert_eq!(output_plan(Some((false, false)), true), MineOutput::Stall);
    assert_eq!(output_plan(Some((false, true)), true), MineOutput::Drop);
    assert_eq!(output_plan(Some((false, true)), false), MineOutput::Blocked);
    assert_eq!(output_plan(None, true), MineOutput::Drop);
    assert_eq!(output_plan(None, false), MineOutput::Blocked);
}

#[test]
fn mine_ports_follow_rotation() {
    let m = OreMine::new(12, 2, Rotation::Bottom);
    assert_eq!(m.output_port_pos(), Position::new(13, 3));
    assert_eq!(m.output_pos(), Position::new(13, 4));
    let m = OreMine::new(0, 0, Rotation::Left);
    assert_eq!(m.output_pos(), Position::new(-1, 1));
}

#[test]
fn terrain_tiles_and_edges() {
    let mut t = Terrain::new();
    t.insert_chunk(Position::new(0, 0), vec![Cell::new(); 256]);
    assert!(t.get_tile(&Position::new(3, 4)).is_some());
    assert!(t.get_tile(&Position::new(-1, 0)).is_none());
    let mut w = Cell::new();
    w.water = true;
    assert!(t.replace_tile(&Position::new(5, 5), w));
    assert!(!t.replace_tile(&Position::new(16, 5), w));
    t.update_back_image(&Position::new(0, 0));
    assert_eq!(t.get_tile(&Position::new(5, 5)).unwrap().image, 15);
    assert_eq!(t.get_tile(&Position::new(4, 5)).unwrap().image, 4);
    assert_eq!(t.get_tile(&Position::new(6, 5)).unwrap().image, 1);
    assert_eq!(t.get_tile(&Position::new(5, 4)).unwrap().image, 8);
    assert_eq!(t.get_tile(&Position::new(4, 4)).unwrap().image, 20);
    assert_eq!(t.get_tile(&Position::new(9, 9)).unwrap().image, 0);
    let touched = t.update_water(&vec![Position::new(5, 5), Position::new(1, 1)]);
    assert_eq!(touched, vec![Position::new(0, 0)]);
    assert!(!t.get_tile(&Position::new(5, 5)).unwrap().water);
    assert_eq!(t.get_tile(&Position::new(4, 5)).unwrap().image, 0);
    assert_eq!(t.get_tile(&Position::new(5, 5)).unwrap().image, 0);
}

#[test]
fn player_starts_with_tools_and_picks_items() {
    let mut p = Player::new();
    assert_eq!(p.inventory.count_item(&ItemType::TransportBelt), 10);
    assert_eq!(p.inventory.count_item(&ItemType::Pipe), 15);
    assert_eq!(p.select_item(&ItemType::Gear), Err(()));
    assert_eq!(p.selected_item, None);
    assert_eq!(p.select_item(&ItemType::Pipe), Ok(()));
    assert_eq!(p.selected_item, Some(ItemType::Pipe));
    p.add_item(&ItemType::Gear, 3);
    assert_eq!(p.inventory.count_item(&ItemType::Gear), 3);
    assert_eq!(tool_inventory(&p.inventory), vec![10, 5, 5, 3, 3, 3, 3, 1, 15, 2]);
}

#[test]
fn moving_a_whole_entry_between_inventories() {
    let mut p = Player::new();
    let mut chest = factorish::inventory::Inventory::new();
    assert!(move_inventory_item(&mut p.inventory, &mut chest, &ItemType::Chest));
    assert_eq!(chest.count_item(&ItemType::Chest), 3);
    assert!(!p.inventory.contains_key(&ItemType::Chest));
    assert!(!move_inventory_item(&mut p.inventory, &mut chest, &ItemType::Chest));
}

#[test]
fn tools_toggle_and_keep_their_rotation() {
    let mut t = ToolState::new();
    assert!(t.select_tool(3));
    assert_eq!(t.selected_tool, Some(3));
    assert!(!t.select_tool(3));
    assert_eq!(t.selected_tool, None);
    assert!(!t.select_tool(-1));
    assert!(t.select_tool(0));
    assert_eq!(t.selected_tool(&Player::new().inventory), Some((0, 10)));
    assert_eq!(t.rotate_tool(), 2);
    assert_eq!(t.tool_rotation, Rotation::Left);
}

#[test]
fn technologies_and_what_they_unlock() {
    let techs = technologies();
    assert_eq!(techs.len(), 3);
    assert_eq!(techs[2].tag, TechnologyTag::SteelWorks);
    assert_eq!(techs[2].steps, 50);
    assert_eq!(techs[2].input.count_item(&ItemType::SciencePack2), 1);
    assert_eq!(
        technology_unlocks(TechnologyTag::Transportation),
        vec![ItemType::TransportBelt, ItemType::UndergroundBelt, ItemType::Splitter]
    );
    assert_eq!(technology_unlocks(TechnologyTag::SteelWorks), vec![ItemType::ElectricFurnace, ItemType::SteelPlate]);
    assert!(technology_unlocks(TechnologyTag::Electricity).is_empty());
    assert_eq!(technology_image(TechnologyTag::SteelWorks), "Steel Plate");
}

#[test]
fn measurable_nodes_are_close_enough_apart() {
    assert!(is_measurable(&vec![node(0, 0, 0, true, false, 3), node(1, i32::MAX, 5, false, true, 3)]));
    assert!(!is_measurable(&vec![node(0, -1, 0, true, false, 3), node(1, i32::MAX, 5, false, true, 3)]));
    assert!(!is_measurable(&vec![node(0, 0, 0, true, false, u32::MAX)]));
    assert!(is_measurable(&vec![]));
}

#[test]
fn generated_tiles_take_the_largest_ore() {
    assert_eq!(pick_ore(0, 0, 0, 0), None);
    assert_eq!(pick_ore(7, 3, 0, 2), Some(OreValue(Ore::Iron, 7)));
    assert_eq!(pick_ore(5, 5, 0, 0), Some(OreValue(Ore::Copper, 5)));
    assert_eq!(pick_ore(1, 2, 9, 9), Some(OreValue(Ore::Stone, 9)));
    assert_eq!(pick_ore(1, 2, 9, 3), Some(OreValue(Ore::Coal, 9)));
    let dry = Cell::generated(false, 0, 4, 1, 0);
    assert_eq!(dry.ore, Some(OreValue(Ore::Copper, 4)));
    assert!(!dry.water);
    let wet = Cell::generated(true, 9, 9, 9, 9);
    assert_eq!(wet.ore, None);
    assert!(wet.water);
}

#[test]
fn generated_terrain_fills_the_grid_and_draws_shores() {
    let t = gen_terrain(40, 20, |p: Position| {
        let mut v = vec![Cell::new(); CHUNK_SIZE2];
        if p.x == 1 {
            v[0] = Cell::generated(true, 0, 0, 0, 0);
        }
        v[5] = Cell::generated(false, 3, 0, 0, 0);
        v
    });
    assert!(t.get_tile(&Position::new(0, 0)).is_some());
    assert!(t.get_tile(&Position::new(31, 15)).is_some());
    assert!(t.get_tile(&Position::new(32, 0)).is_none());
    assert!(t.get_tile(&Position::new(0, 16)).is_none());
    assert_eq!(t.get_tile(&Position::new(16, 0)).unwrap().image, 15);
    assert_eq!(
        t.get_tile(&Position::new(15, 0)).unwrap().image,
        back_image(false, false, true, false, false, false, false, false)
    );
    assert_eq!(t.get_tile(&Position::new(3, 3)).unwrap().image, 0);
    assert_eq!(t.get_tile(&Position::new(21, 0)).unwrap().ore, Some(OreValue(Ore::Iron, 3)));
}
