//! The map: the structures standing on it, the items lying on it and the
//! player, with what building, harvesting and rotating do to them.
use crate::assembler::Assembler;
use crate::belts::TransportBelt;
use crate::boiler::Boiler;
use crate::buildings::{
    Structure, buildable, contents_fit, contents_of, first_at, first_at_from, footprint_of, fresh,
    has_inventory_spec, is_power_sink, is_power_source, kind_of, lemma_first_at_from, moved_entry, position_of,
    reach_of, side_of, store_of, store_set
};
use crate::chest::Chest;
use crate::drop_items::{build_index, built_index, DropItem, DropItemIndex};
use crate::furnace::Furnace;
use crate::gen_set::{handle, GenEntry, GenPayload, GenSet};
use crate::ground::{count_on_tile, first_on_tile_from, pick_up_items, slot_on_tile};
use crate::inserter::{links_after, Inserter};
use crate::inventory::{added, added_all, count_of, entries_of, merged, Inventory};
use crate::items::{item_name, lemma_item_names_distinct, lemma_name_round_trip, str_to_item, ItemType};
use crate::ore_mine::{fed_after, output_spec, OreMine};
use crate::player::{starting_items, tool_item, tool_item_spec, Player, ToolState, NUM_TOOLS};
use crate::power_network::{
    build_power_networks, connect_power_wires, first_power, grown_from, is_measurable, is_network_of, measurable, net_value, power_networks,
    starts_network, wires_added, PowerNetwork, PowerNode, PowerWire, DEFAULT_WIRE_REACH, POLE_WIRE_REACH
};
use crate::recipe::{
    assembler_recipe_cost, assembler_recipe_input, assembler_recipe_output, assembler_recipe_tech, furnace_recipe_cost,
    furnace_recipe_input, furnace_recipe_output, furnace_recipe_tech, furnace_recipes, Recipe
};
use crate::scenarios::default_scenario;
use crate::structure::{
    bb_contains, bounding_box, delta_spec, next_spec, BoundingBox, Position, Rotation, Size, StructureId
};
use crate::terrain::{
    chunk_fits, chunk_of, dried, dry_tile, lemma_tile_location_inverse, tile_kept, tile_location_spec, tile_spec, Terrain,
    CHUNK_SIZE2,
};
use vstd::prelude::*;

verus! {

/// `after` is `before` with every item lying on tile `pos` gone.
pub open spec fn cleared_tile(before: Seq<GenEntry<DropItem>>, after: Seq<GenEntry<DropItem>>, pos: Position) -> bool {
    &&& after.len() == before.len()
    &&& forall|i: int| 0 <= i < before.len() ==> #[trigger] after[i] == if slot_on_tile(before, i, pos) {
        GenEntry { gen: before[i].gen, item: GenPayload::Free(None) }
    } else {
        before[i]
    }
}

/// `after` holds, of each kind, what `before` held and the items of that
/// kind lying on tile `pos` among `slots`; it has an entry for a kind when
/// `before` had one or such items were there.
pub open spec fn gathered(before: Map<ItemType, usize>, after: Map<ItemType, usize>, slots: Seq<GenEntry<DropItem>>, pos: Position) -> bool {
    &&& forall|t: ItemType| #[trigger] count_of(after, t) == count_of(before, t) + count_on_tile(slots, pos, t, slots.len() as int)
    &&& forall|t: ItemType| #[trigger] after.contains_key(t) == (before.contains_key(t) || count_on_tile(slots, pos, t, slots.len() as int) > 0)
}

/// Whether harvesting tile `pos` keeps every count of the player's
/// inventory `inv` within a machine word: with a structure there, its item
/// and its contents are added; otherwise at most one item per slot of the
/// ground.
pub open spec fn harvest_fits(ss: Seq<Structure>, inv: Map<ItemType, usize>, slots: Seq<GenEntry<DropItem>>, pos: Position) -> bool {
    match first_at(ss, pos) {
        Some(i) => {
            &&& contents_fit(ss[i])
            &&& forall|t: ItemType| count_of(inv, t) + (if t == kind_of(ss[i]) { 1int } else { 0int }) + count_of(contents_of(ss[i]), t) <= usize::MAX
        },
        None => forall|t: ItemType| count_of(inv, t) + slots.len() <= usize::MAX,
    }
}

/// Harvesting tile `pos` took structures `ss0`, ground `slots0` and player
/// inventory `inv0` to `ss1`, `slots1` and `inv1` and answered `ret`: the
/// first structure on the tile is taken down, its item and its contents
/// going to the player; with no structure there, the items lying on the
/// tile are picked up, and the answer says whether there were any.
pub open spec fn harvested(
    ss0: Seq<Structure>,
    slots0: Seq<GenEntry<DropItem>>,
    inv0: Map<ItemType, usize>,
    pos: Position,
    ss1: Seq<Structure>,
    slots1: Seq<GenEntry<DropItem>>,
    inv1: Map<ItemType, usize>,
    ret: bool,
) -> bool {
    match first_at(ss0, pos) {
        Some(i) => {
            &&& ret
            &&& ss1 == ss0.remove(i)
            &&& slots1 == slots0
            &&& inv1 == added_all(added(inv0, kind_of(ss0[i]), 1), contents_of(ss0[i]))
        },
        None => {
            &&& ret == first_on_tile_from(slots0, pos, 0) is Some
            &&& ss1 == ss0
            &&& cleared_tile(slots0, slots1, pos)
            &&& gathered(inv0, inv1, slots0, pos)
        },
    }
}

/// What harvesting tile `pos` answers: whether a structure or an item was
/// there.
pub open spec fn harvest_answer(ss: Seq<Structure>, slots: Seq<GenEntry<DropItem>>, pos: Position) -> bool {
    first_at(ss, pos) is Some || first_on_tile_from(slots, pos, 0) is Some
}

/// Whether a click with `button` and the tool in hand takes things from
/// tile `pos` into the player's inventory `inv`: the secondary button
/// harvests, and the main button does before building when the player
/// carries an item for the tool.
pub open spec fn click_harvests(tool: Option<usize>, inv: Map<ItemType, usize>, button: i32) -> bool {
    button != 0 || (tool matches Some(t) && count_of(inv, tool_item_spec(t as int)) >= 1)
}

/// The structures of a new game, with their kinds, tiles and directions:
/// three belts and a mine feeding a furnace, an assembler, and a water
/// well, boiler and steam engine.
pub open spec fn starting_layout() -> Seq<(ItemType, Position, Rotation)> {
    seq![
        (ItemType::TransportBelt, Position { x: 10, y: 3 }, Rotation::Left),
        (ItemType::TransportBelt, Position { x: 11, y: 3 }, Rotation::Left),
        (ItemType::TransportBelt, Position { x: 12, y: 3 }, Rotation::Left),
        (ItemType::OreMine, Position { x: 12, y: 2 }, Rotation::Bottom),
        (ItemType::Furnace, Position { x: 8, y: 3 }, Rotation::Left),
        (ItemType::Assembler, Position { x: 6, y: 3 }, Rotation::Left),
        (ItemType::WaterWell, Position { x: 14, y: 5 }, Rotation::Left),
        (ItemType::Boiler, Position { x: 13, y: 5 }, Rotation::Left),
        (ItemType::SteamEngine, Position { x: 12, y: 5 }, Rotation::Left),
    ]
}

/// What a click asks the user interface to do.
#[derive(Clone, Copy, PartialEq, Eq, Structural, Debug)]
pub enum ClickEvent {
    UpdatePlayerInventory,
    ShowInventory(Position),
}

/// Harvesting never lowers a count of the player's inventory.
proof fn lemma_harvest_keeps_counts(
    ss0: Seq<Structure>,
    slots0: Seq<GenEntry<DropItem>>,
    inv0: Map<ItemType, usize>,
    pos: Position,
    ss1: Seq<Structure>,
    slots1: Seq<GenEntry<DropItem>>,
    inv1: Map<ItemType, usize>,
    ret: bool,
    t: ItemType,
)
    requires
        harvest_fits(ss0, inv0, slots0, pos),
        harvested(ss0, slots0, inv0, pos, ss1, slots1, inv1, ret),
    ensures
        count_of(inv1, t) >= count_of(inv0, t),
{
    lemma_first_at_from(ss0, pos, 0);
    match first_at(ss0, pos) {
        Some(i) => {
            let m = added(inv0, kind_of(ss0[i]), 1);
            assert(count_of(m, t) >= count_of(inv0, t));
            assert(count_of(inv1, t) >= count_of(m, t));
        },
        None => {},
    }
}

/// Why rotating failed: nothing stands on the tile, or what stands there
/// cannot turn.
#[derive(Clone, Copy, PartialEq, Eq, Structural, Debug)]
pub enum RotateErr {
    NotFound,
    NotSupported,
}

/// The handle of the structure at index `i`.
pub open spec fn id_at(i: int) -> StructureId {
    StructureId { id: i as u32, gen: 0 }
}

/// The handles and tiles of the first `n` structures but the one at
/// `skip`, in order.
pub open spec fn neighbours_upto(ss: Seq<Structure>, skip: int, n: int) -> Seq<(StructureId, Position)>
    decreases n,
{
    if n <= 0 {
        Seq::empty()
    } else if n - 1 == skip {
        neighbours_upto(ss, skip, n - 1)
    } else {
        neighbours_upto(ss, skip, n - 1).push((id_at(n - 1), position_of(ss[n - 1])))
    }
}

/// The handles and footprints of the first `n` structures but the one at
/// `skip`, in order.
pub open spec fn footprints_upto(ss: Seq<Structure>, skip: int, n: int) -> Seq<(StructureId, BoundingBox)>
    decreases n,
{
    if n <= 0 {
        Seq::empty()
    } else if n - 1 == skip {
        footprints_upto(ss, skip, n - 1)
    } else {
        footprints_upto(ss, skip, n - 1).push((id_at(n - 1), footprint_of(ss[n - 1])))
    }
}

/// Whether the structure at index `i` can be turned without an overflow:
/// an inserter away from the edge of the coordinates; a mine away from it
/// too, with the footprint of every structure within range.
pub open spec fn rotate_fits(ss: Seq<Structure>, i: int) -> bool {
    match ss[i] {
        Structure::Inserter(p, _) => i32::MIN < p.x < i32::MAX && i32::MIN < p.y < i32::MAX,
        Structure::OreMine(m) => {
            &&& i32::MIN + 1 < m.position.x < i32::MAX - 1
            &&& i32::MIN + 1 < m.position.y < i32::MAX - 1
            &&& forall|j: int| 0 <= j < ss.len() ==> position_of(#[trigger] ss[j]).x + side_of(ss[j]) <= i32::MAX
                && position_of(ss[j]).y + side_of(ss[j]) <= i32::MAX
        },
        _ => true,
    }
}

/// The structure at index `i` of `ss` after a quarter turn clockwise, if
/// it can turn: a belt just turns; an inserter turns and links to the
/// structures now behind and in front of it; a mine turns, forgets what it
/// fed and feeds the last structure covering its new output tile.
pub open spec fn turned(ss: Seq<Structure>, i: int) -> Option<Structure> {
    match ss[i] {
        Structure::TransportBelt(b) => Some(Structure::TransportBelt(TransportBelt { position: b.position, rotation: next_spec(b.rotation) })),
        Structure::Inserter(p, ins) => {
            let r = next_spec(ins.rotation);
            let others = neighbours_upto(ss, i, ss.len() as int);
            Some(Structure::Inserter(p, Inserter {
                rotation: r,
                cooldown: ins.cooldown,
                hold_item: ins.hold_item,
                input_structure: links_after(ins.input_structure, others, p, -delta_spec(r).0, -delta_spec(r).1, true),
                output_structure: links_after(ins.output_structure, others, p, delta_spec(r).0, delta_spec(r).1, true),
            }))
        },
        Structure::OreMine(m) => {
            let r = next_spec(m.rotation);
            Some(Structure::OreMine(OreMine {
                position: m.position,
                rotation: r,
                recipe: m.recipe,
                input_inventory: m.input_inventory,
                output_structure: fed_after(None, footprints_upto(ss, i, ss.len() as int), output_spec(m.position, r), true),
                in_progress: m.in_progress,
            }))
        },
        _ => None,
    }
}

/// Building item `k`, facing `rotation`, on tile `cursor` took structures
/// `ss0`, ground `slots0` and player inventory `inv0` to `ss1`, `slots1`
/// and `inv1`: the tile was harvested first (see [`harvested`]), a fresh
/// structure of kind `k` was added after the others, and one item `k`
/// left the inventory, whose entry for `k` stays.
pub open spec fn built_on(
    ss0: Seq<Structure>,
    slots0: Seq<GenEntry<DropItem>>,
    inv0: Map<ItemType, usize>,
    k: ItemType,
    rotation: Rotation,
    cursor: Position,
    ss1: Seq<Structure>,
    slots1: Seq<GenEntry<DropItem>>,
    inv1: Map<ItemType, usize>,
) -> bool {
    &&& ss1.len() > 0
    &&& fresh(ss1.last(), k, cursor, rotation)
    &&& inv1.contains_key(k)
    &&& inv1[k] < usize::MAX
    &&& harvested(
        ss0,
        slots0,
        inv0,
        cursor,
        ss1.drop_last(),
        slots1,
        inv1.insert(k, (inv1[k] + 1) as usize),
        harvest_answer(ss0, slots0, cursor),
    )
}

/// With no item on tile `pos` from slot `k` on, none of those slots lies
/// there.
proof fn lemma_no_item_on_tile(slots: Seq<GenEntry<DropItem>>, pos: Position, k: int)
    requires
        0 <= k,
        first_on_tile_from(slots, pos, k) is None,
    ensures
        forall|i: int| k <= i < slots.len() ==> !#[trigger] slot_on_tile(slots, i, pos),
    decreases slots.len() - k,
{
    if k < slots.len() {
        lemma_no_item_on_tile(slots, pos, k + 1);
    }
}

/// With no slot of the first `n` lying on tile `pos`, none of them counts.
proof fn lemma_count_on_empty_tile(slots: Seq<GenEntry<DropItem>>, pos: Position, t: ItemType, n: int)
    requires
        n <= slots.len(),
        forall|i: int| 0 <= i < slots.len() ==> !#[trigger] slot_on_tile(slots, i, pos),
    ensures
        count_on_tile(slots, pos, t, n) == 0,
    decreases n,
{
    if n > 0 {
        assert(!slot_on_tile(slots, n - 1, pos));
        lemma_count_on_empty_tile(slots, pos, t, n - 1);
    }
}

/// A structure added after others of which none stands on its tile is the
/// first on that tile.
proof fn lemma_first_at_push(ss: Seq<Structure>, s: Structure, pos: Position, k: int)
    requires
        0 <= k <= ss.len(),
        position_of(s) == pos,
        forall|j: int| k <= j < ss.len() ==> position_of(#[trigger] ss[j]) != pos,
    ensures
        first_at_from(ss.push(s), pos, k) == Some(ss.len() as int),
    decreases ss.len() - k,
{
    if k < ss.len() {
        assert(ss.push(s)[k] == ss[k]);
        lemma_first_at_push(ss, s, pos, k + 1);
    }
}

/// Building on a tile where no structure stands and no item lies, and
/// harvesting that tile right after, gives everything back: the
/// structures, the ground and the player's inventory are as they were.
pub proof fn lemma_build_then_harvest_restores(
    ss0: Seq<Structure>,
    slots0: Seq<GenEntry<DropItem>>,
    inv0: Map<ItemType, usize>,
    k: ItemType,
    rotation: Rotation,
    cursor: Position,
    ss1: Seq<Structure>,
    slots1: Seq<GenEntry<DropItem>>,
    inv1: Map<ItemType, usize>,
    ss2: Seq<Structure>,
    slots2: Seq<GenEntry<DropItem>>,
    inv2: Map<ItemType, usize>,
    answer: bool,
)
    requires
        first_at(ss0, cursor) is None,
        first_on_tile_from(slots0, cursor, 0) is None,
        built_on(ss0, slots0, inv0, k, rotation, cursor, ss1, slots1, inv1),
        harvested(ss1, slots1, inv1, cursor, ss2, slots2, inv2, answer),
    ensures
        ss2 == ss0,
        slots2 == slots0,
        inv2 == inv0,
{
    let mid_inv = inv1.insert(k, (inv1[k] + 1) as usize);
    lemma_no_item_on_tile(slots0, cursor, 0);
    assert(slots1 =~= slots0);
    assert forall|t: ItemType| count_on_tile(slots0, cursor, t, slots0.len() as int) == 0 by {
        lemma_count_on_empty_tile(slots0, cursor, t, slots0.len() as int);
    }
    assert(mid_inv =~= inv0) by {
        assert forall|t: ItemType| mid_inv.contains_key(t) == inv0.contains_key(t) by {
            assert(count_on_tile(slots0, cursor, t, slots0.len() as int) == 0);
        }
        assert forall|t: ItemType| mid_inv.contains_key(t) implies mid_inv[t] == inv0[t] by {
            assert(count_on_tile(slots0, cursor, t, slots0.len() as int) == 0);
            assert(count_of(mid_inv, t) == count_of(inv0, t));
        }
    }
    assert(ss1.drop_last() == ss0);
    assert(ss1 =~= ss0.push(ss1.last()));
    lemma_first_at_from(ss0, cursor, 0);
    lemma_first_at_push(ss0, ss1.last(), cursor, 0);
    assert(first_at(ss1, cursor) == Some(ss0.len() as int));
    assert(ss2 =~= ss0);
    assert(contents_of(ss1.last()) == Map::<ItemType, usize>::empty());
    assert(added(inv1, k, 1) =~= mid_inv);
    assert(added_all(mid_inv, Map::<ItemType, usize>::empty()) =~= mid_inv);
}

/// The index and store of the structure whose store is shown, if it
/// stands on the shown tile and has such a store.
pub open spec fn shown_store(ss: Seq<Structure>, shown: Option<Position>, is_input: bool) -> Option<(int, Map<ItemType, usize>)> {
    match shown {
        Some(pos) => match first_at(ss, pos) {
            Some(i) => match store_of(ss[i], is_input) {
                Some(m) => Some((i, m)),
                None => None,
            },
            None => None,
        },
        None => None,
    }
}

/// What pressing the rotation key answers, and the structures after:
/// with a tool in hand, `true` and nothing turned; otherwise the structure
/// on tile `cursor` turned (see [`turned`]) and `false`, or a failure when
/// there is no cursor, no structure on its tile, or one that cannot turn.
pub open spec fn rotation_outcome(tool: Option<usize>, ss: Seq<Structure>, cursor: Option<Position>) -> (Result<bool, RotateErr>, Seq<Structure>) {
    if tool is Some {
        (Ok(true), ss)
    } else {
        match cursor {
            None => (Err(RotateErr::NotFound), ss),
            Some(c) => match first_at(ss, c) {
                None => (Err(RotateErr::NotFound), ss),
                Some(i) => match turned(ss, i) {
                    Some(t) => (Ok(false), ss.update(i, t)),
                    None => (Err(RotateErr::NotSupported), ss),
                },
            },
        }
    }
}

/// What the power grid reads of the structures, in order.
pub open spec fn power_nodes_of(ss: Seq<Structure>) -> Seq<PowerNode> {
    Seq::new(
        ss.len(),
        |i: int| PowerNode {
            id: id_at(i),
            position: position_of(ss[i]),
            source: is_power_source(ss[i]),
            sink: is_power_sink(ss[i]),
            wire_reach: reach_of(ss[i]),
        },
    )
}

/// Whether every structure stands two tiles or more away from the ends of
/// the `i32` coordinates.
pub open spec fn positions_in_range(ss: Seq<Structure>) -> bool {
    forall|j: int| 0 <= j < ss.len() ==> i32::MIN + 1 < #[trigger] position_of(ss[j]).x < i32::MAX - 1
        && i32::MIN + 1 < position_of(ss[j]).y < i32::MAX - 1
}

/// The structure at index `i` of `ss` brought up to date as `s1`: an
/// assembler selects its first recipe; an inserter links to the structures
/// behind and in front of it, and a mine to the last one covering its
/// output tile, among the others (links that nothing replaces stay); the
/// rest stay as they are.
pub open spec fn refreshed(ss: Seq<Structure>, i: int, s1: Structure) -> bool {
    match ss[i] {
        Structure::Assembler(a) => {
            &&& s1 is Assembler
            &&& s1->Assembler_0.position == a.position
            &&& s1->Assembler_0.factory.input_inventory@ == a.factory.input_inventory@
            &&& s1->Assembler_0.factory.output_inventory@ == a.factory.output_inventory@
            &&& s1->Assembler_0.factory.in_progress == a.factory.in_progress
            &&& s1->Assembler_0.factory.recipe matches Some(r)
            &&& r.input@ == assembler_recipe_input(0)
            &&& r.output@ == assembler_recipe_output(0)
        },
        Structure::Inserter(p, ins) => {
            let others = neighbours_upto(ss, i, ss.len() as int);
            let d = delta_spec(ins.rotation);
            s1 == Structure::Inserter(p, Inserter {
                input_structure: links_after(ins.input_structure, others, p, -d.0, -d.1, true),
                output_structure: links_after(ins.output_structure, others, p, d.0, d.1, true),
                ..ins
            })
        },
        Structure::OreMine(m) => s1 == Structure::OreMine(OreMine {
            output_structure: fed_after(m.output_structure, footprints_upto(ss, i, ss.len() as int), output_spec(m.position, m.rotation), true),
            ..m
        }),
        _ => s1 == ss[i],
    }
}

/// Lists of neighbours and footprints read only the tiles and footprints
/// of the structures.
proof fn lemma_neighbours_read_tiles(a: Seq<Structure>, b: Seq<Structure>, skip: int, n: int)
    requires
        n <= a.len(),
        n <= b.len(),
        forall|j: int| 0 <= j < n ==> position_of(#[trigger] a[j]) == position_of(b[j]) && footprint_of(a[j]) == footprint_of(b[j]),
    ensures
        neighbours_upto(a, skip, n) == neighbours_upto(b, skip, n),
        footprints_upto(a, skip, n) == footprints_upto(b, skip, n),
    decreases n,
{
    if n > 0 {
        lemma_neighbours_read_tiles(a, b, skip, n - 1);
        assert(position_of(a[n - 1]) == position_of(b[n - 1]));
    }
}

/// The game state that the player's actions change: the size of the map
/// in tiles, the structures on it, the items on the ground, the player,
/// the tool in hand, the tile of the structure whose store is shown and the
/// item picked in that store.
pub struct World {
    pub width: u32,
    pub height: u32,
    pub structures: Vec<Structure>,
    pub drop_items: GenSet<DropItem>,
    pub player: Player,
    pub tools: ToolState,
    pub selected_inventory: Option<Position>,
    pub selected_structure_item: Option<ItemType>,
}

impl World {
    /// The ground's bookkeeping is sound.
    pub open spec fn wf(&self) -> bool {
        self.drop_items.wf()
    }

    /// A new game on a map of 64 by 64 tiles: the structures of
    /// [`starting_layout`], nothing on the ground, a new player, no tool in
    /// hand and no store shown.
    pub fn new() -> (ret: Self)
        ensures
            ret.wf(),
            ret.width == 64,
            ret.height == 64,
            ret.structures@.len() == starting_layout().len(),
            forall|i: int| 0 <= i < starting_layout().len() ==> fresh(
                #[trigger] ret.structures@[i],
                starting_layout()[i].0,
                starting_layout()[i].1,
                starting_layout()[i].2,
            ),
            ret.drop_items.slots() == Seq::<GenEntry<DropItem>>::empty(),
            ret.player.inventory@ == starting_items(),
            ret.player.selected_item is None,
            ret.tools.selected_tool is None,
            ret.tools.tool_rotation == Rotation::Left,
            ret.selected_inventory is None,
            ret.selected_structure_item is None,
    {
        let (structures, _) = default_scenario();
        let ret = World {
            width: 64,
            height: 64,
            structures,
            drop_items: GenSet::new(),
            player: Player::new(),
            tools: ToolState::new(),
            selected_inventory: None,
            selected_structure_item: None,
        };
        ret
    }

    /// A structure built from item `tool` on tile `cursor`, facing the
    /// direction of the tool in hand; fails for an item that builds none.
    pub fn new_structure(&self, tool: &ItemType, cursor: &Position) -> (ret: Result<Structure, ()>)
        ensures
            match ret {
                Ok(s) => buildable(*tool) && fresh(s, *tool, *cursor, self.tools.tool_rotation),
                Err(_) => !buildable(*tool),
            },
    {
        let rotation = self.tools.tool_rotation;
        match tool {
            ItemType::TransportBelt => Ok(Structure::TransportBelt(TransportBelt::new(*cursor, rotation))),
            ItemType::Inserter => Ok(Structure::Inserter(*cursor, Inserter::new(rotation))),
            ItemType::OreMine => Ok(Structure::OreMine(OreMine::new(cursor.x, cursor.y, rotation))),
            ItemType::Chest => Ok(Structure::Chest(Chest::new(cursor))),
            ItemType::Furnace => {
                let f = Furnace::new(cursor);
                assert(merged(merged(f.input_inventory@, f.output_inventory@), f.burner_inventory@) =~= Map::empty());
                Ok(Structure::Furnace(f))
            },
            ItemType::Assembler => {
                let a = Assembler::new(cursor);
                assert(merged(a.factory.input_inventory@, a.factory.output_inventory@) =~= Map::empty());
                Ok(Structure::Assembler(a))
            },
            ItemType::Boiler => Ok(Structure::Boiler(Boiler::new(cursor))),
            ItemType::WaterWell => Ok(Structure::Utility(ItemType::WaterWell, *cursor)),
            ItemType::Pipe => Ok(Structure::Utility(ItemType::Pipe, *cursor)),
            ItemType::SteamEngine => Ok(Structure::Utility(ItemType::SteamEngine, *cursor)),
            _ => Err(()),
        }
    }

    /// Shows the store of the structure on tile `pos`; fails, changing
    /// nothing, when no structure stands there.
    pub fn open_structure_inventory(&mut self, pos: &Position) -> (ret: Result<(), ()>)
        ensures
            ret is Ok <==> first_at(old(self).structures@, *pos) is Some,
            final(self).selected_inventory == if ret is Ok { Some(*pos) } else { old(self).selected_inventory },
            final(self).width == old(self).width,
            final(self).height == old(self).height,
            final(self).structures == old(self).structures,
            final(self).drop_items == old(self).drop_items,
            final(self).player == old(self).player,
            final(self).tools == old(self).tools,
            final(self).selected_structure_item == old(self).selected_structure_item,
    {
        if self.find_structure_tile(pos).is_some() {
            self.selected_inventory = Some(*pos);
            Ok(())
        } else {
            Err(())
        }
    }

    /// A click of mouse button `button` on tile `cursor`. The secondary
    /// button harvests the tile. The main button, with a tool in hand and
    /// an item for it in the player's inventory, harvests the tile, builds
    /// a structure there from that item (see [`World::new_structure`]) and
    /// takes the item from the inventory; it fails after harvesting when
    /// the item builds nothing. Without a tool in hand, it shows the store
    /// of a chest, furnace or assembler standing there.
    pub fn mouse_down(&mut self, cursor: &Position, button: i32) -> (ret: Result<Option<ClickEvent>, ()>)
        requires
            old(self).wf(),
            old(self).tools.selected_tool matches Some(t) ==> t < NUM_TOOLS,
            click_harvests(old(self).tools.selected_tool, old(self).player.inventory@, button) ==> harvest_fits(
                old(self).structures@,
                old(self).player.inventory@,
                old(self).drop_items.slots(),
                *cursor,
            ),
        ensures
            final(self).wf(),
            final(self).width == old(self).width,
            final(self).height == old(self).height,
            final(self).tools == old(self).tools,
            final(self).selected_structure_item == old(self).selected_structure_item,
            final(self).player.selected_item == old(self).player.selected_item,
            button != 0 ==> {
                &&& ret == Ok::<Option<ClickEvent>, ()>(Some(ClickEvent::UpdatePlayerInventory))
                &&& final(self).selected_inventory == old(self).selected_inventory
                &&& harvested(
                    old(self).structures@,
                    old(self).drop_items.slots(),
                    old(self).player.inventory@,
                    *cursor,
                    final(self).structures@,
                    final(self).drop_items.slots(),
                    final(self).player.inventory@,
                    harvest_answer(old(self).structures@, old(self).drop_items.slots(), *cursor),
                )
            },
            button == 0 && click_harvests(old(self).tools.selected_tool, old(self).player.inventory@, button) ==> ({
                let k = tool_item_spec(old(self).tools.selected_tool->0 as int);
                &&& final(self).selected_inventory == old(self).selected_inventory
                &&& if buildable(k) {
                    &&& ret == Ok::<Option<ClickEvent>, ()>(Some(ClickEvent::UpdatePlayerInventory))
                    &&& built_on(
                        old(self).structures@,
                        old(self).drop_items.slots(),
                        old(self).player.inventory@,
                        k,
                        old(self).tools.tool_rotation,
                        *cursor,
                        final(self).structures@,
                        final(self).drop_items.slots(),
                        final(self).player.inventory@,
                    )
                } else {
                    &&& ret is Err
                    &&& harvested(
                        old(self).structures@,
                        old(self).drop_items.slots(),
                        old(self).player.inventory@,
                        *cursor,
                        final(self).structures@,
                        final(self).drop_items.slots(),
                        final(self).player.inventory@,
                        harvest_answer(old(self).structures@, old(self).drop_items.slots(), *cursor),
                    )
                }
            }),
            button == 0 && !click_harvests(old(self).tools.selected_tool, old(self).player.inventory@, button) ==> {
                &&& final(self).structures == old(self).structures
                &&& final(self).drop_items == old(self).drop_items
                &&& final(self).player == old(self).player
                &&& match (old(self).tools.selected_tool, first_at(old(self).structures@, *cursor)) {
                    (None, Some(i)) => if has_inventory_spec(old(self).structures@[i]) {
                        ret == Ok::<Option<ClickEvent>, ()>(Some(ClickEvent::ShowInventory(*cursor)))
                            && final(self).selected_inventory == Some(*cursor)
                    } else {
                        ret == Ok::<Option<ClickEvent>, ()>(None) && final(self).selected_inventory == old(self).selected_inventory
                    },
                    _ => ret == Ok::<Option<ClickEvent>, ()>(None) && final(self).selected_inventory == old(self).selected_inventory,
                }
            },
    {
        if button != 0 {
            proof {
                lemma_first_at_from(self.structures@, *cursor, 0);
            }
            self.harvest(cursor);
            return Ok(Some(ClickEvent::UpdatePlayerInventory));
        }
        match self.tools.selected_tool {
            Some(t) => {
                let k = tool_item(t);
                let count = self.player.inventory.count_item(&k);
                if count < 1 {
                    return Ok(None);
                }
                proof {
                    lemma_first_at_from(self.structures@, *cursor, 0);
                }
                let ghost w0 = *self;
                let answer = self.harvest(cursor);
                proof {
                    lemma_harvest_keeps_counts(
                        w0.structures@,
                        w0.drop_items.slots(),
                        w0.player.inventory@,
                        *cursor,
                        self.structures@,
                        self.drop_items.slots(),
                        self.player.inventory@,
                        answer,
                        k,
                    );
                }
                let s = match self.new_structure(&k, cursor) {
                    Ok(s) => s,
                    Err(_) => {
                        return Err(());
                    },
                };
                let ghost mid = self.structures@;
                self.structures.push(s);
                let left = self.player.inventory.count_item(&k);
                let ghost mid_inv = self.player.inventory@;
                self.player.inventory.insert(&k, left - 1);
                proof {
                    assert(self.structures@.drop_last() =~= mid);
                    assert(self.player.inventory@.insert(k, (self.player.inventory@[k] + 1) as usize) =~= mid_inv);
                }
                Ok(Some(ClickEvent::UpdatePlayerInventory))
            },
            None => {
                proof {
                    lemma_first_at_from(self.structures@, *cursor, 0);
                }
                match self.find_structure_tile(cursor) {
                    Some(i) => {
                        if self.structures[i].has_inventory() {
                            if self.open_structure_inventory(cursor).is_ok() {
                                return Ok(Some(ClickEvent::ShowInventory(*cursor)));
                            }
                        }
                        Ok(None)
                    },
                    None => Ok(None),
                }
            },
        }
    }

    /// The index of the first structure standing on tile `pos`.
    pub fn find_structure_tile(&self, pos: &Position) -> (ret: Option<usize>)
        ensures
            match ret {
                Some(i) => first_at(self.structures@, *pos) == Some(i as int),
                None => first_at(self.structures@, *pos) is None,
            },
    {
        let mut i: usize = 0;
        while i < self.structures.len()
            invariant
                i <= self.structures.len(),
                first_at(self.structures@, *pos) == first_at_from(self.structures@, *pos, i as int),
            decreases self.structures.len() - i,
        {
            if self.structures[i].position() == *pos {
                return Some(i);
            }
            i += 1;
        }
        None
    }

    /// The handles and tiles of all structures but the one at `skip`.
    fn neighbours(&self, skip: usize) -> (ret: Vec<(StructureId, Position)>)
        requires
            self.structures@.len() <= u32::MAX,
        ensures
            ret@ == neighbours_upto(self.structures@, skip as int, self.structures@.len() as int),
    {
        let mut ret: Vec<(StructureId, Position)> = Vec::new();
        let mut j: usize = 0;
        while j < self.structures.len()
            invariant
                j <= self.structures.len(),
                self.structures@.len() <= u32::MAX,
                ret@ == neighbours_upto(self.structures@, skip as int, j as int),
            decreases self.structures.len() - j,
        {
            if j != skip {
                ret.push((StructureId { id: j as u32, gen: 0 }, self.structures[j].position()));
            }
            j += 1;
        }
        ret
    }

    /// The handles and footprints of all structures but the one at `skip`.
    fn footprints(&self, skip: usize) -> (ret: Vec<(StructureId, BoundingBox)>)
        requires
            self.structures@.len() <= u32::MAX,
            forall|j: int| 0 <= j < self.structures@.len() ==> position_of(#[trigger] self.structures@[j]).x + side_of(
                self.structures@[j],
            ) <= i32::MAX && position_of(self.structures@[j]).y + side_of(self.structures@[j]) <= i32::MAX,
        ensures
            ret@ == footprints_upto(self.structures@, skip as int, self.structures@.len() as int),
    {
        let mut ret: Vec<(StructureId, BoundingBox)> = Vec::new();
        let mut j: usize = 0;
        while j < self.structures.len()
            invariant
                j <= self.structures.len(),
                self.structures@.len() <= u32::MAX,
                forall|k: int| 0 <= k < self.structures@.len() ==> position_of(#[trigger] self.structures@[k]).x + side_of(
                    self.structures@[k],
                ) <= i32::MAX && position_of(self.structures@[k]).y + side_of(self.structures@[k]) <= i32::MAX,
                ret@ == footprints_upto(self.structures@, skip as int, j as int),
            decreases self.structures.len() - j,
        {
            if j != skip {
                let s = &self.structures[j];
                let side: i32 = match s {
                    Structure::OreMine(_) | Structure::Furnace(_) => 2,
                    _ => 1,
                };
                let bb = bounding_box(&s.position(), &Size { width: side, height: side });
                ret.push((StructureId { id: j as u32, gen: 0 }, bb));
            }
            j += 1;
        }
        ret
    }

    /// Turns what the `R` key points at: with a tool in hand, the tool (its
    /// direction is computed and dropped, and the answer is `true`);
    /// otherwise the structure on tile `cursor` a quarter clockwise (see
    /// [`turned`]), answering `false`. Fails when there is no cursor or no
    /// structure on its tile, or the structure cannot turn.
    pub fn rotate(&mut self, cursor: Option<Position>) -> (ret: Result<bool, RotateErr>)
        requires
            old(self).structures@.len() <= u32::MAX,
            old(self).tools.selected_tool is None ==> (cursor matches Some(c) ==> (first_at(old(self).structures@, c) matches Some(i) ==> rotate_fits(old(self).structures@, i))),
        ensures
            final(self).width == old(self).width,
            final(self).height == old(self).height,
            final(self).drop_items == old(self).drop_items,
            final(self).player == old(self).player,
            final(self).tools == old(self).tools,
            final(self).selected_inventory == old(self).selected_inventory,
            final(self).selected_structure_item == old(self).selected_structure_item,
            (ret, final(self).structures@) == rotation_outcome(old(self).tools.selected_tool, old(self).structures@, cursor),
    {
        if self.tools.selected_tool.is_some() {
            let _ = self.tools.tool_rotation.next();
            return Ok(true);
        }
        let c = match cursor {
            Some(c) => c,
            None => {
                return Err(RotateErr::NotFound);
            },
        };
        let i = match self.find_structure_tile(&c) {
            Some(i) => i,
            None => {
                return Err(RotateErr::NotFound);
            },
        };
        proof {
            lemma_first_at_from(self.structures@, c, 0);
        }
        let ghost ss0 = self.structures@;
        let turnable = match &self.structures[i] {
            Structure::TransportBelt(_) | Structure::Inserter(_, _) | Structure::OreMine(_) => true,
            _ => false,
        };
        if !turnable {
            return Err(RotateErr::NotSupported);
        }
        let is_mine = match &self.structures[i] {
            Structure::OreMine(_) => true,
            _ => false,
        };
        let neighbours = self.neighbours(i);
        let footprints = if is_mine {
            self.footprints(i)
        } else {
            Vec::new()
        };
        let mut s = self.structures.remove(i);
        match &mut s {
            Structure::TransportBelt(b) => b.rotate(),
            Structure::Inserter(p, ins) => {
                let pos = *p;
                ins.rotate(&pos, &neighbours);
            },
            Structure::OreMine(m) => m.rotate(&footprints),
            _ => {},
        }
        self.structures.insert(i, s);
        proof {
            assert(self.structures@ =~= ss0.update(i as int, s));
        }
        Ok(false)
    }

    /// The store `is_input` of the structure on tile `pos` (see
    /// [`store_of`]), empty for a structure without such a store; fails
    /// when no structure stands there.
    pub fn get_structure_inventory(&self, pos: &Position, is_input: bool) -> (ret: Result<Inventory, ()>)
        ensures
            match first_at(self.structures@, *pos) {
                None => ret is Err,
                Some(i) => ret matches Ok(inv) && inv@ == match store_of(self.structures@[i], is_input) {
                    Some(m) => m,
                    None => Map::empty(),
                },
            },
    {
        proof {
            lemma_first_at_from(self.structures@, *pos, 0);
        }
        match self.find_structure_tile(pos) {
            Some(i) => match self.structures[i].inventory(is_input) {
                Some(inv) => Ok(inv.clone()),
                None => Ok(Inventory::new()),
            },
            None => Err(()),
        }
    }

    /// Where the shown structure store is, if one is shown.
    pub fn get_selected_inventory(&self) -> (ret: Option<Position>)
        ensures
            ret == self.selected_inventory,
    {
        self.selected_inventory
    }

    /// The entries of the player's inventory and the item picked in it.
    pub fn get_player_inventory(&self) -> (ret: (Vec<(ItemType, usize)>, Option<ItemType>))
        ensures
            ret.0@ == entries_of(self.player.inventory@),
            ret.1 == self.player.selected_item,
    {
        (self.player.inventory.entries(), self.player.selected_item)
    }

    /// Picks the item named `name` in the player's inventory: fails,
    /// changing nothing, for a name that no item has; otherwise picks the
    /// item if the player holds it and fails, picking nothing, if not.
    pub fn select_player_inventory(&mut self, name: &str) -> (ret: Result<(), ()>)
        ensures
            final(self).width == old(self).width,
            final(self).height == old(self).height,
            final(self).structures == old(self).structures,
            final(self).drop_items == old(self).drop_items,
            final(self).player.inventory == old(self).player.inventory,
            final(self).tools == old(self).tools,
            final(self).selected_inventory == old(self).selected_inventory,
            final(self).selected_structure_item == old(self).selected_structure_item,
            (forall|t: ItemType| item_name(t) != name@) ==> ret is Err && final(self).player.selected_item
                == old(self).player.selected_item,
            forall|t: ItemType| #[trigger] item_name(t) == name@ ==> if old(self).player.inventory@.contains_key(t) {
                ret is Ok && final(self).player.selected_item == Some(t)
            } else {
                ret is Err && final(self).player.selected_item is None
            },
    {
        match str_to_item(name) {
            Some(t) => {
                proof {
                    assert forall|u: ItemType| #[trigger] item_name(u) == name@ implies u == t by {
                        if u != t {
                            lemma_item_names_distinct(u, t);
                        }
                    }
                }
                self.player.select_item(&t)
            },
            None => Err(()),
        }
    }

    /// Picks the item named `name` in the shown structure's store; fails,
    /// changing nothing, for a name that no item has.
    pub fn select_structure_inventory(&mut self, name: &str) -> (ret: Result<(), ()>)
        ensures
            match ret {
                Ok(_) => exists|t: ItemType| item_name(t) == name@ && final(self).selected_structure_item == Some(t),
                Err(_) => (forall|t: ItemType| item_name(t) != name@) && final(self).selected_structure_item == old(self).selected_structure_item,
            },
            final(self).width == old(self).width,
            final(self).height == old(self).height,
            final(self).structures == old(self).structures,
            final(self).drop_items == old(self).drop_items,
            final(self).player == old(self).player,
            final(self).tools == old(self).tools,
            final(self).selected_inventory == old(self).selected_inventory,
    {
        match str_to_item(name) {
            Some(t) => {
                self.selected_structure_item = Some(t);
                Ok(())
            },
            None => Err(()),
        }
    }

    /// Moves the picked item's whole entry between the shown structure's
    /// store `is_input` and the player: to the player (`to_player`) the
    /// item picked in the store, otherwise the item picked in the player's
    /// inventory (see [`moved_entry`]). Says whether anything moved; with
    /// no store shown, no such store or no item picked nothing moves.
    pub fn move_selected_inventory_item(&mut self, to_player: bool, is_input: bool) -> (ret: bool)
        requires
            shown_store(old(self).structures@, old(self).selected_inventory, is_input) matches Some((i, m)) ==> ((if to_player {
                old(self).selected_structure_item
            } else {
                old(self).player.selected_item
            }) matches Some(t) ==> count_of(m, t) + count_of(old(self).player.inventory@, t) <= usize::MAX),
        ensures
            final(self).width == old(self).width,
            final(self).height == old(self).height,
            final(self).drop_items == old(self).drop_items,
            final(self).tools == old(self).tools,
            final(self).selected_inventory == old(self).selected_inventory,
            final(self).selected_structure_item == old(self).selected_structure_item,
            final(self).player.selected_item == old(self).player.selected_item,
            ({
                let picked = if to_player { old(self).selected_structure_item } else { old(self).player.selected_item };
                match (shown_store(old(self).structures@, old(self).selected_inventory, is_input), picked) {
                    (Some((i, m)), Some(t)) => {
                        let p = old(self).player.inventory@;
                        let (src1, dst1, moved) = if to_player { moved_entry(m, p, t) } else { moved_entry(p, m, t) };
                        &&& ret == moved
                        &&& final(self).structures@.len() == old(self).structures@.len()
                        &&& forall|j: int| 0 <= j < old(self).structures@.len() && j != i ==> final(self).structures@[j] == old(self).structures@[j]
                        &&& store_set(old(self).structures@[i], final(self).structures@[i], is_input, if to_player { src1 } else { dst1 })
                        &&& final(self).player.inventory@ == if to_player { dst1 } else { src1 }
                    },
                    _ => !ret && final(self).structures@ == old(self).structures@ && final(self).player.inventory@ == old(self).player.inventory@,
                }
            }),
    {
        let pos = match self.selected_inventory {
            Some(pos) => pos,
            None => {
                return false;
            },
        };
        let i = match self.find_structure_tile(&pos) {
            Some(i) => i,
            None => {
                return false;
            },
        };
        proof {
            lemma_first_at_from(self.structures@, pos, 0);
        }
        let picked = if to_player { self.selected_structure_item } else { self.player.selected_item };
        let item = match picked {
            Some(t) => t,
            None => {
                return false;
            },
        };
        let ghost ss0 = self.structures@;
        let mut s = self.structures.remove(i);
        let moved = s.move_store_item(is_input, to_player, &mut self.player.inventory, &item);
        self.structures.insert(i, s);
        proof {
            assert(self.structures@ =~= ss0.update(i as int, s));
            if store_of(ss0[i as int], is_input) is None {
                assert(self.structures@ =~= ss0);
            }
        }
        moved
    }

    /// The recipes of the structure on tile `pos`: an assembler's twenty,
    /// a furnace's three smelting recipes, none for other structures.
    /// Fails when no structure stands there.
    pub fn get_structure_recipes(&self, pos: &Position) -> (ret: Result<Vec<Recipe>, ()>)
        ensures
            match first_at(self.structures@, *pos) {
                None => ret is Err,
                Some(i) => (ret matches Ok(v) && match self.structures@[i] {
                    Structure::Assembler(_) => v@.len() == 20 && forall|k: int| 0 <= k < 20 ==> (#[trigger] v@[k]).input@
                        == assembler_recipe_input(k) && v@[k].output@ == assembler_recipe_output(k)
                        && v@[k].power_cost == assembler_recipe_cost(k).0 && v@[k].recipe_time == assembler_recipe_cost(k).1
                        && v@[k].requires_technology@ == assembler_recipe_tech(k),
                    Structure::Furnace(_) => v@.len() == 3 && forall|k: int| 0 <= k < 3 ==> (#[trigger] v@[k]).input@
                        == furnace_recipe_input(k) && v@[k].output@ == furnace_recipe_output(k)
                        && v@[k].power_cost == furnace_recipe_cost(k).0 && v@[k].recipe_time == furnace_recipe_cost(k).1
                        && v@[k].requires_technology@ == furnace_recipe_tech(k),
                    _ => v@.len() == 0,
                }),
            },
    {
        match self.find_structure_tile(pos) {
            Some(i) => {
                proof {
                    lemma_first_at_from(self.structures@, *pos, 0);
                }
                match &self.structures[i] {
                    Structure::Assembler(a) => Ok(a.get_recipes()),
                    Structure::Furnace(_) => Ok(furnace_recipes()),
                    _ => Ok(Vec::new()),
                }
            },
            None => Err(()),
        }
    }

    /// Selects recipe `index` of the assembler on tile `pos` (see
    /// [`Assembler::select_recipe`]). Fails, changing nothing, when no
    /// structure stands there, when it is no assembler, or when the index
    /// is out of range.
    pub fn select_recipe(&mut self, pos: &Position, index: usize) -> (ret: Result<bool, ()>)
        ensures
            final(self).width == old(self).width,
            final(self).height == old(self).height,
            final(self).drop_items == old(self).drop_items,
            final(self).player == old(self).player,
            final(self).tools == old(self).tools,
            final(self).selected_inventory == old(self).selected_inventory,
            final(self).selected_structure_item == old(self).selected_structure_item,
            match first_at(old(self).structures@, *pos) {
                Some(i) => match old(self).structures@[i] {
                    Structure::Assembler(a) => if index < 20 {
                        &&& ret == Ok::<bool, ()>(true)
                        &&& final(self).structures@.len() == old(self).structures@.len()
                        &&& forall|j: int| 0 <= j < old(self).structures@.len() && j != i ==> final(self).structures@[j] == old(self).structures@[j]
                        &&& final(self).structures@[i] is Assembler
                        &&& ({
                            let b = final(self).structures@[i]->Assembler_0;
                            &&& b.position == a.position
                            &&& b.factory.input_inventory@ == a.factory.input_inventory@
                            &&& b.factory.output_inventory@ == a.factory.output_inventory@
                            &&& b.factory.in_progress == a.factory.in_progress
                            &&& b.factory.recipe matches Some(r)
                            &&& r.input@ == assembler_recipe_input(index as int)
                            &&& r.output@ == assembler_recipe_output(index as int)
                            &&& r.power_cost == assembler_recipe_cost(index as int).0
                            &&& r.recipe_time == assembler_recipe_cost(index as int).1
                            &&& r.requires_technology@ == assembler_recipe_tech(index as int)
                        })
                    } else {
                        ret is Err && final(self).structures@.len() == old(self).structures@.len()
                            && (forall|j: int| 0 <= j < old(self).structures@.len() && j != i ==> final(self).structures@[j] == old(self).structures@[j])
                            && final(self).structures@[i] is Assembler
                            && final(self).structures@[i]->Assembler_0.factory.recipe == a.factory.recipe
                            && final(self).structures@[i]->Assembler_0.factory.input_inventory@ == a.factory.input_inventory@
                            && final(self).structures@[i]->Assembler_0.factory.output_inventory@ == a.factory.output_inventory@
                    },
                    _ => ret is Err && final(self).structures@ == old(self).structures@,
                },
                None => ret is Err && final(self).structures@ == old(self).structures@,
            },
    {
        let i = match self.find_structure_tile(pos) {
            Some(i) => i,
            None => {
                return Err(());
            },
        };
        proof {
            lemma_first_at_from(self.structures@, *pos, 0);
        }
        let is_assembler = match &self.structures[i] {
            Structure::Assembler(_) => true,
            _ => false,
        };
        if !is_assembler {
            return Err(());
        }
        let ghost ss0 = self.structures@;
        let mut s = self.structures.remove(i);
        let ret = match &mut s {
            Structure::Assembler(a) => a.select_recipe(index),
            _ => Err(()),
        };
        self.structures.insert(i, s);
        proof {
            assert(self.structures@ =~= ss0.update(i as int, s));
        }
        ret
    }

    /// A key press with the cursor on tile `cursor`, if any: the `R` key
    /// (code 82) rotates (see [`World::rotate`]); other keys do nothing
    /// and answer `false`.
    pub fn on_key_down(&mut self, cursor: Option<Position>, key_code: i32) -> (ret: Result<bool, RotateErr>)
        requires
            old(self).structures@.len() <= u32::MAX,
            key_code == 82 && old(self).tools.selected_tool is None ==> (cursor matches Some(c) ==> (first_at(
                old(self).structures@,
                c,
            ) matches Some(i) ==> rotate_fits(old(self).structures@, i))),
        ensures
            final(self).width == old(self).width,
            final(self).height == old(self).height,
            final(self).drop_items == old(self).drop_items,
            final(self).player == old(self).player,
            final(self).tools == old(self).tools,
            final(self).selected_inventory == old(self).selected_inventory,
            final(self).selected_structure_item == old(self).selected_structure_item,
            key_code == 82 ==> (ret, final(self).structures@) == rotation_outcome(old(self).tools.selected_tool, old(self).structures@, cursor),
            key_code != 82 ==> ret == Ok::<bool, RotateErr>(false) && final(self).structures@ == old(self).structures@,
    {
        if key_code == 82 {
            self.rotate(cursor)
        } else {
            Ok(false)
        }
    }

    /// What the power grid reads of the structures, in order (see
    /// [`power_nodes_of`]).
    pub fn power_nodes(&self) -> (ret: Vec<PowerNode>)
        requires
            self.structures@.len() <= u32::MAX,
        ensures
            ret@ == power_nodes_of(self.structures@),
    {
        let mut ret: Vec<PowerNode> = Vec::new();
        let mut j: usize = 0;
        while j < self.structures.len()
            invariant
                j <= self.structures.len(),
                self.structures@.len() <= u32::MAX,
                ret@ == power_nodes_of(self.structures@).take(j as int),
            decreases self.structures.len() - j,
        {
            let s = &self.structures[j];
            let (source, sink, wire_reach) = match s {
                Structure::Assembler(_) => (false, true, DEFAULT_WIRE_REACH),
                Structure::Utility(k, _) => match k {
                    ItemType::SteamEngine => (true, false, DEFAULT_WIRE_REACH),
                    ItemType::ElectPole => (true, true, POLE_WIRE_REACH),
                    _ => (false, false, DEFAULT_WIRE_REACH),
                },
                _ => (false, false, DEFAULT_WIRE_REACH),
            };
            ret.push(PowerNode { id: StructureId { id: j as u32, gen: 0 }, position: s.position(), source, sink, wire_reach });
            proof {
                assert(power_nodes_of(self.structures@).take(j + 1) =~= power_nodes_of(self.structures@).take(j as int).push(
                    power_nodes_of(self.structures@)[j as int],
                ));
            }
            j += 1;
        }
        proof {
            assert(power_nodes_of(self.structures@).take(self.structures@.len() as int) =~= power_nodes_of(self.structures@));
        }
        ret
    }

    /// Brings what follows from the layout up to date: each structure is
    /// refreshed (see [`refreshed`]), wires are strung between every two
    /// structures that [`wire_between`] pairs (appended to `wires`), and
    /// the power networks over them are returned (see
    /// [`build_power_networks`] and [`power_networks`]) together with a
    /// fresh index of the items on the ground (see [`build_index`]).
    pub fn update_cache(&mut self, wires: &mut Vec<PowerWire>) -> (ret: (Vec<PowerNetwork>, DropItemIndex))
        requires
            old(self).wf(),
            old(self).structures@.len() <= u32::MAX,
            positions_in_range(old(self).structures@),
            measurable(power_nodes_of(old(self).structures@)),
        ensures
            final(self).width == old(self).width,
            final(self).height == old(self).height,
            final(self).drop_items == old(self).drop_items,
            final(self).player == old(self).player,
            final(self).tools == old(self).tools,
            final(self).selected_inventory == old(self).selected_inventory,
            final(self).selected_structure_item == old(self).selected_structure_item,
            final(self).structures@.len() == old(self).structures@.len(),
            forall|i: int| 0 <= i < old(self).structures@.len() ==> refreshed(old(self).structures@, i, #[trigger] final(self).structures@[i]),
            power_nodes_of(final(self).structures@) == power_nodes_of(old(self).structures@),
            wires_added(power_nodes_of(old(self).structures@), old(wires)@, final(wires)@),
            ret.0.len() <= old(self).structures@.len(),
            forall|i: int| 0 <= i < ret.0.len() ==> is_network_of(power_nodes_of(old(self).structures@), final(wires)@, #[trigger] ret.0@[i]),
            forall|s: int| #[trigger] first_power(power_nodes_of(old(self).structures@), s) && starts_network(
                power_nodes_of(old(self).structures@),
                final(wires)@,
                s,
            ) ==> ret.0.len() > 0 && grown_from(power_nodes_of(old(self).structures@), final(wires)@, s, ret.0@[0]),
            ret.0@.map_values(|n: PowerNetwork| net_value(n)) == power_networks(power_nodes_of(old(self).structures@), final(wires)@),
            ret.1.wf(),
            ret.1.view() == built_index(old(self).drop_items.slots()),
    {
        let ghost ss0 = self.structures@;
        let n = self.structures.len();
        let mut i: usize = 0;
        while i < n
            invariant
                n == ss0.len(),
                n <= u32::MAX,
                i <= n,
                positions_in_range(ss0),
                self.structures@.len() == n,
                self.width == old(self).width,
                self.height == old(self).height,
                self.drop_items == old(self).drop_items,
                self.drop_items.wf(),
                self.player == old(self).player,
                self.tools == old(self).tools,
                self.selected_inventory == old(self).selected_inventory,
                self.selected_structure_item == old(self).selected_structure_item,
                forall|j: int| 0 <= j < i ==> refreshed(ss0, j, #[trigger] self.structures@[j]),
                forall|j: int| i <= j < n ==> #[trigger] self.structures@[j] == ss0[j],
                forall|j: int| 0 <= j < n ==> position_of(#[trigger] self.structures@[j]) == position_of(ss0[j])
                    && footprint_of(self.structures@[j]) == footprint_of(ss0[j])
                    && kind_of(self.structures@[j]) == kind_of(ss0[j])
                    && is_power_source(self.structures@[j]) == is_power_source(ss0[j])
                    && is_power_sink(self.structures@[j]) == is_power_sink(ss0[j])
                    && reach_of(self.structures@[j]) == reach_of(ss0[j]),
            decreases n - i,
        {
            let ghost cur = self.structures@;
            proof {
                lemma_neighbours_read_tiles(cur, ss0, i as int, n as int);
                assert(ss0[i as int] == cur[i as int]);
            }
            let kind = match &self.structures[i] {
                Structure::Assembler(_) => 0u8,
                Structure::Inserter(_, _) => 1u8,
                Structure::OreMine(_) => 2u8,
                _ => 3u8,
            };
            if kind < 3 {
                let neighbours = if kind == 1 {
                    self.neighbours(i)
                } else {
                    Vec::new()
                };
                let footprints = if kind == 2 {
                    proof {
                        assert forall|j: int| 0 <= j < cur.len() implies position_of(#[trigger] cur[j]).x + side_of(cur[j])
                            <= i32::MAX && position_of(cur[j]).y + side_of(cur[j]) <= i32::MAX by {
                            assert(position_of(cur[j]) == position_of(ss0[j]));
                            assert(i32::MIN + 1 < position_of(ss0[j]).x < i32::MAX - 1);
                        }
                    }
                    self.footprints(i)
                } else {
                    Vec::new()
                };
                let mut s = self.structures.remove(i);
                match &mut s {
                    Structure::Assembler(a) => {
                        let _ = a.select_recipe(0);
                    },
                    Structure::Inserter(p, ins) => {
                        let pos = *p;
                        ins.on_construction_self(&pos, &neighbours, true);
                    },
                    Structure::OreMine(m) => m.on_construction_self(&footprints, true),
                    _ => {},
                }
                self.structures.insert(i, s);
                proof {
                    assert(self.structures@ =~= cur.update(i as int, s));
                    assert(position_of(ss0[i as int]) == position_of(ss0[i as int]));
                }
            }
            i += 1;
        }
        proof {
            assert(power_nodes_of(self.structures@) =~= power_nodes_of(ss0));
        }
        let nodes = self.power_nodes();
        connect_power_wires(&nodes, wires);
        let networks = build_power_networks(&nodes, wires);
        let index = build_index(&self.drop_items);
        (networks, index)
    }

    /// Whether every structure stands at least two tiles inside the `i32`
    /// coordinates (see [`positions_in_range`]).
    pub fn positions_fit(&self) -> (ret: bool)
        ensures
            ret == positions_in_range(self.structures@),
    {
        let n = self.structures.len();
        let mut i: usize = 0;
        while i < n
            invariant
                n == self.structures@.len(),
                i <= n,
                forall|j: int| 0 <= j < i ==> i32::MIN + 1 < #[trigger] position_of(self.structures@[j]).x < i32::MAX - 1
                    && i32::MIN + 1 < position_of(self.structures@[j]).y < i32::MAX - 1,
            decreases n - i,
        {
            let p = self.structures[i].position();
            if !(i32::MIN + 1 < p.x && p.x < i32::MAX - 1 && i32::MIN + 1 < p.y && p.y < i32::MAX - 1) {
                assert(!(i32::MIN + 1 < position_of(self.structures@[i as int]).x < i32::MAX - 1
                    && i32::MIN + 1 < position_of(self.structures@[i as int]).y < i32::MAX - 1));
                return false;
            }
            i += 1;
        }
        true
    }

    /// [`World::update_cache`] where its coordinates and counts fit the
    /// machine integers: at most `u32::MAX` structures, each at least two
    /// tiles inside the `i32` coordinates, and the power nodes
    /// [`measurable`]; elsewhere `None`, with nothing changed.
    pub fn try_update_cache(&mut self, wires: &mut Vec<PowerWire>) -> (ret: Option<(Vec<PowerNetwork>, DropItemIndex)>)
        requires
            old(self).wf(),
        ensures
            ret is Some <== old(self).structures@.len() <= u32::MAX && positions_in_range(old(self).structures@) && measurable(
                power_nodes_of(old(self).structures@),
            ),
            ret is None ==> !(old(self).structures@.len() <= u32::MAX && positions_in_range(old(self).structures@) && measurable(
                power_nodes_of(old(self).structures@),
            )) && *final(self) == *old(self) && final(wires)@ == old(wires)@,
            ret matches Some(r) ==> {
                &&& final(self).structures@.len() == old(self).structures@.len()
                &&& forall|i: int| 0 <= i < old(self).structures@.len() ==> refreshed(old(self).structures@, i, #[trigger] final(self).structures@[i])
                &&& wires_added(power_nodes_of(old(self).structures@), old(wires)@, final(wires)@)
                &&& r.0@.map_values(|n: PowerNetwork| net_value(n)) == power_networks(power_nodes_of(old(self).structures@), final(wires)@)
                &&& r.1.view() == built_index(old(self).drop_items.slots())
            },
    {
        if self.structures.len() > u32::MAX as usize || !self.positions_fit() || !is_measurable(&self.power_nodes()) {
            return None;
        }
        Some(self.update_cache(wires))
    }

    /// Harvests tile `pos` (see [`harvested`]); says whether anything was
    /// taken.
    pub fn harvest(&mut self, pos: &Position) -> (ret: bool)
        requires
            old(self).wf(),
            harvest_fits(old(self).structures@, old(self).player.inventory@, old(self).drop_items.slots(), *pos),
        ensures
            final(self).wf(),
            final(self).width == old(self).width,
            final(self).height == old(self).height,
            final(self).tools == old(self).tools,
            final(self).selected_structure_item == old(self).selected_structure_item,
            final(self).selected_inventory == old(self).selected_inventory,
            final(self).player.selected_item == old(self).player.selected_item,
            harvested(
                old(self).structures@,
                old(self).drop_items.slots(),
                old(self).player.inventory@,
                *pos,
                final(self).structures@,
                final(self).drop_items.slots(),
                final(self).player.inventory@,
                ret,
            ),
    {
        match self.find_structure_tile(pos) {
            Some(i) => {
                proof {
                    lemma_first_at_from(self.structures@, *pos, 0);
                }
                let found = str_to_item(self.structures[i].name());
                proof {
                    lemma_name_round_trip(kind_of(self.structures@[i as int]), found);
                }
                let kind = found.unwrap();
                let ghost inv0 = self.player.inventory@;
                let ghost s0 = self.structures@[i as int];
                self.player.add_item(&kind, 1);
                let mut s = self.structures.remove(i);
                let contents = s.destroy_inventory();
                proof {
                    assert forall|t: ItemType| count_of(self.player.inventory@, t) + count_of(contents@, t) <= usize::MAX by {
                        assert(count_of(self.player.inventory@, t) == count_of(inv0, t) + if t == kind { 1int } else { 0int });
                    }
                }
                self.player.inventory.add_all(&contents);
                true
            },
            None => pick_up_items(&mut self.drop_items, pos, &mut self.player.inventory),
        }
    }
}

/// Whether tile `p` lies under one of the structures `ss`.
pub open spec fn covered(ss: Seq<Structure>, p: Position) -> bool {
    exists|j: int| 0 <= j < ss.len() && bb_contains(footprint_of(#[trigger] ss[j]), p)
}

/// Whether tile `p` lies under one of the first `n` structures of `ss`.
pub open spec fn covered_upto(ss: Seq<Structure>, n: int, p: Position) -> bool {
    exists|j: int| 0 <= j < n && bb_contains(footprint_of(#[trigger] ss[j]), p)
}

/// Leaves no water beneath the structures: every tile that one of
/// `structures` covers becomes dry land, and the edge pictures of the
/// chunks holding such tiles are brought up to date; returns those chunks.
/// Every other tile keeps its water, and every tile keeps its ore and
/// grass.
pub fn clear_water_under(structures: &Vec<Structure>, terrain: &mut Terrain) -> (ret: Vec<Position>)
    requires
        old(terrain).wf(),
        forall|j: int| 0 <= j < structures.len() ==> position_of(#[trigger] structures@[j]).x < i32::MAX - 1
            && position_of(structures@[j]).y < i32::MAX - 1,
        forall|p: Position| #[trigger] covered(structures@, p) ==> old(terrain).view().contains_key(chunk_of(p)) && chunk_fits(
            chunk_of(p),
        ),
    ensures
        final(terrain).wf(),
        final(terrain).view().dom() == old(terrain).view().dom(),
        forall|p: Position| #[trigger] covered(structures@, p) ==> dry_tile(final(terrain).view(), p),
        forall|p: Position| #[trigger] tile_spec(final(terrain).view(), p) is Some ==> ({
            let c1 = tile_spec(final(terrain).view(), p)->0;
            &&& tile_spec(old(terrain).view(), p) is Some
            &&& c1.ore == tile_spec(old(terrain).view(), p)->0.ore
            &&& c1.grass_image == tile_spec(old(terrain).view(), p)->0.grass_image
            &&& c1.water == (tile_spec(old(terrain).view(), p)->0.water && !covered(structures@, p))
        }),
        forall|cp: Position| old(terrain).view().contains_key(cp) && !ret@.contains(cp) ==> #[trigger] final(terrain).view()[cp]
            == old(terrain).view()[cp],
{
    let ghost ss = structures@;
    let mut tiles: Vec<Position> = Vec::new();
    let mut j: usize = 0;
    while j < structures.len()
        invariant
            ss == structures@,
            j <= structures.len(),
            forall|j: int| 0 <= j < structures.len() ==> position_of(#[trigger] structures@[j]).x < i32::MAX - 1
                && position_of(structures@[j]).y < i32::MAX - 1,
            forall|l: int| 0 <= l < tiles.len() ==> #[trigger] covered(ss, tiles@[l]),
            forall|p: Position| #[trigger] covered_upto(ss, j as int, p) ==> tiles@.contains(p),
        decreases structures.len() - j,
    {
        let s = &structures[j];
        let p = s.position();
        let two = match s {
            Structure::OreMine(_) | Structure::Furnace(_) => true,
            _ => false,
        };
        let ghost t0 = tiles@;
        tiles.push(p);
        if two {
            tiles.push(Position { x: p.x + 1, y: p.y });
            tiles.push(Position { x: p.x, y: p.y + 1 });
            tiles.push(Position { x: p.x + 1, y: p.y + 1 });
        }
        proof {
            assert forall|l: int| 0 <= l < tiles.len() implies #[trigger] covered(ss, tiles@[l]) by {
                if l < t0.len() {
                    assert(tiles@[l] == t0[l]);
                } else {
                    assert(bb_contains(footprint_of(ss[j as int]), tiles@[l]));
                }
            }
            assert forall|q: Position| #[trigger] covered_upto(ss, j + 1, q) implies tiles@.contains(q) by {
                let jj = choose|jj: int| 0 <= jj < j + 1 && bb_contains(footprint_of(#[trigger] ss[jj]), q);
                if jj < j {
                    assert(covered_upto(ss, j as int, q));
                    let m = choose|m: int| 0 <= m < t0.len() && t0[m] == q;
                    assert(tiles@[m] == q);
                } else {
                    let n0 = t0.len() as int;
                    if q == p {
                        assert(tiles@[n0] == q);
                    } else if q.x == p.x + 1 && q.y == p.y {
                        assert(tiles@[n0 + 1] == q);
                    } else if q.x == p.x && q.y == p.y + 1 {
                        assert(tiles@[n0 + 2] == q);
                    } else {
                        assert(tiles@[n0 + 3] == q);
                    }
                }
            }
        }
        j += 1;
    }
    proof {
        assert forall|p: Position| #[trigger] covered(ss, p) implies tiles@.contains(p) by {
            let jj = choose|jj: int| 0 <= jj < ss.len() && bb_contains(footprint_of(#[trigger] ss[jj]), p);
            assert(covered_upto(ss, ss.len() as int, p));
        }
        assert forall|l: int| 0 <= l < tiles.len() implies old(terrain).view().contains_key(chunk_of(#[trigger] tiles@[l]))
            && chunk_fits(chunk_of(tiles@[l])) by {
            assert(covered(ss, tiles@[l]));
        }
    }
    let ret = terrain.update_water(&tiles);
    proof {
        let m0 = old(terrain).view();
        let m1 = terrain.view();
        assert forall|p: Position| #[trigger] covered(ss, p) implies dry_tile(m1, p) by {
            let l = choose|l: int| 0 <= l < tiles.len() && tiles@[l] == p;
            assert(dry_tile(m1, tiles@[l]));
        }
        assert forall|p: Position| #[trigger] tile_spec(m1, p) is Some implies ({
            let c1 = tile_spec(m1, p)->0;
            &&& tile_spec(m0, p) is Some
            &&& c1.ore == tile_spec(m0, p)->0.ore
            &&& c1.grass_image == tile_spec(m0, p)->0.grass_image
            &&& c1.water == (tile_spec(m0, p)->0.water && !covered(ss, p))
        }) by {
            lemma_tile_location_inverse(p);
            let cp = chunk_of(p);
            let k = tile_location_spec(p).2;
            assert(m1.contains_key(cp));
            assert(m0.contains_key(cp));
            old(terrain).lemma_chunk_len(cp);
            terrain.lemma_chunk_len(cp);
            assert(tile_kept(m0, m1, tiles@, tiles.len() as int, cp, k));
            if covered(ss, p) {
                let l = choose|l: int| 0 <= l < tiles.len() && tiles@[l] == p;
                assert(chunk_of(tiles@[l]) == cp && tile_location_spec(tiles@[l]).2 == k);
                assert(dried(tiles@, tiles.len() as int, cp, k));
            }
            if dried(tiles@, tiles.len() as int, cp, k) {
                let l = choose|l: int| 0 <= l < tiles.len() && chunk_of(#[trigger] tiles@[l]) == cp
                    && tile_location_spec(tiles@[l]).2 == k;
                lemma_tile_location_inverse(tiles@[l]);
                assert(tiles@[l].x == p.x && tiles@[l].y == p.y);
                assert(tiles@[l] == p);
                assert(covered(ss, tiles@[l]));
            }
        }
    }
    ret
}
} // verus!
