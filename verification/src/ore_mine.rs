//! Ore mines: burner-fed drills that take ore out of the tiles under them.
use crate::burner::{add_fuel, fuel_moved, FUEL_CAPACITY};
use crate::inventory::{added, count_of, merged, Inventory, InventoryType};
use crate::items::ItemType;
use crate::recipe::Recipe;
use crate::structure::{
    bb_contains, delta_spec, next_spec, BoundingBox, Position, Rotation, StructureId,
};
use crate::terrain::{ore_item, remove_ore_from_tile, Cell, OreValue};
use vstd::prelude::*;

verus! {

/// An ore mine: a 2 by 2 drill facing `rotation`, with a fuel store, the
/// recipe of the ore it is mining, the structure it feeds, if any, and
/// whether the current run has made progress (the simulation that advances
/// runs keeps this flag).
pub struct OreMine {
    pub position: Position,
    pub rotation: Rotation,
    pub recipe: Option<Recipe>,
    pub input_inventory: Inventory,
    pub output_structure: Option<StructureId>,
    pub in_progress: bool,
}

/// The tile of the drill at which the products come out: the corner in the
/// direction the drill faces.
pub open spec fn output_port_spec(position: Position, rotation: Rotation) -> (int, int) {
    (
        if rotation == Rotation::Right || rotation == Rotation::Bottom { position.x + 1 } else { position.x as int },
        if rotation == Rotation::Left || rotation == Rotation::Bottom { position.y + 1 } else { position.y as int },
    )
}

/// The tile in front of the output port of a mine at `position` facing
/// `rotation`.
pub open spec fn output_spec(position: Position, rotation: Rotation) -> Position {
    Position {
        x: (output_port_spec(position, rotation).0 + delta_spec(rotation).0) as i32,
        y: (output_port_spec(position, rotation).1 + delta_spec(rotation).1) as i32,
    }
}

/// The structure a mine feeds after noting each of `others` in turn: one
/// covering its output tile `out` becomes it when built and stops being it
/// when removed.
pub open spec fn fed_after(link: Option<StructureId>, others: Seq<(StructureId, BoundingBox)>, out: Position, construct: bool) -> Option<StructureId>
    decreases others.len(),
{
    if others.len() == 0 {
        link
    } else {
        let prev = fed_after(link, others.drop_last(), out, construct);
        let (id, bb) = others.last();
        if bb_contains(bb, out) {
            if construct { Some(id) } else { None }
        } else {
            prev
        }
    }
}

impl OreMine {
    /// An idle mine without fuel.
    pub fn new(x: i32, y: i32, rotation: Rotation) -> (ret: Self)
        ensures
            ret.position == (Position { x, y }),
            ret.rotation == rotation,
            ret.recipe is None,
            ret.input_inventory@ == Map::<ItemType, usize>::empty(),
            ret.output_structure is None,
            !ret.in_progress,
    {
        OreMine {
            position: Position { x, y },
            rotation,
            recipe: None,
            input_inventory: Inventory::new(),
            output_structure: None,
            in_progress: false,
        }
    }

    /// The tile of the drill at which the products come out.
    pub fn output_port_pos(&self) -> (ret: Position)
        requires
            self.position.x < i32::MAX,
            self.position.y < i32::MAX,
        ensures
            ret.x == output_port_spec(self.position, self.rotation).0,
            ret.y == output_port_spec(self.position, self.rotation).1,
    {
        let x = self.position.x;
        let y = self.position.y;
        let x = match self.rotation {
            Rotation::Right | Rotation::Bottom => x + 1,
            _ => x,
        };
        let y = match self.rotation {
            Rotation::Left | Rotation::Bottom => y + 1,
            _ => y,
        };
        Position { x, y }
    }

    /// The tile in front of the output port, where the products go.
    pub fn output_pos(&self) -> (ret: Position)
        requires
            i32::MIN + 1 < self.position.x < i32::MAX - 1,
            i32::MIN + 1 < self.position.y < i32::MAX - 1,
        ensures
            ret.x == output_port_spec(self.position, self.rotation).0 + delta_spec(self.rotation).0,
            ret.y == output_port_spec(self.position, self.rotation).1 + delta_spec(self.rotation).1,
    {
        let pos = self.output_port_pos();
        let d = self.rotation.delta();
        Position { x: pos.x + d.0, y: pos.y + d.1 }
    }

    /// Notes a structure built (`construct`) or removed next to the mine:
    /// one covering the output tile becomes, or stops being, the structure
    /// the mine feeds.
    pub fn on_construction_common(&mut self, other_id: StructureId, other_bb: &BoundingBox, construct: bool)
        requires
            i32::MIN + 1 < old(self).position.x < i32::MAX - 1,
            i32::MIN + 1 < old(self).position.y < i32::MAX - 1,
        ensures
            final(self).position == old(self).position,
            final(self).rotation == old(self).rotation,
            final(self).recipe == old(self).recipe,
            final(self).input_inventory == old(self).input_inventory,
            final(self).in_progress == old(self).in_progress,
            ({
                let (px, py) = output_port_spec(old(self).position, old(self).rotation);
                let out = Position { x: (px + delta_spec(old(self).rotation).0) as i32, y: (py + delta_spec(old(self).rotation).1) as i32 };
                if bb_contains(*other_bb, out) {
                    final(self).output_structure == if construct { Some(other_id) } else { None }
                } else {
                    final(self).output_structure == old(self).output_structure
                }
            }),
    {
        let output_position = self.output_pos();
        if other_bb.x0 <= output_position.x && output_position.x < other_bb.x1 && other_bb.y0 <= output_position.y
            && output_position.y < other_bb.y1 {
            self.output_structure = if construct { Some(other_id) } else { None };
        }
    }

    /// Notes the structures around a newly built (`construct`) or removed
    /// mine, in order (see [`OreMine::on_construction_common`]).
    pub fn on_construction_self(&mut self, others: &Vec<(StructureId, BoundingBox)>, construct: bool)
        requires
            i32::MIN + 1 < old(self).position.x < i32::MAX - 1,
            i32::MIN + 1 < old(self).position.y < i32::MAX - 1,
        ensures
            final(self).position == old(self).position,
            final(self).rotation == old(self).rotation,
            final(self).recipe == old(self).recipe,
            final(self).input_inventory == old(self).input_inventory,
            final(self).output_structure == fed_after(old(self).output_structure, others@, output_spec(old(self).position, old(self).rotation), construct),
            final(self).in_progress == old(self).in_progress,
    {
        let mut k: usize = 0;
        while k < others.len()
            invariant
                i32::MIN + 1 < self.position.x < i32::MAX - 1,
                i32::MIN + 1 < self.position.y < i32::MAX - 1,
                k <= others.len(),
                self.position == old(self).position,
                self.rotation == old(self).rotation,
                self.recipe == old(self).recipe,
                self.input_inventory == old(self).input_inventory,
                self.in_progress == old(self).in_progress,
                self.output_structure == fed_after(old(self).output_structure, others@.take(k as int), output_spec(old(self).position, old(self).rotation), construct),
            decreases others.len() - k,
        {
            let (id, bb) = others[k];
            proof {
                assert(others@.take(k + 1).drop_last() =~= others@.take(k as int));
                assert(others@.take(k + 1).last() == (id, bb));
            }
            self.on_construction_common(id, &bb, construct);
            k += 1;
        }
        assert(others@.take(others.len() as int) =~= others@);
    }

    /// Turns the mine a quarter clockwise; it forgets the structure it fed
    /// and feeds the last of `others` covering its new output tile.
    pub fn rotate(&mut self, others: &Vec<(StructureId, BoundingBox)>)
        requires
            i32::MIN + 1 < old(self).position.x < i32::MAX - 1,
            i32::MIN + 1 < old(self).position.y < i32::MAX - 1,
        ensures
            final(self).position == old(self).position,
            final(self).rotation == next_spec(old(self).rotation),
            final(self).recipe == old(self).recipe,
            final(self).input_inventory == old(self).input_inventory,
            final(self).output_structure == fed_after(None, others@, output_spec(old(self).position, next_spec(old(self).rotation)), true),
            final(self).in_progress == old(self).in_progress,
    {
        self.rotation = self.rotation.next();
        self.output_structure = None;
        self.on_construction_self(others, true);
    }

    /// Takes one item as fuel: coal while the fuel store has room.
    pub fn input(&mut self, item_type: &ItemType) -> (ret: Result<(), ()>)
        requires
            count_of(old(self).input_inventory@, ItemType::CoalOre) < usize::MAX,
        ensures
            final(self).position == old(self).position,
            final(self).rotation == old(self).rotation,
            final(self).recipe == old(self).recipe,
            final(self).output_structure == old(self).output_structure,
            final(self).in_progress == old(self).in_progress,
            if *item_type == ItemType::CoalOre && count_of(old(self).input_inventory@, ItemType::CoalOre) < FUEL_CAPACITY {
                ret is Ok && final(self).input_inventory@ == added(old(self).input_inventory@, ItemType::CoalOre, 1)
            } else {
                ret is Err && final(self).input_inventory@ == old(self).input_inventory@
            },
    {
        if *item_type == ItemType::CoalOre && self.input_inventory.count_item(&ItemType::CoalOre) < FUEL_CAPACITY {
            self.input_inventory.add_item(&ItemType::CoalOre);
            return Ok(());
        }
        Err(())
    }

    /// Whether the mine takes an item: coal while the fuel store has room.
    pub fn can_input(&self, item_type: &ItemType) -> (ret: bool)
        ensures
            ret == (*item_type == ItemType::CoalOre && count_of(self.input_inventory@, ItemType::CoalOre) < FUEL_CAPACITY),
    {
        *item_type == ItemType::CoalOre && self.input_inventory.count_item(&ItemType::CoalOre) < FUEL_CAPACITY
    }

    /// Adds to or removes from the fuel store (the only store of a mine);
    /// other stores move nothing.
    pub fn add_inventory(&mut self, inventory_type: InventoryType, item_type: &ItemType, amount: isize) -> (ret: isize)
        requires
            amount != isize::MIN,
            count_of(old(self).input_inventory@, ItemType::CoalOre) <= FUEL_CAPACITY,
        ensures
            final(self).position == old(self).position,
            final(self).rotation == old(self).rotation,
            final(self).recipe == old(self).recipe,
            final(self).output_structure == old(self).output_structure,
            inventory_type == InventoryType::Burner ==> (final(self).input_inventory@, ret as int) == fuel_moved(
                old(self).input_inventory@,
                FUEL_CAPACITY as int,
                *item_type,
                amount as int,
            ),
            inventory_type != InventoryType::Burner ==> ret == 0 && final(self).input_inventory@ == old(self).input_inventory@,
            0 < amount ==> 0 <= ret <= amount,
            amount <= 0 ==> amount <= ret <= 0,
            ret == count_of(final(self).input_inventory@, *item_type) - count_of(old(self).input_inventory@, *item_type),
            forall|t: ItemType|
                t != *item_type ==> count_of(#[trigger] final(self).input_inventory@, t) == count_of(old(self).input_inventory@, t),
    {
        if inventory_type != InventoryType::Burner {
            return 0;
        }
        add_fuel(&mut self.input_inventory, FUEL_CAPACITY, item_type, amount)
    }

    /// The fuel store, which is the mine's burner inventory.
    pub fn inventory(&self, invtype: InventoryType) -> (ret: Option<&Inventory>)
        ensures
            invtype == InventoryType::Burner ==> ret == Some(&self.input_inventory),
            invtype != InventoryType::Burner ==> ret is None,
    {
        match invtype {
            InventoryType::Burner => Some(&self.input_inventory),
            _ => None,
        }
    }

    /// Empties the fuel store and drops the recipe, returning the fuel and,
    /// when the run had made progress, the recipe's ingredients.
    pub fn destroy_inventory(&mut self) -> (ret: Inventory)
        requires
            forall|t: ItemType| count_of(old(self).input_inventory@, t) + match old(self).recipe {
                Some(r) => if old(self).in_progress { count_of(r.input@, t) } else { 0 },
                None => 0,
            } <= usize::MAX,
        ensures
            final(self).position == old(self).position,
            final(self).rotation == old(self).rotation,
            final(self).input_inventory@ == Map::<ItemType, usize>::empty(),
            final(self).recipe is None,
            final(self).in_progress == old(self).in_progress,
            ret@ == match old(self).recipe {
                Some(r) => if old(self).in_progress { merged(old(self).input_inventory@, r.input@) } else { old(self).input_inventory@ },
                None => old(self).input_inventory@,
            },
    {
        let mut ret = self.input_inventory.take_all();
        let recipe = self.recipe.take();
        if let Some(mut r) = recipe {
            if self.in_progress {
                let ingredients = r.input.take_all();
                ret.merge(ingredients);
            }
        }
        ret
    }

    /// Burns one piece of coal, if there is any; says whether it did.
    pub fn burn_fuel(&mut self) -> (ret: bool)
        ensures
            ret == (count_of(old(self).input_inventory@, ItemType::CoalOre) > 0),
            final(self).position == old(self).position,
            final(self).rotation == old(self).rotation,
            final(self).recipe == old(self).recipe,
            final(self).output_structure == old(self).output_structure,
    {
        if self.input_inventory.count_item(&ItemType::CoalOre) > 0 {
            self.input_inventory.remove_item(&ItemType::CoalOre);
            true
        } else {
            false
        }
    }
}

/// The recipe of a mine digging ore that gives `item`: nothing in, one item
/// out.
pub fn mining_recipe(item: ItemType) -> (ret: Recipe)
    ensures
        ret.input@ == Map::<ItemType, usize>::empty(),
        ret.output@ == map![item => 1usize],
        ret.power_cost == 8,
        ret.recipe_time == 80,
{
    Recipe::new(Inventory::new(), crate::recipe::item_set_1(item, 1), 8, 80)
}

/// Whether one unit of ore giving `item` can be mined from `cell`.
pub open spec fn minable(cell: Cell, item: ItemType) -> bool {
    match cell.ore {
        Some(OreValue(ore, val)) => ore_item(ore) == item && val > 0,
        None => false,
    }
}

/// A tile after one unit of its ore was mined: a deposit that runs out
/// goes away.
pub open spec fn mined(cell: Cell) -> Cell {
    match cell.ore {
        Some(OreValue(ore, val)) => Cell {
            ore: if val == 1 { None } else { Some(OreValue(ore, (val - 1) as u32)) },
            ..cell
        },
        None => cell,
    }
}

/// The amount of ore left on a tile.
pub open spec fn ore_left(cell: Cell) -> int {
    match cell.ore {
        Some(OreValue(_, val)) => val as int,
        None => 0,
    }
}

/// The position of the first of `cells` that ore giving `item` can be
/// mined from, if any.
pub open spec fn first_minable(cells: Seq<Cell>, item: ItemType) -> Option<int> {
    if exists|i: int| 0 <= i < cells.len() && minable(#[trigger] cells[i], item) {
        Some(choose|i: int| 0 <= i < cells.len() && minable(#[trigger] cells[i], item)
            && forall|j: int| 0 <= j < i ==> !minable(#[trigger] cells[j], item))
    } else {
        None
    }
}

proof fn lemma_least_minable(cells: Seq<Cell>, item: ItemType, w: int)
    requires
        0 <= w < cells.len(),
        minable(cells[w], item),
    ensures
        exists|i: int| 0 <= i < cells.len() && minable(#[trigger] cells[i], item)
            && forall|j: int| 0 <= j < i ==> !minable(#[trigger] cells[j], item),
    decreases w,
{
    if exists|j: int| 0 <= j < w && minable(#[trigger] cells[j], item) {
        let j = choose|j: int| 0 <= j < w && minable(#[trigger] cells[j], item);
        lemma_least_minable(cells, item, j);
    } else {
        assert(forall|j: int| 0 <= j < w ==> !minable(#[trigger] cells[j], item));
    }
}

pub proof fn lemma_first_minable(cells: Seq<Cell>, item: ItemType)
    ensures
        match first_minable(cells, item) {
            Some(k) => 0 <= k < cells.len() && minable(cells[k], item)
                && forall|j: int| 0 <= j < k ==> !minable(#[trigger] cells[j], item),
            None => forall|j: int| 0 <= j < cells.len() ==> !minable(#[trigger] cells[j], item),
        },
{
    if exists|i: int| 0 <= i < cells.len() && minable(#[trigger] cells[i], item) {
        let w = choose|i: int| 0 <= i < cells.len() && minable(#[trigger] cells[i], item);
        lemma_least_minable(cells, item, w);
    }
}

/// Mines one unit of ore giving `item` from the first of `cells` (the tiles
/// under a mine) that has any, and returns the amount left there.
pub fn remove_ore_from_tiles(cells: &mut Vec<Cell>, item: &ItemType) -> (ret: Option<u32>)
    ensures
        match first_minable(old(cells)@, *item) {
            Some(k) => ret == Some((ore_left(old(cells)@[k]) - 1) as u32)
                && final(cells)@ == old(cells)@.update(k, mined(old(cells)@[k])),
            None => ret is None && final(cells)@ == old(cells)@,
        },
{
    let ghost c0 = cells@;
    let mut i: usize = 0;
    while i < cells.len()
        invariant
            cells@ == c0,
            c0 == old(cells)@,
            i <= cells.len(),
            forall|j: int| 0 <= j < i ==> !minable(#[trigger] c0[j], *item),
        decreases cells.len() - i,
    {
        let mut cell = cells[i];
        let r = remove_ore_from_tile(&mut cell, item);
        if let Some(left) = r {
            proof {
                let k = i as int;
                assert(minable(c0[k], *item));
                let c = choose|c: int| 0 <= c < c0.len() && minable(#[trigger] c0[c], *item)
                    && forall|j: int| 0 <= j < c ==> !minable(#[trigger] c0[j], *item);
                if c < k {
                    assert(!minable(c0[c], *item));
                } else if c > k {
                    assert(!minable(c0[k], *item));
                }
                assert(c == k);
                assert(first_minable(c0, *item) == Some(k));
                assert(cell == mined(c0[k]));
            }
            cells.set(i, cell);
            return Some(left);
        }
        i += 1;
    }
    None
}

/// Where a mine that has dug out a unit sends it.
#[derive(Clone, Copy, PartialEq, Eq, Structural, Debug)]
pub enum MineOutput {
    /// Into the structure in front, which takes it.
    Feed,
    /// Nowhere: the structure in front takes nothing like it and is no belt.
    Stall,
    /// Onto the free dry ground (or belt) in front.
    Drop,
    /// Nowhere: the ground in front is taken or under water.
    Blocked,
}

/// Decides where a unit goes: `target` tells, when a structure stands in
/// front, whether it takes the unit and whether it is a belt; `ground_free`
/// whether the tile in front is dry and holds no item.
pub fn output_plan(target: Option<(bool, bool)>, ground_free: bool) -> (ret: MineOutput)
    ensures
        ret == match target {
            Some((takes, movable)) => if takes {
                MineOutput::Feed
            } else if !movable {
                MineOutput::Stall
            } else if ground_free {
                MineOutput::Drop
            } else {
                MineOutput::Blocked
            },
            None => if ground_free { MineOutput::Drop } else { MineOutput::Blocked },
        },
{
    if let Some((takes, movable)) = target {
        if takes {
            return MineOutput::Feed;
        }
        if !movable {
            return MineOutput::Stall;
        }
    }
    if ground_free {
        MineOutput::Drop
    } else {
        MineOutput::Blocked
    }
}

impl OreMine {
    /// Chooses what to mine when nothing is chosen yet: the ore of the last
    /// of the tiles under the mine (`ores`, in order) that has any.
    pub fn pick_recipe(&mut self, ores: &Vec<Option<ItemType>>)
        ensures
            final(self).position == old(self).position,
            final(self).rotation == old(self).rotation,
            final(self).input_inventory == old(self).input_inventory,
            final(self).output_structure == old(self).output_structure,
            final(self).in_progress == old(self).in_progress,
            old(self).recipe is Some ==> final(self).recipe == old(self).recipe,
            old(self).recipe is None ==> (match last_ore(ores@) {
                Some(item) => final(self).recipe matches Some(r) && r.input@ == Map::<ItemType, usize>::empty()
                    && r.output@ == map![item => 1usize] && r.power_cost == 8 && r.recipe_time == 80,
                None => final(self).recipe is None,
            }),
    {
        if self.recipe.is_some() {
            return;
        }
        let mut i: usize = 0;
        while i < ores.len()
            invariant
                i <= ores.len(),
                match last_ore(ores@.take(i as int)) {
                    Some(item) => self.recipe matches Some(r) && r.input@ == Map::<ItemType, usize>::empty()
                        && r.output@ == map![item => 1usize] && r.power_cost == 8 && r.recipe_time == 80,
                    None => self.recipe is None,
                },
                self.position == old(self).position,
                self.rotation == old(self).rotation,
                self.input_inventory == old(self).input_inventory,
                self.output_structure == old(self).output_structure,
                self.in_progress == old(self).in_progress,
            decreases ores.len() - i,
        {
            proof {
                assert(ores@.take(i + 1).drop_last() =~= ores@.take(i as int));
            }
            if let Some(item) = ores[i] {
                self.recipe = Some(mining_recipe(item));
            }
            i += 1;
        }
        assert(ores@.take(ores.len() as int) =~= ores@);
    }

    /// Records a unit dug out for the structure in front: takes it from the
    /// first tile that has ore giving `item`, and stops mining once that
    /// tile runs out. When no tile has any the mine stops mining and
    /// reports the failure.
    pub fn dig_for_structure(&mut self, cells: &mut Vec<Cell>, item: &ItemType) -> (ret: Result<(), ()>)
        ensures
            final(self).position == old(self).position,
            final(self).rotation == old(self).rotation,
            final(self).input_inventory == old(self).input_inventory,
            final(self).output_structure == old(self).output_structure,
            final(self).in_progress == old(self).in_progress,
            match first_minable(old(cells)@, *item) {
                Some(k) => ret is Ok && final(cells)@ == old(cells)@.update(k, mined(old(cells)@[k]))
                    && final(self).recipe == if ore_left(old(cells)@[k]) == 1 { None } else { old(self).recipe },
                None => ret is Err && final(cells)@ == old(cells)@ && final(self).recipe is None,
            },
    {
        proof {
            lemma_first_minable(old(cells)@, *item);
        }
        match remove_ore_from_tiles(cells, item) {
            Some(left) => {
                if left == 0 {
                    self.recipe = None;
                }
                Ok(())
            },
            None => {
                self.recipe = None;
                Err(())
            },
        }
    }

    /// Records a unit dropped in front: takes it from the first tile that
    /// has ore giving `item`, and stops mining once that tile runs out.
    pub fn dig_for_ground(&mut self, cells: &mut Vec<Cell>, item: &ItemType)
        ensures
            final(self).position == old(self).position,
            final(self).rotation == old(self).rotation,
            final(self).input_inventory == old(self).input_inventory,
            final(self).output_structure == old(self).output_structure,
            final(self).in_progress == old(self).in_progress,
            match first_minable(old(cells)@, *item) {
                Some(k) => final(cells)@ == old(cells)@.update(k, mined(old(cells)@[k]))
                    && final(self).recipe == if ore_left(old(cells)@[k]) == 1 { None } else { old(self).recipe },
                None => final(cells)@ == old(cells)@ && final(self).recipe == old(self).recipe,
            },
    {
        proof {
            lemma_first_minable(old(cells)@, *item);
        }
        if let Some(left) = remove_ore_from_tiles(cells, item) {
            if left == 0 {
                self.recipe = None;
            }
        }
    }
}

/// The ore of the last entry of `ores` that has any.
pub open spec fn last_ore(ores: Seq<Option<ItemType>>) -> Option<ItemType>
    decreases ores.len(),
{
    if ores.len() == 0 {
        None
    } else {
        match ores.last() {
            Some(item) => Some(item),
            None => last_ore(ores.drop_last()),
        }
    }
}

} // verus!
