//! The player: the inventory carried around, the item picked in it, and the
//! building tool in hand.
use crate::inventory::{added, count_of, Inventory};
use crate::items::ItemType;
use crate::structure::{angle_4_spec, Rotation};
use vstd::prelude::*;

verus! {

/// The number of building tools.
pub const NUM_TOOLS: usize = 10;

/// The item that building tool `index` places: belts, inserters, mines,
/// chests, furnaces, assemblers, boilers, water wells, pipes and steam
/// engines, in this order.
pub open spec fn tool_item_spec(index: int) -> ItemType {
    if index == 0 {
        ItemType::TransportBelt
    } else if index == 1 {
        ItemType::Inserter
    } else if index == 2 {
        ItemType::OreMine
    } else if index == 3 {
        ItemType::Chest
    } else if index == 4 {
        ItemType::Furnace
    } else if index == 5 {
        ItemType::Assembler
    } else if index == 6 {
        ItemType::Boiler
    } else if index == 7 {
        ItemType::WaterWell
    } else if index == 8 {
        ItemType::Pipe
    } else {
        ItemType::SteamEngine
    }
}

/// The item that building tool `index` places.
pub fn tool_item(index: usize) -> (ret: ItemType)
    requires
        index < NUM_TOOLS,
    ensures
        ret == tool_item_spec(index as int),
{
    match index {
        0 => ItemType::TransportBelt,
        1 => ItemType::Inserter,
        2 => ItemType::OreMine,
        3 => ItemType::Chest,
        4 => ItemType::Furnace,
        5 => ItemType::Assembler,
        6 => ItemType::Boiler,
        7 => ItemType::WaterWell,
        8 => ItemType::Pipe,
        _ => ItemType::SteamEngine,
    }
}

/// The player's inventory and the item picked in it.
pub struct Player {
    pub inventory: Inventory,
    pub selected_item: Option<ItemType>,
}

/// What a new player carries: ten belts, five inserters, five mines, three
/// chests, furnaces, assemblers and boilers, one water well, fifteen pipes
/// and two steam engines.
pub open spec fn starting_items() -> Map<ItemType, usize> {
    map![
        ItemType::TransportBelt => 10usize,
        ItemType::Inserter => 5usize,
        ItemType::OreMine => 5usize,
        ItemType::Chest => 3usize,
        ItemType::Furnace => 3usize,
        ItemType::Assembler => 3usize,
        ItemType::Boiler => 3usize,
        ItemType::WaterWell => 1usize,
        ItemType::Pipe => 15usize,
        ItemType::SteamEngine => 2usize,
    ]
}

impl Player {
    /// A new player with the starting items and nothing picked.
    pub fn new() -> (ret: Self)
        ensures
            ret.inventory@ == starting_items(),
            ret.selected_item is None,
    {
        let mut inventory = Inventory::new();
        inventory.insert(&ItemType::TransportBelt, 10);
        inventory.insert(&ItemType::Inserter, 5);
        inventory.insert(&ItemType::OreMine, 5);
        inventory.insert(&ItemType::Chest, 3);
        inventory.insert(&ItemType::Furnace, 3);
        inventory.insert(&ItemType::Assembler, 3);
        inventory.insert(&ItemType::Boiler, 3);
        inventory.insert(&ItemType::WaterWell, 1);
        inventory.insert(&ItemType::Pipe, 15);
        inventory.insert(&ItemType::SteamEngine, 2);
        assert(inventory@ =~= starting_items());
        Player { inventory, selected_item: None }
    }

    /// Puts `count` items of kind `item` into the player's inventory.
    pub fn add_item(&mut self, item: &ItemType, count: usize)
        requires
            count_of(old(self).inventory@, *item) + count <= usize::MAX,
        ensures
            final(self).inventory@ == added(old(self).inventory@, *item, count as nat),
            final(self).selected_item == old(self).selected_item,
    {
        self.inventory.add_items(item, count);
    }

    /// Picks `item` in the inventory if the inventory has an entry for it;
    /// otherwise clears the pick and fails.
    pub fn select_item(&mut self, item: &ItemType) -> (ret: Result<(), ()>)
        ensures
            final(self).inventory == old(self).inventory,
            old(self).inventory@.contains_key(*item) ==> ret is Ok && final(self).selected_item == Some(*item),
            !old(self).inventory@.contains_key(*item) ==> ret is Err && final(self).selected_item is None,
    {
        if self.inventory.contains_key(item) {
            self.selected_item = Some(*item);
            Ok(())
        } else {
            self.selected_item = None;
            Err(())
        }
    }
}

/// Moves the whole entry of `item` from `src` to `dst`; says whether `src`
/// had one.
pub fn move_inventory_item(src: &mut Inventory, dst: &mut Inventory, item: &ItemType) -> (ret: bool)
    requires
        count_of(old(dst)@, *item) + count_of(old(src)@, *item) <= usize::MAX,
    ensures
        ret == old(src)@.contains_key(*item),
        final(src)@ == old(src)@.remove(*item),
        ret ==> final(dst)@ == added(old(dst)@, *item, count_of(old(src)@, *item) as nat),
        !ret ==> final(dst)@ == old(dst)@,
{
    match src.remove(item) {
        Some(count) => {
            dst.add_items(item, count);
            true
        },
        None => false,
    }
}

/// The building tool in hand and the direction new structures will face.
pub struct ToolState {
    pub selected_tool: Option<usize>,
    pub tool_rotation: Rotation,
}

impl ToolState {
    /// No tool in hand, facing left.
    pub fn new() -> (ret: Self)
        ensures
            ret.selected_tool is None,
            ret.tool_rotation == Rotation::Left,
    {
        ToolState { selected_tool: None, tool_rotation: Rotation::Left }
    }

    /// Takes tool `tool` in hand, or puts it away when it is already in
    /// hand or `tool` is negative; says whether a tool is in hand now.
    pub fn select_tool(&mut self, tool: i32) -> (ret: bool)
        ensures
            final(self).tool_rotation == old(self).tool_rotation,
            final(self).selected_tool == if 0 <= tool && old(self).selected_tool != Some(tool as usize) {
                Some(tool as usize)
            } else {
                None
            },
            ret == final(self).selected_tool is Some,
    {
        let already = match self.selected_tool {
            Some(t) => t as i128 == tool as i128,
            None => false,
        };
        self.selected_tool = if 0 <= tool && !already {
            Some(tool as usize)
        } else {
            None
        };
        self.selected_tool.is_some()
    }

    /// The angle, in quarter turns, of the direction new structures face.
    /// The direction itself is left as it was: the next direction is
    /// computed and dropped.
    pub fn rotate_tool(&mut self) -> (ret: i32)
        ensures
            final(self).tool_rotation == old(self).tool_rotation,
            final(self).selected_tool == old(self).selected_tool,
            ret == angle_4_spec(old(self).tool_rotation),
    {
        let _ = self.tool_rotation.next();
        self.tool_rotation.angle_4()
    }

    /// The tool in hand and how many items for it the player carries.
    pub fn selected_tool(&self, inventory: &Inventory) -> (ret: Option<(usize, usize)>)
        requires
            self.selected_tool matches Some(t) ==> t < NUM_TOOLS,
        ensures
            match self.selected_tool {
                Some(t) => ret matches Some((u, n)) && u == t && n == count_of(inventory@, tool_item_spec(t as int)),
                None => ret is None,
            },
    {
        match self.selected_tool {
            Some(t) => Some((t, inventory.count_item(&tool_item(t)))),
            None => None,
        }
    }
}

/// How many items for each building tool the player carries, in tool
/// order.
pub fn tool_inventory(inventory: &Inventory) -> (ret: Vec<usize>)
    ensures
        ret.len() == NUM_TOOLS,
        forall|i: int| 0 <= i < NUM_TOOLS ==> ret@[i] == count_of(inventory@, tool_item_spec(i)),
{
    let mut ret: Vec<usize> = Vec::new();
    let mut i: usize = 0;
    while i < NUM_TOOLS
        invariant
            i <= NUM_TOOLS,
            ret.len() == i,
            forall|j: int| 0 <= j < i ==> ret@[j] == count_of(inventory@, tool_item_spec(j)),
        decreases NUM_TOOLS - i,
    {
        ret.push(inventory.count_item(&tool_item(i)));
        i += 1;
    }
    ret
}

} // verus!
