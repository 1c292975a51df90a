//! The kinds of item in the game and their display names.
use vstd::prelude::*;

verus! {

/// A kind of item: raw materials, intermediate products and placeable
/// structures.
#[derive(Copy, Clone, PartialEq, Eq, Structural, Debug, Hash, PartialOrd, Ord)]
pub enum ItemType {
    IronOre,
    CoalOre,
    CopperOre,
    IronPlate,
    StoneOre,
    CopperPlate,
    Gear,
    CopperWire,
    Circuit,
    SteelPlate,
    SciencePack1,
    SciencePack2,

    TransportBelt,
    Chest,
    Inserter,
    OreMine,
    Furnace,
    ElectricFurnace,
    Assembler,
    Lab,
    Boiler,
    WaterWell,
    OffshorePump,
    Pipe,
    UndergroundPipe,
    SteamEngine,
    ElectPole,
    Splitter,
    UndergroundBelt,
}

/// The display name of an item kind.
pub open spec fn item_name(t: ItemType) -> Seq<char> {
    match t {
        ItemType::IronOre => "Iron Ore"@,
        ItemType::CoalOre => "Coal Ore"@,
        ItemType::CopperOre => "Copper Ore"@,
        ItemType::IronPlate => "Iron Plate"@,
        ItemType::StoneOre => "Stone Ore"@,
        ItemType::CopperPlate => "Copper Plate"@,
        ItemType::Gear => "Gear"@,
        ItemType::CopperWire => "Copper Wire"@,
        ItemType::Circuit => "Circuit"@,
        ItemType::SteelPlate => "Steel Plate"@,
        ItemType::SciencePack1 => "Science Pack 1"@,
        ItemType::SciencePack2 => "Science Pack 2"@,
        ItemType::TransportBelt => "Transport Belt"@,
        ItemType::Chest => "Chest"@,
        ItemType::Inserter => "Inserter"@,
        ItemType::OreMine => "Ore Mine"@,
        ItemType::Furnace => "Furnace"@,
        ItemType::ElectricFurnace => "Electric Furnace"@,
        ItemType::Assembler => "Assembler"@,
        ItemType::Lab => "Lab"@,
        ItemType::Boiler => "Boiler"@,
        ItemType::WaterWell => "Water Well"@,
        ItemType::OffshorePump => "Offshore Pump"@,
        ItemType::Pipe => "Pipe"@,
        ItemType::UndergroundPipe => "Underground Pipe"@,
        ItemType::SteamEngine => "Steam Engine"@,
        ItemType::ElectPole => "Electric Pole"@,
        ItemType::Splitter => "Splitter"@,
        ItemType::UndergroundBelt => "Underground Belt"@,
    }
}

/// The display name of an item kind, as a string slice.
pub fn item_name_str(type_: &ItemType) -> (ret: &'static str)
    ensures
        ret@ == item_name(*type_),
{
    match type_ {
        ItemType::IronOre => "Iron Ore",
        ItemType::CoalOre => "Coal Ore",
        ItemType::CopperOre => "Copper Ore",
        ItemType::IronPlate => "Iron Plate",
        ItemType::StoneOre => "Stone Ore",
        ItemType::CopperPlate => "Copper Plate",
        ItemType::Gear => "Gear",
        ItemType::CopperWire => "Copper Wire",
        ItemType::Circuit => "Circuit",
        ItemType::SteelPlate => "Steel Plate",
        ItemType::SciencePack1 => "Science Pack 1",
        ItemType::SciencePack2 => "Science Pack 2",
        ItemType::TransportBelt => "Transport Belt",
        ItemType::Chest => "Chest",
        ItemType::Inserter => "Inserter",
        ItemType::OreMine => "Ore Mine",
        ItemType::Furnace => "Furnace",
        ItemType::ElectricFurnace => "Electric Furnace",
        ItemType::Assembler => "Assembler",
        ItemType::Lab => "Lab",
        ItemType::Boiler => "Boiler",
        ItemType::WaterWell => "Water Well",
        ItemType::OffshorePump => "Offshore Pump",
        ItemType::Pipe => "Pipe",
        ItemType::UndergroundPipe => "Underground Pipe",
        ItemType::SteamEngine => "Steam Engine",
        ItemType::ElectPole => "Electric Pole",
        ItemType::Splitter => "Splitter",
        ItemType::UndergroundBelt => "Underground Belt",
    }
}

/// The display name of an item kind.
pub fn item_to_str(type_: &ItemType) -> (ret: String)
    ensures
        ret@ == item_name(*type_),
{
    item_name_str(type_).to_owned()
}

/// Whether two string slices hold the same characters.
pub fn str_equals(a: &str, b: &str) -> (ret: bool)
    ensures
        ret == (a@ == b@),
{
    let n = a.unicode_len();
    if n != b.unicode_len() {
        return false;
    }
    let mut i: usize = 0;
    while i < n
        invariant
            n == a@.len(),
            n == b@.len(),
            i <= n,
            forall|j: int| 0 <= j < i ==> a@[j] == b@[j],
        decreases n - i,
    {
        if a.get_char(i) != b.get_char(i) {
            return false;
        }
        i = i + 1;
    }
    assert(a@ =~= b@);
    true
}

/// The item kind whose display name is `name`, if there is one. Names are
/// distinct, so the kind found is the only one with that name.
pub fn str_to_item(name: &str) -> (ret: Option<ItemType>)
    ensures
        match ret {
            Some(t) => item_name(t) == name@ && forall|u: ItemType| #[trigger] item_name(u) == name@ ==> u == t,
            None => forall|t: ItemType| item_name(t) != name@,
        },
{
    let found = find_item_named(name);
    proof {
        if let Some(t) = found {
            assert forall|u: ItemType| #[trigger] item_name(u) == name@ implies u == t by {
                if u != t {
                    lemma_item_names_distinct(u, t);
                }
            }
        }
    }
    found
}

/// Compares `name` with each display name in turn.
fn find_item_named(name: &str) -> (ret: Option<ItemType>)
    ensures
        match ret {
            Some(t) => item_name(t) == name@,
            None => forall|t: ItemType| item_name(t) != name@,
        },
{
    if str_equals(name, "Iron Ore") {
        return Some(ItemType::IronOre);
    }
    if str_equals(name, "Coal Ore") {
        return Some(ItemType::CoalOre);
    }
    if str_equals(name, "Copper Ore") {
        return Some(ItemType::CopperOre);
    }
    if str_equals(name, "Iron Plate") {
        return Some(ItemType::IronPlate);
    }
    if str_equals(name, "Stone Ore") {
        return Some(ItemType::StoneOre);
    }
    if str_equals(name, "Copper Plate") {
        return Some(ItemType::CopperPlate);
    }
    if str_equals(name, "Gear") {
        return Some(ItemType::Gear);
    }
    if str_equals(name, "Copper Wire") {
        return Some(ItemType::CopperWire);
    }
    if str_equals(name, "Circuit") {
        return Some(ItemType::Circuit);
    }
    if str_equals(name, "Steel Plate") {
        return Some(ItemType::SteelPlate);
    }
    if str_equals(name, "Science Pack 1") {
        return Some(ItemType::SciencePack1);
    }
    if str_equals(name, "Science Pack 2") {
        return Some(ItemType::SciencePack2);
    }
    if str_equals(name, "Transport Belt") {
        return Some(ItemType::TransportBelt);
    }
    if str_equals(name, "Chest") {
        return Some(ItemType::Chest);
    }
    if str_equals(name, "Inserter") {
        return Some(ItemType::Inserter);
    }
    if str_equals(name, "Ore Mine") {
        return Some(ItemType::OreMine);
    }
    if str_equals(name, "Furnace") {
        return Some(ItemType::Furnace);
    }
    if str_equals(name, "Electric Furnace") {
        return Some(ItemType::ElectricFurnace);
    }
    if str_equals(name, "Assembler") {
        return Some(ItemType::Assembler);
    }
    if str_equals(name, "Lab") {
        return Some(ItemType::Lab);
    }
    if str_equals(name, "Boiler") {
        return Some(ItemType::Boiler);
    }
    if str_equals(name, "Water Well") {
        return Some(ItemType::WaterWell);
    }
    if str_equals(name, "Offshore Pump") {
        return Some(ItemType::OffshorePump);
    }
    if str_equals(name, "Pipe") {
        return Some(ItemType::Pipe);
    }
    if str_equals(name, "Underground Pipe") {
        return Some(ItemType::UndergroundPipe);
    }
    if str_equals(name, "Steam Engine") {
        return Some(ItemType::SteamEngine);
    }
    if str_equals(name, "Electric Pole") {
        return Some(ItemType::ElectPole);
    }
    if str_equals(name, "Splitter") {
        return Some(ItemType::Splitter);
    }
    if str_equals(name, "Underground Belt") {
        return Some(ItemType::UndergroundBelt);
    }
    None
}

/// No two item kinds share a display name, so a name designates at most
/// one item kind.
pub proof fn lemma_item_names_distinct(a: ItemType, b: ItemType)
    requires
        a != b,
    ensures
        item_name(a) != item_name(b),
{
    reveal_strlit("Iron Ore");
    reveal_strlit("Coal Ore");
    reveal_strlit("Copper Ore");
    reveal_strlit("Iron Plate");
    reveal_strlit("Stone Ore");
    reveal_strlit("Copper Plate");
    reveal_strlit("Gear");
    reveal_strlit("Copper Wire");
    reveal_strlit("Circuit");
    reveal_strlit("Steel Plate");
    reveal_strlit("Science Pack 1");
    reveal_strlit("Science Pack 2");
    reveal_strlit("Transport Belt");
    reveal_strlit("Chest");
    reveal_strlit("Inserter");
    reveal_strlit("Ore Mine");
    reveal_strlit("Furnace");
    reveal_strlit("Electric Furnace");
    reveal_strlit("Assembler");
    reveal_strlit("Lab");
    reveal_strlit("Boiler");
    reveal_strlit("Water Well");
    reveal_strlit("Offshore Pump");
    reveal_strlit("Pipe");
    reveal_strlit("Underground Pipe");
    reveal_strlit("Steam Engine");
    reveal_strlit("Electric Pole");
    reveal_strlit("Splitter");
    reveal_strlit("Underground Belt");
    let (x, y) = (item_name(a), item_name(b));
    assert(x.len() != y.len() || x[0] != y[0] || x[1] != y[1] || (x.len() > 13 && x[13] != y[13]));
}

/// Reading back the display name of an item kind gives the same kind.
pub proof fn lemma_name_round_trip(t: ItemType, found: Option<ItemType>)
    requires
        match found {
            Some(u) => item_name(u) == item_name(t),
            None => forall|u: ItemType| item_name(u) != item_name(t),
        },
    ensures
        found == Some(t),
{
    match found {
        Some(u) => {
            if u != t {
                lemma_item_names_distinct(u, t);
                assert(false);
            }
        },
        None => {
            let u = t;
            assert(item_name(u) != item_name(t));
        },
    }
}


/// The number of item kinds.
pub const NUM_ITEM_TYPES: usize = 29;

/// The position of an item kind in declaration order.
pub open spec fn item_index_spec(t: ItemType) -> int {
    match t {
        ItemType::IronOre => 0,
        ItemType::CoalOre => 1,
        ItemType::CopperOre => 2,
        ItemType::IronPlate => 3,
        ItemType::StoneOre => 4,
        ItemType::CopperPlate => 5,
        ItemType::Gear => 6,
        ItemType::CopperWire => 7,
        ItemType::Circuit => 8,
        ItemType::SteelPlate => 9,
        ItemType::SciencePack1 => 10,
        ItemType::SciencePack2 => 11,
        ItemType::TransportBelt => 12,
        ItemType::Chest => 13,
        ItemType::Inserter => 14,
        ItemType::OreMine => 15,
        ItemType::Furnace => 16,
        ItemType::ElectricFurnace => 17,
        ItemType::Assembler => 18,
        ItemType::Lab => 19,
        ItemType::Boiler => 20,
        ItemType::WaterWell => 21,
        ItemType::OffshorePump => 22,
        ItemType::Pipe => 23,
        ItemType::UndergroundPipe => 24,
        ItemType::SteamEngine => 25,
        ItemType::ElectPole => 26,
        ItemType::Splitter => 27,
        ItemType::UndergroundBelt => 28,
    }
}

/// The item kind at position `i` in declaration order.
pub open spec fn item_at_spec(i: int) -> ItemType {
    if i == 0 {
        ItemType::IronOre
    } else if i == 1 {
        ItemType::CoalOre
    } else if i == 2 {
        ItemType::CopperOre
    } else if i == 3 {
        ItemType::IronPlate
    } else if i == 4 {
        ItemType::StoneOre
    } else if i == 5 {
        ItemType::CopperPlate
    } else if i == 6 {
        ItemType::Gear
    } else if i == 7 {
        ItemType::CopperWire
    } else if i == 8 {
        ItemType::Circuit
    } else if i == 9 {
        ItemType::SteelPlate
    } else if i == 10 {
        ItemType::SciencePack1
    } else if i == 11 {
        ItemType::SciencePack2
    } else if i == 12 {
        ItemType::TransportBelt
    } else if i == 13 {
        ItemType::Chest
    } else if i == 14 {
        ItemType::Inserter
    } else if i == 15 {
        ItemType::OreMine
    } else if i == 16 {
        ItemType::Furnace
    } else if i == 17 {
        ItemType::ElectricFurnace
    } else if i == 18 {
        ItemType::Assembler
    } else if i == 19 {
        ItemType::Lab
    } else if i == 20 {
        ItemType::Boiler
    } else if i == 21 {
        ItemType::WaterWell
    } else if i == 22 {
        ItemType::OffshorePump
    } else if i == 23 {
        ItemType::Pipe
    } else if i == 24 {
        ItemType::UndergroundPipe
    } else if i == 25 {
        ItemType::SteamEngine
    } else if i == 26 {
        ItemType::ElectPole
    } else if i == 27 {
        ItemType::Splitter
    } else {
        ItemType::UndergroundBelt
    }
}

/// The position of an item kind in declaration order.
pub fn item_index(t: &ItemType) -> (ret: usize)
    ensures
        ret == item_index_spec(*t),
        ret < NUM_ITEM_TYPES,
{
    match t {
        ItemType::IronOre => 0,
        ItemType::CoalOre => 1,
        ItemType::CopperOre => 2,
        ItemType::IronPlate => 3,
        ItemType::StoneOre => 4,
        ItemType::CopperPlate => 5,
        ItemType::Gear => 6,
        ItemType::CopperWire => 7,
        ItemType::Circuit => 8,
        ItemType::SteelPlate => 9,
        ItemType::SciencePack1 => 10,
        ItemType::SciencePack2 => 11,
        ItemType::TransportBelt => 12,
        ItemType::Chest => 13,
        ItemType::Inserter => 14,
        ItemType::OreMine => 15,
        ItemType::Furnace => 16,
        ItemType::ElectricFurnace => 17,
        ItemType::Assembler => 18,
        ItemType::Lab => 19,
        ItemType::Boiler => 20,
        ItemType::WaterWell => 21,
        ItemType::OffshorePump => 22,
        ItemType::Pipe => 23,
        ItemType::UndergroundPipe => 24,
        ItemType::SteamEngine => 25,
        ItemType::ElectPole => 26,
        ItemType::Splitter => 27,
        ItemType::UndergroundBelt => 28,
    }
}

/// The item kind at position `i` in declaration order.
pub fn item_at(i: usize) -> (ret: ItemType)
    requires
        i < NUM_ITEM_TYPES,
    ensures
        ret == item_at_spec(i as int),
        item_index_spec(ret) == i,
{
    if i == 0 {
        ItemType::IronOre
    } else if i == 1 {
        ItemType::CoalOre
    } else if i == 2 {
        ItemType::CopperOre
    } else if i == 3 {
        ItemType::IronPlate
    } else if i == 4 {
        ItemType::StoneOre
    } else if i == 5 {
        ItemType::CopperPlate
    } else if i == 6 {
        ItemType::Gear
    } else if i == 7 {
        ItemType::CopperWire
    } else if i == 8 {
        ItemType::Circuit
    } else if i == 9 {
        ItemType::SteelPlate
    } else if i == 10 {
        ItemType::SciencePack1
    } else if i == 11 {
        ItemType::SciencePack2
    } else if i == 12 {
        ItemType::TransportBelt
    } else if i == 13 {
        ItemType::Chest
    } else if i == 14 {
        ItemType::Inserter
    } else if i == 15 {
        ItemType::OreMine
    } else if i == 16 {
        ItemType::Furnace
    } else if i == 17 {
        ItemType::ElectricFurnace
    } else if i == 18 {
        ItemType::Assembler
    } else if i == 19 {
        ItemType::Lab
    } else if i == 20 {
        ItemType::Boiler
    } else if i == 21 {
        ItemType::WaterWell
    } else if i == 22 {
        ItemType::OffshorePump
    } else if i == 23 {
        ItemType::Pipe
    } else if i == 24 {
        ItemType::UndergroundPipe
    } else if i == 25 {
        ItemType::SteamEngine
    } else if i == 26 {
        ItemType::ElectPole
    } else if i == 27 {
        ItemType::Splitter
    } else {
        ItemType::UndergroundBelt
    }
}

/// Positions and item kinds correspond one to one.
pub proof fn lemma_item_index_bijective(t: ItemType)
    ensures
        0 <= item_index_spec(t) < NUM_ITEM_TYPES,
        item_at_spec(item_index_spec(t)) == t,
{
}

/// Positions and item kinds correspond one to one.
pub proof fn lemma_item_at_bijective(i: int)
    requires
        0 <= i < NUM_ITEM_TYPES,
    ensures
        item_index_spec(item_at_spec(i)) == i,
{
}


/// The name of an item kind as the program spells it (its variant name).
pub open spec fn item_debug_name(t: ItemType) -> Seq<char> {
    match t {
        ItemType::IronOre => "IronOre"@,
        ItemType::CoalOre => "CoalOre"@,
        ItemType::CopperOre => "CopperOre"@,
        ItemType::IronPlate => "IronPlate"@,
        ItemType::StoneOre => "StoneOre"@,
        ItemType::CopperPlate => "CopperPlate"@,
        ItemType::Gear => "Gear"@,
        ItemType::CopperWire => "CopperWire"@,
        ItemType::Circuit => "Circuit"@,
        ItemType::SteelPlate => "SteelPlate"@,
        ItemType::SciencePack1 => "SciencePack1"@,
        ItemType::SciencePack2 => "SciencePack2"@,
        ItemType::TransportBelt => "TransportBelt"@,
        ItemType::Chest => "Chest"@,
        ItemType::Inserter => "Inserter"@,
        ItemType::OreMine => "OreMine"@,
        ItemType::Furnace => "Furnace"@,
        ItemType::ElectricFurnace => "ElectricFurnace"@,
        ItemType::Assembler => "Assembler"@,
        ItemType::Lab => "Lab"@,
        ItemType::Boiler => "Boiler"@,
        ItemType::WaterWell => "WaterWell"@,
        ItemType::OffshorePump => "OffshorePump"@,
        ItemType::Pipe => "Pipe"@,
        ItemType::UndergroundPipe => "UndergroundPipe"@,
        ItemType::SteamEngine => "SteamEngine"@,
        ItemType::ElectPole => "ElectPole"@,
        ItemType::Splitter => "Splitter"@,
        ItemType::UndergroundBelt => "UndergroundBelt"@,
    }
}

/// The name of an item kind as the program spells it (its variant name).
pub fn item_debug_str(type_: &ItemType) -> (ret: &'static str)
    ensures
        ret@ == item_debug_name(*type_),
{
    match type_ {
        ItemType::IronOre => "IronOre",
        ItemType::CoalOre => "CoalOre",
        ItemType::CopperOre => "CopperOre",
        ItemType::IronPlate => "IronPlate",
        ItemType::StoneOre => "StoneOre",
        ItemType::CopperPlate => "CopperPlate",
        ItemType::Gear => "Gear",
        ItemType::CopperWire => "CopperWire",
        ItemType::Circuit => "Circuit",
        ItemType::SteelPlate => "SteelPlate",
        ItemType::SciencePack1 => "SciencePack1",
        ItemType::SciencePack2 => "SciencePack2",
        ItemType::TransportBelt => "TransportBelt",
        ItemType::Chest => "Chest",
        ItemType::Inserter => "Inserter",
        ItemType::OreMine => "OreMine",
        ItemType::Furnace => "Furnace",
        ItemType::ElectricFurnace => "ElectricFurnace",
        ItemType::Assembler => "Assembler",
        ItemType::Lab => "Lab",
        ItemType::Boiler => "Boiler",
        ItemType::WaterWell => "WaterWell",
        ItemType::OffshorePump => "OffshorePump",
        ItemType::Pipe => "Pipe",
        ItemType::UndergroundPipe => "UndergroundPipe",
        ItemType::SteamEngine => "SteamEngine",
        ItemType::ElectPole => "ElectPole",
        ItemType::Splitter => "Splitter",
        ItemType::UndergroundBelt => "UndergroundBelt",
    }
}

} // verus!
