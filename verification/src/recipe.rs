//! Recipes: what a machine consumes and produces, and the tables of the
//! furnaces and the assembler.
use crate::inventory::Inventory;
use crate::items::ItemType;
use crate::research::TechnologyTag;
use vstd::prelude::*;

verus! {

/// A recipe: the items consumed and produced per run, the energy a run
/// costs (kilojoules) and the time it takes (frames), and the technologies
/// that must be researched before it is available.
pub struct Recipe {
    pub input: Inventory,
    pub output: Inventory,
    pub power_cost: u32,
    pub recipe_time: u32,
    pub requires_technology: Vec<TechnologyTag>,
}

impl Clone for Recipe {
    fn clone(&self) -> (ret: Self)
        ensures
            ret.input@ == self.input@,
            ret.output@ == self.output@,
            ret.power_cost == self.power_cost,
            ret.recipe_time == self.recipe_time,
            ret.requires_technology@ == self.requires_technology@,
    {
        let mut techs: Vec<TechnologyTag> = Vec::new();
        let mut i: usize = 0;
        while i < self.requires_technology.len()
            invariant
                i <= self.requires_technology@.len(),
                techs@ == self.requires_technology@.subrange(0, i as int),
            decreases self.requires_technology@.len() - i,
        {
            techs.push(self.requires_technology[i]);
            i = i + 1;
            assert(techs@ =~= self.requires_technology@.subrange(0, i as int));
        }
        assert(techs@ =~= self.requires_technology@);
        Recipe {
            input: self.input.clone(),
            output: self.output.clone(),
            power_cost: self.power_cost,
            recipe_time: self.recipe_time,
            requires_technology: techs,
        }
    }
}

impl Recipe {
    /// A recipe that needs no technology.
    pub fn new(input: Inventory, output: Inventory, power_cost: u32, recipe_time: u32) -> (ret: Self)
        ensures
            ret.input@ == input@,
            ret.output@ == output@,
            ret.power_cost == power_cost,
            ret.recipe_time == recipe_time,
            ret.requires_technology@ == Seq::<TechnologyTag>::empty(),
    {
        Recipe { input, output, power_cost, recipe_time, requires_technology: Vec::new() }
    }

    /// A recipe that is available once `requires_technology` are researched.
    pub fn with_requires(
        input: Inventory,
        output: Inventory,
        power_cost: u32,
        recipe_time: u32,
        requires_technology: Vec<TechnologyTag>,
    ) -> (ret: Self)
        ensures
            ret.input@ == input@,
            ret.output@ == output@,
            ret.power_cost == power_cost,
            ret.recipe_time == recipe_time,
            ret.requires_technology@ == requires_technology@,
    {
        Recipe { input, output, power_cost, recipe_time, requires_technology }
    }
}

/// A set of one kind of item.
pub fn item_set_1(a: ItemType, na: usize) -> (ret: Inventory)
    ensures
        ret@ == map![a => na],
{
    let mut ret = Inventory::new();
    ret.insert(&a, na);
    assert(ret@ =~= map![a => na]);
    ret
}

/// A set of two kinds of item.
pub fn item_set_2(a: ItemType, na: usize, b: ItemType, nb: usize) -> (ret: Inventory)
    requires
        a != b,
    ensures
        ret@ == map![a => na, b => nb],
{
    let mut ret = Inventory::new();
    ret.insert(&a, na);
    ret.insert(&b, nb);
    assert(ret@ =~= map![a => na, b => nb]);
    ret
}

/// A set of three kinds of item.
pub fn item_set_3(a: ItemType, na: usize, b: ItemType, nb: usize, c: ItemType, nc: usize) -> (ret: Inventory)
    requires
        a != b,
        a != c,
        b != c,
    ensures
        ret@ == map![a => na, b => nb, c => nc],
{
    let mut ret = Inventory::new();
    ret.insert(&a, na);
    ret.insert(&b, nb);
    ret.insert(&c, nc);
    assert(ret@ =~= map![a => na, b => nb, c => nc]);
    ret
}

fn tech_1(t: TechnologyTag) -> (ret: Vec<TechnologyTag>)
    ensures
        ret@ == seq![t],
{
    let mut ret = Vec::new();
    ret.push(t);
    ret
}

/// The ingredients of the `k`-th smelting recipe.
pub open spec fn furnace_recipe_input(k: int) -> Map<ItemType, usize> {
    if k == 0 {
        map![ItemType::IronOre => 1usize]
    } else if k == 1 {
        map![ItemType::CopperOre => 1usize]
    } else {
        map![ItemType::IronPlate => 5usize]
    }
}

/// The products of the `k`-th smelting recipe.
pub open spec fn furnace_recipe_output(k: int) -> Map<ItemType, usize> {
    if k == 0 {
        map![ItemType::IronPlate => 1usize]
    } else if k == 1 {
        map![ItemType::CopperPlate => 1usize]
    } else {
        map![ItemType::SteelPlate => 1usize]
    }
}

/// The ingredients of the `k`-th assembler recipe.
pub open spec fn assembler_recipe_input(k: int) -> Map<ItemType, usize> {
    if k == 0 {
        map![ItemType::IronPlate => 2usize]
    } else if k == 1 {
        map![ItemType::IronPlate => 1usize, ItemType::Gear => 1usize]
    } else if k == 2 {
        map![ItemType::TransportBelt => 1usize, ItemType::Gear => 2usize]
    } else if k == 3 {
        map![ItemType::TransportBelt => 2usize, ItemType::Gear => 2usize]
    } else if k == 4 {
        map![ItemType::IronPlate => 5usize]
    } else if k == 5 {
        map![ItemType::StoneOre => 5usize]
    } else if k == 6 {
        map![ItemType::SteelPlate => 5usize, ItemType::Furnace => 1usize]
    } else if k == 7 {
        map![ItemType::CopperPlate => 1usize]
    } else if k == 8 {
        map![ItemType::IronPlate => 1usize, ItemType::CopperWire => 3usize]
    } else if k == 9 {
        map![ItemType::IronPlate => 5usize, ItemType::Gear => 5usize, ItemType::Circuit => 3usize]
    } else if k == 10 {
        map![ItemType::IronPlate => 5usize, ItemType::Gear => 3usize, ItemType::CopperWire => 10usize]
    } else if k == 11 {
        map![ItemType::IronPlate => 1usize, ItemType::Gear => 1usize, ItemType::Circuit => 1usize]
    } else if k == 12 {
        map![ItemType::IronPlate => 1usize, ItemType::Gear => 5usize, ItemType::Circuit => 3usize]
    } else if k == 13 {
        map![ItemType::IronPlate => 2usize]
    } else if k == 14 {
        map![ItemType::Pipe => 10usize]
    } else if k == 15 {
        map![ItemType::IronPlate => 5usize, ItemType::Gear => 5usize]
    } else if k == 16 {
        map![ItemType::IronPlate => 5usize, ItemType::CopperPlate => 5usize]
    } else if k == 17 {
        map![ItemType::IronPlate => 5usize, ItemType::Gear => 5usize, ItemType::CopperPlate => 5usize]
    } else if k == 18 {
        map![ItemType::IronPlate => 2usize, ItemType::CopperWire => 2usize]
    } else {
        map![ItemType::IronPlate => 1usize, ItemType::Gear => 1usize]
    }
}

/// The products of the `k`-th assembler recipe.
pub open spec fn assembler_recipe_output(k: int) -> Map<ItemType, usize> {
    if k == 0 {
        map![ItemType::Gear => 1usize]
    } else if k == 1 {
        map![ItemType::TransportBelt => 1usize]
    } else if k == 2 {
        map![ItemType::UndergroundBelt => 1usize]
    } else if k == 3 {
        map![ItemType::Splitter => 1usize]
    } else if k == 4 {
        map![ItemType::Chest => 1usize]
    } else if k == 5 {
        map![ItemType::Furnace => 1usize]
    } else if k == 6 {
        map![ItemType::ElectricFurnace => 1usize]
    } else if k == 7 {
        map![ItemType::CopperWire => 2usize]
    } else if k == 8 {
        map![ItemType::Circuit => 1usize]
    } else if k == 9 {
        map![ItemType::Assembler => 1usize]
    } else if k == 10 {
        map![ItemType::Lab => 1usize]
    } else if k == 11 {
        map![ItemType::Inserter => 1usize]
    } else if k == 12 {
        map![ItemType::OreMine => 1usize]
    } else if k == 13 {
        map![ItemType::Pipe => 1usize]
    } else if k == 14 {
        map![ItemType::UndergroundPipe => 2usize]
    } else if k == 15 {
        map![ItemType::OffshorePump => 1usize]
    } else if k == 16 {
        map![ItemType::Boiler => 1usize]
    } else if k == 17 {
        map![ItemType::SteamEngine => 1usize]
    } else if k == 18 {
        map![ItemType::ElectPole => 1usize]
    } else {
        map![ItemType::SciencePack1 => 1usize]
    }
}

/// The energy, in kilojoules, and the frames that the `k`-th smelting
/// recipe takes.
pub open spec fn furnace_recipe_cost(k: int) -> (u32, u32) {
    if k == 2 { (100, 250) } else { (20, 50) }
}

/// The technologies that the `k`-th smelting recipe needs.
pub open spec fn furnace_recipe_tech(k: int) -> Seq<TechnologyTag> {
    if k == 2 { seq![TechnologyTag::SteelWorks] } else { Seq::empty() }
}

/// The energy, in kilojoules, and the frames that the `k`-th assembler
/// recipe takes.
pub open spec fn assembler_recipe_cost(k: int) -> (u32, u32) {
    if k == 3 {
        (25, 40)
    } else if k == 12 || k == 16 {
        (100, 100)
    } else if k == 15 {
        (150, 150)
    } else if k == 17 {
        (200, 200)
    } else if k == 19 {
        (50, 50)
    } else if k == 0 || k == 1 || k == 2 || k == 4 || k == 8 {
        (20, 50)
    } else if k == 9 || k == 10 {
        (20, 120)
    } else {
        (20, 20)
    }
}

/// The technologies that the `k`-th assembler recipe needs.
pub open spec fn assembler_recipe_tech(k: int) -> Seq<TechnologyTag> {
    if 1 <= k <= 3 {
        seq![TechnologyTag::Transportation]
    } else if k == 6 {
        seq![TechnologyTag::SteelWorks]
    } else {
        Seq::empty()
    }
}

/// The smelting recipes of the furnaces.
pub fn furnace_recipes() -> (ret: Vec<Recipe>)
    ensures
        ret@.len() == 3,
        forall|k: int| 0 <= k < 3 ==> (#[trigger] ret@[k]).input@ == furnace_recipe_input(k) && ret@[k].output@ == furnace_recipe_output(k),
        forall|k: int| 0 <= k < 3 ==> (#[trigger] ret@[k]).power_cost == furnace_recipe_cost(k).0 && ret@[k].recipe_time
            == furnace_recipe_cost(k).1 && ret@[k].requires_technology@ == furnace_recipe_tech(k),
        ret@[0].power_cost == 20,
        ret@[0].recipe_time == 50,
        ret@[0].requires_technology@ == Seq::<TechnologyTag>::empty(),
        ret@[1].power_cost == 20,
        ret@[1].recipe_time == 50,
        ret@[1].requires_technology@ == Seq::<TechnologyTag>::empty(),
        ret@[2].power_cost == 100,
        ret@[2].recipe_time == 250,
        ret@[2].requires_technology@ == seq![TechnologyTag::SteelWorks],
{
    let mut ret: Vec<Recipe> = Vec::new();
    ret.push(Recipe::with_requires(item_set_1(ItemType::IronOre, 1), item_set_1(ItemType::IronPlate, 1), 20, 50, Vec::new()));
    ret.push(Recipe::with_requires(item_set_1(ItemType::CopperOre, 1), item_set_1(ItemType::CopperPlate, 1), 20, 50, Vec::new()));
    ret.push(Recipe::with_requires(item_set_1(ItemType::IronPlate, 5), item_set_1(ItemType::SteelPlate, 1), 100, 250, tech_1(TechnologyTag::SteelWorks)));
    ret
}

/// The recipes of the assembler.
pub fn assembler_recipes() -> (ret: Vec<Recipe>)
    ensures
        ret@.len() == 20,
        forall|k: int| 0 <= k < 20 ==> (#[trigger] ret@[k]).input@ == assembler_recipe_input(k) && ret@[k].output@ == assembler_recipe_output(k),
        forall|k: int| 0 <= k < 20 ==> (#[trigger] ret@[k]).power_cost == assembler_recipe_cost(k).0 && ret@[k].recipe_time
            == assembler_recipe_cost(k).1 && ret@[k].requires_technology@ == assembler_recipe_tech(k),
        ret@[0].power_cost == 20,
        ret@[0].recipe_time == 50,
        ret@[0].requires_technology@ == Seq::<TechnologyTag>::empty(),
        ret@[1].power_cost == 20,
        ret@[1].recipe_time == 50,
        ret@[1].requires_technology@ == seq![TechnologyTag::Transportation],
        ret@[2].power_cost == 20,
        ret@[2].recipe_time == 50,
        ret@[2].requires_technology@ == seq![TechnologyTag::Transportation],
        ret@[3].power_cost == 25,
        ret@[3].recipe_time == 40,
        ret@[3].requires_technology@ == seq![TechnologyTag::Transportation],
        ret@[4].power_cost == 20,
        ret@[4].recipe_time == 50,
        ret@[4].requires_technology@ == Seq::<TechnologyTag>::empty(),
        ret@[5].power_cost == 20,
        ret@[5].recipe_time == 20,
        ret@[5].requires_technology@ == Seq::<TechnologyTag>::empty(),
        ret@[6].power_cost == 20,
        ret@[6].recipe_time == 20,
        ret@[6].requires_technology@ == seq![TechnologyTag::SteelWorks],
        ret@[7].power_cost == 20,
        ret@[7].recipe_time == 20,
        ret@[7].requires_technology@ == Seq::<TechnologyTag>::empty(),
        ret@[8].power_cost == 20,
        ret@[8].recipe_time == 50,
        ret@[8].requires_technology@ == Seq::<TechnologyTag>::empty(),
        ret@[9].power_cost == 20,
        ret@[9].recipe_time == 120,
        ret@[9].requires_technology@ == Seq::<TechnologyTag>::empty(),
        ret@[10].power_cost == 20,
        ret@[10].recipe_time == 120,
        ret@[10].requires_technology@ == Seq::<TechnologyTag>::empty(),
        ret@[11].power_cost == 20,
        ret@[11].recipe_time == 20,
        ret@[11].requires_technology@ == Seq::<TechnologyTag>::empty(),
        ret@[12].power_cost == 100,
        ret@[12].recipe_time == 100,
        ret@[12].requires_technology@ == Seq::<TechnologyTag>::empty(),
        ret@[13].power_cost == 20,
        ret@[13].recipe_time == 20,
        ret@[13].requires_technology@ == Seq::<TechnologyTag>::empty(),
        ret@[14].power_cost == 20,
        ret@[14].recipe_time == 20,
        ret@[14].requires_technology@ == Seq::<TechnologyTag>::empty(),
        ret@[15].power_cost == 150,
        ret@[15].recipe_time == 150,
        ret@[15].requires_technology@ == Seq::<TechnologyTag>::empty(),
        ret@[16].power_cost == 100,
        ret@[16].recipe_time == 100,
        ret@[16].requires_technology@ == Seq::<TechnologyTag>::empty(),
        ret@[17].power_cost == 200,
        ret@[17].recipe_time == 200,
        ret@[17].requires_technology@ == Seq::<TechnologyTag>::empty(),
        ret@[18].power_cost == 20,
        ret@[18].recipe_time == 20,
        ret@[18].requires_technology@ == Seq::<TechnologyTag>::empty(),
        ret@[19].power_cost == 50,
        ret@[19].recipe_time == 50,
        ret@[19].requires_technology@ == Seq::<TechnologyTag>::empty(),
{
    let mut ret: Vec<Recipe> = Vec::new();
    ret.push(Recipe::with_requires(item_set_1(ItemType::IronPlate, 2), item_set_1(ItemType::Gear, 1), 20, 50, Vec::new()));
    ret.push(Recipe::with_requires(item_set_2(ItemType::IronPlate, 1, ItemType::Gear, 1), item_set_1(ItemType::TransportBelt, 1), 20, 50, tech_1(TechnologyTag::Transportation)));
    ret.push(Recipe::with_requires(item_set_2(ItemType::TransportBelt, 1, ItemType::Gear, 2), item_set_1(ItemType::UndergroundBelt, 1), 20, 50, tech_1(TechnologyTag::Transportation)));
    ret.push(Recipe::with_requires(item_set_2(ItemType::TransportBelt, 2, ItemType::Gear, 2), item_set_1(ItemType::Splitter, 1), 25, 40, tech_1(TechnologyTag::Transportation)));
    ret.push(Recipe::with_requires(item_set_1(ItemType::IronPlate, 5), item_set_1(ItemType::Chest, 1), 20, 50, Vec::new()));
    ret.push(Recipe::with_requires(item_set_1(ItemType::StoneOre, 5), item_set_1(ItemType::Furnace, 1), 20, 20, Vec::new()));
    ret.push(Recipe::with_requires(item_set_2(ItemType::SteelPlate, 5, ItemType::Furnace, 1), item_set_1(ItemType::ElectricFurnace, 1), 20, 20, tech_1(TechnologyTag::SteelWorks)));
    ret.push(Recipe::with_requires(item_set_1(ItemType::CopperPlate, 1), item_set_1(ItemType::CopperWire, 2), 20, 20, Vec::new()));
    ret.push(Recipe::with_requires(item_set_2(ItemType::IronPlate, 1, ItemType::CopperWire, 3), item_set_1(ItemType::Circuit, 1), 20, 50, Vec::new()));
    ret.push(Recipe::with_requires(item_set_3(ItemType::IronPlate, 5, ItemType::Gear, 5, ItemType::Circuit, 3), item_set_1(ItemType::Assembler, 1), 20, 120, Vec::new()));
    ret.push(Recipe::with_requires(item_set_3(ItemType::IronPlate, 5, ItemType::Gear, 3, ItemType::CopperWire, 10), item_set_1(ItemType::Lab, 1), 20, 120, Vec::new()));
    ret.push(Recipe::with_requires(item_set_3(ItemType::IronPlate, 1, ItemType::Gear, 1, ItemType::Circuit, 1), item_set_1(ItemType::Inserter, 1), 20, 20, Vec::new()));
    ret.push(Recipe::with_requires(item_set_3(ItemType::IronPlate, 1, ItemType::Gear, 5, ItemType::Circuit, 3), item_set_1(ItemType::OreMine, 1), 100, 100, Vec::new()));
    ret.push(Recipe::with_requires(item_set_1(ItemType::IronPlate, 2), item_set_1(ItemType::Pipe, 1), 20, 20, Vec::new()));
    ret.push(Recipe::with_requires(item_set_1(ItemType::Pipe, 10), item_set_1(ItemType::UndergroundPipe, 2), 20, 20, Vec::new()));
    ret.push(Recipe::with_requires(item_set_2(ItemType::IronPlate, 5, ItemType::Gear, 5), item_set_1(ItemType::OffshorePump, 1), 150, 150, Vec::new()));
    ret.push(Recipe::with_requires(item_set_2(ItemType::IronPlate, 5, ItemType::CopperPlate, 5), item_set_1(ItemType::Boiler, 1), 100, 100, Vec::new()));
    ret.push(Recipe::with_requires(item_set_3(ItemType::IronPlate, 5, ItemType::Gear, 5, ItemType::CopperPlate, 5), item_set_1(ItemType::SteamEngine, 1), 200, 200, Vec::new()));
    ret.push(Recipe::with_requires(item_set_2(ItemType::IronPlate, 2, ItemType::CopperWire, 2), item_set_1(ItemType::ElectPole, 1), 20, 20, Vec::new()));
    ret.push(Recipe::with_requires(item_set_2(ItemType::IronPlate, 1, ItemType::Gear, 1), item_set_1(ItemType::SciencePack1, 1), 50, 50, Vec::new()));
    ret
}

} // verus!
