//! Technologies and research progress.
use crate::inventory::{entries_of, lemma_entries_of_single, Inventory};
use crate::items::ItemType;
use crate::recipe::{
    assembler_recipe_output, assembler_recipes, furnace_recipe_output, furnace_recipes, item_set_1, item_set_2, Recipe,
};
use vstd::prelude::*;

verus! {

/// A technology that unlocks recipes once researched.
#[derive(Clone, Copy, PartialEq, Eq, Structural, Debug, Hash)]
pub enum TechnologyTag {
    Transportation,
    Electricity,
    SteelWorks,
}

/// A technology to research: the science packs one step consumes, the
/// number of steps, and the frames a step takes.
pub struct Technology {
    pub tag: TechnologyTag,
    pub input: Inventory,
    pub steps: usize,
    pub research_time: u32,
}

/// The research under way: which technology and how many steps are done.
#[derive(Clone, Copy, PartialEq, Eq, Structural, Debug)]
pub struct Research {
    pub technology: TechnologyTag,
    pub progress: usize,
}

/// The technologies: transportation (20 steps of one red pack),
/// electricity (30 steps of one red pack) and steel works (50 steps of one
/// red and one green pack), each step taking 30 frames.
pub fn technologies() -> (ret: Vec<Technology>)
    ensures
        ret@.len() == 3,
        ret@[0].tag == TechnologyTag::Transportation,
        ret@[0].input@ == map![ItemType::SciencePack1 => 1usize],
        ret@[0].steps == 20,
        ret@[1].tag == TechnologyTag::Electricity,
        ret@[1].input@ == map![ItemType::SciencePack1 => 1usize],
        ret@[1].steps == 30,
        ret@[2].tag == TechnologyTag::SteelWorks,
        ret@[2].input@ == map![ItemType::SciencePack1 => 1usize, ItemType::SciencePack2 => 1usize],
        ret@[2].steps == 50,
        forall|k: int| 0 <= k < 3 ==> (#[trigger] ret@[k]).research_time == 30,
{
    let mut ret: Vec<Technology> = Vec::new();
    ret.push(Technology { tag: TechnologyTag::Transportation, input: item_set_1(ItemType::SciencePack1, 1), steps: 20, research_time: 30 });
    ret.push(Technology { tag: TechnologyTag::Electricity, input: item_set_1(ItemType::SciencePack1, 1), steps: 30, research_time: 30 });
    ret.push(Technology {
        tag: TechnologyTag::SteelWorks,
        input: item_set_2(ItemType::SciencePack1, 1, ItemType::SciencePack2, 1),
        steps: 50,
        research_time: 30,
    });
    ret
}

/// The name of the item pictured for a technology.
pub open spec fn technology_image_spec(tag: TechnologyTag) -> Seq<char> {
    match tag {
        TechnologyTag::Transportation => "Transport Belt"@,
        TechnologyTag::Electricity => "Electric Pole"@,
        TechnologyTag::SteelWorks => "Steel Plate"@,
    }
}

/// The name of the item pictured for a technology.
pub fn technology_image(tag: TechnologyTag) -> (ret: &'static str)
    ensures
        ret@ == technology_image_spec(tag),
{
    match tag {
        TechnologyTag::Transportation => "Transport Belt",
        TechnologyTag::Electricity => "Electric Pole",
        TechnologyTag::SteelWorks => "Steel Plate",
    }
}

/// The first product of a recipe, in declaration order of the item kinds.
pub open spec fn first_product(r: Recipe) -> Option<ItemType> {
    let e = entries_of(r.output@);
    if e.len() > 0 {
        Some(e[0].0)
    } else {
        None
    }
}

/// The first products of the recipes of `rs` that need technology `tag`,
/// in order.
pub open spec fn unlock_items(rs: Seq<Recipe>, tag: TechnologyTag) -> Seq<ItemType>
    decreases rs.len(),
{
    if rs.len() == 0 {
        Seq::empty()
    } else {
        let prev = unlock_items(rs.drop_last(), tag);
        let r = rs.last();
        if r.requires_technology@.contains(tag) {
            match first_product(r) {
                Some(t) => prev.push(t),
                None => prev,
            }
        } else {
            prev
        }
    }
}

/// What researching `tag` makes available: the first product of each of
/// `recipes` that needs it, in order.
pub fn recipes_unlocked_by(recipes: &Vec<Recipe>, tag: TechnologyTag) -> (ret: Vec<ItemType>)
    ensures
        ret@ == unlock_items(recipes@, tag),
{
    let mut ret: Vec<ItemType> = Vec::new();
    let mut i: usize = 0;
    while i < recipes.len()
        invariant
            i <= recipes.len(),
            ret@ == unlock_items(recipes@.take(i as int), tag),
        decreases recipes.len() - i,
    {
        proof {
            lemma_unlock_step(recipes@, i as int, tag);
        }
        let r = &recipes[i];
        let mut needs = false;
        let mut j: usize = 0;
        while j < r.requires_technology.len()
            invariant
                j <= r.requires_technology.len(),
                needs <==> exists|m: int| 0 <= m < j && r.requires_technology@[m] == tag,
            decreases r.requires_technology.len() - j,
        {
            if r.requires_technology[j] == tag {
                needs = true;
            }
            j += 1;
        }
        if needs {
            let e = r.output.entries();
            if e.len() > 0 {
                ret.push(e[0].0);
            }
        }
        i += 1;
    }
    assert(recipes@.take(recipes.len() as int) =~= recipes@);
    ret
}

proof fn lemma_unlock_step(rs: Seq<Recipe>, k: int, tag: TechnologyTag)
    requires
        0 <= k < rs.len(),
    ensures
        unlock_items(rs.take(k + 1), tag) == if rs[k].requires_technology@.contains(tag) {
            match first_product(rs[k]) {
                Some(t) => unlock_items(rs.take(k), tag).push(t),
                None => unlock_items(rs.take(k), tag),
            }
        } else {
            unlock_items(rs.take(k), tag)
        },
{
    assert(rs.take(k + 1).drop_last() =~= rs.take(k));
    assert(rs.take(k + 1).last() == rs[k]);
}

/// What a technology unlocks, among the assembler's recipes and then the
/// furnaces': transportation gives belts, underground belts and splitters;
/// steel works electric furnaces and steel; electricity nothing.
pub fn technology_unlocks(tag: TechnologyTag) -> (ret: Vec<ItemType>)
    ensures
        ret@ == match tag {
            TechnologyTag::Transportation => seq![ItemType::TransportBelt, ItemType::UndergroundBelt, ItemType::Splitter],
            TechnologyTag::Electricity => Seq::<ItemType>::empty(),
            TechnologyTag::SteelWorks => seq![ItemType::ElectricFurnace, ItemType::SteelPlate],
        },
{
    let assembler_table = assembler_recipes();
    let fur = furnace_recipes();
    let mut ret = recipes_unlocked_by(&assembler_table, tag);
    let mut more = recipes_unlocked_by(&fur, tag);
    proof {
        lemma_assembler_unlocks(assembler_table@, tag);
        lemma_furnace_unlocks(fur@, tag);
    }
    ret.append(&mut more);
    proof {
        match tag {
            TechnologyTag::Transportation => {
                assert(ret@ =~= seq![ItemType::TransportBelt, ItemType::UndergroundBelt, ItemType::Splitter]);
            },
            TechnologyTag::Electricity => {
                assert(ret@ =~= Seq::<ItemType>::empty());
            },
            TechnologyTag::SteelWorks => {
                assert(ret@ =~= seq![ItemType::ElectricFurnace, ItemType::SteelPlate]);
            },
        }
    }
    ret
}

proof fn lemma_assembler_unlocks(rs: Seq<Recipe>, tag: TechnologyTag)
    requires
        rs.len() == 20,
        forall|k: int| 0 <= k < 20 ==> (#[trigger] rs[k]).output@ == assembler_recipe_output(k),
        rs[0].requires_technology@ == Seq::<TechnologyTag>::empty(),
        rs[1].requires_technology@ == seq![TechnologyTag::Transportation],
        rs[2].requires_technology@ == seq![TechnologyTag::Transportation],
        rs[3].requires_technology@ == seq![TechnologyTag::Transportation],
        rs[4].requires_technology@ == Seq::<TechnologyTag>::empty(),
        rs[5].requires_technology@ == Seq::<TechnologyTag>::empty(),
        rs[6].requires_technology@ == seq![TechnologyTag::SteelWorks],
        rs[7].requires_technology@ == Seq::<TechnologyTag>::empty(),
        rs[8].requires_technology@ == Seq::<TechnologyTag>::empty(),
        rs[9].requires_technology@ == Seq::<TechnologyTag>::empty(),
        rs[10].requires_technology@ == Seq::<TechnologyTag>::empty(),
        rs[11].requires_technology@ == Seq::<TechnologyTag>::empty(),
        rs[12].requires_technology@ == Seq::<TechnologyTag>::empty(),
        rs[13].requires_technology@ == Seq::<TechnologyTag>::empty(),
        rs[14].requires_technology@ == Seq::<TechnologyTag>::empty(),
        rs[15].requires_technology@ == Seq::<TechnologyTag>::empty(),
        rs[16].requires_technology@ == Seq::<TechnologyTag>::empty(),
        rs[17].requires_technology@ == Seq::<TechnologyTag>::empty(),
        rs[18].requires_technology@ == Seq::<TechnologyTag>::empty(),
        rs[19].requires_technology@ == Seq::<TechnologyTag>::empty(),
    ensures
        unlock_items(rs, tag) == (match tag { TechnologyTag::Transportation => seq![ItemType::TransportBelt, ItemType::UndergroundBelt, ItemType::Splitter], TechnologyTag::Electricity => Seq::<ItemType>::empty(), TechnologyTag::SteelWorks => seq![ItemType::ElectricFurnace] }),
{
    assert(unlock_items(rs.take(0), tag) == Seq::<ItemType>::empty());
    lemma_unlock_step(rs, 0, tag);
    assert(rs[0].output@ == assembler_recipe_output(0));
    assert(!rs[0].requires_technology@.contains(tag));
    assert(unlock_items(rs.take(1), tag) == (match tag { TechnologyTag::Transportation => Seq::<ItemType>::empty(), TechnologyTag::Electricity => Seq::<ItemType>::empty(), TechnologyTag::SteelWorks => Seq::<ItemType>::empty() }));
    lemma_unlock_step(rs, 1, tag);
    assert(rs[1].output@ == assembler_recipe_output(1));
    lemma_entries_of_single(ItemType::TransportBelt, 1usize);
    assert(seq![TechnologyTag::Transportation][0] == TechnologyTag::Transportation);
    assert(rs[1].requires_technology@.contains(tag) == (tag == TechnologyTag::Transportation));
    assert(unlock_items(rs.take(2), tag) == (match tag { TechnologyTag::Transportation => seq![ItemType::TransportBelt], TechnologyTag::Electricity => Seq::<ItemType>::empty(), TechnologyTag::SteelWorks => Seq::<ItemType>::empty() }));
    lemma_unlock_step(rs, 2, tag);
    assert(rs[2].output@ == assembler_recipe_output(2));
    lemma_entries_of_single(ItemType::UndergroundBelt, 1usize);
    assert(seq![TechnologyTag::Transportation][0] == TechnologyTag::Transportation);
    assert(rs[2].requires_technology@.contains(tag) == (tag == TechnologyTag::Transportation));
    assert(unlock_items(rs.take(3), tag) == (match tag { TechnologyTag::Transportation => seq![ItemType::TransportBelt, ItemType::UndergroundBelt], TechnologyTag::Electricity => Seq::<ItemType>::empty(), TechnologyTag::SteelWorks => Seq::<ItemType>::empty() }));
    lemma_unlock_step(rs, 3, tag);
    assert(rs[3].output@ == assembler_recipe_output(3));
    lemma_entries_of_single(ItemType::Splitter, 1usize);
    assert(seq![TechnologyTag::Transportation][0] == TechnologyTag::Transportation);
    assert(rs[3].requires_technology@.contains(tag) == (tag == TechnologyTag::Transportation));
    assert(unlock_items(rs.take(4), tag) == (match tag { TechnologyTag::Transportation => seq![ItemType::TransportBelt, ItemType::UndergroundBelt, ItemType::Splitter], TechnologyTag::Electricity => Seq::<ItemType>::empty(), TechnologyTag::SteelWorks => Seq::<ItemType>::empty() }));
    lemma_unlock_step(rs, 4, tag);
    assert(rs[4].output@ == assembler_recipe_output(4));
    assert(!rs[4].requires_technology@.contains(tag));
    assert(unlock_items(rs.take(5), tag) == (match tag { TechnologyTag::Transportation => seq![ItemType::TransportBelt, ItemType::UndergroundBelt, ItemType::Splitter], TechnologyTag::Electricity => Seq::<ItemType>::empty(), TechnologyTag::SteelWorks => Seq::<ItemType>::empty() }));
    lemma_unlock_step(rs, 5, tag);
    assert(rs[5].output@ == assembler_recipe_output(5));
    assert(!rs[5].requires_technology@.contains(tag));
    assert(unlock_items(rs.take(6), tag) == (match tag { TechnologyTag::Transportation => seq![ItemType::TransportBelt, ItemType::UndergroundBelt, ItemType::Splitter], TechnologyTag::Electricity => Seq::<ItemType>::empty(), TechnologyTag::SteelWorks => Seq::<ItemType>::empty() }));
    lemma_unlock_step(rs, 6, tag);
    assert(rs[6].output@ == assembler_recipe_output(6));
    lemma_entries_of_single(ItemType::ElectricFurnace, 1usize);
    assert(seq![TechnologyTag::SteelWorks][0] == TechnologyTag::SteelWorks);
    assert(rs[6].requires_technology@.contains(tag) == (tag == TechnologyTag::SteelWorks));
    assert(unlock_items(rs.take(7), tag) == (match tag { TechnologyTag::Transportation => seq![ItemType::TransportBelt, ItemType::UndergroundBelt, ItemType::Splitter], TechnologyTag::Electricity => Seq::<ItemType>::empty(), TechnologyTag::SteelWorks => seq![ItemType::ElectricFurnace] }));
    lemma_unlock_step(rs, 7, tag);
    assert(rs[7].output@ == assembler_recipe_output(7));
    assert(!rs[7].requires_technology@.contains(tag));
    assert(unlock_items(rs.take(8), tag) == (match tag { TechnologyTag::Transportation => seq![ItemType::TransportBelt, ItemType::UndergroundBelt, ItemType::Splitter], TechnologyTag::Electricity => Seq::<ItemType>::empty(), TechnologyTag::SteelWorks => seq![ItemType::ElectricFurnace] }));
    lemma_unlock_step(rs, 8, tag);
    assert(rs[8].output@ == assembler_recipe_output(8));
    assert(!rs[8].requires_technology@.contains(tag));
    assert(unlock_items(rs.take(9), tag) == (match tag { TechnologyTag::Transportation => seq![ItemType::TransportBelt, ItemType::UndergroundBelt, ItemType::Splitter], TechnologyTag::Electricity => Seq::<ItemType>::empty(), TechnologyTag::SteelWorks => seq![ItemType::ElectricFurnace] }));
    lemma_unlock_step(rs, 9, tag);
    assert(rs[9].output@ == assembler_recipe_output(9));
    assert(!rs[9].requires_technology@.contains(tag));
    assert(unlock_items(rs.take(10), tag) == (match tag { TechnologyTag::Transportation => seq![ItemType::TransportBelt, ItemType::UndergroundBelt, ItemType::Splitter], TechnologyTag::Electricity => Seq::<ItemType>::empty(), TechnologyTag::SteelWorks => seq![ItemType::ElectricFurnace] }));
    lemma_unlock_step(rs, 10, tag);
    assert(rs[10].output@ == assembler_recipe_output(10));
    assert(!rs[10].requires_technology@.contains(tag));
    assert(unlock_items(rs.take(11), tag) == (match tag { TechnologyTag::Transportation => seq![ItemType::TransportBelt, ItemType::UndergroundBelt, ItemType::Splitter], TechnologyTag::Electricity => Seq::<ItemType>::empty(), TechnologyTag::SteelWorks => seq![ItemType::ElectricFurnace] }));
    lemma_unlock_step(rs, 11, tag);
    assert(rs[11].output@ == assembler_recipe_output(11));
    assert(!rs[11].requires_technology@.contains(tag));
    assert(unlock_items(rs.take(12), tag) == (match tag { TechnologyTag::Transportation => seq![ItemType::TransportBelt, ItemType::UndergroundBelt, ItemType::Splitter], TechnologyTag::Electricity => Seq::<ItemType>::empty(), TechnologyTag::SteelWorks => seq![ItemType::ElectricFurnace] }));
    lemma_unlock_step(rs, 12, tag);
    assert(rs[12].output@ == assembler_recipe_output(12));
    assert(!rs[12].requires_technology@.contains(tag));
    assert(unlock_items(rs.take(13), tag) == (match tag { TechnologyTag::Transportation => seq![ItemType::TransportBelt, ItemType::UndergroundBelt, ItemType::Splitter], TechnologyTag::Electricity => Seq::<ItemType>::empty(), TechnologyTag::SteelWorks => seq![ItemType::ElectricFurnace] }));
    lemma_unlock_step(rs, 13, tag);
    assert(rs[13].output@ == assembler_recipe_output(13));
    assert(!rs[13].requires_technology@.contains(tag));
    assert(unlock_items(rs.take(14), tag) == (match tag { TechnologyTag::Transportation => seq![ItemType::TransportBelt, ItemType::UndergroundBelt, ItemType::Splitter], TechnologyTag::Electricity => Seq::<ItemType>::empty(), TechnologyTag::SteelWorks => seq![ItemType::ElectricFurnace] }));
    lemma_unlock_step(rs, 14, tag);
    assert(rs[14].output@ == assembler_recipe_output(14));
    assert(!rs[14].requires_technology@.contains(tag));
    assert(unlock_items(rs.take(15), tag) == (match tag { TechnologyTag::Transportation => seq![ItemType::TransportBelt, ItemType::UndergroundBelt, ItemType::Splitter], TechnologyTag::Electricity => Seq::<ItemType>::empty(), TechnologyTag::SteelWorks => seq![ItemType::ElectricFurnace] }));
    lemma_unlock_step(rs, 15, tag);
    assert(rs[15].output@ == assembler_recipe_output(15));
    assert(!rs[15].requires_technology@.contains(tag));
    assert(unlock_items(rs.take(16), tag) == (match tag { TechnologyTag::Transportation => seq![ItemType::TransportBelt, ItemType::UndergroundBelt, ItemType::Splitter], TechnologyTag::Electricity => Seq::<ItemType>::empty(), TechnologyTag::SteelWorks => seq![ItemType::ElectricFurnace] }));
    lemma_unlock_step(rs, 16, tag);
    assert(rs[16].output@ == assembler_recipe_output(16));
    assert(!rs[16].requires_technology@.contains(tag));
    assert(unlock_items(rs.take(17), tag) == (match tag { TechnologyTag::Transportation => seq![ItemType::TransportBelt, ItemType::UndergroundBelt, ItemType::Splitter], TechnologyTag::Electricity => Seq::<ItemType>::empty(), TechnologyTag::SteelWorks => seq![ItemType::ElectricFurnace] }));
    lemma_unlock_step(rs, 17, tag);
    assert(rs[17].output@ == assembler_recipe_output(17));
    assert(!rs[17].requires_technology@.contains(tag));
    assert(unlock_items(rs.take(18), tag) == (match tag { TechnologyTag::Transportation => seq![ItemType::TransportBelt, ItemType::UndergroundBelt, ItemType::Splitter], TechnologyTag::Electricity => Seq::<ItemType>::empty(), TechnologyTag::SteelWorks => seq![ItemType::ElectricFurnace] }));
    lemma_unlock_step(rs, 18, tag);
    assert(rs[18].output@ == assembler_recipe_output(18));
    assert(!rs[18].requires_technology@.contains(tag));
    assert(unlock_items(rs.take(19), tag) == (match tag { TechnologyTag::Transportation => seq![ItemType::TransportBelt, ItemType::UndergroundBelt, ItemType::Splitter], TechnologyTag::Electricity => Seq::<ItemType>::empty(), TechnologyTag::SteelWorks => seq![ItemType::ElectricFurnace] }));
    lemma_unlock_step(rs, 19, tag);
    assert(rs[19].output@ == assembler_recipe_output(19));
    assert(!rs[19].requires_technology@.contains(tag));
    assert(unlock_items(rs.take(20), tag) == (match tag { TechnologyTag::Transportation => seq![ItemType::TransportBelt, ItemType::UndergroundBelt, ItemType::Splitter], TechnologyTag::Electricity => Seq::<ItemType>::empty(), TechnologyTag::SteelWorks => seq![ItemType::ElectricFurnace] }));
    assert(rs.take(20) =~= rs);
}

proof fn lemma_furnace_unlocks(rs: Seq<Recipe>, tag: TechnologyTag)
    requires
        rs.len() == 3,
        forall|k: int| 0 <= k < 3 ==> (#[trigger] rs[k]).output@ == furnace_recipe_output(k),
        rs[0].requires_technology@ == Seq::<TechnologyTag>::empty(),
        rs[1].requires_technology@ == Seq::<TechnologyTag>::empty(),
        rs[2].requires_technology@ == seq![TechnologyTag::SteelWorks],
    ensures
        unlock_items(rs, tag) == (match tag { TechnologyTag::Transportation => Seq::<ItemType>::empty(), TechnologyTag::Electricity => Seq::<ItemType>::empty(), TechnologyTag::SteelWorks => seq![ItemType::SteelPlate] }),
{
    assert(unlock_items(rs.take(0), tag) == Seq::<ItemType>::empty());
    lemma_unlock_step(rs, 0, tag);
    assert(rs[0].output@ == furnace_recipe_output(0));
    assert(!rs[0].requires_technology@.contains(tag));
    assert(unlock_items(rs.take(1), tag) == (match tag { TechnologyTag::Transportation => Seq::<ItemType>::empty(), TechnologyTag::Electricity => Seq::<ItemType>::empty(), TechnologyTag::SteelWorks => Seq::<ItemType>::empty() }));
    lemma_unlock_step(rs, 1, tag);
    assert(rs[1].output@ == furnace_recipe_output(1));
    assert(!rs[1].requires_technology@.contains(tag));
    assert(unlock_items(rs.take(2), tag) == (match tag { TechnologyTag::Transportation => Seq::<ItemType>::empty(), TechnologyTag::Electricity => Seq::<ItemType>::empty(), TechnologyTag::SteelWorks => Seq::<ItemType>::empty() }));
    lemma_unlock_step(rs, 2, tag);
    assert(rs[2].output@ == furnace_recipe_output(2));
    lemma_entries_of_single(ItemType::SteelPlate, 1usize);
    assert(seq![TechnologyTag::SteelWorks][0] == TechnologyTag::SteelWorks);
    assert(rs[2].requires_technology@.contains(tag) == (tag == TechnologyTag::SteelWorks));
    assert(unlock_items(rs.take(3), tag) == (match tag { TechnologyTag::Transportation => Seq::<ItemType>::empty(), TechnologyTag::Electricity => Seq::<ItemType>::empty(), TechnologyTag::SteelWorks => seq![ItemType::SteelPlate] }));
    assert(rs.take(3) =~= rs);
}

} // verus!
