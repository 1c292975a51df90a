//! How many items a structure's stores take: capacities set by recipes and
//! by the slots of a storage.
use crate::factory::Factory;
use crate::inventory::{
    added, count_of, entries_of, removed, slots_of, Inventory, InventoryType, STACK_SIZE,
};
use crate::items::ItemType;
use crate::recipe::Recipe;
use vstd::prelude::*;

verus! {

/// A machine's input store takes ingredients enough for this many runs.
pub const RECIPE_CAPACITY_MULTIPLIER: usize = 3;

/// The number of slots of a chest.
pub const STORAGE_MAX_SLOTS: usize = 48;

/// The capacity of a store that no recipe limits.
pub const DEFAULT_MAX_CAPACITY: usize = 50;

/// `count` limited to the room left under `capacity` (none when full).
pub open spec fn limited(count: int, existing: int, capacity: int) -> int {
    if existing < capacity {
        if count <= capacity - existing { count } else { capacity - existing }
    } else {
        0
    }
}

/// A store filled through `limited` never goes beyond its capacity, and a
/// positive request is never turned into a removal or into more than was
/// asked for.
pub proof fn lemma_limited_within_capacity(count: int, existing: int, capacity: int)
    requires
        0 <= count,
        0 <= existing,
    ensures
        0 <= limited(count, existing, capacity) <= count,
        existing < capacity ==> existing + limited(count, existing, capacity) <= capacity,
        existing >= capacity ==> limited(count, existing, capacity) == 0,
{
}

/// `count` limited to the room left under `capacity`: none when `existing`
/// is at or above the capacity.
pub fn limit_by_capacity(count: isize, existing: usize, capacity: usize) -> (ret: isize)
    requires
        capacity <= isize::MAX,
    ensures
        ret == limited(count as int, existing as int, capacity as int),
{
    if existing < capacity {
        let room = (capacity - existing) as isize;
        if count <= room { count } else { room }
    } else {
        0
    }
}

/// The index of the first recipe whose ingredients include `item`.
pub fn find_recipe_with_input(recipes: &Vec<Recipe>, item: &ItemType) -> (ret: Option<usize>)
    ensures
        match ret {
            Some(i) => i < recipes@.len() && recipes@[i as int].input@.contains_key(*item) && forall|j: int|
                0 <= j < i ==> !(#[trigger] recipes@[j]).input@.contains_key(*item),
            None => forall|j: int| 0 <= j < recipes@.len() ==> !(#[trigger] recipes@[j]).input@.contains_key(*item),
        },
{
    let mut i: usize = 0;
    while i < recipes.len()
        invariant
            i <= recipes@.len(),
            forall|j: int| 0 <= j < i ==> !(#[trigger] recipes@[j]).input@.contains_key(*item),
        decreases recipes@.len() - i,
    {
        if recipes[i].input.contains_key(item) {
            return Some(i);
        }
        i = i + 1;
    }
    None
}

/// The capacity of a machine's input store for `item`: set by the selected
/// recipe, or else (for machines that pick their recipe by what they are
/// fed) by the first recipe that uses the item. `None` means the item is
/// not taken at all.
pub fn input_capacity(
    selected: &Option<Recipe>,
    auto_recipe: bool,
    recipes: &Vec<Recipe>,
    item: &ItemType,
) -> (ret: Option<usize>)
    requires
        forall|r: Recipe| #![trigger r.input@] (selected == Some(r) || recipes@.contains(r)) ==> count_of(r.input@, *item) * RECIPE_CAPACITY_MULTIPLIER <= usize::MAX,
    ensures
        match selected {
            Some(r) => ret == Some((count_of(r.input@, *item) * RECIPE_CAPACITY_MULTIPLIER) as usize),
            None => if auto_recipe {
                match first_index_with(recipes@, *item) {
                    Some(i) => ret == Some((count_of(recipes@[i].input@, *item) * RECIPE_CAPACITY_MULTIPLIER) as usize),
                    None => ret is None,
                }
            } else {
                ret is None
            },
        },
{
    match selected {
        Some(recipe) => {
            proof {
                assert(*selected == Some(*recipe));
            }
            Some(recipe.input.count_item(item) * RECIPE_CAPACITY_MULTIPLIER)
        },
        None => {
            if auto_recipe {
                match find_recipe_with_input(recipes, item) {
                    Some(i) => {
                        proof {
                            lemma_first_index_with(recipes@, *item, i as int);
                            assert(recipes@.contains(recipes@[i as int]));
                        }
                        Some(recipes[i].input.count_item(item) * RECIPE_CAPACITY_MULTIPLIER)
                    },
                    None => {
                        proof {
                            lemma_first_index_with_none(recipes@, *item);
                        }
                        None
                    },
                }
            } else {
                None
            }
        },
    }
}

/// The index of the first recipe among `recipes` whose ingredients include
/// `item`.
pub open spec fn first_index_with(recipes: Seq<Recipe>, item: ItemType) -> Option<int>
    decreases recipes.len(),
{
    if recipes.len() == 0 {
        None
    } else if recipes[0].input@.contains_key(item) {
        Some(0)
    } else {
        match first_index_with(recipes.drop_first(), item) {
            Some(i) => Some(i + 1),
            None => None,
        }
    }
}

/// The first recipe using an item is one of the recipes, and uses it; when
/// there is none, no recipe uses it.
pub proof fn lemma_first_index_with_bounds(recipes: Seq<Recipe>, item: ItemType)
    ensures
        match first_index_with(recipes, item) {
            Some(i) => 0 <= i < recipes.len() && recipes[i].input@.contains_key(item) && forall|j: int| 0 <= j < i ==> !(#[trigger] recipes[j]).input@.contains_key(item),
            None => forall|j: int| 0 <= j < recipes.len() ==> !(#[trigger] recipes[j]).input@.contains_key(item),
        },
    decreases recipes.len(),
{
    if recipes.len() > 0 {
        let rest = recipes.drop_first();
        lemma_first_index_with_bounds(rest, item);
        assert forall|j: int| 0 <= j < rest.len() implies #[trigger] rest[j] == recipes[j + 1] by {}
        if !recipes[0].input@.contains_key(item) {
            match first_index_with(rest, item) {
                Some(i) => {
                    assert forall|j: int| 0 <= j < i + 1 implies !(#[trigger] recipes[j]).input@.contains_key(item) by {
                        if j > 0 {
                            assert(recipes[j] == rest[j - 1]);
                        }
                    }
                },
                None => {
                    assert forall|j: int| 0 <= j < recipes.len() implies !(#[trigger] recipes[j]).input@.contains_key(item) by {
                        if j > 0 {
                            assert(recipes[j] == rest[j - 1]);
                        }
                    }
                },
            }
        }
    }
}

proof fn lemma_first_index_with(recipes: Seq<Recipe>, item: ItemType, i: int)
    requires
        0 <= i < recipes.len(),
        recipes[i].input@.contains_key(item),
        forall|j: int| 0 <= j < i ==> !(#[trigger] recipes[j]).input@.contains_key(item),
    ensures
        first_index_with(recipes, item) == Some(i),
    decreases recipes.len(),
{
    if i > 0 {
        let rest = recipes.drop_first();
        assert forall|j: int| 0 <= j < i - 1 implies !(#[trigger] rest[j]).input@.contains_key(item) by {
            assert(rest[j] == recipes[j + 1]);
        }
        lemma_first_index_with(rest, item, i - 1);
        assert(!recipes[0].input@.contains_key(item));
    }
}

proof fn lemma_first_index_with_none(recipes: Seq<Recipe>, item: ItemType)
    requires
        forall|j: int| 0 <= j < recipes.len() ==> !(#[trigger] recipes[j]).input@.contains_key(item),
    ensures
        first_index_with(recipes, item) is None,
    decreases recipes.len(),
{
    if recipes.len() > 0 {
        let rest = recipes.drop_first();
        assert forall|j: int| 0 <= j < rest.len() implies !(#[trigger] rest[j]).input@.contains_key(item) by {
            assert(rest[j] == recipes[j + 1]);
        }
        lemma_first_index_with_none(rest, item);
    }
}

/// The room a storage has for more of `item`: whole free slots, and the
/// room left in the last, partial stack of the item.
pub open spec fn storage_room_spec(m: Map<ItemType, usize>, item: ItemType) -> int {
    let last_stack = count_of(m, item) % (STACK_SIZE as nat);
    (STORAGE_MAX_SLOTS - slots_of(entries_of(m))) * STACK_SIZE + if last_stack > 0 {
        STACK_SIZE - last_stack
    } else {
        0
    }
}

/// Whether the room of a storage can be computed in machine integers.
pub open spec fn storage_room_fits(m: Map<ItemType, usize>) -> bool {
    &&& slots_of(entries_of(m)) <= isize::MAX
    &&& (STORAGE_MAX_SLOTS - slots_of(entries_of(m))) * STACK_SIZE - STACK_SIZE >= isize::MIN
}

/// The room a storage has for more of `item` (negative when it holds more
/// slots than it has).
pub fn storage_room(inventory: &Inventory, item: &ItemType) -> (ret: isize)
    requires
        storage_room_fits(inventory@),
    ensures
        ret == storage_room_spec(inventory@, *item),
{
    let occupied = inventory.count_slots() as isize;
    let mut left = (STORAGE_MAX_SLOTS as isize - occupied) * STACK_SIZE as isize;
    let last_stack = inventory.count_item(item) % STACK_SIZE;
    if 0 < last_stack {
        left = left + (STACK_SIZE - last_stack) as isize;
    }
    left
}

/// The signed count that [`default_add_inventory`] moves: a positive
/// count is limited by the input capacity or by the storage room (none
/// when a storage already holds more slots than it has), and an input
/// store without capacity takes nothing.
pub open spec fn capped_count(
    m: Map<ItemType, usize>,
    inventory_type: InventoryType,
    input_capacity: Option<usize>,
    item: ItemType,
    count: int,
) -> int {
    if 0 < count {
        match inventory_type {
            InventoryType::Input => match input_capacity {
                Some(cap) => limited(count, count_of(m, item) as int, cap as int),
                None => 0,
            },
            InventoryType::Storage => {
                let room = storage_room_spec(m, item);
                let free = if room < 0 { 0 } else { room };
                if count <= free { count } else { free }
            },
            _ => count,
        }
    } else {
        count
    }
}

/// Moves a signed count of items into (positive) or out of (negative)
/// `inventory`, returning the signed count moved: removal takes no more
/// than is held.
pub fn move_items(inventory: &mut Inventory, item: &ItemType, count: isize) -> (ret: isize)
    requires
        count != isize::MIN,
        0 < count ==> count_of(old(inventory)@, *item) + count <= usize::MAX,
    ensures
        0 < count ==> ret == count && final(inventory)@ == added(old(inventory)@, *item, count as nat),
        count <= 0 ==> ret == -removed(old(inventory)@, *item, (-count) as nat).1,
        count <= 0 ==> final(inventory)@ == removed(old(inventory)@, *item, (-count) as nat).0,
{
    if 0 < count {
        inventory.add_items(item, count as usize);
        count
    } else {
        let removed_count = inventory.remove_items(item, (-count) as usize);
        -(removed_count as isize)
    }
}

/// Adds (positive `count`) or removes (negative `count`) items of one of a
/// structure's stores and returns the signed count moved. Additions to an
/// input store are limited by `input_capacity` (none are taken without
/// one), additions to a storage by its room; removals take no more than is
/// held. A positive count never removes anything: the count moved lies
/// between zero and the count asked for.
pub fn default_add_inventory(
    inventory: &mut Inventory,
    inventory_type: InventoryType,
    input_capacity: Option<usize>,
    item: &ItemType,
    count: isize,
) -> (ret: isize)
    requires
        count != isize::MIN,
        input_capacity matches Some(cap) ==> cap <= isize::MAX,
        inventory_type == InventoryType::Storage ==> storage_room_fits(old(inventory)@),
        inventory_type == InventoryType::Storage ==> storage_room_spec(old(inventory)@, *item) != isize::MIN,
        0 < capped_count(old(inventory)@, inventory_type, input_capacity, *item, count as int) ==> count_of(
            old(inventory)@,
            *item,
        ) + capped_count(old(inventory)@, inventory_type, input_capacity, *item, count as int) <= usize::MAX,
    ensures
        ({
            let c = capped_count(old(inventory)@, inventory_type, input_capacity, *item, count as int);
            if 0 < count && inventory_type == InventoryType::Input && input_capacity is None {
                &&& ret == 0
                &&& final(inventory)@ == old(inventory)@
            } else if 0 < c {
                &&& ret == c
                &&& final(inventory)@ == added(old(inventory)@, *item, c as nat)
            } else {
                &&& ret == -removed(old(inventory)@, *item, (-c) as nat).1
                &&& final(inventory)@ == removed(old(inventory)@, *item, (-c) as nat).0
            }
        }),
        0 < count ==> 0 <= ret <= count,
        count <= 0 ==> count <= ret <= 0,
{
    let mut count = count;
    if 0 < count {
        match inventory_type {
            InventoryType::Input => {
                match input_capacity {
                    Some(cap) => {
                        let existing = inventory.count_item(item);
                        count = limit_by_capacity(count, existing, cap);
                    },
                    None => {
                        return 0;
                    },
                }
            },
            InventoryType::Storage => {
                let mut left_count = storage_room(inventory, item);
                if left_count < 0 {
                    left_count = 0;
                }
                if left_count < count {
                    count = left_count;
                }
            },
            _ => {},
        }
    }
    move_items(inventory, item, count)
}

/// The signed count that a store holding `existing` items can move for a
/// recipe asking `per_run` of them per run: additions are limited to the
/// capacity of `RECIPE_CAPACITY_MULTIPLIER` runs, removals to what is held.
pub open spec fn recipe_limited(count: int, existing: int, per_run: int) -> int {
    if 0 < count {
        limited(count, existing, per_run * RECIPE_CAPACITY_MULTIPLIER)
    } else {
        -(if -count <= existing { -count } else { existing })
    }
}

/// The signed count of `item` that the input store of factory `f` can
/// move (see [`factory_can_input`]).
pub open spec fn factory_input_count(f: Factory, auto_recipe: bool, recipes: Seq<Recipe>, item: ItemType, count: int) -> int {
    match f.recipe {
        Some(r) => recipe_limited(count, count_of(f.input_inventory@, item) as int, count_of(r.input@, item) as int),
        None => if auto_recipe {
            match first_index_with(recipes, item) {
                Some(i) => recipe_limited(count, count_of(f.input_inventory@, item) as int, count_of(recipes[i].input@, item) as int),
                None => count,
            }
        } else if 0 < count {
            limited(count, count_of(f.input_inventory@, item) as int, DEFAULT_MAX_CAPACITY as int)
        } else {
            recipe_limited(count, count_of(f.input_inventory@, item) as int, 0)
        },
    }
}

/// The signed count of `item` that a factory's input store can move: set
/// by the factory's recipe, or else (for machines that pick their recipe by
/// what they are fed) by the first recipe that uses the item (unchanged if
/// none does); a factory without recipe holds up to `DEFAULT_MAX_CAPACITY`
/// items and gives up no more than it holds. A positive count never grows.
/// No factory, no move.
pub fn factory_can_input(
    factory: &Option<Factory>,
    auto_recipe: bool,
    recipes: &Vec<Recipe>,
    item: &ItemType,
    count: isize,
) -> (ret: isize)
    requires
        count != isize::MIN,
        forall|r: Recipe|
            #![trigger r.input@]
            ((factory matches Some(f) && f.recipe == Some(r)) || recipes@.contains(r)) ==> count_of(
                r.input@,
                *item,
            ) * RECIPE_CAPACITY_MULTIPLIER <= isize::MAX,
        factory matches Some(f) ==> count_of(f.input_inventory@, *item) <= isize::MAX,
    ensures
        match factory {
            None => ret == 0,
            Some(f) => ret == factory_input_count(*f, auto_recipe, recipes@, *item, count as int),
        },
        0 < count ==> 0 <= ret <= count,
{
    let f = match factory {
        Some(f) => f,
        None => {
            return 0;
        },
    };
    match &f.recipe {
        Some(recipe) => {
            proof {
                assert(f.recipe == Some(*recipe));
            }
            limit_for_recipe(&f.input_inventory, recipe, item, count)
        },
        None => {
            if auto_recipe {
                match find_recipe_with_input(recipes, item) {
                    Some(i) => {
                        proof {
                            lemma_first_index_with(recipes@, *item, i as int);
                            assert(recipes@.contains(recipes@[i as int]));
                        }
                        limit_for_recipe(&f.input_inventory, &recipes[i], item, count)
                    },
                    None => {
                        proof {
                            lemma_first_index_with_none(recipes@, *item);
                        }
                        count
                    },
                }
            } else if 0 < count {
                limit_by_capacity(count, f.input_inventory.count_item(item), DEFAULT_MAX_CAPACITY)
            } else {
                let existing = f.input_inventory.count_item(item) as isize;
                if -count <= existing {
                    count
                } else {
                    -existing
                }
            }
        },
    }
}

/// The signed count of `item` that `inventory` can move for `recipe`'s
/// ingredients.
fn limit_for_recipe(inventory: &Inventory, recipe: &Recipe, item: &ItemType, count: isize) -> (ret: isize)
    requires
        count != isize::MIN,
        count_of(recipe.input@, *item) * RECIPE_CAPACITY_MULTIPLIER <= isize::MAX,
        count_of(inventory@, *item) <= isize::MAX,
    ensures
        ret == recipe_limited(count as int, count_of(inventory@, *item) as int, count_of(recipe.input@, *item) as int),
{
    let existing = inventory.count_item(item);
    if 0 < count {
        let capacity = recipe.input.count_item(item) * RECIPE_CAPACITY_MULTIPLIER;
        limit_by_capacity(count, existing, capacity)
    } else {
        let wanted = -count;
        let e = existing as isize;
        -(if wanted <= e { wanted } else { e })
    }
}

/// The signed count of `item` that the output store of factory `f` can
/// move (see [`factory_output_count`]).
pub open spec fn factory_output_spec(f: Factory, item: ItemType, count: int) -> int {
    if 0 < count {
        match f.recipe {
            Some(r) => limited(count, count_of(f.output_inventory@, item) as int, count_of(r.output@, item) * RECIPE_CAPACITY_MULTIPLIER),
            None => limited(count, count_of(f.output_inventory@, item) as int, DEFAULT_MAX_CAPACITY as int),
        }
    } else {
        -(if -count <= count_of(f.output_inventory@, item) { -count } else { count_of(f.output_inventory@, item) as int })
    }
}

/// The store `m` after moving the signed count `c` of `item` into it
/// (positive) or out of it (negative), and the signed count moved.
pub open spec fn moved_count(m: Map<ItemType, usize>, item: ItemType, c: int) -> (Map<ItemType, usize>, int) {
    if 0 < c {
        (added(m, item, c as nat), c)
    } else {
        (removed(m, item, (-c) as nat).0, -removed(m, item, (-c) as nat).1)
    }
}

/// Adds (positive `count`) or removes (negative `count`) items of a
/// structure's factory stores and returns the signed count moved: the
/// input store moves what [`factory_can_input`] allows, the output store
/// what [`factory_output_count`] allows; without a factory, or for another
/// kind of store, nothing moves.
pub fn factory_add_inventory(
    factory: &mut Option<Factory>,
    inventory_type: InventoryType,
    auto_recipe: bool,
    recipes: &Vec<Recipe>,
    item: &ItemType,
    count: isize,
) -> (ret: isize)
    requires
        count != isize::MIN,
        forall|r: Recipe|
            #![trigger r.input@]
            ((*old(factory) matches Some(f) && f.recipe == Some(r)) || recipes@.contains(r)) ==> count_of(
                r.input@,
                *item,
            ) * RECIPE_CAPACITY_MULTIPLIER <= isize::MAX,
        *old(factory) matches Some(f) ==> f.recipe matches Some(r) ==> count_of(r.output@, *item) * RECIPE_CAPACITY_MULTIPLIER
            <= isize::MAX,
        *old(factory) matches Some(f) ==> count_of(f.input_inventory@, *item) + (if 0 < count {
            count as int
        } else {
            0
        }) <= isize::MAX,
        *old(factory) matches Some(f) ==> count_of(f.output_inventory@, *item) + (if 0 < count {
            count as int
        } else {
            0
        }) <= isize::MAX,
    ensures
        match *old(factory) {
            None => ret == 0 && *final(factory) == *old(factory),
            Some(f) => *final(factory) matches Some(g) && g.recipe == f.recipe && g.in_progress == f.in_progress && match inventory_type {
                InventoryType::Input => {
                    let c = factory_input_count(f, auto_recipe, recipes@, *item, count as int);
                    &&& g.output_inventory@ == f.output_inventory@
                    &&& (g.input_inventory@, ret as int) == moved_count(f.input_inventory@, *item, c)
                },
                InventoryType::Output => {
                    let c = factory_output_spec(f, *item, count as int);
                    &&& g.input_inventory@ == f.input_inventory@
                    &&& (g.output_inventory@, ret as int) == moved_count(f.output_inventory@, *item, c)
                },
                _ => ret == 0 && g.input_inventory@ == f.input_inventory@ && g.output_inventory@ == f.output_inventory@,
            },
        },
        0 < count ==> 0 <= ret <= count,
        count <= 0 ==> count <= ret <= 0,
{
    let c = match inventory_type {
        InventoryType::Input => factory_can_input(factory, auto_recipe, recipes, item, count),
        InventoryType::Output => match factory {
            Some(f) => factory_output_count(f, item, count),
            None => 0,
        },
        _ => 0,
    };
    match factory {
        Some(f) => match inventory_type {
            InventoryType::Input => move_items(&mut f.input_inventory, item, c),
            InventoryType::Output => move_items(&mut f.output_inventory, item, c),
            _ => 0,
        },
        None => 0,
    }
}

/// The signed count of `item` that a factory's output store can move:
/// additions are limited to `RECIPE_CAPACITY_MULTIPLIER` runs of the
/// recipe's products (to `DEFAULT_MAX_CAPACITY` items without recipe),
/// removals to what is held. A positive count never grows.
pub fn factory_output_count(factory: &Factory, item: &ItemType, count: isize) -> (ret: isize)
    requires
        count != isize::MIN,
        factory.recipe matches Some(r) ==> count_of(r.output@, *item) * RECIPE_CAPACITY_MULTIPLIER <= isize::MAX,
        count_of(factory.output_inventory@, *item) <= isize::MAX,
    ensures
        ret == if 0 < count {
            match factory.recipe {
                Some(r) => limited(count as int, count_of(factory.output_inventory@, *item) as int, count_of(r.output@, *item) * RECIPE_CAPACITY_MULTIPLIER),
                None => limited(count as int, count_of(factory.output_inventory@, *item) as int, DEFAULT_MAX_CAPACITY as int),
            }
        } else {
            -(if -count <= count_of(factory.output_inventory@, *item) { -count } else { count_of(factory.output_inventory@, *item) as int })
        },
        0 < count ==> 0 <= ret <= count,
{
    let existing = factory.output_inventory.count_item(item);
    if 0 < count {
        match &factory.recipe {
            Some(recipe) => {
                let capacity = recipe.output.count_item(item) * RECIPE_CAPACITY_MULTIPLIER;
                limit_by_capacity(count, existing, capacity)
            },
            None => limit_by_capacity(count, existing, DEFAULT_MAX_CAPACITY),
        }
    } else {
        let wanted = -count;
        let e = existing as isize;
        -(if wanted <= e { wanted } else { e })
    }
}

} // verus!
