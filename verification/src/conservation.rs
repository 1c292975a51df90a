//! Counting the items on the map: in the stores of the structures, in the
//! runs under way, in the arms of inserters and on the ground. An inserter
//! only ever moves items.
use crate::arms::{
    arm_decides, arm_side, arm_stepped, front_fits, ground_item, lemma_first_on_tile_bounds, linked_index, offer_kinds, with_arm,
};
use crate::buildings::{handed_out, input_fits, movable_spec, output_store_of, takes_in, took_in, Structure};
use crate::drop_items::DropItem;
use crate::ground::{first_on_tile_from, placed, placement};
use crate::inserter::{InserterAction, INSERTER_TIME};
use crate::gen_set::{add_model, free_list, payload_value, GenEntry, GenPayload};
use crate::inventory::count_of;
use crate::items::ItemType;
use crate::structure::FrameProcResult;
use crate::recipe::Recipe;
use vstd::prelude::*;

verus! {

/// The items of kind `t` that a run of `recipe` under way holds: its
/// ingredients, taken when it started.
pub open spec fn in_run(recipe: Option<Recipe>, in_progress: bool, t: ItemType) -> int {
    match recipe {
        Some(r) => if in_progress { count_of(r.input@, t) as int } else { 0 },
        None => 0,
    }
}

/// How many items of kind `t` the structure `s` holds: in its stores, in
/// its run under way, or in its arm.
pub open spec fn held(s: Structure, t: ItemType) -> int {
    match s {
        Structure::TransportBelt(_) => 0,
        Structure::Inserter(_, ins) => if ins.hold_item == Some(t) { 1 } else { 0 },
        Structure::OreMine(m) => count_of(m.input_inventory@, t) + in_run(m.recipe, m.in_progress, t),
        Structure::Chest(c) => count_of(c.inventory@, t) as int,
        Structure::Furnace(f) => count_of(f.input_inventory@, t) + count_of(f.output_inventory@, t) + count_of(
            f.burner_inventory@,
            t,
        ) + in_run(f.recipe, f.in_progress, t),
        Structure::Assembler(a) => count_of(a.factory.input_inventory@, t) + count_of(a.factory.output_inventory@, t) + in_run(
            a.factory.recipe,
            a.factory.in_progress,
            t,
        ),
        Structure::Boiler(b) => count_of(b.inventory@, t) + in_run(b.recipe, b.in_progress, t),
        Structure::Utility(_, _) => 0,
    }
}

/// How many items of kind `t` the first `n` structures of `ss` hold.
pub open spec fn stock(ss: Seq<Structure>, t: ItemType, n: int) -> int
    decreases n,
{
    if n <= 0 {
        0
    } else {
        stock(ss, t, n - 1) + held(ss[n - 1], t)
    }
}

/// Whether slot `e` of the ground holds an item of kind `t`, as a count.
pub open spec fn lying(e: GenEntry<DropItem>, t: ItemType) -> int {
    match payload_value(e.item) {
        Some(it) => if it.type_ == t { 1 } else { 0 },
        None => 0,
    }
}

/// How many items of kind `t` lie in the first `n` slots of the ground.
pub open spec fn ground_stock(slots: Seq<GenEntry<DropItem>>, t: ItemType, n: int) -> int
    decreases n,
{
    if n <= 0 {
        0
    } else {
        ground_stock(slots, t, n - 1) + lying(slots[n - 1], t)
    }
}

/// How many items of kind `t` there are on the map: held by the
/// structures `ss` or lying in the slots `slots`.
pub open spec fn total_stock(ss: Seq<Structure>, slots: Seq<GenEntry<DropItem>>, t: ItemType) -> int {
    stock(ss, t, ss.len() as int) + ground_stock(slots, t, slots.len() as int)
}

/// Replacing one structure changes the count by the difference of what
/// the two hold.
proof fn lemma_stock_update(ss: Seq<Structure>, k: int, s: Structure, t: ItemType, n: int)
    requires
        0 <= k < ss.len(),
        0 <= n <= ss.len(),
    ensures
        stock(ss.update(k, s), t, n) == stock(ss, t, n) + if k < n { held(s, t) - held(ss[k], t) } else { 0 },
    decreases n,
{
    if n > 0 {
        lemma_stock_update(ss, k, s, t, n - 1);
    }
}

/// Replacing one slot changes the count by the difference of what the two
/// hold.
proof fn lemma_ground_update(slots: Seq<GenEntry<DropItem>>, k: int, e: GenEntry<DropItem>, t: ItemType, n: int)
    requires
        0 <= k < slots.len(),
        0 <= n <= slots.len(),
    ensures
        ground_stock(slots.update(k, e), t, n) == ground_stock(slots, t, n) + if k < n { lying(e, t) - lying(slots[k], t) } else { 0 },
    decreases n,
{
    if n > 0 {
        lemma_ground_update(slots, k, e, t, n - 1);
    }
}

/// Appending a slot leaves the count of the slots before it alone.
proof fn lemma_ground_push(slots: Seq<GenEntry<DropItem>>, e: GenEntry<DropItem>, t: ItemType, n: int)
    requires
        0 <= n <= slots.len(),
    ensures
        ground_stock(slots.push(e), t, n) == ground_stock(slots, t, n),
    decreases n,
{
    if n > 0 {
        lemma_ground_push(slots, e, t, n - 1);
    }
}

/// Adding an item to the ground adds one to the count of its kind.
proof fn lemma_ground_add(slots: Seq<GenEntry<DropItem>>, chain: Seq<usize>, it: DropItem, t: ItemType)
    requires
        free_list(slots, chain),
    ensures
        ground_stock(add_model(slots, chain, it).0, t, add_model(slots, chain, it).0.len() as int) == ground_stock(
            slots,
            t,
            slots.len() as int,
        ) + if it.type_ == t { 1int } else { 0int },
{
    if chain.len() > 0 {
        let i = chain[0] as int;
        assert(chain[0] < slots.len());
        let e = GenEntry { gen: (slots[i].gen + 1) as u32, item: GenPayload::Occupied(it) };
        lemma_ground_update(slots, i, e, t, slots.len() as int);
    } else {
        let e = GenEntry { gen: 0, item: GenPayload::Occupied(it) };
        lemma_ground_push(slots, e, t, slots.len() as int);
    }
}


/// Handing out an item takes exactly that item out of the structure.
proof fn lemma_handed_out_takes_one(s0: Structure, t: ItemType, s1: Structure, u: ItemType)
    requires
        handed_out(s0, t, s1, true),
    ensures
        held(s1, u) == held(s0, u) - if u == t { 1int } else { 0int },
{
}

/// Whether no run is under way without a recipe in the furnace `s`.
pub open spec fn run_has_recipe(s: Structure) -> bool {
    s matches Structure::Furnace(f) ==> (f.in_progress ==> f.recipe is Some)
}

/// Taking in an item puts exactly that item into the structure, and a
/// refusal changes nothing it holds.
proof fn lemma_took_in_puts_one(s0: Structure, t: ItemType, s1: Structure, ok: bool, u: ItemType)
    requires
        took_in(s0, t, s1, ok),
        input_fits(s0, t),
        run_has_recipe(s0),
    ensures
        held(s1, u) == held(s0, u) + if ok && u == t { 1int } else { 0int },
{
}


/// Putting the structure `a` at `i` and `b` at `j` changes the count by
/// what they hold in place of what stood there.
proof fn lemma_stock_update2(ss: Seq<Structure>, i: int, a: Structure, j: int, b: Structure, t: ItemType)
    requires
        0 <= i < ss.len(),
        0 <= j < ss.len(),
        i != j,
    ensures
        stock(ss.update(i, a).update(j, b), t, ss.len() as int) == stock(ss, t, ss.len() as int) + held(a, t) - held(ss[i], t)
            + held(b, t) - held(ss[j], t),
{
    lemma_stock_update(ss, i, a, t, ss.len() as int);
    lemma_stock_update(ss.update(i, a), j, b, t, ss.len() as int);
}

/// An inserter's step neither makes nor loses items: when it succeeds,
/// every item it picks up leaves the ground or the structure behind, and
/// every item it lets go of lands in the structure in front or on the
/// ground, so the items of each kind on the map stay as many. (A structure
/// that does not hand out what it offers makes the step fail.)
pub proof fn lemma_arm_step_keeps_items(
    ss0: Seq<Structure>,
    slots0: Seq<GenEntry<DropItem>>,
    chain0: Seq<usize>,
    width: u32,
    height: u32,
    i: int,
    ss1: Seq<Structure>,
    slots1: Seq<GenEntry<DropItem>>,
    ret: Result<Option<FrameProcResult>, ()>,
    t: ItemType,
)
    requires
        0 <= i < ss0.len(),
        ss0[i] is Inserter,
        arm_stepped(ss0, slots0, chain0, width, height, i, ss1, slots1, ret),
        ret is Ok,
        free_list(slots0, chain0),
        front_fits(ss0, ss0[i]->Inserter_1, i),
        forall|j: int| 0 <= j < ss0.len() ==> #[trigger] run_has_recipe(ss0[j]),
    ensures
        total_stock(ss1, slots1, t) == total_stock(ss0, slots0, t),
{
    let p = ss0[i]->Inserter_0;
    let ins = ss0[i]->Inserter_1;
    let back = arm_side(p, ins.rotation, -1);
    let front = arm_side(p, ins.rotation, 1);
    let inl = linked_index(ss0, ins.input_structure, i);
    let outl = linked_index(ss0, ins.output_structure, i);
    let offer = match inl {
        Some(j) => Some(offer_kinds(output_store_of(ss0[j]))),
        None => None,
    };
    let decision = arm_decides(ins, ground_item(slots0, back), offer, ss0, outl);
    let moved = with_arm(ins, decision.1, decision.2);
    let emptied = with_arm(ins, None, INSERTER_TIME);
    let n = ss0.len() as int;
    let m = slots0.len() as int;
    assert(ss0[i] == Structure::Inserter(p, ins));
    match decision.0 {
        InserterAction::Wait => {
            lemma_stock_update(ss0, i, Structure::Inserter(p, moved), t, n);
        },
        InserterAction::TakeFromGround(tt) => {
            let k = first_on_tile_from(slots0, back, 0)->0;
            lemma_first_on_tile_bounds(slots0, back, 0);
            lemma_stock_update(ss0, i, Structure::Inserter(p, moved), t, n);
            lemma_ground_update(slots0, k, GenEntry { gen: slots0[k].gen, item: GenPayload::Free(None) }, t, m);
        },
        InserterAction::TakeFromStructure(tt) => {
            let j = inl->0;
            assert(ss1 =~= ss0.update(i, ss1[i]).update(j, ss1[j]));
            lemma_stock_update2(ss0, i, ss1[i], j, ss1[j], t);
            lemma_handed_out_takes_one(ss0[j], tt, ss1[j], t);
        },
        InserterAction::PutIntoStructure(tt) => {
            let j = outl->0;
            let drop = placement(slots0, chain0, width, height, front.x as int, front.y as int, tt, None);
            assert(input_fits(ss0[j], tt));
            assert(run_has_recipe(ss0[j]));
            assert(ss1 =~= ss0.update(i, ss1[i]).update(j, ss1[j]));
            lemma_stock_update2(ss0, i, ss1[i], j, ss1[j], t);
            lemma_took_in_puts_one(ss0[j], tt, ss1[j], takes_in(ss0[j], tt), t);
            if !takes_in(ss0[j], tt) && movable_spec(ss0[j]) && drop.0 {
                lemma_ground_add(slots0, chain0, placed(tt, front.x as int, front.y as int), t);
            }
        },
        InserterAction::DropOnGround(tt) => {
            let drop = placement(slots0, chain0, width, height, front.x as int, front.y as int, tt, None);
            lemma_stock_update(ss0, i, ss1[i], t, n);
            if drop.0 {
                lemma_ground_add(slots0, chain0, placed(tt, front.x as int, front.y as int), t);
            }
        },
    }
}

} // verus!
