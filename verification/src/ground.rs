//! Items on the ground: placing them, finding them, moving them as the
//! structures under them say, and picking them up.
use crate::drop_items::{hit_check, hits, DropItem};
use crate::gen_set::{add_model, handle, payload_value, GenEntry, GenId, GenPayload, GenSet};
use crate::inventory::{count_of, Inventory};
use crate::items::ItemType;
use crate::structure::{tile_reach, ItemResponse, Position};
use vstd::prelude::*;

verus! {

/// Why an item could not be placed on the ground.
#[derive(Clone, Copy, PartialEq, Eq, Structural, Debug)]
pub enum NewObjectErr {
    BlockedByStructure,
    BlockedByItem,
    OutOfMap,
}

/// The tile that pixel coordinate `v` lies in, rounding towards zero.
pub open spec fn tile_trunc(v: int) -> int {
    if v >= 0 {
        v / 32
    } else {
        -((-v) / 32)
    }
}

fn tile_of_pixel(v: i32) -> (ret: i32)
    ensures
        ret == tile_trunc(v as int),
{
    if v >= 0 {
        v / 32
    } else {
        let a: i64 = -(v as i64);
        let q: i64 = a / 32;
        -(q as i32)
    }
}

/// Whether `it` lies on tile `pos`.
pub open spec fn on_tile(it: DropItem, pos: Position) -> bool {
    tile_trunc(it.x as int) == pos.x && tile_trunc(it.y as int) == pos.y
}

/// Whether slot `i` holds an item lying on tile `pos`.
pub open spec fn slot_on_tile(slots: Seq<GenEntry<DropItem>>, i: int, pos: Position) -> bool {
    match payload_value(slots[i].item) {
        Some(it) => on_tile(it, pos),
        None => false,
    }
}

/// The first slot, from `i` on, holding an item on tile `pos`.
pub open spec fn first_on_tile_from(slots: Seq<GenEntry<DropItem>>, pos: Position, i: int) -> Option<int>
    decreases slots.len() - i,
{
    if i < 0 || i >= slots.len() {
        None
    } else if slot_on_tile(slots, i, pos) {
        Some(i)
    } else {
        first_on_tile_from(slots, pos, i + 1)
    }
}

/// The number of items of kind `t` among the first `n` slots that lie on
/// tile `pos`.
pub open spec fn count_on_tile(slots: Seq<GenEntry<DropItem>>, pos: Position, t: ItemType, n: int) -> nat
    decreases n,
{
    if n <= 0 {
        0
    } else {
        count_on_tile(slots, pos, t, n - 1) + match payload_value(slots[n - 1].item) {
            Some(it) => if on_tile(it, pos) && it.type_ == t { 1nat } else { 0nat },
            None => 0nat,
        }
    }
}

proof fn lemma_count_on_tile_bound(slots: Seq<GenEntry<DropItem>>, pos: Position, t: ItemType, n: int)
    requires
        0 <= n,
    ensures
        count_on_tile(slots, pos, t, n) <= n,
    decreases n,
{
    if n > 0 {
        lemma_count_on_tile_bound(slots, pos, t, n - 1);
    }
}

/// The item that a placement at tile `(c, r)` puts down.
pub open spec fn placed(type_: ItemType, c: int, r: int) -> DropItem {
    DropItem { type_, x: (c * 32 + 16) as i32, y: (r * 32 + 16) as i32 }
}

/// What putting an item of kind `type_` at the centre of tile `(c, r)` of
/// a map of `width` by `height` tiles does to the slots `slots` with free
/// list `chain` (see [`new_object`]): whether the item was placed, and the
/// slots after.
pub open spec fn placement(
    slots: Seq<GenEntry<DropItem>>,
    chain: Seq<usize>,
    width: u32,
    height: u32,
    c: int,
    r: int,
    type_: ItemType,
    structure_movable: Option<bool>,
) -> (bool, Seq<GenEntry<DropItem>>) {
    let it = placed(type_, c, r);
    if !(0 <= c < width && 0 <= r < height) || structure_movable == Some(false) || hits(slots, it.x as int, it.y as int, None) {
        (false, slots)
    } else {
        (true, add_model(slots, chain, it).0)
    }
}

/// Puts an item of kind `type_` at the centre of tile `(c, r)` of a map of
/// `width` by `height` tiles. `structure_movable` tells whether a structure
/// stands on the tile and whether it lets items lie on it (a belt). Fails
/// when the tile is off the map, under a structure that is no belt, or
/// taken by an item.
pub fn new_object(
    items: &mut GenSet<DropItem>,
    width: u32,
    height: u32,
    c: i32,
    r: i32,
    type_: ItemType,
    structure_movable: Option<bool>,
) -> (ret: Result<GenId<DropItem>, NewObjectErr>)
    requires
        old(items).wf(),
        old(items).can_add(),
        tile_reach(c as int, 0),
        tile_reach(r as int, 0),
    ensures
        final(items).wf(),
        ({
            let on_map = 0 <= c < width && 0 <= r < height;
            let it = placed(type_, c as int, r as int);
            if !on_map {
                ret == Err::<GenId<DropItem>, NewObjectErr>(NewObjectErr::OutOfMap) && final(items).slots() == old(items).slots()
            } else if structure_movable == Some(false) {
                ret == Err::<GenId<DropItem>, NewObjectErr>(NewObjectErr::BlockedByStructure) && final(items).slots() == old(items).slots()
            } else if hits(old(items).slots(), it.x as int, it.y as int, None) {
                ret == Err::<GenId<DropItem>, NewObjectErr>(NewObjectErr::BlockedByItem) && final(items).slots() == old(items).slots()
            } else {
                &&& ret matches Ok(id) && final(items).lookup(id) == Some(it) && id.id == old(items).next_slot()
                &&& final(items).slots() == add_model(old(items).slots(), old(items).chain(), it).0
            }
        }),
        (ret is Ok, final(items).slots()) == placement(
            old(items).slots(),
            old(items).chain(),
            width,
            height,
            c as int,
            r as int,
            type_,
            structure_movable,
        ),
{
    let obj = DropItem::new(type_, c, r);
    if 0 <= c && (c as i64) < (width as i64) && 0 <= r && (r as i64) < (height as i64) {
        if structure_movable == Some(false) {
            return Err(NewObjectErr::BlockedByStructure);
        }
        if hit_check(items, obj.x, obj.y, None) {
            return Err(NewObjectErr::BlockedByItem);
        }
        let id = items.add(obj);
        return Ok(id);
    }
    Err(NewObjectErr::OutOfMap)
}

/// The first item, in slot order, lying on tile `pos`, with its handle.
pub fn find_item(items: &GenSet<DropItem>, pos: &Position) -> (ret: Option<(GenId<DropItem>, DropItem)>)
    requires
        items.wf(),
    ensures
        match first_on_tile_from(items.slots(), *pos, 0) {
            Some(i) => ret matches Some((id, it)) && id == handle::<DropItem>(i, items.slots()[i].gen)
                && payload_value(items.slots()[i].item) == Some(it) && items.lookup(id) == Some(it),
            None => ret is None,
        },
{
    proof {
        items.lemma_wf_len();
    }
    let v = items.entries();
    let mut i: usize = 0;
    while i < v.len()
        invariant
            v@ == items.slots(),
            v@.len() <= u32::MAX,
            i <= v@.len(),
            first_on_tile_from(v@, *pos, 0) == first_on_tile_from(v@, *pos, i as int),
        decreases v@.len() - i,
    {
        let e = &v[i];
        if let GenPayload::Occupied(it) = &e.item {
            if tile_of_pixel(it.x) == pos.x && tile_of_pixel(it.y) == pos.y {
                let id = GenId::new(i as u32, e.gen);
                proof {
                    GenId::lemma_same_handle(id, handle::<DropItem>(i as int, e.gen));
                }
                return Some((id, *it));
            }
        }
        i += 1;
    }
    None
}

/// What happened to an item in a step of the simulation.
#[derive(Clone, Copy, PartialEq, Eq, Structural, Debug)]
pub enum ItemStep {
    Stayed,
    Moved,
    Removed,
}

/// Carries out what the structure under item `id` answered: a move goes
/// ahead when no other item lies close to the new place and a belt
/// (`target_movable`) stands there; a consumed item leaves the ground.
pub fn apply_item_response(items: &mut GenSet<DropItem>, id: GenId<DropItem>, response: ItemResponse, target_movable: Option<bool>) -> (ret: ItemStep)
    requires
        old(items).wf(),
        old(items).lookup(id) is Some,
    ensures
        final(items).wf(),
        match response {
            ItemResponse::Nothing => ret == ItemStep::Stayed && final(items).slots() == old(items).slots(),
            ItemResponse::Move(mx, my) => if !hits(old(items).slots(), mx as int, my as int, Some(id)) && target_movable == Some(true) {
                let it = old(items).lookup(id)->0;
                &&& ret == ItemStep::Moved
                &&& final(items).slots() == old(items).slots().update(
                    id.id as int,
                    GenEntry { gen: id.gen, item: GenPayload::Occupied(DropItem { x: mx, y: my, ..it }) },
                )
            } else {
                ret == ItemStep::Stayed && final(items).slots() == old(items).slots()
            },
            ItemResponse::Consume => ret == ItemStep::Removed && final(items).slots() == old(items).slots().update(
                id.id as int,
                GenEntry { gen: id.gen, item: GenPayload::Free(None) },
            ),
        },
{
    match response {
        ItemResponse::Nothing => ItemStep::Stayed,
        ItemResponse::Move(mx, my) => {
            if hit_check(items, mx, my, Some(id)) {
                return ItemStep::Stayed;
            }
            if target_movable != Some(true) {
                return ItemStep::Stayed;
            }
            match items.get_mut(id) {
                Some(it) => {
                    it.x = mx;
                    it.y = my;
                    ItemStep::Moved
                },
                None => ItemStep::Stayed,
            }
        },
        ItemResponse::Consume => {
            items.remove(id);
            ItemStep::Removed
        },
    }
}

/// Picks up every item lying on tile `pos` into `inventory`; says whether
/// there was any.
pub fn pick_up_items(items: &mut GenSet<DropItem>, pos: &Position, inventory: &mut Inventory) -> (ret: bool)
    requires
        old(items).wf(),
        forall|t: ItemType| count_of(old(inventory)@, t) + old(items).slots().len() <= usize::MAX,
    ensures
        final(items).wf(),
        ret == first_on_tile_from(old(items).slots(), *pos, 0) is Some,
        final(items).slots().len() == old(items).slots().len(),
        forall|i: int| 0 <= i < old(items).slots().len() ==> #[trigger] final(items).slots()[i] == if slot_on_tile(old(items).slots(), i, *pos) {
            GenEntry { gen: old(items).slots()[i].gen, item: GenPayload::Free(None) }
        } else {
            old(items).slots()[i]
        },
        forall|t: ItemType| #[trigger] count_of(final(inventory)@, t) == count_of(old(inventory)@, t) + count_on_tile(
            old(items).slots(),
            *pos,
            t,
            old(items).slots().len() as int,
        ),
        forall|t: ItemType| #[trigger] final(inventory)@.contains_key(t) == (old(inventory)@.contains_key(t) || count_on_tile(
            old(items).slots(),
            *pos,
            t,
            old(items).slots().len() as int,
        ) > 0),
{
    proof {
        items.lemma_wf_len();
    }
    let ghost s0 = items.slots();
    let n = items.entries().len();
    let mut found = false;
    let mut i: usize = 0;
    while i < n
        invariant
            items.wf(),
            n == s0.len(),
            s0.len() <= u32::MAX,
            i <= n,
            items.slots().len() == s0.len(),
            forall|j: int| 0 <= j < i ==> #[trigger] items.slots()[j] == if slot_on_tile(s0, j, *pos) {
                GenEntry { gen: s0[j].gen, item: GenPayload::Free(None) }
            } else {
                s0[j]
            },
            forall|j: int| i <= j < n ==> #[trigger] items.slots()[j] == s0[j],
            forall|t: ItemType| count_of(old(inventory)@, t) + s0.len() <= usize::MAX,
            forall|t: ItemType| #[trigger] count_of(inventory@, t) == count_of(old(inventory)@, t) + count_on_tile(s0, *pos, t, i as int),
            forall|t: ItemType| #[trigger] inventory@.contains_key(t) == (old(inventory)@.contains_key(t) || count_on_tile(s0, *pos, t, i as int) > 0),
            !found ==> first_on_tile_from(s0, *pos, 0) == first_on_tile_from(s0, *pos, i as int),
            found ==> first_on_tile_from(s0, *pos, 0) is Some,
        decreases n - i,
    {
        let v = items.entries();
        let e = &v[i];
        let gen = e.gen;
        let ghost ei = s0[i as int];
        assert(*e == ei);
        let hit = match &e.item {
            GenPayload::Occupied(it) => {
                if tile_of_pixel(it.x) == pos.x && tile_of_pixel(it.y) == pos.y {
                    Some(it.type_)
                } else {
                    None
                }
            },
            GenPayload::Free(_) => None,
        };
        let ghost before_inv = inventory@;
        let ghost before_slots = items.slots();
        match hit {
            Some(t) => {
                let id = GenId::new(i as u32, gen);
                items.remove(id);
                proof {
                    lemma_count_on_tile_bound(s0, *pos, t, i as int);
                }
                inventory.add_item(&t);
                found = true;
                proof {
                    assert(payload_value(ei.item) matches Some(it) && on_tile(it, *pos) && it.type_ == t);
                    assert(items.slots() =~= before_slots.update(i as int, GenEntry { gen, item: GenPayload::Free(None) }));
                    assert forall|u: ItemType| #[trigger] count_of(inventory@, u) == count_of(old(inventory)@, u) + count_on_tile(s0, *pos, u, i + 1) by {
                        assert(count_of(before_inv, u) == count_of(old(inventory)@, u) + count_on_tile(s0, *pos, u, i as int));
                    }
                }
            },
            None => {
                proof {
                    assert forall|u: ItemType| #[trigger] count_of(inventory@, u) == count_of(old(inventory)@, u) + count_on_tile(s0, *pos, u, i + 1) by {}
                }
            },
        }
        i += 1;
    }
    found
}

} // verus!
