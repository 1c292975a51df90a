//! Inserters at work on the map: each frame an arm decides what to do (see
//! [`Inserter::frame_proc`]) from what lies behind it and what the
//! structures behind and in front of it offer and take, and the map
//! carries that out.
use crate::drop_items::DropItem;
use crate::gen_set::{handle, payload_value, GenEntry, GenId, GenPayload};
use crate::ground::{find_item, first_on_tile_from, new_object, placement};
use crate::inserter::{first_taken, takes, Inserter, InserterAction, InserterTarget, INSERTER_TIME};
use crate::inventory::entries_of;
use crate::items::{
    item_at, item_at_spec, item_index_spec, lemma_item_at_bijective, lemma_item_index_bijective, ItemType,
    NUM_ITEM_TYPES
};
use crate::structure::{delta_spec, within_pixels, FrameProcResult, Position, Rotation, StructureId};
use crate::buildings::{
    accepts, handed_out, hands_out, input_fits, lemma_answers_determined, movable_spec, output_store_of,
    position_of, takes_in, took_in, Structure
};
use crate::world::World;
use vstd::prelude::*;

verus! {

/// The tile behind (`sign` -1) or in front (`sign` 1) of an arm on tile
/// `p` facing `r`.
pub open spec fn arm_side(p: Position, r: Rotation, sign: int) -> Position {
    Position { x: (p.x + sign * delta_spec(r).0) as i32, y: (p.y + sign * delta_spec(r).1) as i32 }
}

/// The index of the structure that handle `id` names among `ss`, if it
/// names one other than the arm's own, at index `i`.
pub open spec fn linked_index(ss: Seq<Structure>, id: Option<StructureId>, i: int) -> Option<int> {
    match id {
        Some(h) => if h.gen == 0 && h.id < ss.len() && h.id != i { Some(h.id as int) } else { None },
        None => None,
    }
}

/// Whether the structure in front of arm `ins`, at index `i` of `ss`, has
/// room in its counts for checking and taking in any item.
pub open spec fn front_fits(ss: Seq<Structure>, ins: Inserter, i: int) -> bool {
    forall|j: int, t: ItemType| linked_index(ss, ins.output_structure, i) == Some(j) ==> #[trigger] input_fits(ss[j], t)
}

/// Whether an arm whose destination is the structure at `out`, if any,
/// may pick up `t`: with nothing in front anything goes; a belt takes
/// anything; another structure what it accepts.
pub open spec fn arm_takes(ss: Seq<Structure>, out: Option<int>, t: ItemType) -> bool {
    match out {
        None => true,
        Some(j) => movable_spec(ss[j]) || accepts(ss[j], t),
    }
}

/// The first position, from `k` on, of an item of `offer` that the arm
/// may pick up.
pub open spec fn first_taken_from(offer: Seq<ItemType>, ss: Seq<Structure>, out: Option<int>, k: int) -> Option<int>
    decreases offer.len() - k,
{
    if k < 0 || k >= offer.len() {
        None
    } else if arm_takes(ss, out, offer[k]) {
        Some(k)
    } else {
        first_taken_from(offer, ss, out, k + 1)
    }
}

/// The kinds of the entries of a store, in declaration order.
pub open spec fn offer_kinds(m: Map<ItemType, usize>) -> Seq<ItemType> {
    entries_of(m).map_values(|e: (ItemType, usize)| e.0)
}

/// The kind of the first item lying on tile `pos`, if any.
pub open spec fn ground_item(slots: Seq<GenEntry<DropItem>>, pos: Position) -> Option<ItemType> {
    match first_on_tile_from(slots, pos, 0) {
        Some(k) => match payload_value(slots[k].item) {
            Some(it) => Some(it.type_),
            None => None,
        },
        None => None,
    }
}

/// What the arm `ins` decides, with `ground` lying behind it, `offer`
/// offered by the structure behind it (when there is one) and the
/// structure at `out` in front (when there is one): the action, and what
/// it holds and how long it still swings afterwards. An empty arm still
/// swinging back counts down; once back it picks up the item on the ground
/// if it may, or else the first item offered that it may, and starts a
/// swing. A full arm swinging forward counts down; once there it hands the
/// item to the structure in front, or drops it when nothing is there.
pub open spec fn arm_decides(ins: Inserter, ground: Option<ItemType>, offer: Option<Seq<ItemType>>, ss: Seq<Structure>, out: Option<int>) -> (InserterAction, Option<ItemType>, u32) {
    match ins.hold_item {
        None => if ins.cooldown > 1 {
            (InserterAction::Wait, None, (ins.cooldown - 1) as u32)
        } else {
            match ground {
                Some(t) => if arm_takes(ss, out, t) {
                    (InserterAction::TakeFromGround(t), Some(t), INSERTER_TIME)
                } else {
                    (InserterAction::Wait, None, 0)
                },
                None => match offer {
                    Some(o) => match first_taken_from(o, ss, out, 0) {
                        Some(k) => (InserterAction::TakeFromStructure(o[k]), Some(o[k]), INSERTER_TIME),
                        None => (InserterAction::Wait, None, 0),
                    },
                    None => (InserterAction::Wait, None, 0),
                },
            }
        },
        Some(t) => if ins.cooldown >= 1 {
            (InserterAction::Wait, Some(t), (ins.cooldown - 1) as u32)
        } else {
            (if out is Some { InserterAction::PutIntoStructure(t) } else { InserterAction::DropOnGround(t) }, Some(t), 0)
        },
    }
}

/// The arm `ins` holding `hold` with `cooldown` frames of swing left.
pub open spec fn with_arm(ins: Inserter, hold: Option<ItemType>, cooldown: u32) -> Inserter {
    Inserter { hold_item: hold, cooldown, ..ins }
}

/// `ss1` has as many structures as `ss0`, and the same ones but at
/// indices `i` and `j`.
pub open spec fn others_kept(ss0: Seq<Structure>, ss1: Seq<Structure>, i: int, j: int) -> bool {
    &&& ss1.len() == ss0.len()
    &&& forall|m: int| 0 <= m < ss0.len() && m != i && m != j ==> ss1[m] == ss0[m]
}

/// One frame of the inserter at index `i` took structures `ss0` and
/// ground slots `slots0` (with free list `chain0`), on a map of `width` by
/// `height` tiles, to `ss1` and `slots1`, reporting `ret`. The arm decides
/// (see [`arm_decides`]) and then: picking up from the ground removes that
/// item; picking up from the structure behind makes it hand the item out
/// (the frame fails if it cannot), reporting its tile; handing to the
/// structure in front makes it take the item in: when it does the arm is
/// empty and swings back, and the tile in front is reported; when it does
/// not, a belt gets the item dropped on it instead; dropping puts the item
/// on the tile in front if no other item lies close (the other structures
/// are not consulted), after which the arm is empty and swings back.
pub open spec fn arm_stepped(
    ss0: Seq<Structure>,
    slots0: Seq<GenEntry<DropItem>>,
    chain0: Seq<usize>,
    width: u32,
    height: u32,
    i: int,
    ss1: Seq<Structure>,
    slots1: Seq<GenEntry<DropItem>>,
    ret: Result<Option<FrameProcResult>, ()>,
) -> bool {
    let p = ss0[i]->Inserter_0;
    let ins = ss0[i]->Inserter_1;
    let back = arm_side(p, ins.rotation, -1);
    let front = arm_side(p, ins.rotation, 1);
    let inl = linked_index(ss0, ins.input_structure, i);
    let outl = linked_index(ss0, ins.output_structure, i);
    let offer = match inl {
        Some(j) => Some(offer_kinds(output_store_of(ss0[j]))),
        None => None,
    };
    let decision = arm_decides(ins, ground_item(slots0, back), offer, ss0, outl);
    let moved = with_arm(ins, decision.1, decision.2);
    let emptied = with_arm(ins, None, INSERTER_TIME);
    match decision.0 {
        InserterAction::Wait => ss1 == ss0.update(i, Structure::Inserter(p, moved)) && slots1 == slots0 && ret == Ok::<Option<FrameProcResult>, ()>(None),
        InserterAction::TakeFromGround(_) => {
            let k = first_on_tile_from(slots0, back, 0)->0;
            &&& ss1 == ss0.update(i, Structure::Inserter(p, moved))
            &&& slots1 == slots0.update(k, GenEntry { gen: slots0[k].gen, item: GenPayload::Free(None) })
            &&& ret == Ok::<Option<FrameProcResult>, ()>(None)
        },
        InserterAction::TakeFromStructure(t) => {
            let j = inl->0;
            &&& others_kept(ss0, ss1, i, j)
            &&& ss1[i] == Structure::Inserter(p, moved)
            &&& slots1 == slots0
            &&& handed_out(ss0[j], t, ss1[j], hands_out(ss0[j], t))
            &&& ret == if hands_out(ss0[j], t) {
                Ok::<Option<FrameProcResult>, ()>(Some(FrameProcResult::InventoryChanged(back)))
            } else {
                Err(())
            }
        },
        InserterAction::PutIntoStructure(t) => {
            let j = outl->0;
            let drop = placement(slots0, chain0, width, height, front.x as int, front.y as int, t, None);
            &&& others_kept(ss0, ss1, i, j)
            &&& took_in(ss0[j], t, ss1[j], takes_in(ss0[j], t))
            &&& if takes_in(ss0[j], t) {
                &&& ss1[i] == Structure::Inserter(p, emptied)
                &&& slots1 == slots0
                &&& ret == Ok::<Option<FrameProcResult>, ()>(Some(FrameProcResult::InventoryChanged(front)))
            } else if movable_spec(ss0[j]) {
                &&& ss1[i] == Structure::Inserter(p, if drop.0 { emptied } else { moved })
                &&& slots1 == drop.1
                &&& ret == Ok::<Option<FrameProcResult>, ()>(None)
            } else {
                &&& ss1[i] == Structure::Inserter(p, moved)
                &&& slots1 == slots0
                &&& ret == Ok::<Option<FrameProcResult>, ()>(None)
            }
        },
        InserterAction::DropOnGround(t) => {
            let drop = placement(slots0, chain0, width, height, front.x as int, front.y as int, t, None);
            &&& ss1 == ss0.update(i, Structure::Inserter(p, if drop.0 { emptied } else { moved }))
            &&& slots1 == drop.1
            &&& ret == Ok::<Option<FrameProcResult>, ()>(None)
        },
    }
}

/// The first item found on a tile from slot `k` on lies in a slot from
/// `k` on.
pub proof fn lemma_first_on_tile_bounds(slots: Seq<GenEntry<DropItem>>, pos: Position, k: int)
    requires
        0 <= k,
    ensures
        first_on_tile_from(slots, pos, k) matches Some(i) ==> k <= i < slots.len(),
    decreases slots.len() - k,
{
    if k < slots.len() {
        lemma_first_on_tile_bounds(slots, pos, k + 1);
    }
}

/// The first item an arm may pick up is the same whether the destination
/// is read through an [`InserterTarget`] or from the map, when both agree
/// on every item.
proof fn lemma_first_taken_agrees(offer: Seq<ItemType>, tg: Option<InserterTarget>, ss: Seq<Structure>, out: Option<int>, k: int)
    requires
        0 <= k <= offer.len(),
        forall|t: ItemType| takes(tg, t) == arm_takes(ss, out, t),
        forall|j: int| 0 <= j < k ==> !takes(tg, #[trigger] offer[j]),
    ensures
        first_taken(offer, tg) == first_taken_from(offer, ss, out, k),
    decreases offer.len() - k,
{
    if k < offer.len() {
        if arm_takes(ss, out, offer[k]) {
            assert(takes(tg, offer[k]));
            let c = choose|c: int| 0 <= c < offer.len() && takes(tg, #[trigger] offer[c])
                && forall|j: int| 0 <= j < c ==> !takes(tg, #[trigger] offer[j]);
            if c < k {
                assert(!takes(tg, offer[c]));
            } else if c > k {
                assert(!takes(tg, offer[k]));
            }
        } else {
            lemma_first_taken_agrees(offer, tg, ss, out, k + 1);
        }
    } else {
        assert(!(exists|c: int| 0 <= c < offer.len() && takes(tg, #[trigger] offer[c])));
    }
}

/// The item kinds, in declaration order, that a structure takes in.
fn accepted_kinds(s: &Structure) -> (ret: Vec<ItemType>)
    requires
        forall|t: ItemType| input_fits(*s, t),
    ensures
        forall|t: ItemType| ret@.contains(t) == accepts(*s, t),
{
    let mut ret: Vec<ItemType> = Vec::new();
    let mut k: usize = 0;
    while k < NUM_ITEM_TYPES
        invariant
            k <= NUM_ITEM_TYPES,
            forall|t: ItemType| input_fits(*s, t),
            forall|j: int| 0 <= j < ret@.len() ==> accepts(*s, #[trigger] ret@[j]) && item_index_spec(ret@[j]) < k,
            forall|j: int| 0 <= j < k ==> accepts(*s, #[trigger] item_at_spec(j)) ==> ret@.contains(item_at_spec(j)),
        decreases NUM_ITEM_TYPES - k,
    {
        let t = item_at(k);
        proof {
            lemma_item_at_bijective(k as int);
        }
        if s.can_input(&t) {
            let ghost before = ret@;
            ret.push(t);
            proof {
                assert(ret@[ret@.len() - 1] == t);
                assert forall|j: int| 0 <= j < k + 1 && accepts(*s, #[trigger] item_at_spec(j)) implies ret@.contains(item_at_spec(j)) by {
                    if j < k {
                        assert(before.contains(item_at_spec(j)));
                        let w = choose|w: int| 0 <= w < before.len() && before[w] == item_at_spec(j);
                        assert(ret@[w] == before[w]);
                    } else {
                        assert(ret@[ret@.len() - 1] == item_at_spec(j));
                    }
                }
            }
        }
        k += 1;
    }
    proof {
        assert forall|t: ItemType| ret@.contains(t) == accepts(*s, t) by {
            lemma_item_index_bijective(t);
            if accepts(*s, t) {
                assert(accepts(*s, item_at_spec(item_index_spec(t))));
            }
        }
    }
    ret
}

/// The kinds of the entries of `entries`, in order.
fn kinds_of(entries: &Vec<(ItemType, usize)>) -> (ret: Vec<ItemType>)
    ensures
        ret@ == entries@.map_values(|e: (ItemType, usize)| e.0),
{
    let mut ret: Vec<ItemType> = Vec::new();
    let mut k: usize = 0;
    while k < entries.len()
        invariant
            k <= entries.len(),
            ret@ == entries@.take(k as int).map_values(|e: (ItemType, usize)| e.0),
        decreases entries.len() - k,
    {
        ret.push(entries[k].0);
        proof {
            assert(entries@.take(k + 1) =~= entries@.take(k as int).push(entries@[k as int]));
            assert(entries@.take(k + 1).map_values(|e: (ItemType, usize)| e.0) =~= entries@.take(k as int).map_values(
                |e: (ItemType, usize)| e.0,
            ).push(entries@[k as int].0));
        }
        k += 1;
    }
    proof {
        assert(entries@.take(entries.len() as int) =~= entries@);
    }
    ret
}

impl World {
    /// The index of the structure that handle `id` names, if it names one
    /// other than the one at `i`.
    fn linked(&self, id: Option<StructureId>, i: usize) -> (ret: Option<usize>)
        ensures
            match ret {
                Some(j) => linked_index(self.structures@, id, i as int) == Some(j as int),
                None => linked_index(self.structures@, id, i as int) is None,
            },
    {
        match id {
            Some(h) => {
                let j = h.id as usize;
                if h.gen == 0 && j < self.structures.len() && j != i {
                    Some(j)
                } else {
                    None
                }
            },
            None => None,
        }
    }

    /// Puts `s` in place of the structure at index `i`.
    fn replace_structure(&mut self, i: usize, s: Structure)
        requires
            i < old(self).structures@.len(),
        ensures
            final(self).structures@ == old(self).structures@.update(i as int, s),
            final(self).width == old(self).width,
            final(self).height == old(self).height,
            final(self).drop_items == old(self).drop_items,
            final(self).player == old(self).player,
            final(self).tools == old(self).tools,
            final(self).selected_inventory == old(self).selected_inventory,
            final(self).selected_structure_item == old(self).selected_structure_item,
    {
        let ghost ss0 = self.structures@;
        let _ = self.structures.remove(i);
        self.structures.insert(i, s);
        assert(self.structures@ =~= ss0.update(i as int, s));
    }

    /// What the arm `ins` of the inserter at index `i`, on tile `p`,
    /// decides this frame (see [`arm_decides`]), leaving `ins` holding and
    /// swinging as decided; with the handle of the item lying behind it and
    /// the indices of the structures behind and in front of it.
    fn decide_arm(&self, i: usize, p: Position, ins: &mut Inserter) -> (ret: (InserterAction, Option<GenId<DropItem>>, Option<usize>, Option<usize>))
        requires
            self.wf(),
            i < self.structures@.len(),
            self.structures@[i as int] == Structure::Inserter(p, *old(ins)),
            within_pixels(p, 1),
            front_fits(self.structures@, *old(ins), i as int),
        ensures
            ({
                let ss = self.structures@;
                let slots = self.drop_items.slots();
                let back = arm_side(p, old(ins).rotation, -1);
                let inl = linked_index(ss, old(ins).input_structure, i as int);
                let outl = linked_index(ss, old(ins).output_structure, i as int);
                let offer = match inl {
                    Some(j) => Some(offer_kinds(output_store_of(ss[j]))),
                    None => None,
                };
                &&& (ret.0, final(ins).hold_item, final(ins).cooldown) == arm_decides(*old(ins), ground_item(slots, back), offer, ss, outl)
                &&& *final(ins) == with_arm(*old(ins), final(ins).hold_item, final(ins).cooldown)
                &&& match ret.2 {
                    Some(j) => inl == Some(j as int),
                    None => inl is None,
                }
                &&& match ret.3 {
                    Some(j) => outl == Some(j as int),
                    None => outl is None,
                }
                &&& match first_on_tile_from(slots, back, 0) {
                    Some(k) => ret.1 == Some(handle::<DropItem>(k, slots[k].gen)),
                    None => ret.1 is None,
                }
            }),
    {
        let ghost ss0 = self.structures@;
        let d = ins.rotation.delta();
        let back = Position { x: p.x - d.0, y: p.y - d.1 };
        let inl = self.linked(ins.input_structure, i);
        let outl = self.linked(ins.output_structure, i);
        let ghost outl_spec = linked_index(ss0, old(ins).output_structure, i as int);
        let found = find_item(&self.drop_items, &back);
        let (ground, ground_id) = match found {
            Some((id, it)) => (Some(it.type_), Some(id)),
            None => (None, None),
        };
        let offer: Option<Vec<ItemType>> = match inl {
            Some(j) => {
                let inv = self.structures[j].can_output();
                let entries = inv.entries();
                Some(kinds_of(&entries))
            },
            None => None,
        };
        let target: Option<InserterTarget> = match outl {
            Some(j) => {
                Some(InserterTarget { movable: self.structures[j].movable(), accepts: accepted_kinds(&self.structures[j]) })
            },
            None => None,
        };
        let ghost tg = match &target {
            Some(t) => Some(*t),
            None => None,
        };
        proof {
            assert forall|t: ItemType| takes(tg, t) == arm_takes(ss0, outl_spec, t) by {}
            match &offer {
                Some(o) => {
                    lemma_first_taken_agrees(o@, tg, ss0, outl_spec, 0);
                },
                None => {},
            }
        }
        let action = ins.frame_proc(ground, offer.as_ref(), target.as_ref());
        (action, ground_id, inl, outl)
    }

    /// One frame of the inserter at index `i` (see [`arm_stepped`]).
    pub fn step_inserter(&mut self, i: usize) -> (ret: Result<Option<FrameProcResult>, ()>)
        requires
            old(self).wf(),
            i < old(self).structures@.len(),
            old(self).structures@[i as int] is Inserter,
            within_pixels(position_of(old(self).structures@[i as int]), 1),
            old(self).drop_items.can_add(),
            front_fits(old(self).structures@, old(self).structures@[i as int]->Inserter_1, i as int),
        ensures
            final(self).wf(),
            final(self).width == old(self).width,
            final(self).height == old(self).height,
            final(self).player == old(self).player,
            final(self).tools == old(self).tools,
            final(self).selected_inventory == old(self).selected_inventory,
            final(self).selected_structure_item == old(self).selected_structure_item,
            arm_stepped(
                old(self).structures@,
                old(self).drop_items.slots(),
                old(self).drop_items.chain(),
                old(self).width,
                old(self).height,
                i as int,
                final(self).structures@,
                final(self).drop_items.slots(),
                ret,
            ),
    {
        let ghost ss0 = self.structures@;
        proof {
            self.drop_items.lemma_wf_len();
        }
        let (p, mut ins) = match &self.structures[i] {
            Structure::Inserter(p, ins) => (
                *p,
                Inserter {
                    rotation: ins.rotation,
                    cooldown: ins.cooldown,
                    hold_item: ins.hold_item,
                    input_structure: ins.input_structure,
                    output_structure: ins.output_structure,
                },
            ),
            _ => {
                return Ok(None);
            },
        };
        let ghost slots0 = self.drop_items.slots();
        let ghost chain0 = self.drop_items.chain();
        let ghost width = self.width;
        let ghost height = self.height;
        let d = ins.rotation.delta();
        let front = Position { x: p.x + d.0, y: p.y + d.1 };
        let (action, ground_id, inl, outl) = self.decide_arm(i, p, &mut ins);
        match action {
            InserterAction::Wait => {
                self.replace_structure(i, Structure::Inserter(p, ins));
                let ret = Ok(None);
                assert(arm_stepped(ss0, slots0, chain0, width, height, i as int, self.structures@, self.drop_items.slots(), ret));
                ret
            },
            InserterAction::TakeFromGround(_) => {
                proof {
                    lemma_first_on_tile_bounds(self.drop_items.slots(), arm_side(p, ins.rotation, -1), 0);
                }
                match ground_id {
                    Some(id) => {
                        self.drop_items.remove(id);
                    },
                    None => {},
                }
                self.replace_structure(i, Structure::Inserter(p, ins));
                let ret = Ok(None);
                assert(arm_stepped(ss0, slots0, chain0, width, height, i as int, self.structures@, self.drop_items.slots(), ret));
                ret
            },
            InserterAction::TakeFromStructure(t) => {
                let j = inl.unwrap();
                let mut s = self.structures.remove(j);
                let r = s.output(&t);
                self.structures.insert(j, s);
                proof {
                    assert(self.structures@ =~= ss0.update(j as int, s));
                }
                self.replace_structure(i, Structure::Inserter(p, ins));
                proof {
                    lemma_answers_determined(ss0[j as int], t, self.structures@[j as int], r is Ok);
                }
                let ret = match r {
                    Ok(_) => {
                        let back = Position { x: p.x - d.0, y: p.y - d.1 };
                        Ok(Some(FrameProcResult::InventoryChanged(back)))
                    },
                    Err(_) => Err(()),
                };
                assert(arm_stepped(ss0, slots0, chain0, width, height, i as int, self.structures@, self.drop_items.slots(), ret));
                ret
            },
            InserterAction::PutIntoStructure(t) => {
                let j = outl.unwrap();
                let mut s = self.structures.remove(j);
                let r = s.input(&t);
                let movable = s.movable();
                self.structures.insert(j, s);
                proof {
                    assert(self.structures@ =~= ss0.update(j as int, s));
                }
                let next = ins.delivered(r.is_ok(), movable);
                match next {
                    InserterAction::DropOnGround(_) => {
                        let ok = new_object(&mut self.drop_items, self.width, self.height, front.x, front.y, t, None).is_ok();
                        ins.dropped(ok);
                    },
                    _ => {},
                }
                self.replace_structure(i, Structure::Inserter(p, ins));
                proof {
                    lemma_answers_determined(ss0[j as int], t, self.structures@[j as int], r is Ok);
                }
                let ret = match r {
                    Ok(_) => Ok(Some(FrameProcResult::InventoryChanged(front))),
                    Err(_) => Ok(None),
                };
                assert(arm_stepped(ss0, slots0, chain0, width, height, i as int, self.structures@, self.drop_items.slots(), ret));
                ret
            },
            InserterAction::DropOnGround(t) => {
                let ok = new_object(&mut self.drop_items, self.width, self.height, front.x, front.y, t, None).is_ok();
                ins.dropped(ok);
                self.replace_structure(i, Structure::Inserter(p, ins));
                let ret = Ok(None);
                assert(arm_stepped(ss0, slots0, chain0, width, height, i as int, self.structures@, self.drop_items.slots(), ret));
                ret
            },
        }
    }
}

} // verus!
