//! One frame of the items lying on the map: each is carried by the belt
//! under it, handed to the structure it reaches, or left where it is.
use crate::belts::{transport_spec, TransportBelt};
use crate::buildings::{Structure, first_at, lemma_first_at_from, movable_spec};
use crate::chest::{Chest, CHEST_CAPACITY};
use crate::drop_items::{hit_check, hits, DropItem};
use crate::gen_set::{handle, payload_value, GenEntry, GenId, GenPayload};
use crate::inventory::{added, count_of, entries_of, removed};
use crate::items::ItemType;
use crate::structure::{FrameProcResult, ItemResponse, Position, Rotation};
use crate::world::World;
use vstd::prelude::*;

verus! {

/// The tile that the pixel at `(x, y)`, both at least zero, lies in.
pub open spec fn pixel_tile(x: int, y: int) -> Position {
    Position { x: (x / 32) as i32, y: (y / 32) as i32 }
}

/// Whether pixel `(x, y)` lies strictly inside a map of `width` by
/// `height` tiles.
pub open spec fn on_map(width: u32, height: u32, x: int, y: int) -> bool {
    0 < x < width * 32 && 0 < y < height * 32
}

/// Whether every count of every chest among `ss` can grow by `k` within a
/// machine word.
pub open spec fn chests_fit(ss: Seq<Structure>, k: int) -> bool {
    forall|j: int, t: ItemType|
        #![trigger ss[j], count_of(ss[j]->Chest_0.inventory@, t)]
        0 <= j < ss.len() && ss[j] is Chest ==> count_of(ss[j]->Chest_0.inventory@, t) + k < usize::MAX
}

/// One step of the item in slot `i` of the ground, on a map of `width` by
/// `height` tiles: from structures `ss0`, slots `slots0` and consumed
/// handles `rem0` to `ss1`, `slots1` and `rem1`, reporting `ev`. An item
/// strictly inside the map that lies on a structure gets its answer: on a
/// belt it moves along when no other item lies close to the new place and
/// a belt stands there; a chest with room takes it in (the item is noted
/// for removal and the chest's change reported). Anything else stays.
pub open spec fn item_stepped(
    width: u32,
    height: u32,
    ss0: Seq<Structure>,
    slots0: Seq<GenEntry<DropItem>>,
    rem0: Seq<GenId<DropItem>>,
    i: int,
    ss1: Seq<Structure>,
    slots1: Seq<GenEntry<DropItem>>,
    rem1: Seq<GenId<DropItem>>,
    ev: Option<FrameProcResult>,
) -> bool {
    let unchanged = ss1 == ss0 && slots1 == slots0 && rem1 == rem0 && ev is None;
    match payload_value(slots0[i].item) {
        None => unchanged,
        Some(it) => if !on_map(width, height, it.x as int, it.y as int) {
            unchanged
        } else {
            match first_at(ss0, pixel_tile(it.x as int, it.y as int)) {
                None => unchanged,
                Some(j) => match ss0[j] {
                    Structure::TransportBelt(b) => {
                        let (mx, my) = transport_spec(b.rotation, it.x as int, it.y as int);
                        let free = !hits(slots0, mx, my, Some(handle(i, slots0[i].gen)));
                        let onto_belt = match first_at(ss0, pixel_tile(mx, my)) {
                            Some(k) => movable_spec(ss0[k]),
                            None => false,
                        };
                        &&& ss1 == ss0
                        &&& rem1 == rem0
                        &&& ev is None
                        &&& slots1 == if free && onto_belt {
                            slots0.update(i, GenEntry { gen: slots0[i].gen, item: GenPayload::Occupied(DropItem { x: mx as i32, y: my as i32, ..it }) })
                        } else {
                            slots0
                        }
                    },
                    Structure::Chest(c) => if entries_of(c.inventory@).len() < CHEST_CAPACITY {
                        &&& ss1.len() == ss0.len()
                        &&& forall|k: int| 0 <= k < ss0.len() && k != j ==> ss1[k] == ss0[k]
                        &&& ss1[j] is Chest
                        &&& ss1[j]->Chest_0.position == c.position
                        &&& ss1[j]->Chest_0.inventory@ == added(c.inventory@, it.type_, 1)
                        &&& slots1 == slots0
                        &&& rem1 == rem0.push(handle(i, slots0[i].gen))
                        &&& ev == Some(FrameProcResult::InventoryChanged(c.position))
                    } else {
                        unchanged
                    },
                    _ => unchanged,
                },
            }
        },
    }
}

/// The state of the item phase after some steps: the structures, the
/// ground's slots, the handles of the items taken, and the changes
/// reported so far.
pub type ItemPhase = (Seq<Structure>, Seq<GenEntry<DropItem>>, Seq<GenId<DropItem>>, Seq<FrameProcResult>);

/// Stepping the item in slot `k` (see [`item_stepped`]) leads from phase
/// `a` to phase `b`, whose reports gain the change reported, if any.
pub open spec fn step_link(width: u32, height: u32, a: ItemPhase, b: ItemPhase, k: int) -> bool {
    ||| item_stepped(width, height, a.0, a.1, a.2, k, b.0, b.1, b.2, None) && b.3 == a.3
    ||| b.3.len() > 0 && b.3 == a.3.push(b.3.last()) && item_stepped(
        width,
        height,
        a.0,
        a.1,
        a.2,
        k,
        b.0,
        b.1,
        b.2,
        Some(b.3.last()),
    )
}

/// `trace` lists the phases of stepping the items of the ground in slot
/// order, from structures `ss0` and slots `slots0` with nothing taken or
/// reported: each phase follows from the one before by the step of the
/// next slot.
pub open spec fn stepped_trace(width: u32, height: u32, ss0: Seq<Structure>, slots0: Seq<GenEntry<DropItem>>, trace: Seq<ItemPhase>) -> bool {
    &&& trace.len() >= 1
    &&& trace[0] == (ss0, slots0, Seq::<GenId<DropItem>>::empty(), Seq::<FrameProcResult>::empty())
    &&& forall|k: int| 0 <= k < trace.len() - 1 ==> #[trigger] step_link(width, height, trace[k], trace[k + 1], k)
}

/// `slots` with the slot of each handle of `rem` emptied, its generation
/// kept.
pub open spec fn freed(slots: Seq<GenEntry<DropItem>>, rem: Seq<GenId<DropItem>>) -> Seq<GenEntry<DropItem>>
    decreases rem.len(),
{
    if rem.len() == 0 {
        slots
    } else {
        let s = freed(slots, rem.drop_last());
        s.update(rem.last().id as int, GenEntry { gen: s[rem.last().id as int].gen, item: GenPayload::Free(None) })
    }
}

/// A belt moving an item that lies right of and below the origin keeps it
/// there or on the axes.
proof fn lemma_transport_stays_right_of_zero(rotation: Rotation, x: int, y: int)
    requires
        0 < x,
        0 < y,
    ensures
        transport_spec(rotation, x, y).0 >= 0,
        transport_spec(rotation, x, y).1 >= 0,
{
    assert((x / 32) * 32 + 16 >= 16) by (nonlinear_arith)
        requires
            0 < x,
    ;
    assert((y / 32) * 32 + 16 >= 16) by (nonlinear_arith)
        requires
            0 < y,
    ;
}

/// Emptying slots keeps the number of slots and every generation.
proof fn lemma_freed_keeps_gens(slots: Seq<GenEntry<DropItem>>, rem: Seq<GenId<DropItem>>)
    requires
        forall|q: int| 0 <= q < rem.len() ==> (#[trigger] rem[q]).id < slots.len(),
    ensures
        freed(slots, rem).len() == slots.len(),
        forall|k: int| 0 <= k < slots.len() ==> (#[trigger] freed(slots, rem)[k]).gen == slots[k].gen,
    decreases rem.len(),
{
    if rem.len() > 0 {
        lemma_freed_keeps_gens(slots, rem.drop_last());
    }
}

impl World {
    /// Steps the item in slot `i` of the ground (see [`item_stepped`]),
    /// noting it in `consumed` when a chest takes it.
    fn step_item(&mut self, i: usize, consumed: &mut Vec<GenId<DropItem>>) -> (ret: Option<FrameProcResult>)
        requires
            old(self).wf(),
            i < old(self).drop_items.slots().len(),
            old(self).width * 32 <= i32::MAX - 64,
            old(self).height * 32 <= i32::MAX - 64,
            chests_fit(old(self).structures@, 1),
        ensures
            final(self).wf(),
            final(self).width == old(self).width,
            final(self).height == old(self).height,
            final(self).player == old(self).player,
            final(self).tools == old(self).tools,
            final(self).selected_structure_item == old(self).selected_structure_item,
            final(self).selected_inventory == old(self).selected_inventory,
            item_stepped(
                old(self).width,
                old(self).height,
                old(self).structures@,
                old(self).drop_items.slots(),
                old(consumed)@,
                i as int,
                final(self).structures@,
                final(self).drop_items.slots(),
                final(consumed)@,
                ret,
            ),
    {
        let ghost ss0 = self.structures@;
        let ghost slots0 = self.drop_items.slots();
        proof {
            self.drop_items.lemma_wf_len();
        }
        let (it, gen) = {
            let entry = &self.drop_items.entries()[i];
            match &entry.item {
                GenPayload::Occupied(it) => (*it, entry.gen),
                GenPayload::Free(_) => {
                    return None;
                },
            }
        };
        let id = GenId::new(i as u32, gen);
        proof {
            GenId::lemma_same_handle(id, handle(i as int, gen));
        }
        let wpx: i64 = self.width as i64 * 32;
        let hpx: i64 = self.height as i64 * 32;
        if !(0 < it.x && (it.x as i64) < wpx && 0 < it.y && (it.y as i64) < hpx) {
            return None;
        }
        let tile = Position { x: it.x / 32, y: it.y / 32 };
        let j = match self.find_structure_tile(&tile) {
            Some(j) => j,
            None => {
                return None;
            },
        };
        proof {
            lemma_first_at_from(ss0, tile, 0);
        }
        let mut s = self.structures.remove(j);
        let r = s.item_response(&it);
        self.structures.insert(j, s);
        proof {
            assert(self.structures@ =~= ss0.update(j as int, s));
        }
        match r {
            Err(_) => {
                proof {
                    assert(self.structures@ =~= ss0);
                }
                None
            },
            Ok((resp, ev)) => match resp {
                ItemResponse::Move(mx, my) => {
                    proof {
                        assert(self.structures@ =~= ss0);
                        lemma_transport_stays_right_of_zero(ss0[j as int]->TransportBelt_0.rotation, it.x as int, it.y as int);
                    }
                    if hit_check(&self.drop_items, mx, my, Some(id)) {
                        return None;
                    }
                    let target = Position { x: mx / 32, y: my / 32 };
                    match self.find_structure_tile(&target) {
                        Some(k) => {
                            proof {
                                lemma_first_at_from(ss0, target, 0);
                            }
                            if !self.structures[k].movable() {
                                return None;
                            }
                        },
                        None => {
                            return None;
                        },
                    }
                    match self.drop_items.get_mut(id) {
                        Some(moved) => {
                            moved.x = mx;
                            moved.y = my;
                        },
                        None => {},
                    }
                    ev
                },
                ItemResponse::Consume => {
                    consumed.push(id);
                    ev
                },
                ItemResponse::Nothing => ev,
            },
        }
    }


    /// The item phase of a simulation step: each item on the ground, in
    /// slot order, takes its step (see [`stepped_trace`]); the items that
    /// chests took are then removed from the ground. Returns the changes
    /// to report, in order.
    pub fn step_items(&mut self) -> (ret: Vec<FrameProcResult>)
        requires
            old(self).wf(),
            old(self).width * 32 <= i32::MAX - 64,
            old(self).height * 32 <= i32::MAX - 64,
            chests_fit(old(self).structures@, old(self).drop_items.slots().len() as int),
        ensures
            final(self).wf(),
            final(self).width == old(self).width,
            final(self).height == old(self).height,
            final(self).player == old(self).player,
            final(self).tools == old(self).tools,
            final(self).selected_structure_item == old(self).selected_structure_item,
            final(self).selected_inventory == old(self).selected_inventory,
            exists|trace: Seq<ItemPhase>|
                {
                    &&& #[trigger] stepped_trace(old(self).width, old(self).height, old(self).structures@, old(self).drop_items.slots(), trace)
                    &&& trace.len() == old(self).drop_items.slots().len() + 1
                    &&& final(self).structures@ == trace.last().0
                    &&& ret@ == trace.last().3
                    &&& final(self).drop_items.slots() == freed(trace.last().1, trace.last().2)
                },
    {
        let ghost ss0 = self.structures@;
        let ghost slots0 = self.drop_items.slots();
        let ghost w0 = *self;
        proof {
            self.drop_items.lemma_wf_len();
        }
        let n = self.drop_items.entries().len();
        let mut consumed: Vec<GenId<DropItem>> = Vec::new();
        let mut events: Vec<FrameProcResult> = Vec::new();
        let ghost mut trace: Seq<ItemPhase> = seq![(ss0, slots0, Seq::<GenId<DropItem>>::empty(), Seq::<FrameProcResult>::empty())];
        let mut i: usize = 0;
        while i < n
            invariant
                self.wf(),
                self.width == w0.width,
                self.height == w0.height,
                self.player == w0.player,
                self.tools == w0.tools,
                self.selected_inventory == w0.selected_inventory,
                self.selected_structure_item == w0.selected_structure_item,
                w0.width * 32 <= i32::MAX - 64,
                w0.height * 32 <= i32::MAX - 64,
                n == slots0.len(),
                n <= u32::MAX,
                i <= n,
                self.drop_items.slots().len() == n,
                stepped_trace(w0.width, w0.height, ss0, slots0, trace),
                trace.len() == i + 1,
                trace.last() == (self.structures@, self.drop_items.slots(), consumed@, events@),
                chests_fit(self.structures@, n - i),
                forall|k: int| 0 <= k < n ==> (#[trigger] self.drop_items.slots()[k]).gen == slots0[k].gen,
                forall|k: int| 0 <= k < consumed@.len() ==> (#[trigger] consumed@[k]).id < n && consumed@[k].gen == slots0[consumed@[k].id as int].gen,
            decreases n - i,
        {
            let ghost ss_prev = self.structures@;
            let ghost slots_prev = self.drop_items.slots();
            let ghost rem_prev = consumed@;
            let ghost evs_prev = events@;
            let ev = self.step_item(i, &mut consumed);
            match ev {
                Some(e) => events.push(e),
                None => {},
            }
            proof {
                assert(item_stepped(w0.width, w0.height, ss_prev, slots_prev, rem_prev, i as int, self.structures@, self.drop_items.slots(), consumed@, ev));
                let next: ItemPhase = (self.structures@, self.drop_items.slots(), consumed@, events@);
                assert(step_link(w0.width, w0.height, trace.last(), next, i as int));
                let trace2 = trace.push(next);
                assert forall|k: int| 0 <= k < trace2.len() - 1 implies #[trigger] step_link(w0.width, w0.height, trace2[k], trace2[k + 1], k) by {
                    if k < trace.len() - 1 {
                        assert(trace2[k] == trace[k] && trace2[k + 1] == trace[k + 1]);
                    }
                }
                trace = trace2;
                assert(consumed@ == rem_prev || consumed@ == rem_prev.push(handle(i as int, slots_prev[i as int].gen)));
                assert forall|q: int| 0 <= q < consumed@.len() implies (#[trigger] consumed@[q]).id < n && consumed@[q].gen
                    == slots0[consumed@[q].id as int].gen by {
                    if q < rem_prev.len() {
                        assert(consumed@[q] == rem_prev[q]);
                    }
                }
                assert forall|j: int, t: ItemType|
                    #![trigger self.structures@[j], count_of(self.structures@[j]->Chest_0.inventory@, t)]
                    0 <= j < self.structures@.len() && self.structures@[j] is Chest implies count_of(
                    self.structures@[j]->Chest_0.inventory@,
                    t,
                ) + (n - (i + 1)) < usize::MAX by {
                    assert(ss_prev[j] is Chest);
                    assert(count_of(ss_prev[j]->Chest_0.inventory@, t) + (n - i) < usize::MAX);
                }
            }
            i += 1;
        }
        let ghost slots1 = self.drop_items.slots();
        let mut k: usize = 0;
        while k < consumed.len()
            invariant
                self.wf(),
                self.width == w0.width,
                self.height == w0.height,
                self.player == w0.player,
                self.tools == w0.tools,
                self.selected_inventory == w0.selected_inventory,
                self.selected_structure_item == w0.selected_structure_item,
                k <= consumed@.len(),
                slots1.len() == n,
                forall|q: int| 0 <= q < n ==> (#[trigger] slots1[q]).gen == slots0[q].gen,
                forall|q: int| 0 <= q < consumed@.len() ==> (#[trigger] consumed@[q]).id < n && consumed@[q].gen == slots0[consumed@[q].id as int].gen,
                self.drop_items.slots() == freed(slots1, consumed@.take(k as int)),
                stepped_trace(w0.width, w0.height, ss0, slots0, trace),
                trace.len() == n + 1,
                trace.last() == (self.structures@, slots1, consumed@, events@),
            decreases consumed.len() - k,
        {
            let id = consumed[k];
            proof {
                lemma_freed_keeps_gens(slots1, consumed@.take(k as int));
                assert(consumed@.take(k + 1).drop_last() =~= consumed@.take(k as int));
                assert(consumed@.take(k + 1).last() == id);
            }
            self.drop_items.remove(id);
            k += 1;
        }
        proof {
            assert(consumed@.take(consumed@.len() as int) =~= consumed@);
            assert(stepped_trace(w0.width, w0.height, ss0, slots0, trace));
        }
        events
    }
}

} // verus!
