//! Ore mines at work on the map: once a mine has dug out a unit (the
//! simulation that advances runs decides when), the unit goes into the
//! structure in front when it takes it, or onto the ground in front.
use crate::arms::{linked_index, others_kept};
use crate::drop_items::{hit_check, hits, DropItem};
use crate::gen_set::GenEntry;
use crate::ground::{new_object, placed, placement};
use crate::inventory::entries_of;
use crate::items::ItemType;
use crate::ore_mine::{first_minable, lemma_first_minable, minable, mined, ore_left, output_plan, output_spec, MineOutput, OreMine};
use crate::structure::{within_pixels, FrameProcResult};
use crate::terrain::Cell;
use crate::buildings::{
    accepts, input_fits, lemma_answers_determined, movable_spec, takes_in, took_in, Structure
};
use crate::world::World;
use vstd::prelude::*;

verus! {

/// The item a mine digs: the first kind its recipe puts out, if it has a
/// recipe that puts anything out.
pub open spec fn mine_item(m: OreMine) -> Option<ItemType> {
    match m.recipe {
        Some(r) => if entries_of(r.output@).len() > 0 { Some(entries_of(r.output@)[0].0) } else { None },
        None => None,
    }
}

/// Where the unit of the mine at index `i` goes (see [`output_plan`]):
/// into the structure in front if it takes the item; nowhere if that
/// structure is no belt; otherwise onto the tile in front when it is dry
/// (`dry`) and no item lies close to its centre.
pub open spec fn delivery_plan(ss: Seq<Structure>, slots: Seq<GenEntry<DropItem>>, dry: bool, i: int, item: ItemType) -> MineOutput {
    let m = ss[i]->OreMine_0;
    let out = output_spec(m.position, m.rotation);
    let center = placed(item, out.x as int, out.y as int);
    let ground_free = !hits(slots, center.x as int, center.y as int, None) && dry;
    match linked_index(ss, m.output_structure, i) {
        Some(j) => if accepts(ss[j], item) {
            MineOutput::Feed
        } else if !movable_spec(ss[j]) {
            MineOutput::Stall
        } else if ground_free {
            MineOutput::Drop
        } else {
            MineOutput::Blocked
        },
        None => if ground_free { MineOutput::Drop } else { MineOutput::Blocked },
    }
}

/// The mine `m` after digging a unit out of `cells`: when a tile runs out
/// the mine stops mining.
pub open spec fn after_dig(m: OreMine, cells: Seq<Cell>, item: ItemType) -> OreMine {
    match first_minable(cells, item) {
        Some(k) => OreMine { recipe: if ore_left(cells[k]) == 1 { None } else { m.recipe }, ..m },
        None => m,
    }
}

/// The tiles `cells` after digging a unit of `item` out of the first one
/// that has any.
pub open spec fn cells_after_dig(cells: Seq<Cell>, item: ItemType) -> Seq<Cell> {
    match first_minable(cells, item) {
        Some(k) => cells.update(k, mined(cells[k])),
        None => cells,
    }
}

/// Delivering a unit dug out by the mine at index `i`, whose tiles are
/// `cells0`, took structures `ss0`, ground slots `slots0` (free list
/// `chain0`) on a map of `width` by `height` tiles to `ss1`, `slots1` and
/// `cells1`, reporting `ret`; `dry` tells whether the tile in front is dry
/// land. Without an item to dig the delivery fails. Feeding the structure
/// in front digs the unit out of the first tile that has ore for it (a
/// mine whose tiles have none stops mining and fails), then hands it over:
/// if the structure takes it the run is over and its tile is reported,
/// otherwise the delivery fails. Dropping puts the item on the tile in
/// front (the other structures are not consulted) and, if it lies there,
/// digs the unit out; the run is over either way. Otherwise nothing
/// happens.
pub open spec fn ore_delivered(
    ss0: Seq<Structure>,
    slots0: Seq<GenEntry<DropItem>>,
    chain0: Seq<usize>,
    cells0: Seq<Cell>,
    width: u32,
    height: u32,
    dry: bool,
    i: int,
    ss1: Seq<Structure>,
    slots1: Seq<GenEntry<DropItem>>,
    cells1: Seq<Cell>,
    ret: Result<Option<FrameProcResult>, ()>,
) -> bool {
    let m = ss0[i]->OreMine_0;
    let out = output_spec(m.position, m.rotation);
    match mine_item(m) {
        None => ss1 == ss0 && slots1 == slots0 && cells1 == cells0 && ret == Err::<Option<FrameProcResult>, ()>(()),
        Some(item) => match delivery_plan(ss0, slots0, dry, i, item) {
            MineOutput::Feed => {
                let j = linked_index(ss0, m.output_structure, i)->0;
                let dug = after_dig(m, cells0, item);
                &&& slots1 == slots0
                &&& cells1 == cells_after_dig(cells0, item)
                &&& match first_minable(cells0, item) {
                    Some(_) => {
                        &&& others_kept(ss0, ss1, i, j)
                        &&& took_in(ss0[j], item, ss1[j], takes_in(ss0[j], item))
                        &&& if takes_in(ss0[j], item) {
                            ss1[i] == Structure::OreMine(OreMine { in_progress: false, ..dug })
                                && ret == Ok::<Option<FrameProcResult>, ()>(Some(FrameProcResult::InventoryChanged(out)))
                        } else {
                            ss1[i] == Structure::OreMine(dug) && ret == Err::<Option<FrameProcResult>, ()>(())
                        }
                    },
                    None => ss1 == ss0.update(i, Structure::OreMine(OreMine { recipe: None, ..m })) && ret == Err::<
                        Option<FrameProcResult>,
                        (),
                    >(()),
                }
            },
            MineOutput::Drop => {
                let drop = placement(slots0, chain0, width, height, out.x as int, out.y as int, item, None);
                let dug = if drop.0 { after_dig(m, cells0, item) } else { m };
                &&& slots1 == drop.1
                &&& cells1 == if drop.0 { cells_after_dig(cells0, item) } else { cells0 }
                &&& ss1 == ss0.update(i, Structure::OreMine(OreMine { in_progress: false, ..dug }))
                &&& ret == Ok::<Option<FrameProcResult>, ()>(None)
            },
            _ => ss1 == ss0 && slots1 == slots0 && cells1 == cells0 && ret == Ok::<Option<FrameProcResult>, ()>(None),
        },
    }
}

/// A delivery digs at most one unit of ore out of the mine's tiles: either
/// no tile changes, or exactly one tile that held ore of the kind the mine
/// digs loses one unit of it (going away when it was the last), and every
/// other tile stays as it was.
pub proof fn lemma_delivery_digs_at_most_one(
    ss0: Seq<Structure>,
    slots0: Seq<GenEntry<DropItem>>,
    chain0: Seq<usize>,
    cells0: Seq<Cell>,
    width: u32,
    height: u32,
    dry: bool,
    i: int,
    ss1: Seq<Structure>,
    slots1: Seq<GenEntry<DropItem>>,
    cells1: Seq<Cell>,
    ret: Result<Option<FrameProcResult>, ()>,
)
    requires
        ore_delivered(ss0, slots0, chain0, cells0, width, height, dry, i, ss1, slots1, cells1, ret),
    ensures
        cells1 == cells0 || exists|k: int|
            0 <= k < cells0.len() && minable(cells0[k], mine_item(ss0[i]->OreMine_0)->0) && cells1 == cells0.update(k, mined(
                cells0[k],
            )) && ore_left(cells1[k]) == ore_left(cells0[k]) - 1,
{
    let m = ss0[i]->OreMine_0;
    if let Some(item) = mine_item(m) {
        lemma_first_minable(cells0, item);
        if let Some(k) = first_minable(cells0, item) {
            if cells1 != cells0 {
                assert(cells1 == cells0.update(k, mined(cells0[k])));
                assert(cells1[k] == mined(cells0[k]));
            }
        }
    }
}

impl World {
    /// Digs a unit of `item` out of `cells` for the mine at index `i`: for
    /// the structure in front (`for_structure`), where a mine whose tiles
    /// have none stops mining and fails, or for the ground.
    fn dig_at(&mut self, i: usize, cells: &mut Vec<Cell>, item: &ItemType, for_structure: bool) -> (ret: Result<(), ()>)
        requires
            i < old(self).structures@.len(),
            old(self).structures@[i as int] is OreMine,
        ensures
            ({
                let m = old(self).structures@[i as int]->OreMine_0;
                let none_left = first_minable(old(cells)@, *item) is None;
                &&& final(cells)@ == cells_after_dig(old(cells)@, *item)
                &&& final(self).structures@ == old(self).structures@.update(
                    i as int,
                    Structure::OreMine(if none_left && for_structure { OreMine { recipe: None, ..m } } else { after_dig(m, old(cells)@, *item) }),
                )
                &&& ret is Ok == !(none_left && for_structure)
            }),
            final(self).width == old(self).width,
            final(self).height == old(self).height,
            final(self).drop_items == old(self).drop_items,
            final(self).player == old(self).player,
            final(self).tools == old(self).tools,
            final(self).selected_inventory == old(self).selected_inventory,
            final(self).selected_structure_item == old(self).selected_structure_item,
    {
        let ghost ss0 = self.structures@;
        let mut s = self.structures.remove(i);
        let ret = match &mut s {
            Structure::OreMine(m) => {
                if for_structure {
                    m.dig_for_structure(cells, item)
                } else {
                    m.dig_for_ground(cells, item);
                    Ok(())
                }
            },
            _ => Err(()),
        };
        self.structures.insert(i, s);
        assert(self.structures@ =~= ss0.update(i as int, s));
        ret
    }

    /// Ends the run of the mine at index `i`.
    fn end_run_at(&mut self, i: usize)
        requires
            i < old(self).structures@.len(),
            old(self).structures@[i as int] is OreMine,
        ensures
            final(self).structures@ == old(self).structures@.update(
                i as int,
                Structure::OreMine(OreMine { in_progress: false, ..old(self).structures@[i as int]->OreMine_0 }),
            ),
            final(self).width == old(self).width,
            final(self).height == old(self).height,
            final(self).drop_items == old(self).drop_items,
            final(self).player == old(self).player,
            final(self).tools == old(self).tools,
            final(self).selected_inventory == old(self).selected_inventory,
            final(self).selected_structure_item == old(self).selected_structure_item,
    {
        let ghost ss0 = self.structures@;
        let mut s = self.structures.remove(i);
        match &mut s {
            Structure::OreMine(m) => {
                m.in_progress = false;
            },
            _ => {},
        }
        self.structures.insert(i, s);
        assert(self.structures@ =~= ss0.update(i as int, s));
    }

    /// Delivers a unit dug out by the mine at index `i`, whose tiles are
    /// `cells` (see [`ore_delivered`]); `output_dry` tells whether the tile
    /// in front is dry land.
    #[verifier::rlimit(40)]
    pub fn deliver_ore(&mut self, i: usize, cells: &mut Vec<Cell>, output_dry: bool) -> (ret: Result<Option<FrameProcResult>, ()>)
        requires
            old(self).wf(),
            i < old(self).structures@.len(),
            old(self).structures@[i as int] is OreMine,
            within_pixels(old(self).structures@[i as int]->OreMine_0.position, 2),
            old(self).drop_items.can_add(),
            forall|j: int, t: ItemType|
                linked_index(old(self).structures@, old(self).structures@[i as int]->OreMine_0.output_structure, i as int) == Some(j)
                    ==> #[trigger] input_fits(old(self).structures@[j], t),
        ensures
            final(self).wf(),
            final(self).width == old(self).width,
            final(self).height == old(self).height,
            final(self).player == old(self).player,
            final(self).tools == old(self).tools,
            final(self).selected_inventory == old(self).selected_inventory,
            final(self).selected_structure_item == old(self).selected_structure_item,
            ore_delivered(
                old(self).structures@,
                old(self).drop_items.slots(),
                old(self).drop_items.chain(),
                old(cells)@,
                old(self).width,
                old(self).height,
                output_dry,
                i as int,
                final(self).structures@,
                final(self).drop_items.slots(),
                final(cells)@,
                ret,
            ),
    {
        let ghost ss0 = self.structures@;
        let ghost slots0 = self.drop_items.slots();
        let ghost chain0 = self.drop_items.chain();
        let ghost cells0 = cells@;
        let (item, out, link) = match &self.structures[i] {
            Structure::OreMine(m) => {
                let item = match &m.recipe {
                    Some(r) => {
                        let entries = r.output.entries();
                        if entries.len() == 0 {
                            return Err(());
                        }
                        entries[0].0
                    },
                    None => {
                        return Err(());
                    },
                };
                (item, m.output_pos(), m.output_structure)
            },
            _ => {
                return Err(());
            },
        };
        let outl = match link {
            Some(h) => {
                let j = h.id as usize;
                if h.gen == 0 && j < self.structures.len() && j != i {
                    Some(j)
                } else {
                    None
                }
            },
            None => None,
        };
        let center = DropItem::new(item, out.x, out.y);
        let ground_free = !hit_check(&self.drop_items, center.x, center.y, None) && output_dry;
        let target = match outl {
            Some(j) => {
                proof {
                    assert(input_fits(ss0[j as int], item));
                }
                Some((self.structures[j].can_input(&item), self.structures[j].movable()))
            },
            None => None,
        };
        let plan = output_plan(target, ground_free);
        match plan {
            MineOutput::Feed => {
                let j = outl.unwrap();
                let dug = self.dig_at(i, cells, &item, true);
                match dug {
                    Ok(()) => {
                        let ghost ss1 = self.structures@;
                        let mut s = self.structures.remove(j);
                        let r = s.input(&item);
                        self.structures.insert(j, s);
                        proof {
                            assert(self.structures@ =~= ss1.update(j as int, s));
                            lemma_answers_determined(ss0[j as int], item, s, r is Ok);
                        }
                        let ghost ss_b = self.structures@;
                        if r.is_ok() {
                            self.end_run_at(i);
                        }
                        proof {
                            let m = ss0[i as int]->OreMine_0;
                            let dug = after_dig(m, cells0, item);
                            assert(ss_b[i as int] == Structure::OreMine(dug));
                            if r.is_ok() {
                                assert(self.structures@[i as int] == Structure::OreMine(OreMine { in_progress: false, ..dug }));
                            }
                            assert(others_kept(ss0, self.structures@, i as int, j as int));
                        }
                        let ret = match r {
                            Ok(_) => Ok(Some(FrameProcResult::InventoryChanged(out))),
                            Err(_) => Err(()),
                        };
                        assert(ore_delivered(ss0, slots0, chain0, cells0, self.width, self.height, output_dry, i as int, self.structures@, self.drop_items.slots(), cells@, ret));
                        ret
                    },
                    Err(()) => {
                        let ret = Err(());
                        assert(ore_delivered(ss0, slots0, chain0, cells0, self.width, self.height, output_dry, i as int, self.structures@, self.drop_items.slots(), cells@, ret));
                        ret
                    },
                }
            },
            MineOutput::Drop => {
                let placed_ok = new_object(&mut self.drop_items, self.width, self.height, out.x, out.y, item, None).is_ok();
                if placed_ok {
                    self.dig_at(i, cells, &item, false);
                }
                let ghost ss_b = self.structures@;
                self.end_run_at(i);
                proof {
                    let m = ss0[i as int]->OreMine_0;
                    let dug = if placed_ok { after_dig(m, cells0, item) } else { m };
                    assert(ss_b[i as int] == Structure::OreMine(dug));
                    assert(self.structures@ =~= ss0.update(i as int, Structure::OreMine(OreMine { in_progress: false, ..dug })));
                }
                let ret = Ok(None);
                assert(ore_delivered(ss0, slots0, chain0, cells0, self.width, self.height, output_dry, i as int, self.structures@, self.drop_items.slots(), cells@, ret));
                ret
            },
            _ => Ok(None),
        }
    }
}

} // verus!
