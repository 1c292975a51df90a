//! The crafting part of a machine: input and output stores and a recipe.
use crate::inventory::{
    added, added_all, count_of, holds_all, merged, one_of_each, removed, subtracted, Inventory,
};
use crate::items::ItemType;
use crate::recipe::Recipe;
use vstd::prelude::*;

verus! {

/// The crafting state of a machine. A run of the recipe starts by taking
/// the ingredients out of the input store and ends by putting the products
/// into the output store; `in_progress` says whether a run has started and
/// not ended. (How far a run has got, and the energy it uses, is kept by
/// the caller.)
pub struct Factory {
    pub input_inventory: Inventory,
    pub output_inventory: Inventory,
    pub recipe: Option<Recipe>,
    pub in_progress: bool,
}

impl Factory {
    /// An idle factory with empty stores and no recipe.
    pub fn new() -> (ret: Self)
        ensures
            ret.input_inventory@ == Map::<ItemType, usize>::empty(),
            ret.output_inventory@ == Map::<ItemType, usize>::empty(),
            ret.recipe is None,
            !ret.in_progress,
    {
        Factory {
            input_inventory: Inventory::new(),
            output_inventory: Inventory::new(),
            recipe: None,
            in_progress: false,
        }
    }

    /// Takes one item into the input store when it is part of the recipe
    /// (as an ingredient or a product). Without a recipe nothing is taken
    /// and the input counts as accepted.
    pub fn input(&mut self, item_type: &ItemType) -> (ret: Result<(), ()>)
        requires
            count_of(old(self).input_inventory@, *item_type) < usize::MAX,
        ensures
            final(self).output_inventory@ == old(self).output_inventory@,
            final(self).recipe == old(self).recipe,
            final(self).in_progress == old(self).in_progress,
            match old(self).recipe {
                Some(r) => if count_of(r.input@, *item_type) > 0 || count_of(r.output@, *item_type) > 0 {
                    &&& ret is Ok
                    &&& final(self).input_inventory@ == added(old(self).input_inventory@, *item_type, 1)
                } else {
                    &&& ret is Err
                    &&& final(self).input_inventory@ == old(self).input_inventory@
                },
                None => {
                    &&& ret is Ok
                    &&& final(self).input_inventory@ == old(self).input_inventory@
                },
            },
    {
        match &self.recipe {
            Some(recipe) => {
                if 0 < recipe.input.count_item(item_type) || 0 < recipe.output.count_item(item_type) {
                    self.input_inventory.add_item(item_type);
                    Ok(())
                } else {
                    Err(())
                }
            },
            None => Ok(()),
        }
    }

    /// Whether the recipe has `item_type` among its ingredients.
    pub fn can_input(&self, item_type: &ItemType) -> (ret: bool)
        ensures
            ret == match self.recipe {
                Some(r) => r.input@.contains_key(*item_type),
                None => false,
            },
    {
        match &self.recipe {
            Some(recipe) => recipe.input.contains_key(item_type),
            None => false,
        }
    }

    /// The items that the factory can hand out: a copy of its output store.
    pub fn can_output(&self) -> (ret: Inventory)
        ensures
            ret@ == self.output_inventory@,
    {
        self.output_inventory.clone()
    }

    /// Hands out one item of `item_type` from the output store.
    pub fn output(&mut self, item_type: &ItemType) -> (ret: Result<(), ()>)
        ensures
            final(self).input_inventory@ == old(self).input_inventory@,
            final(self).recipe == old(self).recipe,
            final(self).in_progress == old(self).in_progress,
            final(self).output_inventory@ == removed(old(self).output_inventory@, *item_type, 1).0,
            ret is Ok == (count_of(old(self).output_inventory@, *item_type) > 0),
    {
        if self.output_inventory.remove_item(item_type) {
            Ok(())
        } else {
            Err(())
        }
    }

    /// The input store (`is_input`) or the output store.
    pub fn inventory(&self, is_input: bool) -> (ret: &Inventory)
        ensures
            *ret == (if is_input { self.input_inventory } else { self.output_inventory }),
    {
        if is_input {
            &self.input_inventory
        } else {
            &self.output_inventory
        }
    }

    /// The input store (`is_input`) or the output store, to change.
    pub fn inventory_mut(&mut self, is_input: bool) -> (ret: &mut Inventory)
        ensures
            *ret == (if is_input { old(self).input_inventory } else { old(self).output_inventory }),
            is_input ==> *final(self) == (Factory { input_inventory: *final(ret), ..*old(self) }),
            !is_input ==> *final(self) == (Factory { output_inventory: *final(ret), ..*old(self) }),
    {
        if is_input {
            &mut self.input_inventory
        } else {
            &mut self.output_inventory
        }
    }

    /// Empties both stores and drops the recipe, returning everything held;
    /// the ingredients of a run in progress are given back too.
    pub fn destroy_inventory(&mut self) -> (ret: Inventory)
        requires
            forall|t: ItemType|
                count_of(old(self).input_inventory@, t) + count_of(old(self).output_inventory@, t)
                    + match old(self).recipe {
                    Some(r) => if old(self).in_progress { count_of(r.input@, t) } else { 0 },
                    None => 0,
                } <= usize::MAX,
        ensures
            final(self).input_inventory@ == Map::<ItemType, usize>::empty(),
            final(self).output_inventory@ == Map::<ItemType, usize>::empty(),
            final(self).recipe is None,
            final(self).in_progress == old(self).in_progress,
            ret@ == match old(self).recipe {
                Some(r) => if old(self).in_progress {
                    merged(merged(old(self).input_inventory@, old(self).output_inventory@), r.input@)
                } else {
                    merged(old(self).input_inventory@, old(self).output_inventory@)
                },
                None => merged(old(self).input_inventory@, old(self).output_inventory@),
            },
            forall|t: ItemType|
                #![trigger count_of(ret@, t)]
                count_of(ret@, t) == count_of(old(self).input_inventory@, t) + count_of(
                    old(self).output_inventory@,
                    t,
                ) + match old(self).recipe {
                    Some(r) => if old(self).in_progress { count_of(r.input@, t) } else { 0 },
                    None => 0,
                },
    {
        let mut ret = self.input_inventory.take_all();
        let out = self.output_inventory.take_all();
        ret.merge(out);
        let recipe = self.recipe.take();
        match recipe {
            Some(mut recipe) => {
                if self.in_progress {
                    let ingredients = recipe.input.take_all();
                    ret.merge(ingredients);
                }
            },
            None => {},
        }
        ret
    }

    /// Starts a run when there is a recipe, no run is in progress and the
    /// input store holds every ingredient: the ingredients are taken out.
    /// Says whether a run started.
    pub fn try_start(&mut self) -> (ret: bool)
        ensures
            final(self).output_inventory@ == old(self).output_inventory@,
            final(self).recipe == old(self).recipe,
            ret == match old(self).recipe {
                Some(r) => !old(self).in_progress && holds_all(old(self).input_inventory@, r.input@),
                None => false,
            },
            ret ==> final(self).in_progress && final(self).input_inventory@ == subtracted(
                old(self).input_inventory@,
                old(self).recipe->0.input@,
            ),
            !ret ==> final(self).in_progress == old(self).in_progress
                && final(self).input_inventory@ == old(self).input_inventory@,
    {
        match &self.recipe {
            Some(recipe) => {
                if !self.in_progress && self.input_inventory.has_all(&recipe.input) {
                    self.input_inventory.remove_all(&recipe.input);
                    self.in_progress = true;
                    true
                } else {
                    false
                }
            },
            None => false,
        }
    }

    /// Ends a run in progress: the products go into the output store. Says
    /// whether a run ended.
    pub fn finish(&mut self) -> (ret: bool)
        requires
            old(self).recipe matches Some(r) ==> forall|t: ItemType|
                count_of(old(self).output_inventory@, t) + count_of(r.output@, t) <= usize::MAX,
        ensures
            final(self).input_inventory@ == old(self).input_inventory@,
            final(self).recipe == old(self).recipe,
            ret == (old(self).recipe is Some && old(self).in_progress),
            ret ==> !final(self).in_progress && final(self).output_inventory@ == added_all(
                old(self).output_inventory@,
                old(self).recipe->0.output@,
            ),
            !ret ==> final(self).in_progress == old(self).in_progress
                && final(self).output_inventory@ == old(self).output_inventory@,
    {
        match &self.recipe {
            Some(recipe) => {
                if self.in_progress {
                    self.output_inventory.add_all(&recipe.output);
                    self.in_progress = false;
                    true
                } else {
                    false
                }
            },
            None => false,
        }
    }

    /// Without a recipe, selects (a copy of) the first of `recipes` whose
    /// ingredients the input store holds.
    pub fn pick_recipe(&mut self, recipes: &Vec<Recipe>)
        ensures
            final(self).input_inventory@ == old(self).input_inventory@,
            final(self).output_inventory@ == old(self).output_inventory@,
            final(self).in_progress == old(self).in_progress,
            old(self).recipe is Some ==> final(self).recipe == old(self).recipe,
            old(self).recipe is None ==> match final(self).recipe {
                Some(r) => exists|k: int|
                    0 <= k < recipes@.len() && r.input@ == (#[trigger] recipes@[k]).input@ && r.output@ == recipes@[k].output@
                        && holds_all(old(self).input_inventory@, recipes@[k].input@)
                        && forall|j: int| 0 <= j < k ==> !holds_all(old(self).input_inventory@, (#[trigger] recipes@[j]).input@),
                None => forall|k: int| 0 <= k < recipes@.len() ==> !holds_all(old(self).input_inventory@, (#[trigger] recipes@[k]).input@),
            },
    {
        if self.recipe.is_none() {
            let mut i: usize = 0;
            while i < recipes.len()
                invariant
                    i <= recipes@.len(),
                    self.recipe is None,
                    old(self).recipe is None,
                    self.input_inventory@ == old(self).input_inventory@,
                    self.output_inventory@ == old(self).output_inventory@,
                    self.in_progress == old(self).in_progress,
                    forall|j: int| 0 <= j < i ==> !holds_all(old(self).input_inventory@, (#[trigger] recipes@[j]).input@),
                decreases recipes@.len() - i,
            {
                if self.input_inventory.has_all(&recipes[i].input) {
                    self.recipe = Some(recipes[i].clone());
                    return;
                }
                i = i + 1;
            }
        }
    }

    /// Like [`Factory::try_start`], except that a selected recipe whose
    /// ingredients are not all there is dropped.
    pub fn try_start_or_drop(&mut self) -> (ret: bool)
        ensures
            final(self).output_inventory@ == old(self).output_inventory@,
            ret == match old(self).recipe {
                Some(r) => !old(self).in_progress && holds_all(old(self).input_inventory@, r.input@),
                None => false,
            },
            ret ==> final(self).in_progress && final(self).recipe == old(self).recipe
                && final(self).input_inventory@ == subtracted(old(self).input_inventory@, old(self).recipe->0.input@),
            !ret ==> final(self).in_progress == old(self).in_progress
                && final(self).input_inventory@ == old(self).input_inventory@,
            !ret && old(self).recipe is Some && !old(self).in_progress ==> final(self).recipe is None,
            !ret && !(old(self).recipe is Some && !old(self).in_progress) ==> final(self).recipe == old(self).recipe,
    {
        let started = self.try_start();
        if !started && !self.in_progress {
            self.recipe = None;
        }
        started
    }

    /// Ends a run in progress, putting one of each product of the recipe
    /// into the output store. Says whether a run ended.
    pub fn finish_one_each(&mut self) -> (ret: bool)
        requires
            forall|t: ItemType| count_of(old(self).output_inventory@, t) + 1 <= usize::MAX,
        ensures
            final(self).input_inventory@ == old(self).input_inventory@,
            final(self).recipe == old(self).recipe,
            ret == (old(self).recipe is Some && old(self).in_progress),
            ret ==> !final(self).in_progress && final(self).output_inventory@ == added_all(
                old(self).output_inventory@,
                one_of_each(old(self).recipe->0.output@),
            ),
            !ret ==> final(self).in_progress == old(self).in_progress
                && final(self).output_inventory@ == old(self).output_inventory@,
    {
        match &self.recipe {
            Some(recipe) => {
                if self.in_progress {
                    let ones = recipe.output.one_of_each();
                    self.output_inventory.add_all(&ones);
                    self.in_progress = false;
                    true
                } else {
                    false
                }
            },
            None => false,
        }
    }
}

} // verus!
