//! Chests: storage that takes any item while it has room.
use crate::inventory::{added, count_of, describe_entries, entries_of, removed, Inventory};
use crate::items::ItemType;
use crate::structure::{FrameProcResult, ItemResponse, Position};
use vstd::prelude::*;

verus! {

/// The number of item kinds a chest takes.
pub const CHEST_CAPACITY: usize = 100;

/// A chest at a position.
pub struct Chest {
    pub position: Position,
    pub inventory: Inventory,
}

impl Chest {
    /// An empty chest.
    pub fn new(position: &Position) -> (ret: Self)
        ensures
            ret.position == *position,
            ret.inventory@ == Map::<ItemType, usize>::empty(),
    {
        Chest { position: *position, inventory: Inventory::new() }
    }

    /// Takes an item lying on the chest while the chest holds fewer than
    /// `CHEST_CAPACITY` kinds, reporting the item consumed and the
    /// inventory changed.
    pub fn item_response(&mut self, item_type: &ItemType) -> (ret: Result<(ItemResponse, Option<FrameProcResult>), ()>)
        requires
            count_of(old(self).inventory@, *item_type) < usize::MAX,
        ensures
            final(self).position == old(self).position,
            if entries_of(old(self).inventory@).len() < CHEST_CAPACITY {
                &&& ret == Ok::<(ItemResponse, Option<FrameProcResult>), ()>((ItemResponse::Consume, Some(FrameProcResult::InventoryChanged(old(self).position))))
                &&& final(self).inventory@ == added(old(self).inventory@, *item_type, 1)
            } else {
                &&& ret is Err
                &&& final(self).inventory == old(self).inventory
            },
    {
        if self.inventory.len() < CHEST_CAPACITY {
            self.inventory.add_item(item_type);
            Ok((ItemResponse::Consume, Some(FrameProcResult::InventoryChanged(self.position))))
        } else {
            Err(())
        }
    }

    /// Puts an item into the chest (see [`Chest::item_response`]).
    pub fn input(&mut self, item_type: &ItemType) -> (ret: Result<(), ()>)
        requires
            count_of(old(self).inventory@, *item_type) < usize::MAX,
        ensures
            final(self).position == old(self).position,
            if entries_of(old(self).inventory@).len() < CHEST_CAPACITY {
                &&& ret is Ok
                &&& final(self).inventory@ == added(old(self).inventory@, *item_type, 1)
            } else {
                &&& ret is Err
                &&& final(self).inventory@ == old(self).inventory@
            },
    {
        match self.item_response(item_type) {
            Ok(_) => Ok(()),
            Err(_) => Err(()),
        }
    }

    /// Whether the chest has room for another kind of item.
    pub fn can_input(&self, _item_type: &ItemType) -> (ret: bool)
        ensures
            ret == (entries_of(self.inventory@).len() < CHEST_CAPACITY),
    {
        self.inventory.len() < CHEST_CAPACITY
    }

    /// The items the chest can hand out: a copy of its inventory.
    pub fn can_output(&self) -> (ret: Inventory)
        ensures
            ret@ == self.inventory@,
    {
        self.inventory.clone()
    }

    /// Hands out one item of `item_type`.
    pub fn output(&mut self, item_type: &ItemType) -> (ret: Result<(), ()>)
        ensures
            final(self).position == old(self).position,
            final(self).inventory@ == removed(old(self).inventory@, *item_type, 1).0,
            ret is Ok == (count_of(old(self).inventory@, *item_type) > 0),
    {
        if self.inventory.remove_item(item_type) {
            Ok(())
        } else {
            Err(())
        }
    }

    /// The chest's inventory, which counts as its input store.
    pub fn inventory(&self, is_input: bool) -> (ret: Option<&Inventory>)
        ensures
            is_input ==> ret == Some(&self.inventory),
            !is_input ==> ret is None,
    {
        if is_input {
            Some(&self.inventory)
        } else {
            None
        }
    }

    /// The chest's description: `Items: ` and a line break, then each
    /// entry as `Name: count<br>`.
    pub fn desc(&self) -> (ret: String)
        ensures
            ret@ == "Items: \n"@ + describe_entries(entries_of(self.inventory@)),
    {
        let mut ret = String::from_str("Items: \n");
        let items = self.inventory.describe();
        ret.append(items.as_str());
        ret
    }

    /// Empties the chest, returning what it held.
    pub fn destroy_inventory(&mut self) -> (ret: Inventory)
        ensures
            final(self).position == old(self).position,
            final(self).inventory@ == Map::<ItemType, usize>::empty(),
            ret@ == old(self).inventory@,
    {
        self.inventory.take_all()
    }
}

} // verus!
