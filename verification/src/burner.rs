//! The fuel store of a burning structure.
use crate::inventory::{added, count_of, removed, Inventory};
use crate::items::ItemType;
use vstd::prelude::*;

verus! {

/// How much coal a burner holds.
pub const FUEL_CAPACITY: usize = 10;

/// A fuel store that takes coal up to a capacity.
pub struct Burner {
    pub inventory: Inventory,
    pub capacity: usize,
}

/// A fuel store after adding (positive `amount`) or removing (negative
/// `amount`) items, and the signed number moved: removal takes no more
/// than is held; only coal can be added, and no more than the room left
/// under `capacity`.
pub open spec fn fuel_moved(m: Map<ItemType, usize>, capacity: int, item: ItemType, amount: int) -> (Map<ItemType, usize>, int) {
    if amount < 0 {
        let removed_count = if count_of(m, item) <= -amount { count_of(m, item) as int } else { -amount };
        (removed(m, item, removed_count as nat).0, -removed_count)
    } else if item == ItemType::CoalOre {
        let room = capacity - count_of(m, ItemType::CoalOre);
        let add = if amount <= room { amount } else { room };
        (added(m, item, add as nat), add)
    } else {
        (m, 0)
    }
}

/// Adds (positive `amount`) or removes (negative `amount`) items of a fuel
/// store of `capacity` and returns the signed number actually moved.
pub fn add_fuel(inventory: &mut Inventory, capacity: usize, item_type: &ItemType, amount: isize) -> (ret: isize)
    requires
        amount != isize::MIN,
        capacity <= isize::MAX,
        count_of(old(inventory)@, ItemType::CoalOre) <= capacity,
    ensures
        (final(inventory)@, ret as int) == fuel_moved(old(inventory)@, capacity as int, *item_type, amount as int),
        count_of(final(inventory)@, ItemType::CoalOre) <= capacity,
{
    if amount < 0 {
        let existing = inventory.count_item(item_type);
        let wanted = (-amount) as usize;
        let removed_count = if existing <= wanted { existing } else { wanted };
        inventory.remove_items(item_type, removed_count);
        -(removed_count as isize)
    } else if *item_type == ItemType::CoalOre {
        let room = (capacity - inventory.count_item(&ItemType::CoalOre)) as isize;
        let add_amount = if amount <= room { amount } else { room };
        inventory.add_items(item_type, add_amount as usize);
        add_amount
    } else {
        0
    }
}

impl Burner {
    /// An empty burner of `capacity`.
    pub fn new(capacity: usize) -> (ret: Self)
        ensures
            ret.inventory@ == Map::<ItemType, usize>::empty(),
            ret.capacity == capacity,
    {
        Burner { inventory: Inventory::new(), capacity }
    }

    /// Adds (positive `amount`) or removes (negative `amount`) items and
    /// returns the signed number actually moved (see [`add_fuel`]).
    pub fn add_burner_inventory(&mut self, item_type: &ItemType, amount: isize) -> (ret: isize)
        requires
            amount != isize::MIN,
            old(self).capacity <= isize::MAX,
            count_of(old(self).inventory@, ItemType::CoalOre) <= old(self).capacity,
        ensures
            final(self).capacity == old(self).capacity,
            (final(self).inventory@, ret as int) == fuel_moved(old(self).inventory@, old(self).capacity as int, *item_type, amount as int),
            count_of(final(self).inventory@, ItemType::CoalOre) <= final(self).capacity,
    {
        add_fuel(&mut self.inventory, self.capacity, item_type, amount)
    }

    /// Takes one item as fuel: coal is taken while there is room.
    pub fn input(&mut self, item_type: &ItemType) -> (ret: Result<(), ()>)
        ensures
            final(self).capacity == old(self).capacity,
            if *item_type == ItemType::CoalOre && count_of(old(self).inventory@, ItemType::CoalOre)
                < old(self).capacity {
                &&& ret is Ok
                &&& final(self).inventory@ == added(old(self).inventory@, ItemType::CoalOre, 1)
            } else {
                &&& ret is Err
                &&& final(self).inventory@ == old(self).inventory@
            },
    {
        if *item_type == ItemType::CoalOre && self.inventory.count_item(&ItemType::CoalOre)
            < self.capacity {
            self.inventory.add_item(&ItemType::CoalOre);
            return Ok(());
        }
        Err(())
    }

    /// Whether the burner takes an item: coal while there is room.
    pub fn can_input(&self, item_type: &ItemType) -> (ret: bool)
        ensures
            ret == (*item_type == ItemType::CoalOre && count_of(self.inventory@, ItemType::CoalOre)
                < self.capacity),
    {
        *item_type == ItemType::CoalOre && self.inventory.count_item(&ItemType::CoalOre)
            < self.capacity
    }

    /// Burns one piece of coal, if there is any; says whether it did. (The
    /// energy that the coal gives is kept by the caller.)
    pub fn burn_fuel(&mut self) -> (ret: bool)
        ensures
            final(self).capacity == old(self).capacity,
            ret == (count_of(old(self).inventory@, ItemType::CoalOre) > 0),
            ret ==> final(self).inventory@ == removed(old(self).inventory@, ItemType::CoalOre, 1).0,
            !ret ==> final(self).inventory@ == old(self).inventory@,
    {
        if self.inventory.count_item(&ItemType::CoalOre) > 0 {
            self.inventory.remove_item(&ItemType::CoalOre);
            true
        } else {
            false
        }
    }

    /// Empties the burner and returns what it held.
    pub fn destroy_inventory(&mut self) -> (ret: Inventory)
        ensures
            ret@ == old(self).inventory@,
            final(self).inventory@ == Map::<ItemType, usize>::empty(),
            final(self).capacity == old(self).capacity,
    {
        self.inventory.take_all()
    }
}

} // verus!
