use vstd::prelude::*;

pub mod arms;
pub mod assembler;
pub mod belts;
pub mod boiler;
pub mod buildings;
pub mod burner;
pub mod capacity;
pub mod conservation;
pub mod chest;
pub mod drop_items;
pub mod electric_furnace;
pub mod factory;
pub mod fluid_box;
pub mod furnace;
pub mod gen_set;
pub mod ground;
pub mod inserter;
pub mod inventory;
pub mod item_steps;
pub mod items;
pub mod mines;
pub mod ore_mine;
pub mod player;
pub mod power_network;
pub mod power_reach;
pub mod recipe;
pub mod research;
pub mod scenarios;
pub mod structure;
pub mod terrain;
pub mod underground_belt;
pub mod world;

verus! {

} // verus!
