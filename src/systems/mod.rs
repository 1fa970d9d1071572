//! The per-turn systems, in the order a turn runs them.

pub mod damage;
pub mod drop_item;
pub mod input;
pub mod melee_combat;
pub mod monster_ai;
pub mod use_item;
pub mod visibility;
pub mod inventory;
pub mod map_indexing;
