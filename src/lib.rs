//! A turn-based roguelike core: dungeon generation, occupancy, visibility, monster decisions
//! and turn resolution over an explicit entity table.

pub mod components;
pub mod gamelog;
pub mod map;
pub mod map_builders;
pub mod raws;
pub mod render;
mod rng;
pub mod run_state;
pub mod systems;
pub mod tilemap;
pub mod world;
