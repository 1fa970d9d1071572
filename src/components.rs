//! The data that entities carry.

use crate::map::EntityId;
use vstd::prelude::*;

verus! {

/// A grid cell that an entity stands on.
#[derive(Debug, Clone, Copy, PartialEq, Eq, Hash, Structural)]
pub struct Position {
    pub x: u32,
    pub y: u32,
}

/// The name shown for an entity.
pub struct EntityName {
    pub name: String,
}

#[derive(Debug, Clone, Copy, PartialEq, Eq, Structural)]
pub struct CombatStats {
    pub hp: i32,
    pub max_hp: i32,
    pub defense: i32,
    pub power: i32,
}

/// A colour as three 8-bit channels.
#[derive(Debug, Clone, Copy, PartialEq, Eq, Structural)]
pub struct Rgb8 {
    pub r: u8,
    pub g: u8,
    pub b: u8,
}

/// What the renderer needs to draw an entity.
#[derive(Debug, Clone, Copy, PartialEq, Eq, Structural)]
pub struct Renderable {
    pub glyph: u16,
    pub fg: Rgb8,
    pub bg: Rgb8,
    /// Drawing order: higher values are drawn over lower ones (0 tile, 1 item, 2 mob, 3 player,
    /// 4 particle).
    pub z_index: i32,
}

/// The cells an entity sees, and whether they must be computed again.
pub struct Viewshed {
    pub visible_tiles: Vec<Position>,
    pub range: i32,
    pub dirty: bool,
}

impl Viewshed {
    /// A viewshed of the given range that has not been computed yet.
    pub fn new(range: i32) -> (r: Viewshed)
        ensures
            r.visible_tiles@.len() == 0,
            r.range == range,
            r.dirty,
    {
        Viewshed { visible_tiles: Vec::new(), range, dirty: true }
    }
}

/// Intent to attack `target`; carried by the attacker.
#[derive(Debug, Clone, Copy, PartialEq, Eq, Structural)]
pub struct WantsToMelee {
    pub target: EntityId,
}

/// Damage waiting to be applied to an entity, one entry per hit.
pub struct CanSufferDamage {
    pub amount: Vec<i32>,
}

/// Intent to pick `item` up.
#[derive(Debug, Clone, Copy, PartialEq, Eq, Structural)]
pub struct WantsToPickupItem {
    pub item: EntityId,
}

/// Marks an item as carried by `owner`.
#[derive(Debug, Clone, Copy, PartialEq, Eq, Structural)]
pub struct Owned {
    pub owner: EntityId,
}

/// What consuming an item does.
#[derive(Debug, Clone, Copy, PartialEq, Eq, Structural)]
pub struct ConsumableEffects {
    pub heal: Option<i32>,
}

/// Intent to use `item`.
#[derive(Debug, Clone, Copy, PartialEq, Eq, Structural)]
pub struct WantsToUseItem {
    pub item: EntityId,
}

/// Intent to drop `item`.
#[derive(Debug, Clone, Copy, PartialEq, Eq, Structural)]
pub struct WantsToDropItem {
    pub item: EntityId,
}

#[derive(Debug, Clone, Copy, PartialEq, Eq, Structural)]
pub enum EquipmentSlot {
    Melee,
    Shield,
}

#[derive(Debug, Clone, Copy, PartialEq, Eq, Structural)]
pub struct Equippable {
    pub slot: EquipmentSlot,
}

/// Marks an item as worn by `by` in `slot`.
#[derive(Debug, Clone, Copy, PartialEq, Eq, Structural)]
pub struct Equipped {
    pub by: EntityId,
    pub slot: EquipmentSlot,
}

/// Bonuses that an equipped item gives its wearer.
#[derive(Debug, Clone, Copy, PartialEq, Eq, Structural)]
pub struct ItemStats {
    pub power: i32,
    pub defense: i32,
}

} // verus!
