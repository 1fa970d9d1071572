//! The entity table: each entity is a slot holding the components it has.

use crate::components::{
    CanSufferDamage, CombatStats, ConsumableEffects, EntityName, Equippable, Equipped, ItemStats,
    Owned, Position, Renderable, Viewshed, WantsToDropItem, WantsToMelee, WantsToPickupItem,
    WantsToUseItem,
};
use crate::map::EntityId;
use vstd::prelude::*;

verus! {

/// Most entities a world holds, so that ids fit in 32 bits.
pub const MAX_ENTITIES: usize = 0xffff_ffff;

/// One entity and its components; a component that is absent is `None` (or `false` for a tag).
pub struct Entity {
    /// False once the entity has been despawned.
    pub alive: bool,
    pub name: Option<EntityName>,
    pub position: Option<Position>,
    pub renderable: Option<Renderable>,
    pub viewshed: Option<Viewshed>,
    pub stats: Option<CombatStats>,
    pub can_suffer_damage: Option<CanSufferDamage>,
    /// Tag of the entity that input controls and whose sight drives the map's bitmaps.
    pub player: bool,
    /// Tag of a monster.
    pub mob: bool,
    /// Tag of an item.
    pub item: bool,
    /// Tag of an entity that keeps others out of its cell.
    pub blocks_tile: bool,
    pub wants_to_melee: Option<WantsToMelee>,
    pub wants_to_pickup: Option<WantsToPickupItem>,
    pub wants_to_use: Option<WantsToUseItem>,
    pub wants_to_drop: Option<WantsToDropItem>,
    pub owned: Option<Owned>,
    pub consumable: Option<ConsumableEffects>,
    pub equippable: Option<Equippable>,
    pub equipped: Option<Equipped>,
    pub item_stats: Option<ItemStats>,
}

impl Entity {
    /// An entity with no component at all.
    pub open spec fn spec_empty(alive: bool) -> Entity {
        Entity {
            alive,
            name: None,
            position: None,
            renderable: None,
            viewshed: None,
            stats: None,
            can_suffer_damage: None,
            player: false,
            mob: false,
            item: false,
            blocks_tile: false,
            wants_to_melee: None,
            wants_to_pickup: None,
            wants_to_use: None,
            wants_to_drop: None,
            owned: None,
            consumable: None,
            equippable: None,
            equipped: None,
            item_stats: None,
        }
    }

    /// A live entity with no component yet.
    pub fn new() -> (r: Entity)
        ensures
            r == Entity::spec_empty(true),
    {
        Entity {
            alive: true,
            name: None,
            position: None,
            renderable: None,
            viewshed: None,
            stats: None,
            can_suffer_damage: None,
            player: false,
            mob: false,
            item: false,
            blocks_tile: false,
            wants_to_melee: None,
            wants_to_pickup: None,
            wants_to_use: None,
            wants_to_drop: None,
            owned: None,
            consumable: None,
            equippable: None,
            equipped: None,
            item_stats: None,
        }
    }

    /// The slot left behind by a despawned entity.
    pub fn dead() -> (r: Entity)
        ensures
            r == Entity::spec_empty(false),
    {
        let mut e = Entity::new();
        e.alive = false;
        e
    }
}

/// All entities, indexed by id. Ids are stable: despawning empties a slot and never reuses it.
pub struct World {
    pub entities: Vec<Entity>,
}

impl World {
    pub open spec fn view(&self) -> Seq<Entity> {
        self.entities@
    }

    pub open spec fn wf(&self) -> bool {
        self.entities@.len() <= MAX_ENTITIES
    }

    /// An empty world.
    pub fn new() -> (r: World)
        ensures
            r@.len() == 0,
            r.wf(),
    {
        World { entities: Vec::new() }
    }

    pub fn len(&self) -> (r: usize)
        ensures
            r == self@.len(),
    {
        self.entities.len()
    }

    /// Adds an entity and returns its id.
    pub fn spawn(&mut self, e: Entity) -> (id: EntityId)
        requires
            old(self)@.len() < MAX_ENTITIES,
        ensures
            id == old(self)@.len(),
            final(self)@ == old(self)@.push(e),
            final(self).wf(),
    {
        let id = self.entities.len();
        self.entities.push(e);
        id
    }

    /// Removes an entity with all its components.
    pub fn despawn(&mut self, id: EntityId)
        requires
            id < old(self)@.len(),
        ensures
            final(self)@ == old(self)@.update(id as int, Entity::spec_empty(false)),
    {
        self.entities.set(id, Entity::dead());
    }

    /// Finds the player: the first entity tagged as the player.
    pub fn find_player(&self) -> (r: Option<EntityId>)
        ensures
            match r {
                Some(p) => p < self@.len() && self@[p as int].player && forall|j: int|
                    0 <= j < p ==> !#[trigger] self@[j].player,
                None => forall|j: int| 0 <= j < self@.len() ==> !#[trigger] self@[j].player,
            },
    {
        let mut i: usize = 0;
        while i < self.entities.len()
            invariant
                i <= self@.len(),
                forall|j: int| 0 <= j < i ==> !#[trigger] self@[j].player,
            decreases self@.len() - i,
        {
            if self.entities[i].player {
                return Some(i);
            }
            i = i + 1;
        }
        None
    }
}

} // verus!
