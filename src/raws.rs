//! Item and monster definitions ("raws") and turning a named definition into an entity.

use crate::components::{
    CanSufferDamage, CombatStats, ConsumableEffects, EntityName, Equippable, ItemStats, Position,
    Renderable, Viewshed,
};
use crate::world::{Entity, World, MAX_ENTITIES};
use vstd::prelude::*;

verus! {

#[derive(Debug, Clone, Copy, PartialEq, Eq, Structural)]
pub struct Consumable {
    pub effects: ConsumableEffects,
}

/// The definition of an item.
pub struct ItemRaw {
    pub name: String,
    pub renderable: Option<Renderable>,
    pub consumable: Option<Consumable>,
    pub equippable: Option<Equippable>,
    pub stats: Option<ItemStats>,
}

/// The definition of a monster.
pub struct MobRaw {
    pub name: String,
    pub renderable: Renderable,
    pub blocks_tile: bool,
    pub vision_range: i32,
    pub stats: CombatStats,
}

/// All definitions.
pub struct Raws {
    pub items: Vec<ItemRaw>,
    pub mobs: Vec<MobRaw>,
}

impl ItemRaw {
    /// A copy of the definition.
    pub fn duplicate(&self) -> (r: ItemRaw)
        ensures
            r == *self,
    {
        ItemRaw {
            name: self.name.clone(),
            renderable: self.renderable,
            consumable: self.consumable,
            equippable: self.equippable,
            stats: self.stats,
        }
    }
}

impl MobRaw {
    /// A copy of the definition.
    pub fn duplicate(&self) -> (r: MobRaw)
        ensures
            r == *self,
    {
        MobRaw {
            name: self.name.clone(),
            renderable: self.renderable,
            blocks_tile: self.blocks_tile,
            vision_range: self.vision_range,
            stats: self.stats,
        }
    }
}

/// The index of the last definition in `names` called `name`: a later definition of a name
/// replaces an earlier one.
pub open spec fn last_named(names: Seq<Seq<char>>, name: Seq<char>) -> Option<int>
    decreases names.len(),
{
    if names.len() == 0 {
        None
    } else if names.last() == name {
        Some(names.len() - 1)
    } else {
        last_named(names.drop_last(), name)
    }
}

/// The registry of definitions, loaded once and read-only afterwards.
pub struct RawManager {
    pub raws: Raws,
}

impl RawManager {
    pub open spec fn item_names(&self) -> Seq<Seq<char>> {
        self.raws.items@.map_values(|r: ItemRaw| r.name@)
    }

    pub open spec fn mob_names(&self) -> Seq<Seq<char>> {
        self.raws.mobs@.map_values(|r: MobRaw| r.name@)
    }

    pub open spec fn has_item(&self, name: Seq<char>) -> bool {
        last_named(self.item_names(), name).is_some()
    }

    pub open spec fn has_mob(&self, name: Seq<char>) -> bool {
        last_named(self.mob_names(), name).is_some()
    }

    /// An empty registry.
    pub fn new() -> (r: RawManager)
        ensures
            r.raws.items@.len() == 0,
            r.raws.mobs@.len() == 0,
    {
        RawManager { raws: Raws { items: Vec::new(), mobs: Vec::new() } }
    }

    /// Replaces the definitions.
    pub fn load(&mut self, raws: Raws)
        ensures
            final(self).raws == raws,
    {
        self.raws = raws;
    }

    /// Index of the item definition called `name`.
    pub fn item_index(&self, name: &String) -> (r: Option<usize>)
        ensures
            match r {
                Some(i) => last_named(self.item_names(), name@) == Some(i as int) && i
                    < self.raws.items@.len(),
                None => last_named(self.item_names(), name@).is_none(),
            },
    {
        let mut i = self.raws.items.len();
        assert(self.item_names().take(i as int) =~= self.item_names());
        while i > 0
            invariant
                i <= self.raws.items@.len(),
                last_named(self.item_names(), name@) == last_named(
                    self.item_names().take(i as int),
                    name@,
                ),
            decreases i,
        {
            let ghost names = self.item_names().take(i as int);
            assert(names.drop_last() =~= self.item_names().take(i - 1));
            if self.raws.items[i - 1].name == *name {
                return Some(i - 1);
            }
            i = i - 1;
        }
        None
    }

    /// Index of the monster definition called `name`.
    pub fn mob_index(&self, name: &String) -> (r: Option<usize>)
        ensures
            match r {
                Some(i) => last_named(self.mob_names(), name@) == Some(i as int) && i
                    < self.raws.mobs@.len(),
                None => last_named(self.mob_names(), name@).is_none(),
            },
    {
        let mut i = self.raws.mobs.len();
        assert(self.mob_names().take(i as int) =~= self.mob_names());
        while i > 0
            invariant
                i <= self.raws.mobs@.len(),
                last_named(self.mob_names(), name@) == last_named(
                    self.mob_names().take(i as int),
                    name@,
                ),
            decreases i,
        {
            let ghost names = self.mob_names().take(i as int);
            assert(names.drop_last() =~= self.mob_names().take(i - 1));
            if self.raws.mobs[i - 1].name == *name {
                return Some(i - 1);
            }
            i = i - 1;
        }
        None
    }
}

impl Default for RawManager {
    fn default() -> (r: RawManager)
        ensures
            r.raws.items@.len() == 0,
            r.raws.mobs@.len() == 0,
    {
        RawManager::new()
    }
}

/// A copy of the item definition called `name`.
pub fn get_item(raws: &RawManager, name: &String) -> (r: Option<ItemRaw>)
    ensures
        match last_named(raws.item_names(), name@) {
            Some(i) => r == Some(raws.raws.items@[i]),
            None => r.is_none(),
        },
{
    match raws.item_index(name) {
        Some(i) => Some(raws.raws.items[i].duplicate()),
        None => None,
    }
}

/// A copy of the monster definition called `name`.
pub fn get_mob(raws: &RawManager, name: &String) -> (r: Option<MobRaw>)
    ensures
        match last_named(raws.mob_names(), name@) {
            Some(i) => r == Some(raws.raws.mobs@[i]),
            None => r.is_none(),
        },
{
    match raws.mob_index(name) {
        Some(i) => Some(raws.raws.mobs[i].duplicate()),
        None => None,
    }
}

/// Where a new entity is placed.
#[derive(Debug, Clone, Copy, PartialEq, Eq, Structural)]
pub enum SpawnType {
    AtPosition(Position),
}

/// The entity that an item definition describes.
pub open spec fn item_entity(raw: ItemRaw, pos: Position) -> Entity {
    Entity {
        position: Some(pos),
        renderable: raw.renderable,
        name: Some(EntityName { name: raw.name }),
        item: true,
        consumable: match raw.consumable {
            Some(c) => Some(c.effects),
            None => None,
        },
        equippable: raw.equippable,
        item_stats: raw.stats,
        ..Entity::spec_empty(true)
    }
}

/// Whether `e` is the entity that a monster definition describes.
pub open spec fn is_mob_entity(e: Entity, raw: MobRaw, pos: Position) -> bool {
    &&& e.alive
    &&& e.mob
    &&& e.name == Some(EntityName { name: raw.name })
    &&& e.position == Some(pos)
    &&& e.renderable == Some(raw.renderable)
    &&& e.viewshed.is_some()
    &&& e.viewshed.unwrap().visible_tiles@.len() == 0
    &&& e.viewshed.unwrap().range == raw.vision_range
    &&& e.viewshed.unwrap().dirty
    &&& e.blocks_tile == raw.blocks_tile
    &&& e.stats == Some(raw.stats)
    &&& e.can_suffer_damage.is_some()
    &&& e.can_suffer_damage.unwrap().amount@.len() == 0
    &&& !e.player && !e.item
    &&& e.wants_to_melee.is_none() && e.wants_to_pickup.is_none()
    &&& e.wants_to_use.is_none() && e.wants_to_drop.is_none()
    &&& e.owned.is_none() && e.consumable.is_none() && e.equippable.is_none()
    &&& e.equipped.is_none() && e.item_stats.is_none()
}

/// Spawns the item called `name`; `None`, with nothing spawned, when there is no such item.
pub fn try_spawn_named_item(world: &mut World, raws: &RawManager, name: &String, pos: SpawnType) -> (r:
    Option<()>)
    requires
        old(world)@.len() < MAX_ENTITIES,
    ensures
        match last_named(raws.item_names(), name@) {
            Some(i) => {
                let SpawnType::AtPosition(p) = pos;
                &&& r.is_some()
                &&& final(world)@ == old(world)@.push(item_entity(raws.raws.items@[i], p))
            },
            None => r.is_none() && final(world)@ == old(world)@,
        },
{
    let item = match get_item(raws, name) {
        Some(item) => item,
        None => {
            return None;
        },
    };
    let SpawnType::AtPosition(p) = pos;
    let mut e = Entity::new();
    e.position = Some(p);
    e.renderable = item.renderable;
    e.name = Some(EntityName { name: item.name });
    e.item = true;
    e.consumable = match item.consumable {
        Some(c) => Some(c.effects),
        None => None,
    };
    e.equippable = item.equippable;
    e.item_stats = item.stats;
    world.spawn(e);
    Some(())
}

/// Spawns the monster called `name`; `None`, with nothing spawned, when there is no such
/// monster.
pub fn try_spawn_named_mob(world: &mut World, raws: &RawManager, name: &String, pos: SpawnType) -> (r:
    Option<()>)
    requires
        old(world)@.len() < MAX_ENTITIES,
    ensures
        match last_named(raws.mob_names(), name@) {
            Some(i) => {
                let SpawnType::AtPosition(p) = pos;
                &&& r.is_some()
                &&& final(world)@.len() == old(world)@.len() + 1
                &&& final(world)@.drop_last() == old(world)@
                &&& is_mob_entity(final(world)@.last(), raws.raws.mobs@[i], p)
            },
            None => r.is_none() && final(world)@ == old(world)@,
        },
{
    let mob = match get_mob(raws, name) {
        Some(mob) => mob,
        None => {
            return None;
        },
    };
    let SpawnType::AtPosition(p) = pos;
    let mut e = Entity::new();
    e.mob = true;
    e.name = Some(EntityName { name: mob.name });
    e.position = Some(p);
    e.renderable = Some(mob.renderable);
    e.viewshed = Some(Viewshed::new(mob.vision_range));
    e.blocks_tile = mob.blocks_tile;
    e.stats = Some(mob.stats);
    e.can_suffer_damage = Some(CanSufferDamage { amount: Vec::new() });
    world.spawn(e);
    assert(world@.drop_last() =~= old(world)@);
    Some(())
}

/// Whether `e` is the entity that the definition called `name` describes, placed at `pos`: the
/// item of that name if there is one, and otherwise the monster.
pub open spec fn spawned_as(e: Entity, raws: &RawManager, name: Seq<char>, pos: Position) -> bool {
    match last_named(raws.item_names(), name) {
        Some(i) => e == item_entity(raws.raws.items@[i], pos),
        None => is_mob_entity(e, raws.raws.mobs@[last_named(raws.mob_names(), name).unwrap()], pos),
    }
}

/// Spawns the item, or failing that the monster, called `name`. A name that is neither is a
/// broken definition file and is excluded by the precondition.
pub fn spawn_named_entity(world: &mut World, raws: &RawManager, name: &String, pos: SpawnType)
    requires
        old(world)@.len() < MAX_ENTITIES,
        raws.has_item(name@) || raws.has_mob(name@),
    ensures
        final(world)@.len() == old(world)@.len() + 1,
        final(world)@.drop_last() == old(world)@,
        ({
            let SpawnType::AtPosition(p) = pos;
            spawned_as(final(world)@.last(), raws, name@, p)
        }),
{
    if try_spawn_named_item(world, raws, name, pos).is_none() {
        try_spawn_named_mob(world, raws, name, pos);
    } else {
        assert(world@.drop_last() =~= old(world)@);
    }
}

} // verus!
