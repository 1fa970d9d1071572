//! Using items: consuming potions and equipping gear.

use crate::components::{CombatStats, Equipped, Owned};
use crate::gamelog::{GameLog, LogEntry};
use crate::map::EntityId;
use crate::world::{Entity, World};
use vstd::prelude::*;

verus! {

/// An intent names an item that the acting entity does not own: the intent was attached
/// wrongly upstream.
#[derive(Debug, Clone, Copy, PartialEq, Eq, Structural)]
pub enum IntentError {
    NotOwned { entity: EntityId, item: EntityId },
}

/// Hit points after healing by `heal`: never above `max_hp` (nor below the smallest `i32`).
pub open spec fn healed(hp: i32, max_hp: i32, heal: i32) -> i32 {
    let v = hp + heal;
    let v = if v < i32::MIN { i32::MIN as int } else { v };
    (if v < max_hp { v } else { max_hp as int }) as i32
}

/// Whether `t` exists and is owned by `a`.
pub open spec fn owned_by(w: Seq<Entity>, t: EntityId, a: int) -> bool {
    t < w.len() && w[t as int].owned == Some(Owned { owner: a as EntityId })
}

pub open spec fn is_consumable(e: Entity) -> bool {
    e.item && e.consumable.is_some() && e.name.is_some()
}

pub open spec fn is_equippable(e: Entity) -> bool {
    e.item && e.equippable.is_some() && e.name.is_some()
}

/// Whether `e` is worn by `a` in `slot` and named.
pub open spec fn worn_in_slot(e: Entity, a: int, slot: crate::components::EquipmentSlot) -> bool {
    e.equipped.is_some() && e.equipped.unwrap().by == a && e.equipped.unwrap().slot == slot
        && e.name.is_some()
}

/// The first entity among the first `n` that `a` wears in `slot`.
pub open spec fn first_worn(w: Seq<Entity>, a: int, slot: crate::components::EquipmentSlot, n: int) -> Option<int>
    decreases n,
{
    if n <= 0 {
        None
    } else {
        match first_worn(w, a, slot, n - 1) {
            Some(x) => Some(x),
            None => if worn_in_slot(w[n - 1], a, slot) {
                Some(n - 1)
            } else {
                None
            },
        }
    }
}

/// Consuming item `it`: the user, when it has combat stats, is healed and, if it is the
/// player, told; the item is destroyed.
pub open spec fn consume_effect(w: Seq<Entity>, a: int, it: int) -> (Seq<Entity>, Seq<LogEntry>) {
    let item = w[it];
    let (w1, m1) = match w[a].stats {
        Some(s) => {
            let s2 = match item.consumable.unwrap().heal {
                Some(h) => CombatStats { hp: healed(s.hp, s.max_hp, h), ..s },
                None => s,
            };
            (
                w.update(a, Entity { stats: Some(s2), ..w[a] }),
                if w[a].player {
                    seq![LogEntry::Used { item: item.name.unwrap().name }]
                } else {
                    seq![]
                },
            )
        },
        None => (w, seq![]),
    };
    (w1.update(it, Entity::spec_empty(false)), m1)
}

/// Freeing `a`'s `slot`: the first item `a` wears there, if any, goes back to its inventory.
pub open spec fn unequip_effect(w: Seq<Entity>, a: int, slot: crate::components::EquipmentSlot) -> (Seq<Entity>, Seq<LogEntry>) {
    match first_worn(w, a, slot, w.len() as int) {
        Some(x) => (
            w.update(x, Entity { equipped: None, owned: Some(Owned { owner: a as EntityId }), ..w[x] }),
            if w[a].player {
                seq![LogEntry::Unequipped { item: w[x].name.unwrap().name }]
            } else {
                seq![]
            },
        ),
        None => (w, seq![]),
    }
}

/// Equipping item `it`: the item the user wore in the same slot, if any, goes back to its
/// inventory; then `it` is worn.
pub open spec fn equip_effect(w: Seq<Entity>, a: int, it: int) -> (Seq<Entity>, Seq<LogEntry>) {
    let slot = w[it].equippable.unwrap().slot;
    let (w1, m1) = unequip_effect(w, a, slot);
    (
        w1.update(it, Entity { equipped: Some(Equipped { by: a as EntityId, slot }), owned: None, ..w1[it] }),
        if w[a].player {
            m1.push(LogEntry::Equipped { item: w[it].name.unwrap().name })
        } else {
            m1
        },
    )
}

/// The world and the new log lines after `a` uses the item it asked for; `Err` when it does
/// not own it.
pub open spec fn use_one(w: Seq<Entity>, a: int) -> Result<(Seq<Entity>, Seq<LogEntry>), IntentError> {
    match w[a].wants_to_use {
        None => Ok((w, seq![])),
        Some(u) => {
            let it = u.item;
            if !owned_by(w, it, a) {
                Err(IntentError::NotOwned { entity: a as EntityId, item: it })
            } else {
                let (w2, msgs) = if is_consumable(w[it as int]) {
                    consume_effect(w, a, it as int)
                } else if is_equippable(w[it as int]) {
                    equip_effect(w, a, it as int)
                } else {
                    (w, seq![LogEntry::CannotUse])
                };
                Ok((w2.update(a, Entity { wants_to_use: None, ..w2[a] }), msgs))
            }
        },
    }
}

/// Uses, in id order, the items asked for by the first `n` entities.
pub open spec fn use_upto(w: Seq<Entity>, n: int) -> Result<(Seq<Entity>, Seq<LogEntry>), IntentError>
    decreases n,
{
    if n <= 0 {
        Ok((w, seq![]))
    } else {
        match use_upto(w, n - 1) {
            Err(e) => Err(e),
            Ok((w1, m1)) => match use_one(w1, n - 1) {
                Err(e) => Err(e),
                Ok((w2, m2)) => Ok((w2, m1 + m2)),
            },
        }
    }
}

fn find_worn(world: &World, a: EntityId, slot: crate::components::EquipmentSlot) -> (r: Option<usize>)
    ensures
        r.is_some() == first_worn(world@, a as int, slot, world@.len() as int).is_some(),
        r.is_some() ==> first_worn(world@, a as int, slot, world@.len() as int) == Some(r.unwrap() as int),
        r.is_some() ==> r.unwrap() < world@.len() && worn_in_slot(world@[r.unwrap() as int], a as int, slot),
{
    let mut j: usize = 0;
    while j < world.entities.len()
        invariant
            j <= world@.len(),
            first_worn(world@, a as int, slot, j as int).is_none(),
        decreases world@.len() - j,
    {
        let e = &world.entities[j];
        if let Some(eq) = e.equipped {
            if eq.by == a && eq.slot == slot && e.name.is_some() {
                proof {
                    lemma_first_worn_stays(world@, a as int, slot, j + 1, world@.len() as int);
                    assert(first_worn(world@, a as int, slot, j + 1) == Some(j as int));
                }
                return Some(j);
            }
        }
        j = j + 1;
    }
    None
}

proof fn lemma_first_worn_stays(w: Seq<Entity>, a: int, slot: crate::components::EquipmentSlot, j: int, k: int)
    requires
        0 <= j <= k,
        first_worn(w, a, slot, j).is_some(),
    ensures
        first_worn(w, a, slot, k) == first_worn(w, a, slot, j),
    decreases k - j,
{
    if k > j {
        lemma_first_worn_stays(w, a, slot, j, k - 1);
    }
}

fn consume(world: &mut World, log: &mut GameLog, a: usize, it: usize)
    requires
        a < old(world)@.len(),
        it < old(world)@.len(),
        is_consumable(old(world)@[it as int]),
    ensures
        final(world)@ == consume_effect(old(world)@, a as int, it as int).0,
        final(log)@ == old(log)@ + consume_effect(old(world)@, a as int, it as int).1,
{
    let ghost w = world@;
    if let Some(s) = world.entities[a].stats {
        if world.entities[a].player {
            let name = world.entities[it].name.as_ref().unwrap().name.clone();
            log.add_entry(LogEntry::Used { item: name });
        }
        let mut s2 = s;
        if let Some(h) = world.entities[it].consumable.unwrap().heal {
            let v = s.hp as i64 + h as i64;
            let v = if v < i32::MIN as i64 {
                i32::MIN as i64
            } else {
                v
            };
            s2.hp = if v < s.max_hp as i64 {
                v as i32
            } else {
                s.max_hp
            };
        }
        world.entities[a].stats = Some(s2);
    } else {
        assert(log@ =~= old(log)@ + seq![]);
    }
    world.despawn(it);
    assert(world@ =~= consume_effect(w, a as int, it as int).0);
}

fn unequip_slot(world: &mut World, log: &mut GameLog, a: usize, slot: crate::components::EquipmentSlot)
    requires
        a < old(world)@.len(),
    ensures
        final(world)@ == unequip_effect(old(world)@, a as int, slot).0,
        final(log)@ == old(log)@ + unequip_effect(old(world)@, a as int, slot).1,
{
    let player = world.entities[a].player;
    match find_worn(world, a, slot) {
        Some(x) => {
            let ghost w = world@;
            world.entities[x].equipped = None;
            world.entities[x].owned = Some(Owned { owner: a });
            assert(world@ =~= w.update(x as int, Entity { equipped: None, owned: Some(Owned { owner: a }), ..w[x as int] }));
            if player {
                let name = world.entities[x].name.as_ref().unwrap().name.clone();
                log.add_entry(LogEntry::Unequipped { item: name });
                assert(log@ =~= old(log)@ + seq![LogEntry::Unequipped { item: w[x as int].name.unwrap().name }]);
            } else {
                assert(log@ =~= old(log)@ + seq![]);
            }
        },
        None => {
            assert(log@ =~= old(log)@ + seq![]);
        },
    }
}

fn equip(world: &mut World, log: &mut GameLog, a: usize, it: usize)
    requires
        a < old(world)@.len(),
        it < old(world)@.len(),
        is_equippable(old(world)@[it as int]),
    ensures
        final(world)@ == equip_effect(old(world)@, a as int, it as int).0,
        final(log)@ == old(log)@ + equip_effect(old(world)@, a as int, it as int).1,
{
    let ghost w = world@;
    let player = world.entities[a].player;
    let slot = world.entities[it].equippable.unwrap().slot;
    let item_name = world.entities[it].name.as_ref().unwrap().name.clone();
    proof {
        lemma_first_worn_bound(w, a as int, slot, w.len() as int);
    }
    unequip_slot(world, log, a, slot);
    let ghost w1 = world@;
    let ghost l1 = log@;
    if player {
        log.add_entry(LogEntry::Equipped { item: item_name });
    }
    world.entities[it].equipped = Some(Equipped { by: a, slot });
    world.entities[it].owned = None;
    proof {
        let r = equip_effect(w, a as int, it as int);
        assert(world@ =~= r.0);
        assert(log@ =~= old(log)@ + r.1);
    }
}

fn use_one_exec(world: &mut World, log: &mut GameLog, a: usize) -> (r: Result<(), IntentError>)
    requires
        a < old(world)@.len(),
    ensures
        match use_one(old(world)@, a as int) {
            Ok((w, m)) => r.is_ok() && final(world)@ == w && final(log)@ == old(log)@ + m,
            Err(e) => r == Err::<(), IntentError>(e),
        },
{
    let u = match world.entities[a].wants_to_use {
        None => {
            assert(log@ =~= old(log)@ + seq![]);
            return Ok(());
        },
        Some(u) => u,
    };
    let it = u.item;
    let owned_ok = it < world.entities.len() && match world.entities[it].owned {
        Some(o) => o.owner == a,
        None => false,
    };
    if !owned_ok {
        return Err(IntentError::NotOwned { entity: a, item: it });
    }
    let ghost w = world@;
    let consumable = world.entities[it].item && world.entities[it].consumable.is_some()
        && world.entities[it].name.is_some();
    let equippable = world.entities[it].item && world.entities[it].equippable.is_some()
        && world.entities[it].name.is_some();
    if consumable {
        consume(world, log, a, it);
    } else if equippable {
        equip(world, log, a, it);
    } else {
        log.add_entry(LogEntry::CannotUse);
    }
    let ghost w2 = world@;
    proof {
        lemma_effect_len(w, a as int, it as int);
    }
    world.entities[a].wants_to_use = None;
    proof {
        let (wf, m) = use_one(w, a as int).unwrap();
        assert(world@ =~= wf);
        assert(log@ =~= old(log)@ + m);
    }
    Ok(())
}

proof fn lemma_effect_len(w: Seq<Entity>, a: int, it: int)
    requires
        0 <= a < w.len(),
        0 <= it < w.len(),
    ensures
        consume_effect(w, a, it).0.len() == w.len(),
        is_equippable(w[it]) ==> equip_effect(w, a, it).0.len() == w.len(),
{
    if is_equippable(w[it]) {
        lemma_first_worn_bound(w, a, w[it].equippable.unwrap().slot, w.len() as int);
    }
}

/// Resolves every use intent, users in id order. A consumable heals its user, up to the
/// user's maximum, and is destroyed. An equippable item first frees its slot (the item the
/// user wore there goes back to the inventory), then is worn. Each intent is removed. Fails
/// when an intent names an item its user does not own.
pub fn use_item_system(world: &mut World, log: &mut GameLog) -> (r: Result<(), IntentError>)
    ensures
        match use_upto(old(world)@, old(world)@.len() as int) {
            Ok((w, m)) => r.is_ok() && final(world)@ == w && final(log)@ == old(log)@ + m,
            Err(e) => r == Err::<(), IntentError>(e),
        },
{
    let n = world.entities.len();
    let mut i: usize = 0;
    while i < n
        invariant
            i <= n,
            n == old(world)@.len(),
            match use_upto(old(world)@, i as int) {
                Ok((w, m)) => world@ == w && log@ == old(log)@ + m,
                Err(_) => false,
            },
        decreases n - i,
    {
        let ghost prev_log = log@;
        proof {
            lemma_use_len(old(world)@, i as int);
        }
        let r = use_one_exec(world, log, i);
        match r {
            Err(e) => {
                proof {
                    lemma_use_err_stays(old(world)@, i + 1, n as int);
                }
                return Err(e);
            },
            Ok(()) => {},
        }
        proof {
            let (w1, m1) = use_upto(old(world)@, i as int).unwrap();
            let (w2, m2) = use_one(w1, i as int).unwrap();
            assert(log@ =~= old(log)@ + (m1 + m2));
        }
        i = i + 1;
    }
    Ok(())
}

proof fn lemma_use_len(w: Seq<Entity>, n: int)
    requires
        n <= w.len(),
    ensures
        match use_upto(w, n) {
            Ok((w1, _)) => w1.len() == w.len(),
            Err(_) => true,
        },
    decreases n,
{
    if n > 0 {
        lemma_use_len(w, n - 1);
        match use_upto(w, n - 1) {
            Ok((w1, _)) => {
                lemma_use_one_len(w1, n - 1);
            },
            Err(_) => {},
        }
    }
}

proof fn lemma_use_one_len(w: Seq<Entity>, a: int)
    requires
        0 <= a < w.len(),
    ensures
        match use_one(w, a) {
            Ok((w1, _)) => w1.len() == w.len(),
            Err(_) => true,
        },
{
    match w[a].wants_to_use {
        Some(u) => {
            let it = u.item;
            if owned_by(w, it, a) {
                lemma_effect_len(w, a, it as int);
            }
        },
        None => {},
    }
}

proof fn lemma_first_worn_bound(w: Seq<Entity>, a: int, slot: crate::components::EquipmentSlot, n: int)
    ensures
        match first_worn(w, a, slot, n) {
            Some(x) => 0 <= x < n && worn_in_slot(w[x], a, slot),
            None => true,
        },
    decreases n,
{
    if n > 0 {
        lemma_first_worn_bound(w, a, slot, n - 1);
    }
}

proof fn lemma_use_err_stays(w: Seq<Entity>, j: int, k: int)
    requires
        0 <= j <= k,
        use_upto(w, j).is_err(),
    ensures
        use_upto(w, k) == use_upto(w, j),
    decreases k - j,
{
    if k > j {
        lemma_use_err_stays(w, j, k - 1);
    }
}


/// Intent idempotence for using items: in a world where no entity asks to use an item, the
/// use pass succeeds and changes nothing.
pub proof fn lemma_use_idempotent(w: Seq<Entity>, n: int)
    requires
        0 <= n <= w.len(),
        forall|e: int| 0 <= e < w.len() ==> (#[trigger] w[e]).wants_to_use.is_none(),
    ensures
        use_upto(w, n) == Ok::<(Seq<Entity>, Seq<LogEntry>), IntentError>((w, Seq::<LogEntry>::empty())),
    decreases n,
{
    if n > 0 {
        lemma_use_idempotent(w, n - 1);
        assert(w[n - 1].wants_to_use.is_none());
        assert(Seq::<LogEntry>::empty() + Seq::<LogEntry>::empty() =~= Seq::<LogEntry>::empty());
    }
}

} // verus!
