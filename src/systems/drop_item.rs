//! Dropping carried items.

use crate::gamelog::{GameLog, LogEntry};
use crate::map::EntityId;
use crate::systems::use_item::{owned_by, IntentError};
use crate::world::{Entity, World};
use vstd::prelude::*;

verus! {

/// Whether `t` exists and is a named item owned by `a`.
pub open spec fn droppable_by(w: Seq<Entity>, t: EntityId, a: int) -> bool {
    owned_by(w, t, a) && w[t as int].item && w[t as int].name.is_some()
}

/// The world and new log lines after `a` drops the item it asked to drop; `Err` when `a`
/// does not own such an item. An entity without a position has nowhere to put the item: its
/// intent is only removed.
pub open spec fn drop_one(w: Seq<Entity>, a: int) -> Result<(Seq<Entity>, Seq<LogEntry>), IntentError> {
    match (w[a].wants_to_drop, w[a].position) {
        (Some(_), None) => Ok((w.update(a, Entity { wants_to_drop: None, ..w[a] }), seq![])),
        (Some(d), Some(pos)) => {
            let it = d.item;
            if !droppable_by(w, it, a) {
                Err(IntentError::NotOwned { entity: a as EntityId, item: it })
            } else {
                let w1 = w.update(it as int, Entity { owned: None, position: Some(pos), ..w[it as int] });
                let msgs = if w[a].player {
                    seq![LogEntry::Dropped { item: w[it as int].name.unwrap().name }]
                } else {
                    seq![]
                };
                Ok((w1.update(a, Entity { wants_to_drop: None, ..w1[a] }), msgs))
            }
        },
        _ => Ok((w, seq![])),
    }
}

/// Drops, in id order, the items asked for by the first `n` entities.
pub open spec fn drop_upto(w: Seq<Entity>, n: int) -> Result<(Seq<Entity>, Seq<LogEntry>), IntentError>
    decreases n,
{
    if n <= 0 {
        Ok((w, seq![]))
    } else {
        match drop_upto(w, n - 1) {
            Err(e) => Err(e),
            Ok((w1, m1)) => match drop_one(w1, n - 1) {
                Err(e) => Err(e),
                Ok((w2, m2)) => Ok((w2, m1 + m2)),
            },
        }
    }
}

fn drop_one_exec(world: &mut World, log: &mut GameLog, a: usize) -> (r: Result<(), IntentError>)
    requires
        a < old(world)@.len(),
    ensures
        match drop_one(old(world)@, a as int) {
            Ok((w, m)) => r.is_ok() && final(world)@ == w && final(log)@ == old(log)@ + m,
            Err(e) => r == Err::<(), IntentError>(e),
        },
{
    let (d, pos) = match (world.entities[a].wants_to_drop, world.entities[a].position) {
        (Some(d), Some(pos)) => (d, pos),
        (Some(_), None) => {
            world.entities[a].wants_to_drop = None;
            assert(world@ =~= old(world)@.update(a as int, Entity { wants_to_drop: None, ..old(world)@[a as int] }));
            assert(log@ =~= old(log)@ + seq![]);
            return Ok(());
        },
        _ => {
            assert(log@ =~= old(log)@ + seq![]);
            return Ok(());
        },
    };
    let it = d.item;
    let ok = it < world.entities.len() && world.entities[it].item && world.entities[it].name.is_some()
        && match world.entities[it].owned {
        Some(o) => o.owner == a,
        None => false,
    };
    if !ok {
        return Err(IntentError::NotOwned { entity: a, item: it });
    }
    let ghost w = world@;
    world.entities[it].owned = None;
    world.entities[it].position = Some(pos);
    if world.entities[a].player {
        let name = world.entities[it].name.as_ref().unwrap().name.clone();
        log.add_entry(LogEntry::Dropped { item: name });
    }
    world.entities[a].wants_to_drop = None;
    proof {
        let (wf, m) = drop_one(w, a as int).unwrap();
        assert(world@ =~= wf);
        assert(log@ =~= old(log)@ + m);
    }
    Ok(())
}

proof fn lemma_drop_len(w: Seq<Entity>, n: int)
    requires
        n <= w.len(),
    ensures
        match drop_upto(w, n) {
            Ok((w1, _)) => w1.len() == w.len(),
            Err(_) => true,
        },
    decreases n,
{
    if n > 0 {
        lemma_drop_len(w, n - 1);
    }
}

proof fn lemma_drop_err_stays(w: Seq<Entity>, j: int, k: int)
    requires
        0 <= j <= k,
        drop_upto(w, j).is_err(),
    ensures
        drop_upto(w, k) == drop_upto(w, j),
    decreases k - j,
{
    if k > j {
        lemma_drop_err_stays(w, j, k - 1);
    }
}

proof fn lemma_drop_clears(w: Seq<Entity>, n: int)
    requires
        0 <= n <= w.len(),
    ensures
        match drop_upto(w, n) {
            Ok((w1, _)) => w1.len() == w.len() && (forall|j: int| 0 <= j < n ==> (#[trigger] w1[j]).wants_to_drop.is_none())
                && (forall|j: int| n <= j < w.len() ==> (#[trigger] w1[j]).wants_to_drop == w[j].wants_to_drop),
            Err(_) => true,
        },
    decreases n,
{
    if n > 0 {
        lemma_drop_clears(w, n - 1);
        match drop_upto(w, n - 1) {
            Ok((w1, _)) => {
                match drop_one(w1, n - 1) {
                    Ok((w2, _)) => {
                        assert forall|j: int| 0 <= j < n implies (#[trigger] w2[j]).wants_to_drop.is_none() by {
                            if j < n - 1 {
                                assert(w1[j].wants_to_drop.is_none());
                            }
                        }
                    },
                    Err(_) => {},
                }
            },
            Err(_) => {},
        }
    }
}

/// Resolves every drop intent, droppers in id order: the item leaves the inventory and lies
/// on the dropper's cell; the player's drops are logged; each intent is removed. Fails when an
/// intent names something that is not an item its dropper owns.
pub fn drop_item_system(world: &mut World, log: &mut GameLog) -> (r: Result<(), IntentError>)
    ensures
        match drop_upto(old(world)@, old(world)@.len() as int) {
            Ok((w, m)) => r.is_ok() && final(world)@ == w && final(log)@ == old(log)@ + m,
            Err(e) => r == Err::<(), IntentError>(e),
        },
        r.is_ok() ==> forall|e: int| 0 <= e < final(world)@.len() ==> (#[trigger] final(world)@[e]).wants_to_drop.is_none(),
{
    proof {
        lemma_drop_clears(old(world)@, old(world)@.len() as int);
    }
    let n = world.entities.len();
    let mut i: usize = 0;
    while i < n
        invariant
            i <= n,
            n == old(world)@.len(),
            match drop_upto(old(world)@, i as int) {
                Ok((w, m)) => world@ == w && log@ == old(log)@ + m,
                Err(_) => false,
            },
        decreases n - i,
    {
        proof {
            lemma_drop_len(old(world)@, i as int);
        }
        match drop_one_exec(world, log, i) {
            Err(e) => {
                proof {
                    lemma_drop_err_stays(old(world)@, i + 1, n as int);
                }
                return Err(e);
            },
            Ok(()) => {},
        }
        proof {
            let (w1, m1) = drop_upto(old(world)@, i as int).unwrap();
            let (w2, m2) = drop_one(w1, i as int).unwrap();
            assert(log@ =~= old(log)@ + (m1 + m2));
        }
        i = i + 1;
    }
    Ok(())
}


/// Intent idempotence for dropping: in a world where no entity asks to drop an item, the drop
/// pass succeeds and changes nothing.
pub proof fn lemma_drop_idempotent(w: Seq<Entity>, n: int)
    requires
        0 <= n <= w.len(),
        forall|e: int| 0 <= e < w.len() ==> (#[trigger] w[e]).wants_to_drop.is_none(),
    ensures
        drop_upto(w, n) == Ok::<(Seq<Entity>, Seq<LogEntry>), IntentError>((w, Seq::<LogEntry>::empty())),
    decreases n,
{
    if n > 0 {
        lemma_drop_idempotent(w, n - 1);
        assert(w[n - 1].wants_to_drop.is_none());
        assert(Seq::<LogEntry>::empty() + Seq::<LogEntry>::empty() =~= Seq::<LogEntry>::empty());
    }
}

} // verus!
