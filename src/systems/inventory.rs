//! Picking items up.

use crate::components::{Owned, WantsToPickupItem};
use crate::gamelog::{GameLog, LogEntry};
use crate::map::{EntityId, GameMap};
use crate::world::{Entity, World};
use vstd::prelude::*;

verus! {

/// Whether entity `t` exists and is an item.
pub open spec fn is_item(w: Seq<Entity>, t: EntityId) -> bool {
    t < w.len() && w[t as int].item
}

/// The first entity of `content` that is an item.
pub open spec fn first_item(w: Seq<Entity>, content: Seq<EntityId>) -> Option<EntityId>
    decreases content.len(),
{
    if content.len() == 0 {
        None
    } else {
        match first_item(w, content.drop_last()) {
            Some(t) => Some(t),
            None => if is_item(w, content.last()) {
                Some(content.last())
            } else {
                None
            },
        }
    }
}

proof fn lemma_first_item_stays(w: Seq<Entity>, content: Seq<EntityId>, j: int, k: int)
    requires
        0 <= j <= k <= content.len(),
        first_item(w, content.take(j)).is_some(),
    ensures
        first_item(w, content.take(k)) == first_item(w, content.take(j)),
    decreases k - j,
{
    if k > j {
        lemma_first_item_stays(w, content, j, k - 1);
        assert(content.take(k).drop_last() =~= content.take(k - 1));
    }
}

/// Asks to pick up the first item lying on `actor`'s cell: `actor` gets the intent, or the log
/// says that there is nothing to pick up.
pub fn pickup_item(world: &mut World, map: &GameMap, log: &mut GameLog, actor: EntityId)
    requires
        map.wf(),
        actor < old(world)@.len(),
        old(world)@[actor as int].position.is_some(),
        map.in_bounds(
            old(world)@[actor as int].position.unwrap().x as int,
            old(world)@[actor as int].position.unwrap().y as int,
        ),
    ensures
        ({
            let pos = old(world)@[actor as int].position.unwrap();
            let content = map.tile_content@[map.idx(pos.x as int, pos.y as int)]@;
            match first_item(old(world)@, content) {
                Some(t) => {
                    &&& final(world)@ == old(world)@.update(
                        actor as int,
                        Entity {
                            wants_to_pickup: Some(WantsToPickupItem { item: t }),
                            ..old(world)@[actor as int]
                        },
                    )
                    &&& final(log)@ == old(log)@
                },
                None => {
                    &&& final(world)@ == old(world)@
                    &&& final(log)@ == old(log)@.push(LogEntry::NothingToPickUp)
                },
            }
        }),
{
    let pos = world.entities[actor].position.unwrap();
    let idx = map.xy_idx(pos.x, pos.y);
    let content = &map.tile_content[idx];
    let mut i: usize = 0;
    while i < content.len()
        invariant
            i <= content@.len(),
            world@ == old(world)@,
            actor < world@.len(),
            pos == old(world)@[actor as int].position.unwrap(),
            content@ == map.tile_content@[map.idx(pos.x as int, pos.y as int)]@,
            first_item(world@, content@.take(i as int)).is_none(),
        decreases content@.len() - i,
    {
        let t = content[i];
        assert(content@.take(i + 1).drop_last() =~= content@.take(i as int));
        if t < world.entities.len() && world.entities[t].item {
            proof {
                assert(content@.take(content@.len() as int) =~= content@);
                lemma_first_item_stays(world@, content@, i + 1, content@.len() as int);
            }
            world.entities[actor].wants_to_pickup = Some(WantsToPickupItem { item: t });
            assert(world@ =~= old(world)@.update(
                actor as int,
                Entity { wants_to_pickup: Some(WantsToPickupItem { item: t }), ..old(world)@[actor as int] },
            ));
            return;
        }
        i = i + 1;
    }
    assert(content@.take(content@.len() as int) =~= content@);
    log.add_entry(LogEntry::NothingToPickUp);
}

/// The effect of collecting the item that `owner` asked for.
pub open spec fn collected(w: Seq<Entity>, owner: int) -> Seq<Entity> {
    match w[owner].wants_to_pickup {
        Some(want) => {
            let t = want.item as int;
            let w1 = w.update(owner, Entity { wants_to_pickup: None, ..w[owner] });
            if 0 <= t < w1.len() {
                w1.update(t, Entity { position: None, owned: Some(Owned { owner: owner as EntityId }), ..w1[t] })
            } else {
                w1
            }
        },
        None => w,
    }
}

/// The message for `owner`'s pick-up: only the player's pick-ups are logged, naming the item
/// when it has a name.
pub open spec fn collect_message(w: Seq<Entity>, owner: int) -> Seq<LogEntry> {
    match w[owner].wants_to_pickup {
        Some(want) => if want.item < w.len() && w[owner].player {
            seq![
                LogEntry::PickedUp {
                    name: match w[want.item as int].name {
                        Some(n) => Some(n.name),
                        None => None,
                    },
                },
            ]
        } else {
            seq![]
        },
        None => seq![],
    }
}

/// The messages of the pick-ups of entities `0..n`, in id order.
pub open spec fn collected_messages(w: Seq<Entity>, n: int) -> Seq<LogEntry>
    decreases n,
{
    if n <= 0 {
        seq![]
    } else {
        collected_messages(w, n - 1) + collect_message(collected_upto(w, n - 1), n - 1)
    }
}

/// The world after collecting, in id order, the items asked for by entities `0..n`.
pub open spec fn collected_upto(w: Seq<Entity>, n: int) -> Seq<Entity>
    decreases n,
{
    if n <= 0 {
        w
    } else {
        collected(collected_upto(w, n - 1), n - 1)
    }
}

/// Collects the items asked for: each item loses its position and becomes owned by the entity
/// that asked, whose intent is removed. The player's pick-ups are logged.
pub fn item_collection_system(world: &mut World, log: &mut GameLog)
    ensures
        final(world)@ == collected_upto(old(world)@, old(world)@.len() as int),
        final(log)@ == old(log)@ + collected_messages(old(world)@, old(world)@.len() as int),
        forall|i: int| 0 <= i < final(world)@.len() ==> (#[trigger] final(world)@[i]).wants_to_pickup.is_none(),
{
    let n = world.entities.len();
    let mut i: usize = 0;
    while i < n
        invariant
            i <= n,
            n == old(world)@.len(),
            world@ == collected_upto(old(world)@, i as int),
            world@.len() == n,
            log@ == old(log)@ + collected_messages(old(world)@, i as int),
            forall|j: int| 0 <= j < i ==> (#[trigger] world@[j]).wants_to_pickup.is_none(),
        decreases n - i,
    {
        proof {
            lemma_collected_len(old(world)@, i as int);
        }
        collect_one(world, log, i);
        assert(log@ =~= old(log)@ + collected_messages(old(world)@, i + 1));
        i = i + 1;
    }
}

fn collect_one(world: &mut World, log: &mut GameLog, i: usize)
    requires
        i < old(world)@.len(),
    ensures
        final(world)@ == collected(old(world)@, i as int),
        final(log)@ == old(log)@ + collect_message(old(world)@, i as int),
        forall|j: int|
            0 <= j < final(world)@.len() ==> (#[trigger] final(world)@[j]).wants_to_pickup == (if j
                == i {
                None
            } else {
                old(world)@[j].wants_to_pickup
            }),
{
    let n = world.entities.len();
    if let Some(want) = world.entities[i].wants_to_pickup {
        let t = want.item;
        world.entities[i].wants_to_pickup = None;
        let ghost w1 = world@;
        assert(w1 =~= old(world)@.update(i as int, Entity { wants_to_pickup: None, ..old(world)@[i as int] }));
        if t < n {
            world.entities[t].position = None;
            world.entities[t].owned = Some(Owned { owner: i });
            assert(world@ =~= w1.update(t as int, Entity { position: None, owned: Some(Owned { owner: i }), ..w1[t as int] }));
            if world.entities[i].player {
                let name = match &world.entities[t].name {
                    Some(n) => Some(n.name.clone()),
                    None => None,
                };
                log.add_entry(LogEntry::PickedUp { name });
            } else {
                assert(log@ =~= old(log)@ + seq![]);
            }
        } else {
            assert(log@ =~= old(log)@ + seq![]);
        }
    } else {
        assert(log@ =~= old(log)@ + seq![]);
    }
}

proof fn lemma_collected_len(w: Seq<Entity>, n: int)
    requires
        0 <= n <= w.len(),
    ensures
        collected_upto(w, n).len() == w.len(),
    decreases n,
{
    if n > 0 {
        lemma_collected_len(w, n - 1);
    }
}


/// Intent idempotence for pick-ups: in a world where no entity asks to pick anything up, the
/// collection pass changes nothing and logs nothing.
pub proof fn lemma_collect_idempotent(w: Seq<Entity>, n: int)
    requires
        0 <= n <= w.len(),
        forall|e: int| 0 <= e < w.len() ==> (#[trigger] w[e]).wants_to_pickup.is_none(),
    ensures
        collected_upto(w, n) == w,
        collected_messages(w, n) == Seq::<LogEntry>::empty(),
    decreases n,
{
    if n > 0 {
        lemma_collect_idempotent(w, n - 1);
        assert(collected_messages(w, n) =~= Seq::<LogEntry>::empty());
    }
}

} // verus!
