//! Applying queued damage, and removing the dead.

use crate::components::CombatStats;
use crate::gamelog::{GameLog, LogEntry};
use crate::map::{idx_of, GameMap};
use crate::run_state::RunState;
use crate::systems::map_indexing::positions_on_map;
use crate::world::{Entity, World};
use vstd::prelude::*;

verus! {

broadcast use vstd::std_specs::hash::group_hash_axioms;

/// Sum of a damage queue.
pub open spec fn seq_sum(s: Seq<i32>) -> int
    decreases s.len(),
{
    if s.len() == 0 {
        0
    } else {
        seq_sum(s.drop_last()) + s.last()
    }
}

/// `v` brought into the range of `i32`.
pub open spec fn clamp_i32(v: int) -> i32 {
    (if v < i32::MIN {
        i32::MIN as int
    } else if v > i32::MAX {
        i32::MAX as int
    } else {
        v
    }) as i32
}

/// Whether entity `e` takes damage this turn: it has combat stats and a damage queue.
pub open spec fn suffers(e: Entity) -> bool {
    e.stats.is_some() && e.can_suffer_damage.is_some()
}

/// The damage queued on an entity that takes damage.
pub open spec fn pending(e: Entity) -> int {
    seq_sum(e.can_suffer_damage.unwrap().amount@)
}

/// `b` is `a` with at most its stats and damage queue changed.
pub open spec fn same_but_damage(a: Entity, b: Entity) -> bool {
    b == Entity { stats: b.stats, can_suffer_damage: b.can_suffer_damage, ..a }
}

/// Whether some positioned entity that takes a nonzero sum of damage stands on cell `i`.
pub open spec fn bleeds_on(w: Seq<Entity>, width: int, i: int) -> bool {
    exists|e: int|
        0 <= e < w.len() && suffers(#[trigger] w[e]) && pending(w[e]) != 0 && w[e].position.is_some()
            && idx_of(w[e].position.unwrap().x as int, w[e].position.unwrap().y as int, width) == i
}

fn sum_queue(q: &Vec<i32>) -> (r: i128)
    ensures
        r == seq_sum(q@),
        -0x1_0000_0000_0000_0000_0000_0000 <= r <= 0x1_0000_0000_0000_0000_0000_0000,
{
    let mut s: i128 = 0;
    let mut i: usize = 0;
    let len = q.len();
    while i < len
        invariant
            i <= len,
            len == q@.len(),
            s == seq_sum(q@.take(i as int)),
            -(i as int) * 0x8000_0000 <= s <= (i as int) * 0x8000_0000,
        decreases len - i,
    {
        assert(q@.take(i + 1).drop_last() =~= q@.take(i as int));
        assert((i as int + 1) * 0x8000_0000 <= 0x1_0000_0000_0000_0000_0000_0000) by (nonlinear_arith)
            requires
                i < len,
                len <= 0xffff_ffff_ffff_ffff,
        ;
        s = s + q[i] as i128;
        i = i + 1;
    }
    assert(q@.take(i as int) =~= q@);
    assert((i as int) * 0x8000_0000 <= 0x1_0000_0000_0000_0000_0000_0000) by (nonlinear_arith)
        requires
            i <= 0xffff_ffff_ffff_ffff,
    ;
    s
}

/// Applies queued damage: each entity with combat stats and a damage queue loses the sum of
/// the queue (hit points saturate at the bounds of `i32`), and its queue is emptied. A cell
/// where a positioned entity took a nonzero sum gets a bloodstain.
pub fn damage_system(world: &mut World, map: &mut GameMap)
    requires
        old(map).wf(),
        positions_on_map(old(world)@, old(map)),
    ensures
        final(world)@.len() == old(world)@.len(),
        forall|e: int|
            0 <= e < old(world)@.len() ==> same_but_damage(old(world)@[e], #[trigger] final(world)@[e]),
        forall|e: int|
            0 <= e < old(world)@.len() ==> if suffers(old(world)@[e]) {
                &&& (#[trigger] final(world)@[e]).stats == Some(
                    CombatStats {
                        hp: clamp_i32(old(world)@[e].stats.unwrap().hp - pending(old(world)@[e])),
                        ..old(world)@[e].stats.unwrap()
                    },
                )
                &&& final(world)@[e].can_suffer_damage.unwrap().amount@.len() == 0
            } else {
                final(world)@[e] == old(world)@[e]
            },
        final(map).tiles == old(map).tiles,
        final(map).revealed_tiles == old(map).revealed_tiles,
        final(map).visible_tiles == old(map).visible_tiles,
        final(map).tile_content == old(map).tile_content,
        final(map).blocked == old(map).blocked,
        final(map).width == old(map).width,
        final(map).height == old(map).height,
        final(map).depth == old(map).depth,
        forall|i: usize|
            #[trigger] final(map).bloodstains@.contains(i) == (old(map).bloodstains@.contains(i)
                || bleeds_on(old(world)@, old(map).width as int, i as int)),
{
    let ghost w0 = world@;
    let ghost width = map.width as int;
    let n = world.entities.len();
    let mut e: usize = 0;
    while e < n
        invariant
            e <= n,
            n == w0.len(),
            w0 == old(world)@,
            world@.len() == n,
            map.wf(),
            width == map.width,
            map.tiles == old(map).tiles,
            map.revealed_tiles == old(map).revealed_tiles,
            map.visible_tiles == old(map).visible_tiles,
            map.tile_content == old(map).tile_content,
            map.blocked == old(map).blocked,
            map.width == old(map).width,
            map.height == old(map).height,
            map.depth == old(map).depth,
            positions_on_map(w0, old(map)),
            forall|k: int| 0 <= k < n ==> same_but_damage(w0[k], #[trigger] world@[k]),
            forall|k: int|
                0 <= k < n ==> if k < e && suffers(w0[k]) {
                    &&& (#[trigger] world@[k]).stats == Some(
                        CombatStats {
                            hp: clamp_i32(w0[k].stats.unwrap().hp - pending(w0[k])),
                            ..w0[k].stats.unwrap()
                        },
                    )
                    &&& world@[k].can_suffer_damage.unwrap().amount@.len() == 0
                } else {
                    world@[k] == w0[k]
                },
            forall|i: usize|
                #[trigger] map.bloodstains@.contains(i) == (old(map).bloodstains@.contains(i)
                    || exists|k: int|
                    0 <= k < e && suffers(#[trigger] w0[k]) && pending(w0[k]) != 0
                        && w0[k].position.is_some() && idx_of(
                        w0[k].position.unwrap().x as int,
                        w0[k].position.unwrap().y as int,
                        width,
                    ) == i),
        decreases n - e,
    {
        let ghost before = map.bloodstains@;
        let ghost ek = e as int;
        assert(world@[ek] == w0[ek]);
        let has = world.entities[e].stats.is_some() && world.entities[e].can_suffer_damage.is_some();
        if has {
            let dmg = sum_queue(&world.entities[e].can_suffer_damage.as_ref().unwrap().amount);
            let s = world.entities[e].stats.unwrap();
            let v = s.hp as i128 - dmg;
            let hp = if v < i32::MIN as i128 {
                i32::MIN
            } else if v > i32::MAX as i128 {
                i32::MAX
            } else {
                v as i32
            };
            world.entities[e].stats = Some(CombatStats { hp, ..s });
            match &mut world.entities[e].can_suffer_damage {
                Some(c) => {
                    c.amount.clear();
                },
                None => {},
            }
            if dmg != 0 {
                if let Some(pos) = world.entities[e].position {
                    let idx = map.xy_idx(pos.x, pos.y);
                    map.bloodstains.insert(idx);
                }
            }
        }
        proof {
            assert forall|i: usize|
                #[trigger] map.bloodstains@.contains(i) == (old(map).bloodstains@.contains(i)
                    || exists|k: int|
                    0 <= k < e + 1 && suffers(#[trigger] w0[k]) && pending(w0[k]) != 0
                        && w0[k].position.is_some() && idx_of(
                        w0[k].position.unwrap().x as int,
                        w0[k].position.unwrap().y as int,
                        width,
                    ) == i) by {
                if exists|k: int|
                    0 <= k < e && suffers(#[trigger] w0[k]) && pending(w0[k]) != 0
                        && w0[k].position.is_some() && idx_of(
                        w0[k].position.unwrap().x as int,
                        w0[k].position.unwrap().y as int,
                        width,
                    ) == i {
                    let k = choose|k: int|
                        0 <= k < e && suffers(#[trigger] w0[k]) && pending(w0[k]) != 0
                            && w0[k].position.is_some() && idx_of(
                            w0[k].position.unwrap().x as int,
                            w0[k].position.unwrap().y as int,
                            width,
                        ) == i;
                    assert(0 <= k < e + 1);
                }
            }
        }
        e = e + 1;
    }
}

/// Whether entity `e` dies this turn: it has combat stats and no hit points left.
pub open spec fn is_dead(e: Entity) -> bool {
    e.stats.is_some() && e.stats.unwrap().hp <= 0
}

/// The messages for the dead among the first `n` entities.
pub open spec fn death_messages(w: Seq<Entity>, n: int) -> Seq<LogEntry>
    decreases n,
{
    if n <= 0 {
        seq![]
    } else {
        let prev = death_messages(w, n - 1);
        let e = w[n - 1];
        if !is_dead(e) {
            prev
        } else if e.player {
            prev.push(LogEntry::PlayerDied)
        } else {
            match e.name {
                Some(name) => prev.push(LogEntry::IsDead { name: name.name }),
                None => prev,
            }
        }
    }
}

/// Removes the dead. A dead player is kept, and the game goes back to the main menu; any
/// other dead entity is despawned. Deaths of named entities are logged.
pub fn delete_the_dead(world: &mut World, log: &mut GameLog, state: &mut RunState)
    ensures
        final(world)@.len() == old(world)@.len(),
        forall|e: int|
            0 <= e < old(world)@.len() ==> #[trigger] final(world)@[e] == if is_dead(old(world)@[e])
                && !old(world)@[e].player {
                Entity::spec_empty(false)
            } else {
                old(world)@[e]
            },
        final(log)@ == old(log)@ + death_messages(old(world)@, old(world)@.len() as int),
        *final(state) == if exists|e: int|
            0 <= e < old(world)@.len() && is_dead(#[trigger] old(world)@[e]) && old(world)@[e].player {
            RunState::MainMenu
        } else {
            *old(state)
        },
{
    let ghost w0 = world@;
    let n = world.entities.len();
    let mut e: usize = 0;
    while e < n
        invariant
            e <= n,
            n == w0.len(),
            w0 == old(world)@,
            world@.len() == n,
            forall|k: int|
                0 <= k < n ==> #[trigger] world@[k] == if k < e && is_dead(w0[k]) && !w0[k].player {
                    Entity::spec_empty(false)
                } else {
                    w0[k]
                },
            log@ == old(log)@ + death_messages(w0, e as int),
            *state == if exists|k: int| 0 <= k < e && is_dead(#[trigger] w0[k]) && w0[k].player {
                RunState::MainMenu
            } else {
                *old(state)
            },
        decreases n - e,
    {
        let ghost ek = e as int;
        assert(world@[ek] == w0[ek]);
        let dead = match world.entities[e].stats {
            Some(s) => s.hp <= 0,
            None => false,
        };
        if dead {
            if world.entities[e].player {
                log.add_entry(LogEntry::PlayerDied);
                *state = RunState::MainMenu;
            } else {
                match &world.entities[e].name {
                    Some(name) => {
                        let name = name.name.clone();
                        log.add_entry(LogEntry::IsDead { name });
                    },
                    None => {},
                }
                world.despawn(e);
            }
        }
        assert(log@ =~= old(log)@ + death_messages(w0, e + 1));
        proof {
            if exists|k: int| 0 <= k < e + 1 && is_dead(#[trigger] w0[k]) && w0[k].player {
                if !(is_dead(w0[ek]) && w0[ek].player) {
                    let k = choose|k: int| 0 <= k < e + 1 && is_dead(#[trigger] w0[k]) && w0[k].player;
                    assert(k < e);
                }
            } else {
                assert(!(exists|k: int| 0 <= k < e && is_dead(#[trigger] w0[k]) && w0[k].player)) by {
                    if exists|k: int| 0 <= k < e && is_dead(#[trigger] w0[k]) && w0[k].player {
                        let k = choose|k: int| 0 <= k < e && is_dead(#[trigger] w0[k]) && w0[k].player;
                        assert(0 <= k < e + 1);
                    }
                }
            }
        }
        e = e + 1;
    }
}

} // verus!
