//! Turning the player's key press into movement, attacks and menu changes.

use crate::components::{Position, Viewshed, WantsToMelee};
use crate::gamelog::{GameLog, LogEntry};
use crate::map::{EntityId, GameMap};
use crate::run_state::RunState;
use crate::systems::inventory::{first_item, pickup_item};
use crate::world::{Entity, World};
use vstd::prelude::*;

verus! {

/// The keys that the game reacts to.
#[derive(Debug, Clone, Copy, PartialEq, Eq, Structural)]
pub enum InputKey {
    Left,
    Right,
    Up,
    Down,
    H,
    J,
    K,
    L,
    Y,
    U,
    B,
    N,
    /// Pick up.
    Comma,
    /// Open the inventory.
    I,
    /// Open the drop menu.
    D,
    Other,
}

/// The step that a key asks for: arrows and `hjkl` move straight, `yubn` diagonally.
pub open spec fn spec_key_delta(k: InputKey) -> (int, int) {
    match k {
        InputKey::Left | InputKey::H => (-1, 0),
        InputKey::Right | InputKey::L => (1, 0),
        InputKey::Up | InputKey::K => (0, -1),
        InputKey::Down | InputKey::J => (0, 1),
        InputKey::Y => (-1, -1),
        InputKey::U => (1, -1),
        InputKey::B => (-1, 1),
        InputKey::N => (1, 1),
        _ => (0, 0),
    }
}

/// The step that a key asks for.
pub fn key_delta(k: InputKey) -> (r: (i64, i64))
    ensures
        (r.0 as int, r.1 as int) == spec_key_delta(k),
{
    match k {
        InputKey::Left | InputKey::H => (-1, 0),
        InputKey::Right | InputKey::L => (1, 0),
        InputKey::Up | InputKey::K => (0, -1),
        InputKey::Down | InputKey::J => (0, 1),
        InputKey::Y => (-1, -1),
        InputKey::U => (1, -1),
        InputKey::B => (-1, 1),
        InputKey::N => (1, 1),
        _ => (0, 0),
    }
}

/// `v` clamped to `[0, hi]`.
pub open spec fn clamp(v: int, hi: int) -> int {
    if v < 0 {
        0
    } else if v > hi {
        hi
    } else {
        v
    }
}

/// Whether entity `t` exists and is a monster with combat stats.
pub open spec fn is_enemy(w: Seq<Entity>, t: EntityId) -> bool {
    t < w.len() && w[t as int].mob && w[t as int].stats.is_some()
}

/// The last entity of `content` that is a monster with combat stats.
pub open spec fn last_enemy(w: Seq<Entity>, content: Seq<EntityId>) -> Option<EntityId>
    decreases content.len(),
{
    if content.len() == 0 {
        None
    } else if is_enemy(w, content.last()) {
        Some(content.last())
    } else {
        last_enemy(w, content.drop_last())
    }
}

/// The viewshed marked for recomputation.
pub open spec fn dirtied(v: Option<Viewshed>) -> Option<Viewshed> {
    match v {
        Some(v) => Some(Viewshed { dirty: true, ..v }),
        None => None,
    }
}

/// What a move key does to the world: the player steps onto the target cell when it is free,
/// and otherwise attacks the last monster standing there, if any.
pub open spec fn spec_move(w: Seq<Entity>, map: &GameMap, p: EntityId, k: InputKey) -> Seq<Entity> {
    let pos = w[p as int].position.unwrap();
    let nx = clamp(pos.x + spec_key_delta(k).0, map.width - 1);
    let ny = clamp(pos.y + spec_key_delta(k).1, map.height - 1);
    let t = map.idx(nx, ny);
    if !map.blocked@[t] {
        w.update(
            p as int,
            Entity {
                position: Some(Position { x: nx as u32, y: ny as u32 }),
                viewshed: dirtied(w[p as int].viewshed),
                ..w[p as int]
            },
        )
    } else {
        match last_enemy(w, map.tile_content@[t]@) {
            Some(e) => w.update(
                p as int,
                Entity { wants_to_melee: Some(WantsToMelee { target: e }), ..w[p as int] },
            ),
            None => w,
        }
    }
}

/// Whether a key consumes a turn: a pick-up or a step.
pub open spec fn consumes_turn(k: InputKey) -> bool {
    k == InputKey::Comma || spec_key_delta(k) != (0int, 0int)
}

/// Handles one key press while the game awaits input. A pick-up or a step takes the turn and
/// advances the run state; `I` and `D` open the inventory and drop menus; other keys do nothing.
pub fn player_input_system(
    world: &mut World,
    map: &GameMap,
    log: &mut GameLog,
    state: &mut RunState,
    player: EntityId,
    key: Option<InputKey>,
)
    requires
        map.wf(),
        player < old(world)@.len(),
        old(world)@[player as int].position.is_some(),
        map.in_bounds(
            old(world)@[player as int].position.unwrap().x as int,
            old(world)@[player as int].position.unwrap().y as int,
        ),
    ensures
        match key {
            Some(InputKey::Comma) => {
                let pos = old(world)@[player as int].position.unwrap();
                let content = map.tile_content@[map.idx(pos.x as int, pos.y as int)]@;
                &&& *final(state) == old(state).spec_advance()
                &&& match first_item(old(world)@, content) {
                    Some(t) => {
                        &&& final(world)@ == old(world)@.update(
                            player as int,
                            Entity {
                                wants_to_pickup: Some(
                                    crate::components::WantsToPickupItem { item: t },
                                ),
                                ..old(world)@[player as int]
                            },
                        )
                        &&& final(log)@ == old(log)@
                    },
                    None => {
                        &&& final(world)@ == old(world)@
                        &&& final(log)@ == old(log)@.push(LogEntry::NothingToPickUp)
                    },
                }
            },
            Some(InputKey::I) => {
                &&& *final(state) == RunState::ShowInventory
                &&& final(world)@ == old(world)@
                &&& final(log)@ == old(log)@
            },
            Some(InputKey::D) => {
                &&& *final(state) == RunState::ShowDropItem
                &&& final(world)@ == old(world)@
                &&& final(log)@ == old(log)@
            },
            Some(k) => if consumes_turn(k) {
                &&& *final(state) == old(state).spec_advance()
                &&& final(world)@ == spec_move(old(world)@, map, player, k)
                &&& final(log)@ == old(log)@
            } else {
                &&& *final(state) == *old(state)
                &&& final(world)@ == old(world)@
                &&& final(log)@ == old(log)@
            },
            None => {
                &&& *final(state) == *old(state)
                &&& final(world)@ == old(world)@
                &&& final(log)@ == old(log)@
            },
        },
{
    let key = match key {
        Some(k) => k,
        None => {
            return;
        },
    };
    match key {
        InputKey::Comma => {
            pickup_item(world, map, log, player);
            RunState::advance_state(state);
            return;
        },
        InputKey::I => {
            *state = RunState::ShowInventory;
            return;
        },
        InputKey::D => {
            *state = RunState::ShowDropItem;
            return;
        },
        _ => {},
    }
    let (dx, dy) = key_delta(key);
    if dx == 0 && dy == 0 {
        return;
    }
    let pos = world.entities[player].position.unwrap();
    let nx = clamp_exec(pos.x as i64 + dx, map.width as i64 - 1);
    let ny = clamp_exec(pos.y as i64 + dy, map.height as i64 - 1);
    let idx = map.xy_idx(nx as u32, ny as u32);
    if !map.blocked[idx] {
        world.entities[player].position = Some(Position { x: nx as u32, y: ny as u32 });
        match &mut world.entities[player].viewshed {
            Some(v) => {
                v.dirty = true;
            },
            None => {},
        }
        assert(world@ =~= spec_move(old(world)@, map, player, key));
    } else {
        let target = last_enemy_exec(world, &map.tile_content[idx]);
        if let Some(e) = target {
            world.entities[player].wants_to_melee = Some(WantsToMelee { target: e });
            assert(world@ =~= spec_move(old(world)@, map, player, key));
        }
    }
    RunState::advance_state(state);
}

fn clamp_exec(v: i64, hi: i64) -> (r: i64)
    requires
        hi >= 0,
    ensures
        r == clamp(v as int, hi as int),
{
    if v < 0 {
        0
    } else if v > hi {
        hi
    } else {
        v
    }
}

fn last_enemy_exec(world: &World, content: &Vec<EntityId>) -> (r: Option<EntityId>)
    ensures
        r == last_enemy(world@, content@),
{
    let mut found: Option<EntityId> = None;
    let mut i: usize = 0;
    while i < content.len()
        invariant
            i <= content@.len(),
            found == last_enemy(world@, content@.take(i as int)),
        decreases content@.len() - i,
    {
        let t = content[i];
        assert(content@.take(i + 1).drop_last() =~= content@.take(i as int));
        if t < world.entities.len() && world.entities[t].mob && world.entities[t].stats.is_some() {
            found = Some(t);
        }
        i = i + 1;
    }
    assert(content@.take(content@.len() as int) =~= content@);
    found
}

} // verus!
