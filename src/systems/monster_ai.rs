//! A monster's decision for the turn: attack the player when adjacent, otherwise step along a
//! shortest path towards the player while it can see the player.

use crate::components::{Position, WantsToMelee};
use crate::map::{adjacent, EntityId, GameMap};
use crate::systems::input::dirtied;
use crate::world::{Entity, World};
use vstd::prelude::*;

verus! {

/// Whether the monster sees the player's cell.
pub open spec fn sees(e: Entity, target: Position) -> bool {
    e.mob && e.viewshed.is_some() && e.position.is_some() && e.viewshed.unwrap().visible_tiles@.contains(
        target,
    )
}

/// Whether `path` gives a first step that the monster standing at `from` may take: a free
/// cell of the map next to `from`.
pub open spec fn step_ok(map: &GameMap, from: Position, path: Seq<usize>) -> bool {
    &&& path.len() > 1
    &&& path[1] < map.size()
    &&& !map.blocked@[path[1] as int]
    &&& adjacent(
        from.x as int,
        from.y as int,
        map.idx_x(path[1] as int),
        map.idx_y(path[1] as int),
    )
    &&& map.idx(from.x as int, from.y as int) != path[1]
}

/// Whether the monster must look for a path this turn: it sees the player and is not next to
/// the player.
pub open spec fn spec_wants_path(w: Seq<Entity>, m: int, player: int) -> bool {
    let pp = w[player].position.unwrap();
    sees(w[m], pp) && !adjacent(
        w[m].position.unwrap().x as int,
        w[m].position.unwrap().y as int,
        pp.x as int,
        pp.y as int,
    )
}

fn is_adjacent(a: Position, b: Position) -> (r: bool)
    ensures
        r == adjacent(a.x as int, a.y as int, b.x as int, b.y as int),
{
    let dx = a.x as i64 - b.x as i64;
    let dy = a.y as i64 - b.y as i64;
    if dx < -1 || dx > 1 || dy < -1 || dy > 1 {
        assert(!adjacent(a.x as int, a.y as int, b.x as int, b.y as int)) by (nonlinear_arith)
            requires
                dx < -1 || dx > 1 || dy < -1 || dy > 1,
                dx == a.x - b.x,
                dy == a.y - b.y,
        ;
        return false;
    }
    assert(adjacent(a.x as int, a.y as int, b.x as int, b.y as int)) by (nonlinear_arith)
        requires
            -1 <= dx <= 1,
            -1 <= dy <= 1,
            dx == a.x - b.x,
            dy == a.y - b.y,
    ;
    true
}

fn sees_exec(e: &Entity, target: Position) -> (r: bool)
    ensures
        r == sees(*e, target),
{
    if !e.mob || e.position.is_none() {
        return false;
    }
    match &e.viewshed {
        None => false,
        Some(v) => {
            let mut k: usize = 0;
            while k < v.visible_tiles.len()
                invariant
                    k <= v.visible_tiles@.len(),
                    e.viewshed == Some(*v),
                    e.mob && e.position.is_some(),
                    forall|j: int| 0 <= j < k ==> v.visible_tiles@[j] != target,
                decreases v.visible_tiles@.len() - k,
            {
                if v.visible_tiles[k] == target {
                    assert(v.visible_tiles@[k as int] == target);
                    assert(e.viewshed.unwrap().visible_tiles@.contains(target));
                    return true;
                }
                k = k + 1;
            }
            false
        },
    }
}

/// Whether monster `m` must look for a path to the player this turn.
pub fn wants_path(world: &World, m: EntityId, player: EntityId) -> (r: bool)
    requires
        m < world@.len(),
        player < world@.len(),
        world@[player as int].position.is_some(),
    ensures
        r == spec_wants_path(world@, m as int, player as int),
{
    let pp = world.entities[player].position.unwrap();
    if !sees_exec(&world.entities[m], pp) {
        return false;
    }
    !is_adjacent(world.entities[m].position.unwrap(), pp)
}

/// Decides and performs monster `m`'s turn. A monster that does not see the player idles. One
/// next to the player (Euclidean distance below 1.5) asks to attack it and stays put.
/// Otherwise it takes the first step of `path`, a shortest path from its cell to the player's
/// (cell indices, starting with its own), when that step is a free neighbouring cell: the
/// occupancy moves with it, and its viewshed must be recomputed. Without such a step it stays.
pub fn monster_ai_step(world: &mut World, map: &mut GameMap, m: EntityId, player: EntityId, path: &Vec<usize>)
    requires
        old(map).wf(),
        m < old(world)@.len(),
        player < old(world)@.len(),
        old(world)@[player as int].position.is_some(),
        old(world)@[m as int].position.is_some() ==> old(map).in_bounds(
            old(world)@[m as int].position.unwrap().x as int,
            old(world)@[m as int].position.unwrap().y as int,
        ),
    ensures
        ({
            let e = old(world)@[m as int];
            let pp = old(world)@[player as int].position.unwrap();
            if !sees(e, pp) {
                final(world)@ == old(world)@ && *final(map) == *old(map)
            } else if adjacent(e.position.unwrap().x as int, e.position.unwrap().y as int, pp.x as int, pp.y as int) {
                &&& final(world)@ == old(world)@.update(
                    m as int,
                    Entity { wants_to_melee: Some(WantsToMelee { target: player }), ..e },
                )
                &&& *final(map) == *old(map)
            } else if step_ok(old(map), e.position.unwrap(), path@) {
                let next = path@[1] as int;
                let from = old(map).idx(e.position.unwrap().x as int, e.position.unwrap().y as int);
                &&& final(world)@ == old(world)@.update(
                    m as int,
                    Entity {
                        position: Some(
                            Position { x: old(map).idx_x(next) as u32, y: old(map).idx_y(next) as u32 },
                        ),
                        viewshed: dirtied(e.viewshed),
                        ..e
                    },
                )
                &&& final(map).blocked@ == old(map).blocked@.update(from, false).update(next, true)
                &&& final(map).wf()
                &&& final(map).tiles == old(map).tiles
                &&& final(map).tile_content == old(map).tile_content
                &&& final(map).revealed_tiles == old(map).revealed_tiles
                &&& final(map).visible_tiles == old(map).visible_tiles
                &&& final(map).bloodstains == old(map).bloodstains
                &&& final(map).width == old(map).width
                &&& final(map).height == old(map).height
                &&& final(map).depth == old(map).depth
            } else {
                final(world)@ == old(world)@ && *final(map) == *old(map)
            }
        }),
{
    let pp = world.entities[player].position.unwrap();
    if !sees_exec(&world.entities[m], pp) {
        return;
    }
    let pos = world.entities[m].position.unwrap();
    if is_adjacent(pos, pp) {
        world.entities[m].wants_to_melee = Some(WantsToMelee { target: player });
        return;
    }
    if path.len() <= 1 {
        return;
    }
    let next = path[1];
    if next >= map.tiles.len() || map.blocked[next] {
        return;
    }
    let (nx, ny) = map.idx_xy(next);
    let from = map.xy_idx(pos.x, pos.y);
    if !is_adjacent(pos, Position { x: nx, y: ny }) || from == next {
        return;
    }
    map.blocked.set(from, false);
    world.entities[m].position = Some(Position { x: nx, y: ny });
    match &mut world.entities[m].viewshed {
        Some(v) => {
            v.dirty = true;
        },
        None => {},
    }
    map.blocked.set(next, true);
}

} // verus!
