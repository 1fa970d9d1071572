//! Rebuilding occupancy and the per-cell content index from entity positions.

use crate::map::{EntityId, GameMap};
use crate::world::{Entity, World};
use vstd::prelude::*;

verus! {

/// Every entity that has a position stands on the map.
pub open spec fn positions_on_map(w: Seq<Entity>, map: &GameMap) -> bool {
    forall|e: int|
        0 <= e < w.len() && (#[trigger] w[e]).position.is_some() ==> map.in_bounds(
            w[e].position.unwrap().x as int,
            w[e].position.unwrap().y as int,
        )
}

/// The cell index of a positioned entity.
pub open spec fn cell_of(w: Seq<Entity>, width: int, e: int) -> int {
    crate::map::idx_of(w[e].position.unwrap().x as int, w[e].position.unwrap().y as int, width)
}

/// Whether entity `e` stands on cell `i`.
pub open spec fn stands_on(w: Seq<Entity>, width: int, e: int, i: int) -> bool {
    w[e].position.is_some() && cell_of(w, width, e) == i
}

/// The entities among the first `n` that stand on cell `i`, in id order.
pub open spec fn entities_at(w: Seq<Entity>, width: int, i: int, n: int) -> Seq<EntityId>
    decreases n,
{
    if n <= 0 {
        seq![]
    } else if stands_on(w, width, n - 1, i) {
        entities_at(w, width, i, n - 1).push((n - 1) as EntityId)
    } else {
        entities_at(w, width, i, n - 1)
    }
}

/// Whether a blocking entity among the first `n` stands on cell `i`.
pub open spec fn blocker_at(w: Seq<Entity>, width: int, i: int, n: int) -> bool {
    exists|e: int| 0 <= e < n && #[trigger] w[e].blocks_tile && stands_on(w, width, e, i)
}

/// Rebuilds `blocked` and `tile_content` from scratch: a cell is blocked exactly when it is a
/// wall or a blocking entity stands on it, and lists exactly the entities standing on it, in id
/// order. Terrain, bitmaps of sight and bloodstains are untouched.
pub fn map_indexing_system(world: &World, map: &mut GameMap)
    requires
        old(map).wf(),
        positions_on_map(world@, old(map)),
    ensures
        final(map).wf(),
        final(map).tiles == old(map).tiles,
        final(map).revealed_tiles == old(map).revealed_tiles,
        final(map).visible_tiles == old(map).visible_tiles,
        final(map).bloodstains == old(map).bloodstains,
        final(map).width == old(map).width,
        final(map).height == old(map).height,
        final(map).depth == old(map).depth,
        forall|i: int|
            0 <= i < final(map).size() ==> #[trigger] final(map).blocked@[i] == (final(map).is_wall(i)
                || blocker_at(world@, final(map).width as int, i, world@.len() as int)),
        forall|i: int|
            0 <= i < final(map).size() ==> (#[trigger] final(map).tile_content@[i])@ == entities_at(world@, final(map).width as int,
                i,
                world@.len() as int,
            ),
{
    map.populate_blocked();
    map.clear_content_index();
    let n = world.entities.len();
    let mut e: usize = 0;
    while e < n
        invariant
            e <= n,
            n == world@.len(),
            map.wf(),
            map.tiles == old(map).tiles,
            map.revealed_tiles == old(map).revealed_tiles,
            map.visible_tiles == old(map).visible_tiles,
            map.bloodstains == old(map).bloodstains,
            map.width == old(map).width,
            map.height == old(map).height,
            map.depth == old(map).depth,
            positions_on_map(world@, old(map)),
            forall|i: int|
                0 <= i < map.size() ==> #[trigger] map.blocked@[i] == (map.is_wall(i) || blocker_at(world@, map.width as int,
                    i,
                    e as int,
                )),
            forall|i: int|
                0 <= i < map.size() ==> (#[trigger] map.tile_content@[i])@ == entities_at(world@, map.width as int,
                    i,
                    e as int,
                ),
        decreases n - e,
    {
        let ghost before = *map;
        if let Some(pos) = world.entities[e].position {
            let idx = map.xy_idx(pos.x, pos.y);
            if world.entities[e].blocks_tile {
                map.blocked.set(idx, true);
            }
            map.tile_content[idx].push(e);
            proof {
                assert forall|i: int| 0 <= i < map.size() implies #[trigger] map.blocked@[i] == (
                map.is_wall(i) || blocker_at(world@, map.width as int, i, e + 1)) by {
                    if i == idx && world@[e as int].blocks_tile {
                        assert(stands_on(world@, map.width as int, e as int, i));
                    }
                    if blocker_at(world@, map.width as int, i, e + 1) && !blocker_at(world@, map.width as int, i, e as int) {
                        let k = choose|k: int|
                            0 <= k < e + 1 && #[trigger] world@[k].blocks_tile && stands_on(world@, map.width as int,
                                k,
                                i,
                            );
                        assert(k == e);
                    }
                    if blocker_at(world@, map.width as int, i, e as int) {
                        let k = choose|k: int|
                            0 <= k < e && #[trigger] world@[k].blocks_tile && stands_on(world@, map.width as int,
                                k,
                                i,
                            );
                        assert(0 <= k < e + 1);
                    }
                }
                assert forall|i: int| 0 <= i < map.size() implies (
                #[trigger] map.tile_content@[i])@ == entities_at(world@, map.width as int, i, e + 1) by {
                    assert(cell_of(world@, map.width as int, e as int) == idx);
                    if i != idx {
                        assert(map.tile_content@[i] == before.tile_content@[i]);
                        assert(!stands_on(world@, map.width as int, e as int, i));
                    } else {
                        assert(stands_on(world@, map.width as int, e as int, i));
                        assert(map.tile_content@[i]@ == before.tile_content@[i]@.push(e));
                    }
                }
            }
        } else {
            proof {
                assert forall|i: int| 0 <= i < map.size() implies #[trigger] map.blocked@[i] == (
                map.is_wall(i) || blocker_at(world@, map.width as int, i, e + 1)) by {
                    if blocker_at(world@, map.width as int, i, e + 1) {
                        let k = choose|k: int|
                            0 <= k < e + 1 && #[trigger] world@[k].blocks_tile && stands_on(world@, map.width as int,
                                k,
                                i,
                            );
                        assert(k < e);
                    }
                }
                assert forall|i: int| 0 <= i < map.size() implies (
                #[trigger] map.tile_content@[i])@ == entities_at(world@, map.width as int, i, e + 1) by {
                    assert(!stands_on(world@, map.width as int, e as int, i));
                }
            }
        }
        e = e + 1;
    }
}

} // verus!
