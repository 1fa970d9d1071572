//! Recomputing viewsheds and, for the player, the map's reveal and visibility bitmaps.

use crate::components::Position;
use crate::map::{idx_of, GameMap};
use crate::world::{Entity, World};
use vstd::prelude::*;

verus! {

/// The positions of `s` that lie on a `w` by `h` map, in order.
pub open spec fn on_map(s: Seq<Position>, w: int, h: int) -> Seq<Position>
    decreases s.len(),
{
    if s.len() == 0 {
        seq![]
    } else if s.last().x < w && s.last().y < h {
        on_map(s.drop_last(), w, h).push(s.last())
    } else {
        on_map(s.drop_last(), w, h)
    }
}

/// Whether some position of `s` has index `i`.
pub open spec fn covers(s: Seq<Position>, width: int, i: int) -> bool {
    exists|k: int| 0 <= k < s.len() && idx_of(#[trigger] s[k].x as int, s[k].y as int, width) == i
}

/// Whether the entity's viewshed must be recomputed now.
pub open spec fn needs_update(e: Entity) -> bool {
    e.viewshed.is_some() && e.viewshed.unwrap().dirty
}

/// `b` is `a` with at most its viewshed changed.
pub open spec fn same_but_viewshed(a: Entity, b: Entity) -> bool {
    b == Entity { viewshed: b.viewshed, ..a }
}

/// Whether `p` is the single entity tagged as the player.
pub open spec fn sole_player(w: Seq<Entity>, p: int) -> bool {
    0 <= p < w.len() && w[p].player && forall|e: int| 0 <= e < w.len() && #[trigger] w[e].player ==> e == p
}

fn keep_on_map(s: &Vec<Position>, w: u32, h: u32) -> (r: Vec<Position>)
    ensures
        r@ == on_map(s@, w as int, h as int),
{
    let mut r: Vec<Position> = Vec::new();
    let mut i: usize = 0;
    while i < s.len()
        invariant
            i <= s@.len(),
            r@ == on_map(s@.take(i as int), w as int, h as int),
        decreases s@.len() - i,
    {
        assert(s@.take(i + 1).drop_last() =~= s@.take(i as int));
        let p = s[i];
        if p.x < w && p.y < h {
            r.push(p);
        }
        i = i + 1;
    }
    assert(s@.take(i as int) =~= s@);
    r
}

proof fn lemma_on_map_in_bounds(s: Seq<Position>, w: int, h: int)
    ensures
        forall|k: int| 0 <= k < on_map(s, w, h).len() ==> (#[trigger] on_map(s, w, h)[k]).x < w
            && on_map(s, w, h)[k].y < h,
    decreases s.len(),
{
    if s.len() > 0 {
        lemma_on_map_in_bounds(s.drop_last(), w, h);
        let r = on_map(s, w, h);
        let r0 = on_map(s.drop_last(), w, h);
        assert forall|k: int| 0 <= k < r.len() implies (#[trigger] r[k]).x < w && r[k].y < h by {
            if k < r0.len() {
                assert(r[k] == r0[k]);
            }
        }
    }
}

/// Marks the given cells as seen: every one becomes visible and revealed, and no other cell
/// stays visible.
fn mark_seen(map: &mut GameMap, tiles: &Vec<Position>)
    requires
        old(map).wf(),
        forall|k: int| 0 <= k < tiles@.len() ==> (#[trigger] tiles@[k]).x < old(map).width && tiles@[k].y < old(map).height,
    ensures
        final(map).wf(),
        final(map).tiles == old(map).tiles,
        final(map).tile_content == old(map).tile_content,
        final(map).blocked == old(map).blocked,
        final(map).bloodstains == old(map).bloodstains,
        final(map).width == old(map).width,
        final(map).height == old(map).height,
        final(map).depth == old(map).depth,
        forall|i: int|
            0 <= i < old(map).size() ==> #[trigger] final(map).visible_tiles@[i] == covers(tiles@, old(map).width as int, i),
        forall|i: int|
            0 <= i < old(map).size() ==> #[trigger] final(map).revealed_tiles@[i] == (old(map).revealed_tiles@[i]
                || covers(tiles@, old(map).width as int, i)),
{
    let n = map.visible_tiles.len();
    let mut i: usize = 0;
    while i < n
        invariant
            i <= n,
            n == old(map).size(),
            map.wf(),
            map.tiles == old(map).tiles,
            map.revealed_tiles == old(map).revealed_tiles,
            map.tile_content == old(map).tile_content,
            map.blocked == old(map).blocked,
            map.bloodstains == old(map).bloodstains,
            map.width == old(map).width,
            map.height == old(map).height,
            map.depth == old(map).depth,
            forall|j: int| 0 <= j < i ==> !#[trigger] map.visible_tiles@[j],
        decreases n - i,
    {
        map.visible_tiles.set(i, false);
        i = i + 1;
    }
    let ghost width = map.width as int;
    let mut k: usize = 0;
    while k < tiles.len()
        invariant
            k <= tiles@.len(),
            map.wf(),
            width == map.width,
            map.tiles == old(map).tiles,
            map.tile_content == old(map).tile_content,
            map.blocked == old(map).blocked,
            map.bloodstains == old(map).bloodstains,
            map.width == old(map).width,
            map.height == old(map).height,
            map.depth == old(map).depth,
            forall|j: int| 0 <= j < tiles@.len() ==> (#[trigger] tiles@[j]).x < old(map).width && tiles@[j].y < old(map).height,
            forall|j: int|
                0 <= j < old(map).size() ==> #[trigger] map.visible_tiles@[j] == covers(tiles@.take(k as int), width, j),
            forall|j: int|
                0 <= j < old(map).size() ==> #[trigger] map.revealed_tiles@[j] == (old(map).revealed_tiles@[j]
                    || covers(tiles@.take(k as int), width, j)),
        decreases tiles@.len() - k,
    {
        let p = tiles[k];
        let idx = map.xy_idx(p.x, p.y);
        map.revealed_tiles.set(idx, true);
        map.visible_tiles.set(idx, true);
        proof {
            let t1 = tiles@.take(k + 1);
            let t0 = tiles@.take(k as int);
            assert forall|j: int| 0 <= j < old(map).size() implies covers(t1, width, j) == (covers(t0, width, j) || j == idx) by {
                if covers(t1, width, j) {
                    let m = choose|m: int| 0 <= m < t1.len() && idx_of(#[trigger] t1[m].x as int, t1[m].y as int, width) == j;
                    if m < k {
                        assert(t0[m] == t1[m]);
                    }
                }
                if covers(t0, width, j) {
                    let m = choose|m: int| 0 <= m < t0.len() && idx_of(#[trigger] t0[m].x as int, t0[m].y as int, width) == j;
                    assert(t1[m] == t0[m]);
                }
                if j == idx {
                    assert(t1[k as int] == p);
                }
            }
        }
        k = k + 1;
    }
    assert(tiles@.take(tiles@.len() as int) =~= tiles@);
}

/// Recomputes the viewshed of every entity marked dirty, from `fov[e]`, the cells that a
/// field-of-view computation from its position and range reports (none for an entity without a
/// position): the cells off the map are dropped and the mark is cleared. For the player, the map's visible cells become exactly the
/// new viewshed, and those cells are revealed; nothing is ever unrevealed.
pub fn visibility_system(world: &mut World, map: &mut GameMap, fov: &Vec<Vec<Position>>, player: usize)
    requires
        old(map).wf(),
        fov@.len() == old(world)@.len(),
        sole_player(old(world)@, player as int),
    ensures
        final(world)@.len() == old(world)@.len(),
        forall|e: int|
            0 <= e < old(world)@.len() ==> same_but_viewshed(old(world)@[e], #[trigger] final(world)@[e]),
        forall|e: int|
            0 <= e < old(world)@.len() ==> if needs_update(old(world)@[e]) {
                &&& (#[trigger] final(world)@[e]).viewshed.is_some()
                &&& final(world)@[e].viewshed.unwrap().visible_tiles@ == on_map(
                    fov@[e]@,
                    old(map).width as int,
                    old(map).height as int,
                )
                &&& final(world)@[e].viewshed.unwrap().range == old(world)@[e].viewshed.unwrap().range
                &&& !final(world)@[e].viewshed.unwrap().dirty
            } else {
                final(world)@[e] == old(world)@[e]
            },
        final(map).wf(),
        final(map).tiles == old(map).tiles,
        final(map).tile_content == old(map).tile_content,
        final(map).blocked == old(map).blocked,
        final(map).bloodstains == old(map).bloodstains,
        final(map).width == old(map).width,
        final(map).height == old(map).height,
        final(map).depth == old(map).depth,
        forall|i: int|
            0 <= i < old(map).size() && old(map).revealed_tiles@[i] ==> #[trigger] final(map).revealed_tiles@[i],
        ({
            let seen = on_map(fov@[player as int]@, old(map).width as int, old(map).height as int);
            if needs_update(old(world)@[player as int]) {
                &&& forall|i: int|
                    0 <= i < old(map).size() ==> #[trigger] final(map).visible_tiles@[i] == covers(
                        seen,
                        old(map).width as int,
                        i,
                    )
                &&& forall|i: int|
                    0 <= i < old(map).size() ==> #[trigger] final(map).revealed_tiles@[i] == (old(
                        map,
                    ).revealed_tiles@[i] || covers(seen, old(map).width as int, i))
            } else {
                &&& final(map).visible_tiles == old(map).visible_tiles
                &&& final(map).revealed_tiles == old(map).revealed_tiles
            }
        }),
{
    let ghost w0 = world@;
    let ghost m0 = *map;
    let n = world.entities.len();
    let mut e: usize = 0;
    while e < n
        invariant
            e <= n,
            n == w0.len(),
            w0 == old(world)@,
            m0 == *old(map),
            fov@.len() == n,
            sole_player(w0, player as int),
            world@.len() == n,
            map.wf(),
            map.tiles == m0.tiles,
            map.tile_content == m0.tile_content,
            map.blocked == m0.blocked,
            map.bloodstains == m0.bloodstains,
            map.width == m0.width,
            map.height == m0.height,
            map.depth == m0.depth,
            forall|k: int| 0 <= k < n ==> same_but_viewshed(w0[k], #[trigger] world@[k]),
            forall|k: int|
                0 <= k < n ==> if k < e && needs_update(w0[k]) {
                    &&& (#[trigger] world@[k]).viewshed.is_some()
                    &&& world@[k].viewshed.unwrap().visible_tiles@ == on_map(fov@[k]@, m0.width as int, m0.height as int)
                    &&& world@[k].viewshed.unwrap().range == w0[k].viewshed.unwrap().range
                    &&& !world@[k].viewshed.unwrap().dirty
                } else {
                    world@[k] == w0[k]
                },
            ({
                let seen = on_map(fov@[player as int]@, m0.width as int, m0.height as int);
                if player < e && needs_update(w0[player as int]) {
                    &&& forall|i: int|
                        0 <= i < m0.size() ==> #[trigger] map.visible_tiles@[i] == covers(seen, m0.width as int, i)
                    &&& forall|i: int|
                        0 <= i < m0.size() ==> #[trigger] map.revealed_tiles@[i] == (m0.revealed_tiles@[i]
                            || covers(seen, m0.width as int, i))
                } else {
                    &&& map.visible_tiles == m0.visible_tiles
                    &&& map.revealed_tiles == m0.revealed_tiles
                }
            }),
        decreases n - e,
    {
        let ghost ek = e as int;
        assert(world@[ek] == w0[ek]);
        let update = match &world.entities[e].viewshed {
            Some(v) => v.dirty,
            None => false,
        };
        if update {
            let seen = keep_on_map(&fov[e], map.width, map.height);
            proof {
                lemma_on_map_in_bounds(fov@[ek]@, map.width as int, map.height as int);
            }
            if world.entities[e].player {
                assert(ek == player);
                mark_seen(map, &seen);
            }
            match &mut world.entities[e].viewshed {
                Some(v) => {
                    v.visible_tiles = seen;
                    v.dirty = false;
                },
                None => {},
            }
        }
        e = e + 1;
    }
}

} // verus!
