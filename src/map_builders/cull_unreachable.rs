//! Turning floor that cannot be reached from the starting position into wall.

use crate::map::{lemma_xy_idx_bijective, GameMap, Tile};
use crate::map_builders::common::set_tile;
use crate::map_builders::MapBuilder;
use vstd::prelude::*;

verus! {

pub struct CullUnreachable;

/// Whether `j` is one step from `i`: a distinct cell whose column and row differ by at most one.
pub open spec fn neighbors8(width: int, i: int, j: int) -> bool {
    let dx = i % width - j % width;
    let dy = i / width - j / width;
    -1 <= dx <= 1 && -1 <= dy <= 1 && i != j
}

/// `p` is a walk over floor cells of `m`, each a step from the previous one.
pub open spec fn floor_walk(m: &GameMap, p: Seq<int>) -> bool {
    &&& p.len() >= 1
    &&& forall|k: int| 0 <= k < p.len() ==> 0 <= #[trigger] p[k] < m.size() && m.is_floor(p[k])
    &&& forall|k: int| 0 <= k < p.len() - 1 ==> neighbors8(m.width as int, #[trigger] p[k], p[k + 1])
}

/// Whether cell `t` can be reached from cell `s` by a walk over floor cells.
pub open spec fn reachable(m: &GameMap, s: int, t: int) -> bool {
    exists|p: Seq<int>| #[trigger] floor_walk(m, p) && p[0] == s && p.last() == t
}

/// `p` is a walk of steps of `m`: each step enters a free neighbouring cell.
pub open spec fn step_walk(m: &GameMap, p: Seq<int>) -> bool {
    &&& p.len() >= 1
    &&& forall|k: int| 0 <= k < p.len() - 1 ==> is_step(m, #[trigger] p[k], p[k + 1])
}

/// Whether cell `t` can be reached from cell `s` by steps of `m`.
pub open spec fn step_reachable(m: &GameMap, s: int, t: int) -> bool {
    exists|p: Seq<int>| #[trigger] step_walk(m, p) && p[0] == s && p.last() == t
}

/// Every cell that a step may enter from `v` is visited.
pub open spec fn closed(m: &GameMap, v: int, visited: Seq<bool>) -> bool {
    forall|j: int, c: u32| #[trigger] m.is_exit_of(v, j, c) ==> 0 <= j < visited.len() && visited[j]
}

/// Number of `true` entries.
pub open spec fn count_true(s: Seq<bool>) -> int
    decreases s.len(),
{
    if s.len() == 0 {
        0
    } else {
        count_true(s.drop_last()) + if s.last() {
            1int
        } else {
            0
        }
    }
}

proof fn lemma_count_true_set(s: Seq<bool>, i: int)
    requires
        0 <= i < s.len(),
        !s[i],
    ensures
        count_true(s.update(i, true)) == count_true(s) + 1,
    decreases s.len(),
{
    if i < s.len() - 1 {
        assert(s.update(i, true).drop_last() =~= s.drop_last().update(i, true));
        lemma_count_true_set(s.drop_last(), i);
    } else {
        assert(s.update(i, true).drop_last() =~= s.drop_last());
    }
}

proof fn lemma_count_true_bound(s: Seq<bool>)
    ensures
        0 <= count_true(s) <= s.len(),
    decreases s.len(),
{
    if s.len() > 0 {
        lemma_count_true_bound(s.drop_last());
    }
}

/// Every cell that a step may enter from `i` is a neighbour of `i`.
proof fn lemma_exit_is_neighbor(m: &GameMap, i: int, j: int, c: u32)
    requires
        m.wf(),
        0 <= i < m.size(),
        m.is_exit_of(i, j, c),
    ensures
        neighbors8(m.width as int, i, j),
        0 <= j < m.size(),
        !m.blocked@[j],
{
    let w = m.width as int;
    let h = m.height as int;
    let (dx, dy) = choose|dx: int, dy: int|
        #![trigger m.idx(m.idx_x(i) + dx, m.idx_y(i) + dy)]
        -1 <= dx <= 1 && -1 <= dy <= 1 && !(dx == 0 && dy == 0) && m.exit_valid(m.idx_x(i) + dx, m.idx_y(i) + dy)
            && j == m.idx(m.idx_x(i) + dx, m.idx_y(i) + dy) && c == (if dx == 0 || dy == 0 {
            crate::map::CARDINAL_COST
        } else {
            crate::map::DIAGONAL_COST
        });
    assert(w > 0);
    crate::map::lemma_inverse_of_idx(i, w, h);
    let x = m.idx_x(i);
    let y = m.idx_y(i);
    lemma_xy_idx_bijective(w, h, x + dx, y + dy, x, y);
    crate::map::lemma_idx_in_range(x + dx, y + dy, w, h);
}

/// The cells reached from `s` by steps of `map`, found breadth first: each is reached by a
/// walk of steps over reached cells, and every step from a reached cell enters a reached cell.
fn flood(map: &GameMap, s: usize) -> (visited: Vec<bool>)
    requires
        map.wf(),
        s < map.size(),
    ensures
        visited@.len() == map.size(),
        visited@[s as int],
        forall|v: int|
            0 <= v < map.size() && #[trigger] visited@[v] ==> exists|p: Seq<int>|
                #[trigger] exit_walk(map, p, visited@) && p[0] == s && p.last() == v,
        forall|v: int| 0 <= v < map.size() && #[trigger] visited@[v] ==> closed(map, v, visited@),
{
    let ghost m0 = *map;
        let n = map.tiles.len();
        let mut visited: Vec<bool> = vec![false; n];
        proof {
            lemma_count_all_false(visited@);
            lemma_count_true_set(visited@, s as int);
        }
        visited.set(s, true);
        proof {
            let p = seq![s as int];
            assert(exit_walk(&m0, p, visited@));
            assert forall|v: int|
                0 <= v < n && #[trigger] visited@[v] implies exists|p: Seq<int>|
                    #[trigger] exit_walk(&m0, p, visited@) && p[0] == s && p.last() == v by {
                assert(v == s);
                assert(exit_walk(&m0, seq![s as int], visited@));
            }
        }
        let mut queue: Vec<usize> = Vec::new();
        queue.push(s);
        proof {
            assert forall|v: int| 0 <= v < n && #[trigger] visited@[v] implies exists|q: int| 0 <= q < queue@.len() && queue@[q] == v by {
                assert(v == s);
                assert(queue@[0] == s);
            }
        }
        let mut head: usize = 0;
        while head < queue.len()
            invariant
                m0 == *map,
                m0.wf(),
                n == m0.size(),
                s < n,
                visited@.len() == n,
                visited@[s as int],
                head <= queue@.len(),
                queue@.len() == count_true(visited@),
                forall|k: int| 0 <= k < queue@.len() ==> #[trigger] queue@[k] < n && visited@[queue@[k] as int],
                forall|v: int|
                    0 <= v < n && #[trigger] visited@[v] ==> exists|p: Seq<int>|
                        #[trigger] exit_walk(&m0, p, visited@) && p[0] == s && p.last() == v,
                forall|q: int| 0 <= q < head ==> closed(&m0, #[trigger] queue@[q] as int, visited@),
                forall|v: int| 0 <= v < n && #[trigger] visited@[v] ==> exists|q: int| 0 <= q < queue@.len() && queue@[q] == v,
            decreases 2 * n - queue@.len() - head,
        {
            proof {
                lemma_count_true_bound(visited@);
            }
            let i = queue[head];
            head = head + 1;
            let exits = map.get_available_exits(i);
            let ghost q0 = queue@.len();
            let mut k: usize = 0;
            while k < exits.len()
                invariant
                    m0 == *map,
                    m0.wf(),
                    n == m0.size(),
                    s < n,
                    i < n,
                    visited@[i as int],
                    visited@.len() == n,
                    visited@[s as int],
                    head <= queue@.len(),
                    queue@.len() >= q0,
                    queue@.len() == count_true(visited@),
                    forall|j: int| 0 <= j < exits@.len() ==> #[trigger] m0.is_exit_of(i as int, exits@[j].0 as int, exits@[j].1),
                    forall|q: int| 0 <= q < queue@.len() ==> #[trigger] queue@[q] < n && visited@[queue@[q] as int],
                    forall|v: int|
                        0 <= v < n && #[trigger] visited@[v] ==> exists|p: Seq<int>|
                            #[trigger] exit_walk(&m0, p, visited@) && p[0] == s && p.last() == v,
                    head >= 1,
                    i == queue@[head - 1],
                    forall|q: int| 0 <= q < head - 1 ==> closed(&m0, #[trigger] queue@[q] as int, visited@),
                    forall|v: int| 0 <= v < n && #[trigger] visited@[v] ==> exists|q: int| 0 <= q < queue@.len() && queue@[q] == v,
                    forall|jj: int| 0 <= jj < k ==> visited@[#[trigger] exits@[jj].0 as int],
                    forall|dx: int, dy: int|
                        #![trigger m0.exit_valid(m0.idx_x(i as int) + dx, m0.idx_y(i as int) + dy)]
                        -1 <= dx <= 1 && -1 <= dy <= 1 && !(dx == 0 && dy == 0) && m0.exit_valid(
                            m0.idx_x(i as int) + dx,
                            m0.idx_y(i as int) + dy,
                        ) ==> exists|mm: int|
                            0 <= mm < exits@.len() && #[trigger] exits@[mm].0 == m0.idx(
                                m0.idx_x(i as int) + dx,
                                m0.idx_y(i as int) + dy,
                            ),
                decreases exits@.len() - k,
            {
                let (j, c) = exits[k];
                proof {
                    lemma_exit_is_neighbor(&m0, i as int, j as int, c);
                }
                if !visited[j] {
                    let ghost before = visited@;
                    let ghost pi = choose|p: Seq<int>| #[trigger] exit_walk(&m0, p, before) && p[0] == s && p.last() == i;
                    let ghost qb = queue@;
                    visited.set(j, true);
                    queue.push(j);
                    proof {
                        assert(queue@[head - 1] == qb[head - 1]);
                        assert(visited@ == before.update(j as int, true));
                        assert forall|q: int| 0 <= q < head - 1 implies closed(&m0, #[trigger] queue@[q] as int, visited@) by {
                            assert(queue@[q] == qb[q]);
                            assert(closed(&m0, qb[q] as int, before));
                            lemma_closed_grows(&m0, qb[q] as int, before, j as int);
                        }
                        assert forall|v: int| 0 <= v < n && #[trigger] visited@[v] implies exists|q: int| 0 <= q < queue@.len() && queue@[q] == v by {
                            if v == j {
                                assert(queue@[queue@.len() - 1] == j);
                            } else {
                                let q = choose|q: int| 0 <= q < qb.len() && qb[q] == v;
                                assert(queue@[q] == qb[q]);
                            }
                        }
                        assert forall|jj: int| 0 <= jj < k + 1 implies visited@[#[trigger] exits@[jj].0 as int] by {
                            if jj < k {
                                lemma_exit_is_neighbor(&m0, i as int, exits@[jj].0 as int, exits@[jj].1);
                                assert(before[exits@[jj].0 as int]);
                            } else {
                                assert(exits@[jj].0 == j);
                            }
                        }
                        lemma_count_true_set(before, j as int);
                        lemma_walk_grows(&m0, before, visited@);
                        assert forall|v: int|
                            0 <= v < n && #[trigger] visited@[v] implies exists|p: Seq<int>|
                                #[trigger] exit_walk(&m0, p, visited@) && p[0] == s && p.last() == v by {
                            if v == j {
                                let pj = pi.push(j as int);
                                assert(exit_walk(&m0, pi, visited@));
                                assert(is_step(&m0, i as int, j as int)) by {
                                    assert(m0.is_exit_of(i as int, exits@[k as int].0 as int, exits@[k as int].1));
                                }
                                assert forall|q: int| 0 <= q < pj.len() implies 0 <= #[trigger] pj[q] < m0.size() && visited@[pj[q]] by {
                                    if q < pi.len() {
                                        assert(pj[q] == pi[q]);
                                    }
                                }
                                assert forall|q: int| 0 <= q < pj.len() - 1 implies is_step(&m0, #[trigger] pj[q], pj[q + 1]) by {
                                    if q < pi.len() - 1 {
                                        assert(pj[q] == pi[q] && pj[q + 1] == pi[q + 1]);
                                    } else {
                                        assert(pj[q] == i && pj[q + 1] == j);
                                    }
                                }
                                assert(exit_walk(&m0, pj, visited@));
                                assert(pj[0] == s);
                            } else {
                                let pv = choose|p: Seq<int>| #[trigger] exit_walk(&m0, p, before) && p[0] == s && p.last() == v;
                                assert(exit_walk(&m0, pv, visited@));
                            }
                        }
                    }
                }
                k = k + 1;
            }
            proof {
                lemma_count_true_bound(visited@);
                assert forall|j: int, c: u32| #[trigger] m0.is_exit_of(i as int, j, c) implies 0 <= j < visited@.len() && visited@[j] by {
                    lemma_exit_is_neighbor(&m0, i as int, j, c);
                    lemma_exit_listed(&m0, i as int, exits@, j, c);
                    let mm = choose|mm: int| 0 <= mm < exits@.len() && exits@[mm].0 == j;
                    assert(visited@[exits@[mm].0 as int]);
                }
                assert forall|q: int| 0 <= q < head implies closed(&m0, #[trigger] queue@[q] as int, visited@) by {
                    if q < head - 1 {
                    } else {
                        assert(queue@[q] == i);
                    }
                }
            }
        }
        proof {
            assert forall|v: int| 0 <= v < n && #[trigger] visited@[v] implies closed(&m0, v, visited@) by {
                let q = choose|q: int| 0 <= q < queue@.len() && queue@[q] == v;
                assert(closed(&m0, queue@[q] as int, visited@));
            }
        }
    visited
}

impl CullUnreachable {
    /// Replaces with wall every floor cell that cannot be reached from the starting position by
    /// steps between neighbouring cells that are not walls. Blocked cells are first recomputed
    /// from the terrain, so a step may enter exactly the cells that were not walls. A chain that
    /// runs this builder before any starting position is set is assembled wrongly, which the
    /// precondition excludes.
    pub fn build_map(&self, build_data: &mut MapBuilder)
        requires
            old(build_data).wf(),
            old(build_data).starting_position.is_some(),
        ensures
            final(build_data).wf(),
            final(build_data).starting_position == old(build_data).starting_position,
            final(build_data).rooms == old(build_data).rooms,
            final(build_data).spawn_list == old(build_data).spawn_list,
            final(build_data).map.width == old(build_data).map.width,
            final(build_data).map.height == old(build_data).map.height,
            final(build_data).map.depth == old(build_data).map.depth,
            forall|i: int|
                0 <= i < final(build_data).map.size() ==> #[trigger] final(build_data).map.blocked@[i]
                    == old(build_data).map.is_wall(i),
            forall|i: int|
                0 <= i < old(build_data).map.size() && old(build_data).map.is_wall(i)
                    ==> #[trigger] final(build_data).map.is_wall(i),
            forall|i: int|
                0 <= i < final(build_data).map.size() ==> #[trigger] final(build_data).map.is_floor(i)
                    ==> old(build_data).map.is_floor(i),
            match old(build_data).starting_position {
                Some(p) => forall|t: int|
                    0 <= t < old(build_data).map.size() && old(build_data).map.is_floor(t) && #[trigger] step_reachable(
                        &final(build_data).map,
                        final(build_data).map.idx(p.x as int, p.y as int),
                        t,
                    ) ==> final(build_data).map.is_floor(t),
                None => true,
            },
            ({
                let m = final(build_data).map;
                match old(build_data).starting_position {
                    Some(p) => {
                        let s = m.idx(p.x as int, p.y as int);
                        m.is_floor(s) ==> forall|t: int|
                            0 <= t < m.size() && #[trigger] m.is_floor(t) ==> reachable(&m, s, t)
                    },
                    None => true,
                }
            }),
    {
        let start = build_data.starting_position.unwrap();
        let s = build_data.map.xy_idx(start.x, start.y);
        build_data.map.populate_blocked();
        let ghost m0 = build_data.map;
        let n = build_data.map.tiles.len();
        let visited = flood(&build_data.map, s);
        let ghost final_visited = visited@;
        let mut i: usize = 0;
        while i < n
            invariant
                n == m0.size(),
                m0.wf(),
                s < n,
                visited@.len() == n,
                visited@[s as int],
                crate::map_builders::common::same_but_tiles(&m0, &build_data.map),
                build_data.starting_position == old(build_data).starting_position,
                build_data.rooms == old(build_data).rooms,
                build_data.spawn_list == old(build_data).spawn_list,
                m0.tiles == old(build_data).map.tiles,
                m0.width == old(build_data).map.width,
                m0.height == old(build_data).map.height,
                old(build_data).wf(),
                i <= n,
                forall|v: int|
                    0 <= v < n && #[trigger] visited@[v] ==> exists|p: Seq<int>|
                        #[trigger] exit_walk(&m0, p, visited@) && p[0] == s && p.last() == v,
                forall|v: int|
                    0 <= v < n ==> #[trigger] build_data.map.tiles@[v] == if v < i && m0.is_floor(v)
                        && !visited@[v] {
                        Tile::Wall
                    } else {
                        m0.tiles@[v]
                    },
            decreases n - i,
        {
            if build_data.map.tiles[i] == Tile::Floor && !visited[i] {
                set_tile(&mut build_data.map, i, Tile::Wall);
            }
            i = i + 1;
        }
        proof {
            let m = build_data.map;
            lemma_same_steps(&m0, &m);
            assert forall|t: int|
                0 <= t < old(build_data).map.size() && old(build_data).map.is_floor(t) && #[trigger] step_reachable(&m, s as int, t)
                implies m.is_floor(t) by {
                let p = choose|p: Seq<int>| #[trigger] step_walk(&m, p) && p[0] == s && p.last() == t;
                assert(step_walk(&m0, p));
                lemma_walk_visited(&m0, p, visited@);
                assert(m.tiles@[t] == m0.tiles@[t]);
            }
            assert forall|t: int| 0 <= t < m.size() && #[trigger] m.is_floor(t) && m.is_floor(s as int)
                implies reachable(&m, s as int, t) by {
                assert(visited@[t]);
                let p = choose|p: Seq<int>| #[trigger] exit_walk(&m0, p, visited@) && p[0] == s && p.last() == t;
                lemma_exit_walk_is_floor_walk(&m0, &m, p, visited@, s as int);
            }
        }
    }
}

/// `p` is a walk of steps of `m` over visited cells.
pub open spec fn exit_walk(m: &GameMap, p: Seq<int>, visited: Seq<bool>) -> bool {
    &&& p.len() >= 1
    &&& forall|k: int| 0 <= k < p.len() ==> 0 <= #[trigger] p[k] < m.size() && visited[p[k]]
    &&& forall|k: int| 0 <= k < p.len() - 1 ==> is_step(m, #[trigger] p[k], p[k + 1])
}

/// Whether a step may go from cell `a` to cell `b`.
pub open spec fn is_step(m: &GameMap, a: int, b: int) -> bool {
    exists|c: u32| m.is_exit_of(a, b, c)
}

proof fn lemma_closed_grows(m: &GameMap, v: int, a: Seq<bool>, j: int)
    requires
        closed(m, v, a),
        0 <= j < a.len(),
    ensures
        closed(m, v, a.update(j, true)),
{
    assert forall|x: int, c: u32| #[trigger] m.is_exit_of(v, x, c) implies 0 <= x < a.update(j, true).len() && a.update(j, true)[x] by {
        assert(0 <= x < a.len() && a[x]);
    }
}

proof fn lemma_exit_listed(m: &GameMap, i: int, exits: Seq<(usize, u32)>, j: int, c: u32)
    requires
        m.wf(),
        0 <= i < m.size(),
        m.is_exit_of(i, j, c),
        forall|dx: int, dy: int|
            #![trigger m.exit_valid(m.idx_x(i) + dx, m.idx_y(i) + dy)]
            -1 <= dx <= 1 && -1 <= dy <= 1 && !(dx == 0 && dy == 0) && m.exit_valid(m.idx_x(i) + dx, m.idx_y(i) + dy)
                ==> exists|mm: int| 0 <= mm < exits.len() && #[trigger] exits[mm].0 == m.idx(m.idx_x(i) + dx, m.idx_y(i) + dy),
    ensures
        exists|mm: int| 0 <= mm < exits.len() && exits[mm].0 == j,
{
    let (dx, dy) = choose|dx: int, dy: int|
        #![trigger m.idx(m.idx_x(i) + dx, m.idx_y(i) + dy)]
        -1 <= dx <= 1 && -1 <= dy <= 1 && !(dx == 0 && dy == 0) && m.exit_valid(m.idx_x(i) + dx, m.idx_y(i) + dy)
            && j == m.idx(m.idx_x(i) + dx, m.idx_y(i) + dy) && c == (if dx == 0 || dy == 0 {
            crate::map::CARDINAL_COST
        } else {
            crate::map::DIAGONAL_COST
        });
    assert(m.exit_valid(m.idx_x(i) + dx, m.idx_y(i) + dy));
}

proof fn lemma_walk_visited(m: &GameMap, p: Seq<int>, visited: Seq<bool>)
    requires
        m.wf(),
        step_walk(m, p),
        0 <= p[0] < m.size(),
        visited.len() == m.size(),
        visited[p[0]],
        forall|v: int| 0 <= v < m.size() && #[trigger] visited[v] ==> closed(m, v, visited),
    ensures
        visited[p.last()],
        0 <= p.last() < m.size(),
    decreases p.len(),
{
    if p.len() > 1 {
        let q = p.drop_last();
        assert forall|k: int| 0 <= k < q.len() - 1 implies is_step(m, #[trigger] q[k], q[k + 1]) by {
            assert(q[k] == p[k] && q[k + 1] == p[k + 1]);
            assert(is_step(m, p[k], p[k + 1]));
        }
        lemma_walk_visited(m, q, visited);
        let a = q.last();
        assert(a == p[p.len() - 2]);
        assert(is_step(m, p[p.len() - 2], p[p.len() - 2 + 1]));
        let c = choose|c: u32| #[trigger] m.is_exit_of(a, p.last(), c);
        lemma_exit_is_neighbor(m, a, p.last(), c);
        assert(closed(m, a, visited));
    }
}

proof fn lemma_same_steps(a: &GameMap, b: &GameMap)
    requires
        a.blocked == b.blocked,
        a.width == b.width,
        a.height == b.height,
    ensures
        forall|i: int, j: int, c: u32| #[trigger] a.is_exit_of(i, j, c) == b.is_exit_of(i, j, c),
        forall|p: Seq<int>| #[trigger] step_walk(a, p) == step_walk(b, p),
{
    assert forall|i: int, j: int, c: u32| #[trigger] a.is_exit_of(i, j, c) == b.is_exit_of(i, j, c) by {
        if a.is_exit_of(i, j, c) {
            let (dx, dy) = choose|dx: int, dy: int|
                #![trigger a.idx(a.idx_x(i) + dx, a.idx_y(i) + dy)]
                -1 <= dx <= 1 && -1 <= dy <= 1 && !(dx == 0 && dy == 0) && a.exit_valid(a.idx_x(i) + dx, a.idx_y(i) + dy)
                    && j == a.idx(a.idx_x(i) + dx, a.idx_y(i) + dy) && c == (if dx == 0 || dy == 0 {
                    crate::map::CARDINAL_COST
                } else {
                    crate::map::DIAGONAL_COST
                });
            assert(b.idx(b.idx_x(i) + dx, b.idx_y(i) + dy) == j);
        }
        if b.is_exit_of(i, j, c) {
            let (dx, dy) = choose|dx: int, dy: int|
                #![trigger b.idx(b.idx_x(i) + dx, b.idx_y(i) + dy)]
                -1 <= dx <= 1 && -1 <= dy <= 1 && !(dx == 0 && dy == 0) && b.exit_valid(b.idx_x(i) + dx, b.idx_y(i) + dy)
                    && j == b.idx(b.idx_x(i) + dx, b.idx_y(i) + dy) && c == (if dx == 0 || dy == 0 {
                    crate::map::CARDINAL_COST
                } else {
                    crate::map::DIAGONAL_COST
                });
            assert(a.idx(a.idx_x(i) + dx, a.idx_y(i) + dy) == j);
        }
    }
    assert forall|p: Seq<int>| #[trigger] step_walk(a, p) == step_walk(b, p) by {
        if step_walk(a, p) {
            assert forall|k: int| 0 <= k < p.len() - 1 implies is_step(b, #[trigger] p[k], p[k + 1]) by {
                assert(is_step(a, p[k], p[k + 1]));
                let c = choose|c: u32| #[trigger] a.is_exit_of(p[k], p[k + 1], c);
                assert(b.is_exit_of(p[k], p[k + 1], c));
            }
        }
        if step_walk(b, p) {
            assert forall|k: int| 0 <= k < p.len() - 1 implies is_step(a, #[trigger] p[k], p[k + 1]) by {
                assert(is_step(b, p[k], p[k + 1]));
                let c = choose|c: u32| #[trigger] b.is_exit_of(p[k], p[k + 1], c);
                assert(a.is_exit_of(p[k], p[k + 1], c));
            }
        }
    }
}

proof fn lemma_count_all_false(s: Seq<bool>)
    requires
        forall|k: int| 0 <= k < s.len() ==> !#[trigger] s[k],
    ensures
        count_true(s) == 0,
    decreases s.len(),
{
    if s.len() > 0 {
        lemma_count_all_false(s.drop_last());
    }
}

proof fn lemma_walk_grows(m: &GameMap, a: Seq<bool>, b: Seq<bool>)
    requires
        a.len() == b.len(),
        forall|v: int| 0 <= v < a.len() && #[trigger] a[v] ==> b[v],
    ensures
        forall|p: Seq<int>| #[trigger] exit_walk(m, p, a) && m.size() <= a.len() ==> exit_walk(m, p, b),
{
    assert forall|p: Seq<int>| #[trigger] exit_walk(m, p, a) && m.size() <= a.len() implies exit_walk(m, p, b) by {
        assert forall|k: int| 0 <= k < p.len() implies 0 <= #[trigger] p[k] < m.size() && b[p[k]] by {
            assert(a[p[k]]);
        }
    }
}

proof fn lemma_exit_walk_is_floor_walk(m0: &GameMap, m: &GameMap, p: Seq<int>, visited: Seq<bool>, s: int)
    requires
        m0.wf(),
        exit_walk(m0, p, visited),
        p[0] == s,
        m.width == m0.width,
        m.size() == m0.size(),
        m.tiles@.len() == m0.tiles@.len(),
        m.is_floor(s),
        forall|v: int| 0 <= v < m0.size() ==> #[trigger] m0.blocked@[v] == m0.is_wall(v),
        forall|v: int|
            0 <= v < m0.size() ==> #[trigger] m.tiles@[v] == if m0.is_floor(v) && !visited[v] {
                Tile::Wall
            } else {
                m0.tiles@[v]
            },
    ensures
        floor_walk(m, p),
{
    assert forall|k: int| 0 <= k < p.len() implies 0 <= #[trigger] p[k] < m.size() && m.is_floor(p[k]) by {
        if k > 0 {
            let c = choose|c: u32| #[trigger] m0.is_exit_of(p[k - 1], p[k], c);
            lemma_exit_is_neighbor(m0, p[k - 1], p[k], c);
            assert(m.tiles@[p[k]] == m0.tiles@[p[k]]);
        }
    }
    assert forall|k: int| 0 <= k < p.len() - 1 implies neighbors8(m.width as int, #[trigger] p[k], p[k + 1]) by {
        let c = choose|c: u32| #[trigger] m0.is_exit_of(p[k], p[k + 1], c);
        lemma_exit_is_neighbor(m0, p[k], p[k + 1], c);
    }
}

} // verus!
