//! Caves grown by a cellular automaton.

use crate::components::Position;
use crate::map::{GameMap, Tile};
use crate::map_builders::common::{same_but_tiles, set_tile};
use crate::map_builders::MapBuilder;
use crate::rng::random_range;
use vstd::prelude::*;

verus! {

/// Number of passes of the automaton.
pub const NUM_ITERATIONS: usize = 20;

/// Chance, in percent, that a cell starts as a wall.
pub const WALL_PERCENT: i64 = 45;

pub struct CellularAutomata;

pub open spec fn wall_at(t: Seq<Tile>, i: int) -> int {
    if t[i] == Tile::Wall {
        1
    } else {
        0
    }
}

/// Number of walls among the eight neighbours of cell `i` on a grid of width `w`.
pub open spec fn wall_neighbors(t: Seq<Tile>, w: int, i: int) -> int {
    wall_at(t, i - 1) + wall_at(t, i + 1) + wall_at(t, i - w) + wall_at(t, i + w) + wall_at(
        t,
        i - w + 1,
    ) + wall_at(t, i - w - 1) + wall_at(t, i + w - 1) + wall_at(t, i + w + 1)
}

/// Whether cell `i` is off the border of a `w` by `h` grid.
pub open spec fn interior(i: int, w: int, h: int) -> bool {
    1 <= i % w < w - 1 && 1 <= i / w < h - 1
}

/// One pass of the automaton: an interior cell becomes a wall when more than four of its
/// neighbours are walls or none is, and floor otherwise; border cells keep their terrain.
pub open spec fn ca_step(t: Seq<Tile>, w: int, h: int) -> Seq<Tile> {
    Seq::new(
        t.len(),
        |i: int|
            if interior(i, w, h) {
                let n = wall_neighbors(t, w, i);
                if n > 4 || n == 0 {
                    Tile::Wall
                } else {
                    Tile::Floor
                }
            } else {
                t[i]
            },
    )
}

/// `k` passes of the automaton.
pub open spec fn ca_iterate(t: Seq<Tile>, w: int, h: int, k: nat) -> Seq<Tile>
    decreases k,
{
    if k == 0 {
        t
    } else {
        ca_step(ca_iterate(t, w, h, (k - 1) as nat), w, h)
    }
}

proof fn lemma_interior_neighbors(m: &GameMap, i: int)
    requires
        m.wf(),
        0 <= i < m.size(),
        m.width > 0,
        interior(i, m.width as int, m.height as int),
    ensures
        0 <= i - m.width - 1,
        i + m.width + 1 < m.size(),
{
    let w = m.width as int;
    let h = m.height as int;
    vstd::arithmetic::div_mod::lemma_fundamental_div_mod(i, w);
    let y = i / w;
    let x = i % w;
    assert(i == w * y + x);
    assert(w * y >= w) by (nonlinear_arith)
        requires
            y >= 1,
            w > 0,
    ;
    assert(w * y + w <= w * (h - 1)) by (nonlinear_arith)
        requires
            y + 1 <= h - 1,
            w > 0,
    ;
    assert(w * (h - 1) + w == w * h) by (nonlinear_arith);
    vstd::arithmetic::mul::lemma_mul_is_commutative(w, h);
}

/// One pass of the automaton over the map's tiles.
pub fn cellular_step(map: &GameMap) -> (r: Vec<Tile>)
    requires
        map.wf(),
    ensures
        r@ == ca_step(map.tiles@, map.width as int, map.height as int),
{
    let n = map.tiles.len();
    let w = map.width as usize;
    let mut next: Vec<Tile> = Vec::new();
    let mut i: usize = 0;
    let ghost t = map.tiles@;
    let ghost target = ca_step(t, map.width as int, map.height as int);
    while i < n
        invariant
            i <= n,
            n == t.len(),
            t == map.tiles@,
            map.wf(),
            w == map.width,
            target == ca_step(t, map.width as int, map.height as int),
            next@.len() == i,
            forall|j: int| 0 <= j < i ==> #[trigger] next@[j] == target[j],
        decreases n - i,
    {
        let (x, y) = map.idx_xy(i);
        if 1 <= x && x + 1 < map.width && 1 <= y && y + 1 < map.height {
            proof {
                lemma_interior_neighbors(map, i as int);
            }
            let mut count: u32 = 0;
            if map.tiles[i - 1] == Tile::Wall {
                count = count + 1;
            }
            if map.tiles[i + 1] == Tile::Wall {
                count = count + 1;
            }
            if map.tiles[i - w] == Tile::Wall {
                count = count + 1;
            }
            if map.tiles[i + w] == Tile::Wall {
                count = count + 1;
            }
            if map.tiles[i - (w - 1)] == Tile::Wall {
                count = count + 1;
            }
            if map.tiles[i - (w + 1)] == Tile::Wall {
                count = count + 1;
            }
            if map.tiles[i + (w - 1)] == Tile::Wall {
                count = count + 1;
            }
            if map.tiles[i + (w + 1)] == Tile::Wall {
                count = count + 1;
            }
            assert(count == wall_neighbors(t, w as int, i as int));
            if count > 4 || count == 0 {
                next.push(Tile::Wall);
            } else {
                next.push(Tile::Floor);
            }
        } else {
            next.push(map.tiles[i]);
        }
        i = i + 1;
    }
    assert(next@ =~= target);
    next
}

/// Walks left along row `y` from column `x` to the first floor cell.
pub fn find_floor_leftwards(map: &GameMap, x: u32, y: u32) -> (r: Option<u32>)
    requires
        map.wf(),
        map.in_bounds(x as int, y as int),
    ensures
        match r {
            Some(sx) => sx <= x && map.is_floor(map.idx(sx as int, y as int)) && forall|c: int|
                sx < c <= x ==> !#[trigger] map.is_floor(map.idx(c, y as int)),
            None => forall|c: int| 0 <= c <= x ==> !#[trigger] map.is_floor(map.idx(c, y as int)),
        },
{
    let mut cx = x;
    loop
        invariant
            cx <= x,
            map.wf(),
            map.in_bounds(x as int, y as int),
            forall|c: int| cx < c <= x ==> !#[trigger] map.is_floor(map.idx(c, y as int)),
        decreases cx,
    {
        let idx = map.xy_idx(cx, y);
        if map.tiles[idx] == Tile::Floor {
            return Some(cx);
        }
        if cx == 0 {
            return None;
        }
        cx = cx - 1;
    }
}

/// The starting grid that a list of rolls in `0..100` gives: a cell is wall exactly when its
/// roll is below the wall percentage.
pub open spec fn seed_of(rolls: Seq<i64>) -> Seq<Tile> {
    Seq::new(rolls.len(), |i: int| if rolls[i] < WALL_PERCENT { Tile::Wall } else { Tile::Floor })
}

/// The starting position rule: the first floor cell met walking left along the middle row
/// from the centre, or none.
pub open spec fn start_rule(m: &GameMap, start: Option<Position>) -> bool {
    let cy = (m.height / 2) as int;
    let cx = (m.width / 2) as int;
    m.size() > 0 ==> match start {
        Some(p) => {
            &&& p.y == cy
            &&& p.x <= cx
            &&& m.is_floor(m.idx(p.x as int, cy))
            &&& forall|c: int| p.x < c <= cx ==> !#[trigger] m.is_floor(m.idx(c, cy))
        },
        None => forall|c: int| 0 <= c <= cx ==> !#[trigger] m.is_floor(m.idx(c, cy)),
    }
}

impl CellularAutomata {
    /// Seeds the map from `rolls` (one per cell, wall when below the wall percentage), runs the
    /// automaton, then takes as starting position the first floor cell met walking left from
    /// the centre; with no such cell it sets none.
    pub fn build_from_rolls(&self, build_data: &mut MapBuilder, rolls: &Vec<i64>)
        requires
            old(build_data).wf(),
            rolls@.len() == old(build_data).map.size(),
        ensures
            final(build_data).wf(),
            same_but_tiles(&old(build_data).map, &final(build_data).map),
            final(build_data).rooms == old(build_data).rooms,
            final(build_data).spawn_list == old(build_data).spawn_list,
            final(build_data).map.tiles@ == ca_iterate(
                seed_of(rolls@),
                old(build_data).map.width as int,
                old(build_data).map.height as int,
                NUM_ITERATIONS as nat,
            ),
            start_rule(&final(build_data).map, final(build_data).starting_position),
    {
        let ghost start = build_data.map;
        let n = build_data.map.tiles.len();
        let mut i: usize = 0;
        while i < n
            invariant
                i <= n,
                n == start.size(),
                rolls@.len() == n,
                same_but_tiles(&start, &build_data.map),
                build_data.starting_position == old(build_data).starting_position,
                build_data.rooms == old(build_data).rooms,
                build_data.spawn_list == old(build_data).spawn_list,
                start == old(build_data).map,
                old(build_data).wf(),
                forall|j: int| 0 <= j < i ==> #[trigger] build_data.map.tiles@[j] == seed_of(rolls@)[j],
            decreases n - i,
        {
            if rolls[i] < WALL_PERCENT {
                set_tile(&mut build_data.map, i, Tile::Wall);
            } else {
                set_tile(&mut build_data.map, i, Tile::Floor);
            }
            i = i + 1;
        }
        assert(build_data.map.tiles@ =~= seed_of(rolls@));
        let ghost seed = build_data.map.tiles@;
        let ghost w = start.width as int;
        let ghost h = start.height as int;
        let mut k: usize = 0;
        while k < NUM_ITERATIONS
            invariant
                k <= NUM_ITERATIONS,
                same_but_tiles(&start, &build_data.map),
                start == old(build_data).map,
                old(build_data).wf(),
                w == start.width,
                h == start.height,
                seed.len() == start.size(),
                build_data.map.tiles@ == ca_iterate(seed, w, h, k as nat),
                build_data.starting_position == old(build_data).starting_position,
                build_data.rooms == old(build_data).rooms,
                build_data.spawn_list == old(build_data).spawn_list,
            decreases NUM_ITERATIONS - k,
        {
            let next = cellular_step(&build_data.map);
            build_data.map.tiles = next;
            k = k + 1;
        }
        build_data.starting_position = None;
        if n > 0 {
            let cx = build_data.map.width / 2;
            let cy = build_data.map.height / 2;
            proof {
                assert(start.width > 0 && start.height > 0) by (nonlinear_arith)
                    requires
                        start.width as int * start.height as int > 0,
                ;
            }
            match find_floor_leftwards(&build_data.map, cx, cy) {
                Some(sx) => {
                    build_data.starting_position = Some(Position { x: sx, y: cy });
                },
                None => {},
            }
        }
    }

    /// Rolls a number in `0..100` for every cell, then builds from the rolls (see
    /// `build_from_rolls`).
    pub fn build_map(&mut self, build_data: &mut MapBuilder)
        requires
            old(build_data).wf(),
        ensures
            final(build_data).wf(),
            same_but_tiles(&old(build_data).map, &final(build_data).map),
            final(build_data).rooms == old(build_data).rooms,
            final(build_data).spawn_list == old(build_data).spawn_list,
            exists|rolls: Seq<i64>|
                rolls.len() == old(build_data).map.size() && (forall|j: int|
                    0 <= j < rolls.len() ==> 0 <= #[trigger] rolls[j] < 100) && #[trigger] ca_iterate(
                    seed_of(rolls),
                    old(build_data).map.width as int,
                    old(build_data).map.height as int,
                    NUM_ITERATIONS as nat,
                ) == final(build_data).map.tiles@,
            start_rule(&final(build_data).map, final(build_data).starting_position),
    {
        let n = build_data.map.tiles.len();
        let mut rolls: Vec<i64> = Vec::new();
        while rolls.len() < n
            invariant
                rolls@.len() <= n,
                forall|j: int| 0 <= j < rolls@.len() ==> 0 <= #[trigger] rolls@[j] < 100,
            decreases n - rolls@.len(),
        {
            rolls.push(random_range(0, 100));
        }
        self.build_from_rolls(build_data, &rolls);
    }
}

} // verus!
