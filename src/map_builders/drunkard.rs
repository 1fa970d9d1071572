//! Caves carved by random walkers.

use crate::map::{lemma_xy_idx_bijective, GameMap, Tile};
use crate::map_builders::common::{same_but_tiles, set_tile};
use crate::map_builders::MapBuilder;
use crate::rng::random_range;
use vstd::prelude::*;

verus! {

/// Where each walker starts.
#[derive(Debug, Clone, Copy, PartialEq, Eq, Structural)]
pub enum DrunkardSpawnMode {
    /// The centre of the map.
    Center,
    /// A random cell off the border.
    Random,
}

pub struct DrunkardsWalk {
    pub spawn_mode: DrunkardSpawnMode,
    /// Steps each walker takes.
    pub lifetime: u32,
    /// Share of the map, in percent, that should end up as floor.
    pub floor_percent: u32,
}

/// Number of floor cells in `t`.
pub open spec fn floor_count(t: Seq<Tile>) -> int
    decreases t.len(),
{
    if t.len() == 0 {
        0
    } else {
        floor_count(t.drop_last()) + if t.last() == Tile::Floor {
            1int
        } else {
            0
        }
    }
}

/// The cells a walker can reach: each coordinate off the border, or on the centre line.
pub open spec fn walk_zone(x: int, y: int, w: int, h: int) -> bool {
    &&& (1 <= x <= w - 2 || x == w / 2)
    &&& (1 <= y <= h - 2 || y == h / 2)
}

/// The map has gained floor only: floor stays floor, and each new floor cell lies in the
/// walkers' zone.
pub open spec fn carved_in_zone(a: &GameMap, b: &GameMap) -> bool {
    forall|i: int|
        0 <= i < a.size() ==> (a.is_floor(i) ==> #[trigger] b.is_floor(i)) && (b.is_floor(i)
            && !a.is_floor(i) ==> walk_zone(
            a.idx_x(i),
            a.idx_y(i),
            a.width as int,
            a.height as int,
        ))
}

/// Counts the floor cells of the map.
pub fn count_floor(map: &GameMap) -> (r: usize)
    ensures
        r == floor_count(map.tiles@),
{
    let mut c: usize = 0;
    let mut i: usize = 0;
    while i < map.tiles.len()
        invariant
            i <= map.tiles@.len(),
            c == floor_count(map.tiles@.take(i as int)),
            c <= i,
        decreases map.tiles@.len() - i,
    {
        assert(map.tiles@.take(i + 1).drop_last() =~= map.tiles@.take(i as int));
        if map.tiles[i] == Tile::Floor {
            c = c + 1;
        }
        i = i + 1;
    }
    assert(map.tiles@.take(i as int) =~= map.tiles@);
    c
}

/// Where one step in direction `d` leads from `p`: 0 left, 1 right, 2 up, 3 down; a step that
/// would enter the outer ring leaves the walker where it is.
pub open spec fn step_to(p: (int, int), d: i64, w: int, h: int) -> (int, int) {
    if d == 0 {
        if p.0 > 1 { (p.0 - 1, p.1) } else { p }
    } else if d == 1 {
        if p.0 < w - 2 { (p.0 + 1, p.1) } else { p }
    } else if d == 2 {
        if p.1 > 1 { (p.0, p.1 - 1) } else { p }
    } else {
        if p.1 < h - 2 { (p.0, p.1 + 1) } else { p }
    }
}

/// Where a walker from `start` stands after the steps `dirs`.
pub open spec fn walk_pos(start: (int, int), dirs: Seq<i64>, w: int, h: int) -> (int, int)
    decreases dirs.len(),
{
    if dirs.len() == 0 {
        start
    } else {
        step_to(walk_pos(start, dirs.drop_last(), w, h), dirs.last(), w, h)
    }
}

/// Whether cell `i` is one the walker stands on: at the start or after one of the first `n`
/// steps.
pub open spec fn walked(m: &GameMap, start: (int, int), dirs: Seq<i64>, n: int, i: int) -> bool {
    exists|k: int|
        0 <= k <= n && m.idx(
            #[trigger] walk_pos(start, dirs.take(k), m.width as int, m.height as int).0,
            walk_pos(start, dirs.take(k), m.width as int, m.height as int).1,
        ) == i
}

proof fn lemma_walk_stays(start: (int, int), dirs: Seq<i64>, w: int, h: int)
    requires
        walk_zone(start.0, start.1, w, h),
        0 <= start.0 < w,
        0 <= start.1 < h,
    ensures
        walk_zone(walk_pos(start, dirs, w, h).0, walk_pos(start, dirs, w, h).1, w, h),
        0 <= walk_pos(start, dirs, w, h).0 < w,
        0 <= walk_pos(start, dirs, w, h).1 < h,
    decreases dirs.len(),
{
    if dirs.len() > 0 {
        lemma_walk_stays(start, dirs.drop_last(), w, h);
    }
}

/// Sends one walker from `(x, y)` along the steps `dirs` (0 left, 1 right, 2 up, 3 down; a step
/// into the outer ring is skipped). The cells it stands on, at the start and after each step,
/// become floor; every other cell is left as it was.
pub fn walk(map: &mut GameMap, x: u32, y: u32, dirs: &Vec<i64>)
    requires
        old(map).wf(),
        old(map).in_bounds(x as int, y as int),
        walk_zone(x as int, y as int, old(map).width as int, old(map).height as int),
    ensures
        same_but_tiles(old(map), final(map)),
        forall|i: int|
            0 <= i < old(map).size() ==> #[trigger] final(map).tiles@[i] == if walked(
                old(map),
                (x as int, y as int),
                dirs@,
                dirs@.len() as int,
                i,
            ) {
                Tile::Floor
            } else {
                old(map).tiles@[i]
            },
{
    let ghost st = (x as int, y as int);
    let ghost w = map.width as int;
    let ghost h = map.height as int;
    let ghost m0 = *map;
    let wi = map.width as i64;
    let hi = map.height as i64;
    let mut cx = x as i64;
    let mut cy = y as i64;
    let idx = map.xy_idx(x, y);
    set_tile(map, idx, Tile::Floor);
    proof {
        assert(dirs@.take(0) =~= Seq::<i64>::empty());
        assert forall|i: int| 0 <= i < m0.size() implies #[trigger] map.tiles@[i] == if walked(&m0, st, dirs@, 0, i) {
            Tile::Floor
        } else {
            m0.tiles@[i]
        } by {
            assert(walk_pos(st, dirs@.take(0), w, h) == st);
            if i == idx {
                assert(m0.idx(walk_pos(st, dirs@.take(0), w, h).0, walk_pos(st, dirs@.take(0), w, h).1) == i);
            }
            if walked(&m0, st, dirs@, 0, i) {
                let k = choose|k: int|
                    0 <= k <= 0 && m0.idx(#[trigger] walk_pos(st, dirs@.take(k), w, h).0, walk_pos(st, dirs@.take(k), w, h).1) == i;
                assert(walk_pos(st, dirs@.take(k), w, h) == st);
            }
        }
    }
    let mut k: usize = 0;
    while k < dirs.len()
        invariant
            k <= dirs@.len(),
            m0 == *old(map),
            m0.wf(),
            w == m0.width,
            h == m0.height,
            wi == w,
            hi == h,
            st == (x as int, y as int),
            walk_zone(st.0, st.1, w, h),
            0 <= st.0 < w,
            0 <= st.1 < h,
            same_but_tiles(&m0, map),
            (cx as int, cy as int) == walk_pos(st, dirs@.take(k as int), w, h),
            0 <= cx < w,
            0 <= cy < h,
            forall|i: int| 0 <= i < m0.size() ==> #[trigger] map.tiles@[i] == if walked(&m0, st, dirs@, k as int, i) {
                Tile::Floor
            } else {
                m0.tiles@[i]
            },
        decreases dirs@.len() - k,
    {
        let d = dirs[k];
        if d == 0 {
            if cx > 1 {
                cx = cx - 1;
            }
        } else if d == 1 {
            if cx < wi - 2 {
                cx = cx + 1;
            }
        } else if d == 2 {
            if cy > 1 {
                cy = cy - 1;
            }
        } else {
            if cy < hi - 2 {
                cy = cy + 1;
            }
        }
        proof {
            assert(dirs@.take(k + 1).drop_last() =~= dirs@.take(k as int));
            assert(dirs@.take(k + 1).last() == d);
        }
        let ghost before = map.tiles@;
        let idx = map.xy_idx(cx as u32, cy as u32);
        set_tile(map, idx, Tile::Floor);
        proof {
            let pk1 = walk_pos(st, dirs@.take(k + 1), w, h);
            assert(pk1 == (cx as int, cy as int));
            assert forall|i: int| 0 <= i < m0.size() implies #[trigger] map.tiles@[i] == if walked(&m0, st, dirs@, k + 1, i) {
                Tile::Floor
            } else {
                m0.tiles@[i]
            } by {
                if walked(&m0, st, dirs@, k + 1, i) && !walked(&m0, st, dirs@, k as int, i) {
                    let j = choose|j: int|
                        0 <= j <= k + 1 && m0.idx(#[trigger] walk_pos(st, dirs@.take(j), w, h).0, walk_pos(st, dirs@.take(j), w, h).1) == i;
                    if j <= k {
                        assert(walked(&m0, st, dirs@, k as int, i));
                    }
                    assert(i == idx);
                }
                if walked(&m0, st, dirs@, k as int, i) {
                    let j = choose|j: int|
                        0 <= j <= k && m0.idx(#[trigger] walk_pos(st, dirs@.take(j), w, h).0, walk_pos(st, dirs@.take(j), w, h).1) == i;
                    assert(0 <= j <= k + 1);
                }
                if i == idx {
                    assert(m0.idx(walk_pos(st, dirs@.take(k + 1), w, h).0, walk_pos(st, dirs@.take(k + 1), w, h).1) == i);
                }
            }
        }
        k = k + 1;
    }
    assert(dirs@.take(dirs@.len() as int) =~= dirs@);
}

pub open spec fn m_walked_start(m: &GameMap, st: (int, int), dirs: Seq<i64>, c: int) -> bool {
    walked(m, st, dirs, dirs.len() as int, c)
}

proof fn lemma_walk_in_zone(start: &GameMap, before: &GameMap, after: &GameMap, st: (int, int), dirs: Seq<i64>)
    requires
        start.wf(),
        same_but_tiles(start, before),
        carved_in_zone(start, before),
        walk_zone(st.0, st.1, start.width as int, start.height as int),
        0 <= st.0 < start.width,
        0 <= st.1 < start.height,
        same_but_tiles(before, after),
        forall|i: int|
            0 <= i < before.size() ==> #[trigger] after.tiles@[i] == if walked(before, st, dirs, dirs.len() as int, i) {
                Tile::Floor
            } else {
                before.tiles@[i]
            },
    ensures
        same_but_tiles(start, after),
        carved_in_zone(start, after),
        forall|c: int| 0 <= c < before.size() && #[trigger] m_walked_start(before, st, dirs, c) ==> after.is_floor(c),
{
    let w = start.width as int;
    let h = start.height as int;
    assert forall|i: int| 0 <= i < start.size() implies (start.is_floor(i) ==> #[trigger] after.is_floor(i)) && (
        after.is_floor(i) && !start.is_floor(i) ==> walk_zone(start.idx_x(i), start.idx_y(i), w, h)) by {
        if walked(before, st, dirs, dirs.len() as int, i) {
            let k = choose|k: int|
                0 <= k <= dirs.len() && before.idx(#[trigger] walk_pos(st, dirs.take(k), w, h).0, walk_pos(st, dirs.take(k), w, h).1) == i;
            let p = walk_pos(st, dirs.take(k), w, h);
            lemma_walk_stays(st, dirs.take(k), w, h);
            lemma_xy_idx_bijective(w, h, p.0, p.1, p.0, p.1);
            assert(i == crate::map::idx_of(p.0, p.1, w));
            assert(start.idx_x(i) == p.0 && start.idx_y(i) == p.1);
            assert(after.is_floor(i));
        } else {
            assert(after.tiles@[i] == before.tiles@[i]);
            assert(before.is_floor(i) == after.is_floor(i));
        }
    }
}

impl DrunkardsWalk {
    /// Open area preset.
    pub fn open_area() -> (r: DrunkardsWalk)
        ensures
            r.spawn_mode == DrunkardSpawnMode::Center,
            r.lifetime == 400,
            r.floor_percent == 50,
    {
        DrunkardsWalk { spawn_mode: DrunkardSpawnMode::Center, lifetime: 400, floor_percent: 50 }
    }

    /// Open halls preset.
    pub fn open_halls() -> (r: DrunkardsWalk)
        ensures
            r.spawn_mode == DrunkardSpawnMode::Random,
            r.lifetime == 400,
            r.floor_percent == 50,
    {
        DrunkardsWalk { spawn_mode: DrunkardSpawnMode::Random, lifetime: 400, floor_percent: 50 }
    }

    /// Winding passages preset.
    pub fn winding_passages() -> (r: DrunkardsWalk)
        ensures
            r.spawn_mode == DrunkardSpawnMode::Random,
            r.lifetime == 100,
            r.floor_percent == 40,
    {
        DrunkardsWalk { spawn_mode: DrunkardSpawnMode::Random, lifetime: 100, floor_percent: 40 }
    }

    /// Number of floor cells the walkers aim for.
    pub open spec fn desired_floor(&self, size: int) -> int {
        self.floor_percent as int * size / 100
    }

    /// Sends walkers, one after another, each `lifetime` steps in random cardinal directions,
    /// carving floor as they go, until the floor share is reached. It gives up after one walker
    /// per cell of the map.
    pub fn build_map(&mut self, build_data: &mut MapBuilder) -> (walkers: usize)
        requires
            old(build_data).wf(),
            old(self).floor_percent <= 100,
            old(self).spawn_mode == DrunkardSpawnMode::Random ==> old(build_data).map.width >= 4
                && old(build_data).map.height >= 4,
        ensures
            final(build_data).wf(),
            same_but_tiles(&old(build_data).map, &final(build_data).map),
            carved_in_zone(&old(build_data).map, &final(build_data).map),
            final(build_data).starting_position == old(build_data).starting_position,
            final(build_data).rooms == old(build_data).rooms,
            final(build_data).spawn_list == old(build_data).spawn_list,
            floor_count(old(build_data).map.tiles@) >= old(self).desired_floor(
                old(build_data).map.size(),
            ) ==> final(build_data).map.tiles@ == old(build_data).map.tiles@,
            floor_count(final(build_data).map.tiles@) >= old(self).desired_floor(old(build_data).map.size())
                || walkers == old(build_data).map.size(),
            old(self).spawn_mode == DrunkardSpawnMode::Center && floor_count(old(build_data).map.tiles@)
                < old(self).desired_floor(old(build_data).map.size()) ==> final(build_data).map.is_floor(
                final(build_data).map.idx(
                    (final(build_data).map.width / 2) as int,
                    (final(build_data).map.height / 2) as int,
                ),
            ),
    {
        let ghost start = build_data.map;
        let total = build_data.map.tiles.len();
        assert(total <= 0xffff_ffffu64 as int * 0xffff_ffffu64 as int) by (nonlinear_arith)
            requires
                total == start.width as int * start.height as int,
                start.width <= 0xffff_ffffu64,
                start.height <= 0xffff_ffffu64,
        ;
        assert(self.floor_percent as int * total as int <= 100 * (0xffff_ffffu64 as int * 0xffff_ffffu64 as int)) by (nonlinear_arith)
            requires
                self.floor_percent <= 100,
                0 <= total <= 0xffff_ffffu64 as int * 0xffff_ffffu64 as int,
        ;
        let wide: u128 = self.floor_percent as u128 * total as u128 / 100;
        assert(wide <= total) by (nonlinear_arith)
            requires
                self.floor_percent <= 100,
                wide == self.floor_percent as int * total as int / 100,
                total >= 0,
        ;
        let desired = wide as usize;
        let w = build_data.map.width as i64;
        let h = build_data.map.height as i64;
        let mut floor_tiles = count_floor(&build_data.map);
        let mut rounds: usize = 0;
        if total == 0 {
            return 0;
        }
        proof {
            assert(start.width > 0 && start.height > 0) by (nonlinear_arith)
                requires
                    start.width as int * start.height as int > 0,
            ;
        }
        while floor_tiles < desired && rounds < total
            invariant
                same_but_tiles(&start, &build_data.map),
                carved_in_zone(&start, &build_data.map),
                start == old(build_data).map,
                start.wf(),
                start.width > 0 && start.height > 0,
                w == start.width,
                h == start.height,
                total == start.size(),
                build_data.starting_position == old(build_data).starting_position,
                build_data.rooms == old(build_data).rooms,
                build_data.spawn_list == old(build_data).spawn_list,
                old(build_data).wf(),
                self.spawn_mode == DrunkardSpawnMode::Random ==> w >= 4 && h >= 4,
                rounds <= total,
                desired == old(self).desired_floor(total as int),
                floor_count(start.tiles@) >= desired ==> floor_tiles >= desired
                    && build_data.map.tiles@ == start.tiles@,
                floor_tiles == floor_count(build_data.map.tiles@),
                rounds == 0 ==> build_data.map.tiles@ == start.tiles@,
                self.spawn_mode == DrunkardSpawnMode::Center && rounds > 0 ==> build_data.map.is_floor(
                    build_data.map.idx((w / 2) as int, (h / 2) as int),
                ),
            decreases total - rounds,
        {
            let (x, y) = match self.spawn_mode {
                DrunkardSpawnMode::Center => (w / 2, h / 2),
                DrunkardSpawnMode::Random => (random_range(1, w - 2), random_range(1, h - 2)),
            };
            let mut dirs: Vec<i64> = Vec::new();
            while dirs.len() < self.lifetime as usize
                invariant
                    dirs@.len() <= self.lifetime,
                decreases self.lifetime - dirs@.len(),
            {
                dirs.push(random_range(0, 4));
            }
            let ghost before = build_data.map;
            walk(&mut build_data.map, x as u32, y as u32, &dirs);
            proof {
                lemma_walk_in_zone(&start, &before, &build_data.map, (x as int, y as int), dirs@);
                if self.spawn_mode == DrunkardSpawnMode::Center {
                    assert(dirs@.take(0) =~= Seq::<i64>::empty());
                    let st = (x as int, y as int);
                    assert(walk_pos(st, dirs@.take(0), w as int, h as int) == st);
                    let c = build_data.map.idx(x as int, y as int);
                    crate::map::lemma_idx_in_range(x as int, y as int, w as int, h as int);
                    assert(before.idx(walk_pos(st, dirs@.take(0), w as int, h as int).0, walk_pos(st, dirs@.take(0), w as int, h as int).1) == c);
                    assert(m_walked_start(&before, st, dirs@, c));
                }
            }
            floor_tiles = count_floor(&build_data.map);
            rounds = rounds + 1;
        }
        rounds
    }
}

} // verus!
