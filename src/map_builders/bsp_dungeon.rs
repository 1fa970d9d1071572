//! Rooms placed by binary space partition, joined in order of their left edge.

use crate::map::{GameMap, Tile};
use crate::map_builders::common::{apply_room_to_map, in_room, same_but_tiles, set_tile};
use crate::map_builders::rect::Rect;
use crate::map_builders::simple_map::{keeps_floor, rooms_are_floor};
use crate::map_builders::{room_fits, MapBuilder};
use crate::rng::random_range;
use vstd::prelude::*;

verus! {

/// Largest coordinate a partition rectangle may reach; larger ones are not split further.
pub const COORD_LIMIT: i64 = 0x1000_0000;

pub struct BspDungeon;

/// A rectangle with ordered, non-negative corners below the coordinate limit.
pub open spec fn rect_ok(r: Rect) -> bool {
    0 <= r.x1 <= r.x2 <= COORD_LIMIT && 0 <= r.y1 <= r.y2 <= COORD_LIMIT
}

/// Every cell of `r` grown by two on each side lies off the map's outer ring and is a wall.
pub open spec fn possible(map: &GameMap, r: Rect) -> bool {
    forall|x: int, y: int|
        r.x1 - 2 <= x < r.x2 + 2 && r.y1 - 2 <= y < r.y2 + 2 ==> #[trigger] wall_inside(map, x, y)
}

/// Splits `r` into four quadrants, each at least one cell wide and high, and appends those
/// that stay below the coordinate limit.
pub fn add_subrects(rects: &mut Vec<Rect>, r: Rect)
    requires
        rect_ok(r),
        forall|k: int| 0 <= k < old(rects)@.len() ==> rect_ok(#[trigger] old(rects)@[k]),
    ensures
        forall|k: int| 0 <= k < final(rects)@.len() ==> rect_ok(#[trigger] final(rects)@[k]),
        old(rects)@.len() <= final(rects)@.len() <= old(rects)@.len() + 4,
        final(rects)@.subrange(0, old(rects)@.len() as int) == old(rects)@,
{
    let w = r.width();
    let h = r.height();
    let half_w = if w / 2 > 1 {
        w / 2
    } else {
        1
    };
    let half_h = if h / 2 > 1 {
        h / 2
    } else {
        1
    };
    if r.x1 as i64 + 2 * half_w as i64 > COORD_LIMIT || r.y1 as i64 + 2 * half_h as i64 > COORD_LIMIT {
        assert(old(rects)@.subrange(0, old(rects)@.len() as int) =~= old(rects)@);
        return;
    }
    let ghost start = rects@;
    rects.push(Rect::new(r.x1, r.y1, half_w, half_h));
    rects.push(Rect::new(r.x1, r.y1 + half_h, half_w, half_h));
    rects.push(Rect::new(r.x1 + half_w, r.y1, half_w, half_h));
    rects.push(Rect::new(r.x1 + half_w, r.y1 + half_h, half_w, half_h));
    assert(rects@.subrange(0, start.len() as int) =~= start);
}

/// A random room inside `r`: sides of 5 to 10 cells, its corner shifted right and down by up
/// to 5 cells.
pub fn get_random_subrect(r: Rect) -> (c: Rect)
    requires
        rect_ok(r),
        r.x2 - r.x1 >= 1,
        r.y2 - r.y1 >= 1,
    ensures
        r.x1 <= c.x1 <= r.x1 + 5,
        r.y1 <= c.y1 <= r.y1 + 5,
        c.x1 + 5 <= c.x2 <= c.x1 + 10,
        c.y1 + 5 <= c.y2 <= c.y1 + 10,
{
    let outer_w = r.width() as i64;
    let outer_h = r.height() as i64;
    let rw = random_range(0, if outer_w < 10 {
        outer_w
    } else {
        10
    });
    let rh = random_range(0, if outer_h < 10 {
        outer_h
    } else {
        10
    });
    let w = (if rw > 4 {
        rw
    } else {
        4
    }) + 1;
    let h = (if rh > 4 {
        rh
    } else {
        4
    }) + 1;
    let x1 = r.x1 as i64 + random_range(0, 6);
    let y1 = r.y1 as i64 + random_range(0, 6);
    Rect { x1: x1 as i32, y1: y1 as i32, x2: (x1 + w) as i32, y2: (y1 + h) as i32 }
}

/// Whether cell `(x, y)` lies off the map's outer ring and is a wall.
pub open spec fn wall_inside(map: &GameMap, x: int, y: int) -> bool {
    1 <= x <= map.width - 2 && 1 <= y <= map.height - 2 && map.is_wall(map.idx(x, y))
}

/// Whether `r`, grown by two cells on each side, lies off the map's outer ring over walls only.
pub fn is_possible(map: &GameMap, r: Rect) -> (ok: bool)
    requires
        map.wf(),
    ensures
        ok == possible(map, r),
{
    let x_lo = r.x1 as i64 - 2;
    let x_hi = r.x2 as i64 + 2;
    let y_lo = r.y1 as i64 - 2;
    let y_hi = r.y2 as i64 + 2;
    if x_lo >= x_hi || y_lo >= y_hi {
        return true;
    }
    let w = map.width as i64;
    let h = map.height as i64;
    let mut y = y_lo;
    while y < y_hi
        invariant
            map.wf(),
            w == map.width,
            h == map.height,
            x_lo == r.x1 - 2,
            x_hi == r.x2 + 2,
            y_lo == r.y1 - 2,
            y_hi == r.y2 + 2,
            x_lo < x_hi,
            y_lo <= y <= y_hi,
            forall|xx: int, yy: int|
                                x_lo <= xx < x_hi && y_lo <= yy < y ==> #[trigger] wall_inside(map, xx, yy),
        decreases y_hi - y,
    {
        let mut x = x_lo;
        while x < x_hi
            invariant
                map.wf(),
                w == map.width,
                h == map.height,
                x_lo == r.x1 - 2,
                x_hi == r.x2 + 2,
                y_lo == r.y1 - 2,
                y_hi == r.y2 + 2,
                y_lo <= y < y_hi,
                x_lo <= x <= x_hi,
                forall|xx: int, yy: int|
                                        x_lo <= xx < x_hi && y_lo <= yy < y ==> #[trigger] wall_inside(map, xx, yy),
                forall|xx: int| x_lo <= xx < x ==> #[trigger] wall_inside(map, xx, y as int),
            decreases x_hi - x,
        {
            if x > w - 2 || y > h - 2 || x < 1 || y < 1 {
                proof {
                    assert(!wall_inside(map, x as int, y as int));
                }
                return false;
            }
            let idx = map.xy_idx(x as u32, y as u32);
            if map.tiles[idx] != Tile::Wall {
                proof {
                    assert(!wall_inside(map, x as int, y as int));
                }
                return false;
            }
            x = x + 1;
        }
        proof {
            assert forall|xx: int, yy: int|
                                x_lo <= xx < x_hi && y_lo <= yy < y + 1 implies #[trigger] wall_inside(map, xx, yy) by {
            }
        }
        y = y + 1;
    }
    true
}

proof fn lemma_possible_bounds(map: &GameMap, r: Rect)
    requires
        possible(map, r),
        r.x1 + 5 <= r.x2,
        r.y1 + 5 <= r.y2,
    ensures
        1 <= r.x1 - 2,
        r.x2 + 1 <= map.width - 2,
        1 <= r.y1 - 2,
        r.y2 + 1 <= map.height - 2,
{
    assert(wall_inside(map, r.x1 - 2, r.y1 - 2));
    assert(wall_inside(map, r.x2 + 1, r.y2 + 1));
}

/// Whether `v` lies between `a` and `b`, both included.
pub open spec fn between(a: int, v: int, b: int) -> bool {
    (a <= v <= b) || (b <= v <= a)
}

/// Whether `(x, y)` is a cell the corridor from `(x1, y1)` to `(x2, y2)` enters: along row `y1`
/// towards `x2`, then along column `x2` to `y2`; the start cell is not entered.
pub open spec fn on_path(x1: int, y1: int, x2: int, y2: int, x: int, y: int) -> bool {
    (y == y1 && x != x1 && between(x1, x, x2)) || (x == x2 && y != y1 && between(y1, y, y2))
}

/// Digs a corridor from `(x1, y1)` to `(x2, y2)`: first along the row, then along the column,
/// turning each cell entered into floor.
pub fn draw_corridor(map: &mut GameMap, x1: i32, y1: i32, x2: i32, y2: i32)
    requires
        old(map).wf(),
    ensures
        same_but_tiles(old(map), final(map)),
        forall|i: int|
            0 <= i < old(map).size() ==> #[trigger] final(map).tiles@[i] == if on_path(
                x1 as int,
                y1 as int,
                x2 as int,
                y2 as int,
                old(map).idx_x(i),
                old(map).idx_y(i),
            ) {
                Tile::Floor
            } else {
                old(map).tiles@[i]
            },
{
    let n = map.tiles.len();
    let (ax, ay, bx, by) = (x1 as i64, y1 as i64, x2 as i64, y2 as i64);
    let mut i: usize = 0;
    while i < n
        invariant
            i <= n,
            n == old(map).size(),
            same_but_tiles(old(map), map),
            ax == x1 && ay == y1 && bx == x2 && by == y2,
            forall|j: int|
                0 <= j < i ==> #[trigger] map.tiles@[j] == if on_path(
                    x1 as int,
                    y1 as int,
                    x2 as int,
                    y2 as int,
                    old(map).idx_x(j),
                    old(map).idx_y(j),
                ) {
                    Tile::Floor
                } else {
                    old(map).tiles@[j]
                },
            forall|j: int| i <= j < n ==> #[trigger] map.tiles@[j] == old(map).tiles@[j],
        decreases n - i,
    {
        let (cx, cy) = map.idx_xy(i);
        let (cx, cy) = (cx as i64, cy as i64);
        let in_row = cy == ay && cx != ax && ((ax <= cx && cx <= bx) || (bx <= cx && cx <= ax));
        let in_col = cx == bx && cy != ay && ((ay <= cy && cy <= by) || (by <= cy && cy <= ay));
        if in_row || in_col {
            set_tile(map, i, Tile::Floor);
        }
        i = i + 1;
    }
}

/// Whether `(x, y)` lies in `r`, its right and bottom edges excluded.
pub open spec fn in_rect(r: Rect, x: int, y: int) -> bool {
    r.x1 <= x < r.x2 && r.y1 <= y < r.y2
}

/// Every cell of the corridor from `(x1, y1)` to `(x2, y2)` is floor.
pub open spec fn corridor_floor(m: &GameMap, x1: int, y1: int, x2: int, y2: int) -> bool {
    forall|i: int|
        0 <= i < m.size() && on_path(x1, y1, x2, y2, m.idx_x(i), m.idx_y(i)) ==> #[trigger] m.tiles@[i]
            == Tile::Floor
}

/// Rooms `a` and `b` are joined by a floor corridor from a cell of `a` to a cell of `b`.
pub open spec fn joined(m: &GameMap, a: Rect, b: Rect) -> bool {
    exists|x1: int, y1: int, x2: int, y2: int|
        in_rect(a, x1, y1) && in_rect(b, x2, y2) && #[trigger] corridor_floor(m, x1, y1, x2, y2)
}

/// A room as the partition places it: five to ten cells a side, at least three cells from the
/// left and top edges and three from the right and bottom ones.
pub open spec fn bsp_room_ok(r: Rect, w: int, h: int) -> bool {
    &&& 3 <= r.x1 && r.x1 + 5 <= r.x2 <= r.x1 + 10 && r.x2 <= w - 3
    &&& 3 <= r.y1 && r.y1 + 5 <= r.y2 <= r.y1 + 10 && r.y2 <= h - 3
}

/// No two rooms overlap, edges included.
pub open spec fn apart(rooms: Seq<Rect>) -> bool {
    forall|a: int, b: int| #![trigger rooms[a], rooms[b]] 0 <= a < rooms.len() && 0 <= b < rooms.len() && a != b
        ==> !rooms[a].spec_intersect(&rooms[b])
}

/// A room whose inside is floor cannot overlap a candidate whose grown area is all wall.
proof fn lemma_no_overlap(map: &GameMap, r: Rect, c: Rect)
    requires
        map.wf(),
        room_fits(r, map.width as int, map.height as int),
        forall|i: int| 0 <= i < map.size() && in_room(r, map.idx_x(i), map.idx_y(i)) ==> #[trigger] map.tiles@[i] == Tile::Floor,
        possible(map, c),
        c.x1 + 5 <= c.x2,
        c.y1 + 5 <= c.y2,
    ensures
        !r.spec_intersect(&c),
        !c.spec_intersect(&r),
{
    if r.spec_intersect(&c) {
        let x: int = if r.x1 + 1 >= c.x1 - 2 { r.x1 + 1 } else { c.x1 - 2 };
        let y: int = if r.y1 + 1 >= c.y1 - 2 { r.y1 + 1 } else { c.y1 - 2 };
        assert(wall_inside(map, x, y));
        let i = map.idx(x, y);
        crate::map::lemma_xy_idx_bijective(map.width as int, map.height as int, x, y, x, y);
        assert(map.idx_x(i) == x && map.idx_y(i) == y);
        assert(in_room(r, x, y));
        assert(map.tiles@[i] == Tile::Floor);
    }
}

proof fn lemma_apart_sorted(a: Seq<Rect>, b: Seq<Rect>, w: int, h: int)
    requires
        apart(a),
        forall|k: int| 0 <= k < a.len() ==> room_fits(#[trigger] a[k], w, h),
        a.to_multiset() == b.to_multiset(),
        a.len() == b.len(),
    ensures
        apart(b),
{
    assert(a.no_duplicates()) by {
        assert forall|i: int, j: int| 0 <= i < a.len() && 0 <= j < a.len() && i != j implies a[i] != a[j] by {
            assert(room_fits(a[i], w, h));
            assert(!a[i].spec_intersect(&a[j]));
        }
    }
    a.lemma_multiset_has_no_duplicates();
    b.lemma_multiset_has_no_duplicates_conv();
    assert forall|x: int, y: int| #![trigger b[x], b[y]] 0 <= x < b.len() && 0 <= y < b.len() && x != y
        implies !b[x].spec_intersect(&b[y]) by {
        lemma_permuted_member(a, b, x);
        lemma_permuted_member(a, b, y);
        let jx = choose|j: int| 0 <= j < a.len() && a[j] == b[x];
        let jy = choose|j: int| 0 <= j < a.len() && a[j] == b[y];
        assert(b[x] != b[y]);
        assert(jx != jy);
        assert(!a[jx].spec_intersect(&a[jy]));
    }
}

proof fn lemma_joined_kept(a: &GameMap, b: &GameMap, r1: Rect, r2: Rect)
    requires
        joined(a, r1, r2),
        keeps_floor(a, b),
        same_but_tiles(a, b),
    ensures
        joined(b, r1, r2),
{
    let (x1, y1, x2, y2) = choose|x1: int, y1: int, x2: int, y2: int|
        in_rect(r1, x1, y1) && in_rect(r2, x2, y2) && #[trigger] corridor_floor(a, x1, y1, x2, y2);
    assert forall|i: int|
        0 <= i < b.size() && on_path(x1, y1, x2, y2, b.idx_x(i), b.idx_y(i)) implies #[trigger] b.tiles@[i]
            == Tile::Floor by {
        assert(a.tiles@[i] == Tile::Floor);
    }
    assert(corridor_floor(b, x1, y1, x2, y2));
}

/// Relies on `slice::sort_unstable_by_key`: the rooms are reordered, none lost or added, so
/// that their left edges ascend.
#[verifier::external_body]
fn sort_rooms_by_left(rooms: &mut Vec<Rect>)
    ensures
        final(rooms)@.to_multiset() == old(rooms)@.to_multiset(),
        forall|a: int, b: int|
            #![trigger final(rooms)@[a], final(rooms)@[b]]
            0 <= a < b < final(rooms)@.len() ==> final(rooms)@[a].x1 <= final(rooms)@[b].x1,
{
    rooms.sort_unstable_by_key(|r| r.x1)
}

proof fn lemma_permuted_member(a: Seq<Rect>, b: Seq<Rect>, k: int)
    requires
        a.to_multiset() == b.to_multiset(),
        0 <= k < b.len(),
    ensures
        exists|j: int| 0 <= j < a.len() && a[j] == b[k],
{
    a.to_multiset_ensures();
    b.to_multiset_ensures();
    assert(b.contains(b[k]));
    assert(b.to_multiset().count(b[k]) > 0);
    assert(a.to_multiset().count(b[k]) > 0);
    assert(a.contains(b[k]));
}

impl BspDungeon {
    /// Splits the map into ever smaller rectangles and, `width * height / 16` times, picks one
    /// at random and a random room inside it; the room is kept, carved and its rectangle split
    /// again when, grown by two cells, it covers walls only and stays off the outer ring. The
    /// rooms, sorted by left edge, are then joined in turn by corridors between random cells of
    /// consecutive rooms, and become the builder's rooms.
    pub fn build_map(&mut self, build_data: &mut MapBuilder)
        requires
            old(build_data).wf(),
            old(build_data).map.width <= COORD_LIMIT,
            old(build_data).map.height <= COORD_LIMIT,
        ensures
            final(build_data).wf(),
            same_but_tiles(&old(build_data).map, &final(build_data).map),
            keeps_floor(&old(build_data).map, &final(build_data).map),
            final(build_data).starting_position == old(build_data).starting_position,
            final(build_data).spawn_list == old(build_data).spawn_list,
            final(build_data).rooms.is_some(),
            rooms_are_floor(&final(build_data).map, final(build_data).rooms.unwrap()@),
            forall|k: int|
                0 <= k < final(build_data).rooms.unwrap()@.len() ==> bsp_room_ok(
                    #[trigger] final(build_data).rooms.unwrap()@[k],
                    old(build_data).map.width as int,
                    old(build_data).map.height as int,
                ),
            apart(final(build_data).rooms.unwrap()@),
            forall|k: int|
                0 <= k < final(build_data).rooms.unwrap()@.len() - 1 ==> joined(
                    &final(build_data).map,
                    #[trigger] final(build_data).rooms.unwrap()@[k],
                    final(build_data).rooms.unwrap()@[k + 1],
                ),
            forall|a: int, b: int|
                #![trigger final(build_data).rooms.unwrap()@[a], final(build_data).rooms.unwrap()@[b]]
                0 <= a < b < final(build_data).rooms.unwrap()@.len() ==> final(build_data).rooms.unwrap()@[a].x1
                    <= final(build_data).rooms.unwrap()@[b].x1,
    {
        let ghost start = build_data.map;
        let w = build_data.map.width as i64;
        let h = build_data.map.height as i64;
        let n = build_data.map.tiles.len() / 16;
        assert(n <= 0x1000_0000_0000_0000) by (nonlinear_arith)
            requires
                n == build_data.map.tiles@.len() / 16,
                build_data.map.tiles@.len() == w * h,
                0 <= w <= COORD_LIMIT,
                0 <= h <= COORD_LIMIT,
        ;
        let mut rooms: Vec<Rect> = Vec::new();
        let mut rects: Vec<Rect> = Vec::new();
        if w >= 7 && h >= 7 {
            let first = Rect::new(2, 2, (w - 5) as i32, (h - 5) as i32);
            rects.push(first);
            add_subrects(&mut rects, first);
        }
        let mut i: usize = 0;
        while i < n && rects.len() > 0
            invariant
                same_but_tiles(&start, &build_data.map),
                keeps_floor(&start, &build_data.map),
                start == old(build_data).map,
                start.wf(),
                w == start.width,
                h == start.height,
                w <= COORD_LIMIT,
                h <= COORD_LIMIT,
                build_data.starting_position == old(build_data).starting_position,
                build_data.spawn_list == old(build_data).spawn_list,
                build_data.rooms == old(build_data).rooms,
                old(build_data).wf(),
                forall|k: int| 0 <= k < rects@.len() ==> rect_ok(#[trigger] rects@[k]),
                forall|k: int| 0 <= k < rooms@.len() ==> room_fits(#[trigger] rooms@[k], w as int, h as int),
                forall|k: int| 0 <= k < rooms@.len() ==> bsp_room_ok(#[trigger] rooms@[k], w as int, h as int),
                rooms_are_floor(&build_data.map, rooms@),
                apart(rooms@),
                rects@.len() <= 5 + 4 * i,
                rooms@.len() <= i,
                i <= n,
                n <= 0x1000_0000_0000_0000,
            decreases n - i,
        {
            i = i + 1;
            let pick = random_range(0, rects.len() as i64) as usize;
            let rect = rects[pick];
            if rect.x2 - rect.x1 < 1 || rect.y2 - rect.y1 < 1 {
                continue;
            }
            let candidate = get_random_subrect(rect);
            if is_possible(&build_data.map, candidate) {
                proof {
                    lemma_possible_bounds(&build_data.map, candidate);
                    assert forall|k: int| 0 <= k < rooms@.len() implies !(#[trigger] rooms@[k]).spec_intersect(&candidate)
                        && !candidate.spec_intersect(&rooms@[k]) by {
                        let r = rooms@[k];
                        assert(room_fits(r, w as int, h as int));
                        assert forall|i: int| 0 <= i < build_data.map.size() && in_room(r, build_data.map.idx_x(i), build_data.map.idx_y(i))
                            implies #[trigger] build_data.map.tiles@[i] == Tile::Floor by {
                        }
                        lemma_no_overlap(&build_data.map, r, candidate);
                    }
                }
                let ghost m0 = build_data.map;
                apply_room_to_map(&mut build_data.map, &candidate);
                proof {
                    let rs = rooms@.push(candidate);
                    assert forall|k: int, c: int|
                        0 <= k < rs.len() && 0 <= c < build_data.map.size() && in_room(
                            #[trigger] rs[k],
                            build_data.map.idx_x(c),
                            build_data.map.idx_y(c),
                        ) implies #[trigger] build_data.map.tiles@[c] == Tile::Floor by {
                        if k < rooms@.len() {
                            assert(rs[k] == rooms@[k]);
                            assert(m0.tiles@[c] == Tile::Floor);
                        }
                    }
                }
                let ghost old_rooms = rooms@;
                rooms.push(candidate);
                proof {
                    assert forall|a: int, b: int| #![trigger rooms@[a], rooms@[b]] 0 <= a < rooms@.len() && 0 <= b < rooms@.len() && a != b
                        implies !rooms@[a].spec_intersect(&rooms@[b]) by {
                        if a < old_rooms.len() && b < old_rooms.len() {
                            assert(rooms@[a] == old_rooms[a] && rooms@[b] == old_rooms[b]);
                        } else if a < old_rooms.len() {
                            assert(rooms@[a] == old_rooms[a]);
                        } else {
                            assert(rooms@[b] == old_rooms[b]);
                        }
                    }
                }
                add_subrects(&mut rects, rect);
            }
        }
        let ghost unsorted = rooms@;
        sort_rooms_by_left(&mut rooms);
        proof {
            unsorted.to_multiset_ensures();
            rooms@.to_multiset_ensures();
            lemma_apart_sorted(unsorted, rooms@, w as int, h as int);
            assert forall|k: int| 0 <= k < rooms@.len() implies room_fits(#[trigger] rooms@[k], w as int, h as int)
                && bsp_room_ok(rooms@[k], w as int, h as int)
                && exists|j: int| 0 <= j < unsorted.len() && unsorted[j] == rooms@[k] by {
                lemma_permuted_member(unsorted, rooms@, k);
            }
            assert forall|k: int, c: int|
                0 <= k < rooms@.len() && 0 <= c < build_data.map.size() && in_room(
                    #[trigger] rooms@[k],
                    build_data.map.idx_x(c),
                    build_data.map.idx_y(c),
                ) implies #[trigger] build_data.map.tiles@[c] == Tile::Floor by {
                lemma_permuted_member(unsorted, rooms@, k);
                let j = choose|j: int| 0 <= j < unsorted.len() && unsorted[j] == rooms@[k];
                assert(in_room(unsorted[j], build_data.map.idx_x(c), build_data.map.idx_y(c)));
            }
        }
        if rooms.len() >= 2 {
            let mut k: usize = 0;
            while k < rooms.len() - 1
                invariant
                    rooms@.len() >= 2,
                    same_but_tiles(&start, &build_data.map),
                    keeps_floor(&start, &build_data.map),
                    start == old(build_data).map,
                    start.wf(),
                    w == start.width,
                    h == start.height,
                    build_data.starting_position == old(build_data).starting_position,
                    build_data.spawn_list == old(build_data).spawn_list,
                    build_data.rooms == old(build_data).rooms,
                    old(build_data).wf(),
                    forall|j: int| 0 <= j < rooms@.len() ==> room_fits(#[trigger] rooms@[j], w as int, h as int),
                    forall|j: int| 0 <= j < rooms@.len() ==> bsp_room_ok(#[trigger] rooms@[j], w as int, h as int),
                    rooms_are_floor(&build_data.map, rooms@),
                    apart(rooms@),
                    k <= rooms@.len() - 1,
                    forall|j: int| 0 <= j < k ==> joined(&build_data.map, #[trigger] rooms@[j], rooms@[j + 1]),
                decreases rooms@.len() - k,
            {
                let room = rooms[k];
                let next = rooms[k + 1];
                assert(room_fits(rooms@[k as int], w as int, h as int));
                assert(room_fits(rooms@[k + 1], w as int, h as int));
                let sx = room.x1 as i64 + random_range(0, (room.x2 - room.x1) as i64);
                let sy = room.y1 as i64 + random_range(0, (room.y2 - room.y1) as i64);
                let ex = next.x1 as i64 + random_range(0, (next.x2 - next.x1) as i64);
                let ey = next.y1 as i64 + random_range(0, (next.y2 - next.y1) as i64);
                let ghost m0 = build_data.map;
                draw_corridor(&mut build_data.map, sx as i32, sy as i32, ex as i32, ey as i32);
                proof {
                    crate::map_builders::simple_map::lemma_floor_kept(&m0, &build_data.map, rooms@);
                    assert forall|j: int| 0 <= j < k + 1 implies joined(&build_data.map, #[trigger] rooms@[j], rooms@[j + 1]) by {
                        if j < k {
                            lemma_joined_kept(&m0, &build_data.map, rooms@[j], rooms@[j + 1]);
                        } else {
                            assert(corridor_floor(&build_data.map, sx as int, sy as int, ex as int, ey as int));
                            assert(in_rect(rooms@[j], sx as int, sy as int));
                            assert(in_rect(rooms@[j + 1], ex as int, ey as int));
                        }
                    }
                }
                k = k + 1;
            }
        }
        build_data.rooms = Some(rooms);
    }
}

} // verus!
