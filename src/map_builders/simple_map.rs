//! Rooms and corridors: non-overlapping rectangular rooms, each joined to the previous one by
//! an L-shaped corridor.

use crate::map::{GameMap, Tile};
use crate::map_builders::common::{
    apply_horizontal_tunnel, apply_room_to_map, apply_vertical_tunnel, in_room, same_but_tiles,
};
use crate::map_builders::common::{on_column, on_row};
use crate::map_builders::rect::{half, Rect};
use crate::map_builders::{room_fits, MapBuilder};
use crate::rng::{coin_flip, random_range};
use vstd::prelude::*;

verus! {

/// Smallest room side.
pub const MIN_SIZE: i64 = 6;

/// Largest room side, excluded.
pub const MAX_SIZE: i64 = 10;

pub struct SimpleMap;

/// Every cell inside one of the rooms is floor.
pub open spec fn rooms_are_floor(m: &GameMap, rooms: Seq<Rect>) -> bool {
    forall|k: int, i: int|
        0 <= k < rooms.len() && 0 <= i < m.size() && in_room(#[trigger] rooms[k], m.idx_x(i), m.idx_y(i))
            ==> #[trigger] m.tiles@[i] == Tile::Floor
}

/// No two rooms overlap, edges included.
pub open spec fn rooms_apart(rooms: Seq<Rect>) -> bool {
    forall|a: int, b: int|
        #![trigger rooms[a], rooms[b]]
        0 <= a < b < rooms.len() ==> !rooms[a].spec_intersect(&rooms[b])
}

/// `b` has every floor cell of `a`.
pub open spec fn keeps_floor(a: &GameMap, b: &GameMap) -> bool {
    forall|i: int| 0 <= i < a.size() && a.tiles@[i] == Tile::Floor ==> #[trigger] b.tiles@[i] == Tile::Floor
}

pub proof fn lemma_floor_kept(a: &GameMap, b: &GameMap, rooms: Seq<Rect>)
    requires
        rooms_are_floor(a, rooms),
        keeps_floor(a, b),
        same_but_tiles(a, b),
    ensures
        rooms_are_floor(b, rooms),
{
    assert forall|k: int, i: int|
        0 <= k < rooms.len() && 0 <= i < b.size() && in_room(#[trigger] rooms[k], b.idx_x(i), b.idx_y(i))
            implies #[trigger] b.tiles@[i] == Tile::Floor by {
        assert(a.tiles@[i] == Tile::Floor);
    }
}

/// A room as this builder places it: six to nine cells a side, its corner at least one cell
/// from the left and top edges, and its far edges at least three cells from the right and
/// bottom ones.
pub open spec fn simple_room_ok(r: Rect, w: int, h: int) -> bool {
    &&& 1 <= r.x1 && r.x1 + 6 <= r.x2 <= r.x1 + 9 && r.x2 <= w - 3
    &&& 1 <= r.y1 && r.y1 + 6 <= r.y2 <= r.y1 + 9 && r.y2 <= h - 3
}

/// The centre of a room.
pub open spec fn center_of(r: Rect) -> (int, int) {
    (half(r.x1 + r.x2), half(r.y1 + r.y2))
}

/// Whether `(x, y)` lies on the L-shaped corridor from `a` to `b`: along the row of `a` then
/// the column of `b` when `row_first`, otherwise along the column of `a` then the row of `b`.
pub open spec fn on_l(a: (int, int), b: (int, int), row_first: bool, x: int, y: int) -> bool {
    if row_first {
        on_row(a.0, b.0, a.1, x, y) || on_column(a.1, b.1, b.0, x, y)
    } else {
        on_column(a.1, b.1, a.0, x, y) || on_row(a.0, b.0, b.1, x, y)
    }
}

/// Every cell of one of the two L-shaped corridors between the centres of `a` and `b` is floor.
pub open spec fn l_floor(m: &GameMap, a: Rect, b: Rect, row_first: bool) -> bool {
    forall|i: int|
        0 <= i < m.size() && on_l(center_of(a), center_of(b), row_first, m.idx_x(i), m.idx_y(i))
            ==> #[trigger] m.tiles@[i] == Tile::Floor
}

/// Rooms `a` and `b` are joined by an L-shaped floor corridor between their centres.
pub open spec fn l_joined(m: &GameMap, a: Rect, b: Rect) -> bool {
    exists|row_first: bool| #[trigger] l_floor(m, a, b, row_first)
}

proof fn lemma_l_kept(a: &GameMap, b: &GameMap, r1: Rect, r2: Rect)
    requires
        l_joined(a, r1, r2),
        keeps_floor(a, b),
        same_but_tiles(a, b),
    ensures
        l_joined(b, r1, r2),
{
    let rf = choose|row_first: bool| #[trigger] l_floor(a, r1, r2, row_first);
    assert forall|i: int|
        0 <= i < b.size() && on_l(center_of(r1), center_of(r2), rf, b.idx_x(i), b.idx_y(i)) implies #[trigger] b.tiles@[i]
            == Tile::Floor by {
        assert(a.tiles@[i] == Tile::Floor);
    }
    assert(l_floor(b, r1, r2, rf));
}

/// A cell off the top row has a positive index.
proof fn lemma_positive_index(m: &GameMap, i: int)
    requires
        m.wf(),
        0 <= i < m.size(),
        m.idx_y(i) >= 1,
    ensures
        i > 0,
{
    vstd::arithmetic::div_mod::lemma_fundamental_div_mod(i, m.width as int);
    if m.width == 0 {
    } else {
        assert(i >= m.width as int * 1) by (nonlinear_arith)
            requires
                i == m.width as int * (i / m.width as int) + i % m.width as int,
                i / m.width as int >= 1,
                i % m.width as int >= 0,
                m.width > 0,
        ;
    }
}

impl SimpleMap {
    /// Tries `width * height / 100` random rooms of sides 6 to 9 and keeps each one that
    /// overlaps no kept room; a kept room is carved and joined to the previous kept room by a
    /// corridor between their centres, horizontal then vertical or the other way round on a
    /// coin flip. The kept rooms become the builder's rooms.
    pub fn new_map_rooms_and_corridors(&mut self, build_data: &mut MapBuilder)
        requires
            old(build_data).wf(),
            old(build_data).map.width <= i32::MAX,
            old(build_data).map.height <= i32::MAX,
        ensures
            final(build_data).wf(),
            same_but_tiles(&old(build_data).map, &final(build_data).map),
            keeps_floor(&old(build_data).map, &final(build_data).map),
            final(build_data).starting_position == old(build_data).starting_position,
            final(build_data).spawn_list == old(build_data).spawn_list,
            final(build_data).rooms.is_some(),
            rooms_apart(final(build_data).rooms.unwrap()@),
            rooms_are_floor(&final(build_data).map, final(build_data).rooms.unwrap()@),
            forall|k: int|
                0 <= k < final(build_data).rooms.unwrap()@.len() ==> simple_room_ok(
                    #[trigger] final(build_data).rooms.unwrap()@[k],
                    old(build_data).map.width as int,
                    old(build_data).map.height as int,
                ),
            forall|k: int|
                1 <= k < final(build_data).rooms.unwrap()@.len() ==> l_joined(
                    &final(build_data).map,
                    final(build_data).rooms.unwrap()@[k - 1],
                    #[trigger] final(build_data).rooms.unwrap()@[k],
                ),
            old(build_data).map.width >= 13 && old(build_data).map.height >= 13 && old(build_data).map.size()
                >= 100 ==> final(build_data).rooms.unwrap()@.len() >= 1,
    {
        let ghost start = build_data.map;
        let w = build_data.map.width as i64;
        let h = build_data.map.height as i64;
        let max_rooms = build_data.map.tiles.len() / 100;
        let mut rooms: Vec<Rect> = Vec::new();
        let mut attempt: usize = 0;
        while attempt < max_rooms
            invariant
                same_but_tiles(&start, &build_data.map),
                keeps_floor(&start, &build_data.map),
                start == old(build_data).map,
                start.wf(),
                w == start.width,
                h == start.height,
                w <= i32::MAX,
                h <= i32::MAX,
                build_data.starting_position == old(build_data).starting_position,
                build_data.spawn_list == old(build_data).spawn_list,
                build_data.rooms == old(build_data).rooms,
                old(build_data).wf(),
                forall|k: int| 0 <= k < rooms@.len() ==> room_fits(#[trigger] rooms@[k], w as int, h as int),
                rooms_apart(rooms@),
                rooms_are_floor(&build_data.map, rooms@),
                forall|k: int| 0 <= k < rooms@.len() ==> simple_room_ok(#[trigger] rooms@[k], w as int, h as int),
                forall|k: int| 1 <= k < rooms@.len() ==> l_joined(&build_data.map, rooms@[k - 1], #[trigger] rooms@[k]),
                max_rooms == start.size() / 100,
                attempt <= max_rooms,
                attempt >= 1 && w >= 13 && h >= 13 ==> rooms@.len() >= 1,
            decreases max_rooms - attempt,
        {
            attempt = attempt + 1;
            let rw = random_range(MIN_SIZE, MAX_SIZE);
            let rh = random_range(MIN_SIZE, MAX_SIZE);
            if w - rw - 2 <= 1 || h - rh - 2 <= 1 {
                continue;
            }
            let x = random_range(1, w - rw - 2);
            let y = random_range(1, h - rh - 2);
            let new_room = Rect::new(x as i32, y as i32, rw as i32, rh as i32);
            let mut ok = true;
            let mut j: usize = 0;
            while j < rooms.len()
                invariant
                    j <= rooms@.len(),
                    ok == forall|k: int| 0 <= k < j ==> !new_room.spec_intersect(&#[trigger] rooms@[k]),
                decreases rooms@.len() - j,
            {
                if new_room.intersect(&rooms[j]) {
                    ok = false;
                }
                j = j + 1;
            }
            if ok {
                let ghost m0 = build_data.map;
                apply_room_to_map(&mut build_data.map, &new_room);
                proof {
                    lemma_floor_kept(&m0, &build_data.map, rooms@);
                    assert forall|k: int| 1 <= k < rooms@.len() implies l_joined(&build_data.map, rooms@[k - 1], #[trigger] rooms@[k]) by {
                        lemma_l_kept(&m0, &build_data.map, rooms@[k - 1], rooms@[k]);
                    }
                    let rs = rooms@.push(new_room);
                    assert forall|k: int, i: int|
                        0 <= k < rs.len() && 0 <= i < build_data.map.size() && in_room(
                            #[trigger] rs[k],
                            build_data.map.idx_x(i),
                            build_data.map.idx_y(i),
                        ) implies #[trigger] build_data.map.tiles@[i] == Tile::Floor by {
                        if k < rooms@.len() {
                            assert(rs[k] == rooms@[k]);
                        }
                    }
                }
                if rooms.len() > 0 {
                    let (new_x, new_y) = new_room.center();
                    let (prev_x, prev_y) = rooms[rooms.len() - 1].center();
                    let ghost m1 = build_data.map;
                    let ghost prev = rooms@[rooms@.len() - 1];
                    let row_first = coin_flip();
                    if row_first {
                        apply_horizontal_tunnel(&mut build_data.map, prev_x, new_x, prev_y);
                        apply_vertical_tunnel(&mut build_data.map, prev_y, new_y, new_x);
                    } else {
                        apply_vertical_tunnel(&mut build_data.map, prev_y, new_y, prev_x);
                        apply_horizontal_tunnel(&mut build_data.map, prev_x, new_x, new_y);
                    }
                    proof {
                        lemma_floor_kept(&m1, &build_data.map, rooms@.push(new_room));
                        assert forall|k: int| 1 <= k < rooms@.len() implies l_joined(&build_data.map, rooms@[k - 1], #[trigger] rooms@[k]) by {
                            lemma_l_kept(&m1, &build_data.map, rooms@[k - 1], rooms@[k]);
                        }
                        let m = build_data.map;
                        assert forall|i: int|
                            0 <= i < m.size() && on_l(center_of(prev), center_of(new_room), row_first, m.idx_x(i), m.idx_y(i))
                                implies #[trigger] m.tiles@[i] == Tile::Floor by {
                            lemma_positive_index(&m1, i);
                        }
                        assert(l_floor(&m, prev, new_room, row_first));
                    }
                }
                let ghost old_rooms = rooms@;
                rooms.push(new_room);
                proof {
                    assert forall|a: int, b: int|
                        #![trigger rooms@[a], rooms@[b]]
                        0 <= a < b < rooms@.len() implies !rooms@[a].spec_intersect(&rooms@[b]) by {
                        if b == rooms@.len() - 1 {
                            assert(!new_room.spec_intersect(&old_rooms[a]));
                        } else {
                            assert(old_rooms[a] == rooms@[a] && old_rooms[b] == rooms@[b]);
                        }
                    }
                    assert(rooms@ == old_rooms.push(new_room));
                    assert forall|k: int| 1 <= k < rooms@.len() implies l_joined(&build_data.map, rooms@[k - 1], #[trigger] rooms@[k]) by {
                        if k < old_rooms.len() {
                            assert(rooms@[k - 1] == old_rooms[k - 1] && rooms@[k] == old_rooms[k]);
                        } else {
                            assert(rooms@[k - 1] == old_rooms[old_rooms.len() - 1]);
                        }
                    }
                }
            }
        }
        build_data.rooms = Some(rooms);
    }
}

} // verus!
