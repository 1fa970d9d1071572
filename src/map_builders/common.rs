//! Carving rooms and corridors into a map.

use crate::map::{GameMap, Tile};
use crate::map_builders::rect::Rect;
use vstd::prelude::*;

verus! {

/// Whether `(x, y)` lies strictly inside the room.
pub open spec fn in_room(room: Rect, x: int, y: int) -> bool {
    room.x1 < x < room.x2 && room.y1 < y < room.y2
}

/// `b` differs from `a` at most in its tiles, and is well formed.
pub open spec fn same_but_tiles(a: &GameMap, b: &GameMap) -> bool {
    &&& b.wf()
    &&& b.tiles@.len() == a.tiles@.len()
    &&& b.revealed_tiles == a.revealed_tiles
    &&& b.visible_tiles == a.visible_tiles
    &&& b.tile_content == a.tile_content
    &&& b.blocked == a.blocked
    &&& b.bloodstains == a.bloodstains
    &&& b.width == a.width
    &&& b.height == a.height
    &&& b.depth == a.depth
}

/// Sets one tile.
pub fn set_tile(map: &mut GameMap, i: usize, t: Tile)
    requires
        old(map).wf(),
        i < old(map).size(),
    ensures
        same_but_tiles(old(map), final(map)),
        final(map).tiles@ == old(map).tiles@.update(i as int, t),
{
    map.tiles.set(i, t);
}

/// Turns the interior of `room` into floor.
pub fn apply_room_to_map(map: &mut GameMap, room: &Rect)
    requires
        old(map).wf(),
    ensures
        same_but_tiles(old(map), final(map)),
        forall|i: int|
            0 <= i < old(map).size() ==> #[trigger] final(map).tiles@[i] == if in_room(
                *room,
                old(map).idx_x(i),
                old(map).idx_y(i),
            ) {
                Tile::Floor
            } else {
                old(map).tiles@[i]
            },
{
    let n = map.tiles.len();
    let mut i: usize = 0;
    while i < n
        invariant
            i <= n,
            n == old(map).size(),
            same_but_tiles(old(map), map),
            forall|j: int|
                0 <= j < i ==> #[trigger] map.tiles@[j] == if in_room(
                    *room,
                    old(map).idx_x(j),
                    old(map).idx_y(j),
                ) {
                    Tile::Floor
                } else {
                    old(map).tiles@[j]
                },
            forall|j: int| i <= j < n ==> #[trigger] map.tiles@[j] == old(map).tiles@[j],
        decreases n - i,
    {
        let (x, y) = map.idx_xy(i);
        let (x, y) = (x as i64, y as i64);
        if (room.x1 as i64) < x && x < room.x2 as i64 && (room.y1 as i64) < y && y < room.y2 as i64 {
            set_tile(map, i, Tile::Floor);
        }
        i = i + 1;
    }
}

/// Whether `(x, y)` lies on the horizontal corridor along row `y0` between `x1` and `x2`.
pub open spec fn on_row(x1: int, x2: int, y0: int, x: int, y: int) -> bool {
    y == y0 && (if x1 <= x2 {
        x1 <= x <= x2
    } else {
        x2 <= x <= x1
    })
}

/// Turns the cells of row `y` between columns `x1` and `x2`, both included, into floor; the
/// cell of index zero is left as it is.
pub fn apply_horizontal_tunnel(map: &mut GameMap, x1: i32, x2: i32, y: i32)
    requires
        old(map).wf(),
    ensures
        same_but_tiles(old(map), final(map)),
        forall|i: int|
            0 <= i < old(map).size() ==> #[trigger] final(map).tiles@[i] == if i > 0 && on_row(
                x1 as int,
                x2 as int,
                y as int,
                old(map).idx_x(i),
                old(map).idx_y(i),
            ) {
                Tile::Floor
            } else {
                old(map).tiles@[i]
            },
{
    let (lo, hi) = if x1 <= x2 {
        (x1 as i64, x2 as i64)
    } else {
        (x2 as i64, x1 as i64)
    };
    let n = map.tiles.len();
    let mut i: usize = 0;
    while i < n
        invariant
            i <= n,
            n == old(map).size(),
            same_but_tiles(old(map), map),
            lo == (if x1 <= x2 { x1 } else { x2 }),
            hi == (if x1 <= x2 { x2 } else { x1 }),
            forall|j: int|
                0 <= j < i ==> #[trigger] map.tiles@[j] == if j > 0 && on_row(
                    x1 as int,
                    x2 as int,
                    y as int,
                    old(map).idx_x(j),
                    old(map).idx_y(j),
                ) {
                    Tile::Floor
                } else {
                    old(map).tiles@[j]
                },
            forall|j: int| i <= j < n ==> #[trigger] map.tiles@[j] == old(map).tiles@[j],
        decreases n - i,
    {
        let (cx, cy) = map.idx_xy(i);
        let (cx, cy) = (cx as i64, cy as i64);
        if i > 0 && cy == y as i64 && lo <= cx && cx <= hi {
            set_tile(map, i, Tile::Floor);
        }
        i = i + 1;
    }
}

/// Whether `(x, y)` lies on the vertical corridor along column `x0` between `y1` and `y2`.
pub open spec fn on_column(y1: int, y2: int, x0: int, x: int, y: int) -> bool {
    on_row(y1, y2, x0, y, x)
}

/// Turns the cells of column `x` between rows `y1` and `y2`, both included, into floor; the
/// cell of index zero is left as it is.
pub fn apply_vertical_tunnel(map: &mut GameMap, y1: i32, y2: i32, x: i32)
    requires
        old(map).wf(),
    ensures
        same_but_tiles(old(map), final(map)),
        forall|i: int|
            0 <= i < old(map).size() ==> #[trigger] final(map).tiles@[i] == if i > 0 && on_column(
                y1 as int,
                y2 as int,
                x as int,
                old(map).idx_x(i),
                old(map).idx_y(i),
            ) {
                Tile::Floor
            } else {
                old(map).tiles@[i]
            },
{
    let (lo, hi) = if y1 <= y2 {
        (y1 as i64, y2 as i64)
    } else {
        (y2 as i64, y1 as i64)
    };
    let n = map.tiles.len();
    let mut i: usize = 0;
    while i < n
        invariant
            i <= n,
            n == old(map).size(),
            same_but_tiles(old(map), map),
            lo == (if y1 <= y2 { y1 } else { y2 }),
            hi == (if y1 <= y2 { y2 } else { y1 }),
            forall|j: int|
                0 <= j < i ==> #[trigger] map.tiles@[j] == if j > 0 && on_column(
                    y1 as int,
                    y2 as int,
                    x as int,
                    old(map).idx_x(j),
                    old(map).idx_y(j),
                ) {
                    Tile::Floor
                } else {
                    old(map).tiles@[j]
                },
            forall|j: int| i <= j < n ==> #[trigger] map.tiles@[j] == old(map).tiles@[j],
        decreases n - i,
    {
        let (cx, cy) = map.idx_xy(i);
        let (cx, cy) = (cx as i64, cy as i64);
        if i > 0 && cx == x as i64 && lo <= cy && cy <= hi {
            set_tile(map, i, Tile::Floor);
        }
        i = i + 1;
    }
}

} // verus!
