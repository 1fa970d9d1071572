//! Choosing glyphs for the map: walls join up with their revealed wall neighbours.

use crate::map::GameMap;
use vstd::prelude::*;

verus! {

/// Whether `(x, y)` lies on the map, is a wall, and has been revealed.
pub open spec fn spec_revealed_wall(map: &GameMap, x: int, y: int) -> bool {
    map.in_bounds(x, y) && map.is_wall(map.idx(x, y)) && map.revealed_tiles@[map.idx(x, y)]
}

/// The neighbour mask of a wall: 1 north, 2 south, 4 west, 8 east, for each revealed wall.
pub open spec fn wall_mask(map: &GameMap, x: int, y: int) -> int {
    (if spec_revealed_wall(map, x, y - 1) { 1int } else { 0 }) + (if spec_revealed_wall(map, x, y + 1) {
        2int
    } else {
        0
    }) + (if spec_revealed_wall(map, x - 1, y) { 4int } else { 0 }) + (if spec_revealed_wall(map, x + 1, y) {
        8int
    } else {
        0
    })
}

/// The code page 437 glyph for a wall with the given neighbour mask: a pillar when alone, and
/// otherwise the double-line piece that joins the neighbouring walls.
pub open spec fn glyph_for_mask(mask: int) -> u16 {
    if mask == 0 {
        9
    } else if mask <= 3 {
        186
    } else if mask == 4 || mask == 8 || mask == 12 {
        205
    } else if mask == 5 {
        188
    } else if mask == 6 {
        187
    } else if mask == 7 {
        185
    } else if mask == 9 {
        200
    } else if mask == 10 {
        201
    } else if mask == 11 {
        204
    } else if mask == 13 {
        202
    } else if mask == 14 {
        203
    } else {
        206
    }
}

/// Whether `(x, y)` lies on the map, is a wall, and has been revealed.
pub fn is_revealed_and_wall(map: &GameMap, x: i64, y: i64) -> (r: bool)
    requires
        map.wf(),
    ensures
        r == spec_revealed_wall(map, x as int, y as int),
{
    if x < 0 || x >= map.width as i64 || y < 0 || y >= map.height as i64 {
        return false;
    }
    let idx = map.xy_idx(x as u32, y as u32);
    map.tiles[idx] == crate::map::Tile::Wall && map.revealed_tiles[idx]
}

/// The glyph for the wall at `(x, y)`, joined to its revealed wall neighbours.
pub fn wall_glyph(map: &GameMap, x: u32, y: u32) -> (r: u16)
    requires
        map.wf(),
    ensures
        r == glyph_for_mask(wall_mask(map, x as int, y as int)),
{
    let (x, y) = (x as i64, y as i64);
    let mut mask: u8 = 0;
    if is_revealed_and_wall(map, x, y - 1) {
        mask = mask + 1;
    }
    if is_revealed_and_wall(map, x, y + 1) {
        mask = mask + 2;
    }
    if is_revealed_and_wall(map, x - 1, y) {
        mask = mask + 4;
    }
    if is_revealed_and_wall(map, x + 1, y) {
        mask = mask + 8;
    }
    if mask == 0 {
        9
    } else if mask <= 3 {
        186
    } else if mask == 4 || mask == 8 || mask == 12 {
        205
    } else if mask == 5 {
        188
    } else if mask == 6 {
        187
    } else if mask == 7 {
        185
    } else if mask == 9 {
        200
    } else if mask == 10 {
        201
    } else if mask == 11 {
        204
    } else if mask == 13 {
        202
    } else if mask == 14 {
        203
    } else {
        206
    }
}

} // verus!
