//! A terrain grid read from ASCII art, with richer terrain than the generated maps.

use crate::map::idx_of;
use vstd::prelude::*;

verus! {

#[derive(Debug, Clone, Copy, PartialEq, Eq, Structural)]
pub enum TileType {
    Wall,
    Floor,
    BrickPath,
    Grass,
}

/// Whether `ch` is one of the bytes the ASCII art uses: `#`, `.`, `p` or a space.
pub open spec fn is_tile_byte(ch: u8) -> bool {
    ch == 35 || ch == 46 || ch == 112 || ch == 32
}

/// The terrain a byte of ASCII art stands for.
pub open spec fn spec_tile_of(ch: u8) -> TileType {
    if ch == 35 {
        TileType::Wall
    } else if ch == 46 {
        TileType::Floor
    } else if ch == 112 {
        TileType::BrickPath
    } else {
        TileType::Grass
    }
}

impl TileType {
    /// The terrain a byte of ASCII art stands for: `#` wall, `.` floor, `p` brick path and a
    /// space grass. Other bytes are not terrain.
    pub fn from_ascii_byte(ch: u8) -> (r: TileType)
        requires
            is_tile_byte(ch),
        ensures
            r == spec_tile_of(ch),
    {
        if ch == 35 {
            TileType::Wall
        } else if ch == 46 {
            TileType::Floor
        } else if ch == 112 {
            TileType::BrickPath
        } else {
            TileType::Grass
        }
    }
}

/// A `width` by `height` terrain grid, linearised row by row.
pub struct TileMap {
    pub tiles: Vec<TileType>,
    pub revealed_tiles: Vec<bool>,
    pub visible_tiles: Vec<bool>,
    /// Whether cells outside the field of view are drawn.
    pub show_non_visible: bool,
    pub width: u32,
    pub height: u32,
}

/// The length of the longest row.
pub open spec fn max_len(rows: Seq<Vec<u8>>) -> int
    decreases rows.len(),
{
    if rows.len() == 0 {
        0
    } else {
        let m = max_len(rows.drop_last());
        if rows.last()@.len() > m {
            rows.last()@.len() as int
        } else {
            m
        }
    }
}

proof fn lemma_max_len(rows: Seq<Vec<u8>>)
    ensures
        forall|y: int| 0 <= y < rows.len() ==> (#[trigger] rows[y])@.len() <= max_len(rows),
        max_len(rows) >= 0,
    decreases rows.len(),
{
    if rows.len() > 0 {
        lemma_max_len(rows.drop_last());
        assert forall|y: int| 0 <= y < rows.len() implies (#[trigger] rows[y])@.len() <= max_len(rows) by {
            if y < rows.len() - 1 {
                assert(rows.drop_last()[y] == rows[y]);
            }
        }
    }
}

/// The terrain that the ASCII art gives cell `(x, y)`: what its byte stands for, or floor past
/// the end of a short row.
pub open spec fn art_tile(rows: Seq<Vec<u8>>, x: int, y: int) -> TileType {
    if x < rows[y]@.len() {
        spec_tile_of(rows[y]@[x])
    } else {
        TileType::Floor
    }
}

impl TileMap {
    /// Reads ASCII art, one row per line: the map is as wide as the longest row and has one
    /// row per line; cells past the end of a short row are floor. Nothing is revealed or
    /// visible yet.
    pub fn from_ascii_rows(rows: &Vec<Vec<u8>>, show_non_visible: bool) -> (r: TileMap)
        requires
            forall|y: int, x: int|
                0 <= y < rows@.len() && 0 <= x < rows@[y]@.len() ==> is_tile_byte(#[trigger] rows@[y]@[x]),
            max_len(rows@) * rows@.len() <= usize::MAX,
            max_len(rows@) <= u32::MAX,
            rows@.len() <= u32::MAX,
        ensures
            r.width == max_len(rows@),
            r.height == rows@.len(),
            r.show_non_visible == show_non_visible,
            r.tiles@.len() == r.width * r.height,
            r.revealed_tiles@.len() == r.tiles@.len(),
            r.visible_tiles@.len() == r.tiles@.len(),
            forall|i: int| 0 <= i < r.tiles@.len() ==> !#[trigger] r.revealed_tiles@[i] && !r.visible_tiles@[i],
            forall|x: int, y: int|
                0 <= x < r.width && 0 <= y < r.height ==> #[trigger] r.tiles@[idx_of(x, y, r.width as int)]
                    == art_tile(rows@, x, y),
    {
        proof {
            lemma_max_len(rows@);
        }
        let mut width: usize = 0;
        let mut k: usize = 0;
        while k < rows.len()
            invariant
                k <= rows@.len(),
                width == max_len(rows@.take(k as int)),
            decreases rows@.len() - k,
        {
            assert(rows@.take(k + 1).drop_last() =~= rows@.take(k as int));
            if rows[k].len() > width {
                width = rows[k].len();
            }
            k = k + 1;
        }
        assert(rows@.take(rows@.len() as int) =~= rows@);
        let height = rows.len();
        let n = width * height;
        let mut tiles: Vec<TileType> = Vec::new();
        let mut i: usize = 0;
        while i < n
            invariant
                i <= n,
                n == width * height,
                width == max_len(rows@),
                height == rows@.len(),
                tiles@.len() == i,
                forall|y: int, x: int|
                    0 <= y < rows@.len() && 0 <= x < rows@[y]@.len() ==> is_tile_byte(#[trigger] rows@[y]@[x]),
                forall|y: int| 0 <= y < rows@.len() ==> (#[trigger] rows@[y])@.len() <= max_len(rows@),
                forall|j: int| 0 <= j < i ==> #[trigger] tiles@[j] == art_tile(rows@, j % (width as int), j / (width as int)),
            decreases n - i,
        {
            proof {
                crate::map::lemma_inverse_of_idx(i as int, width as int, height as int);
            }
            let x = i % width;
            let y = i / width;
            let row = &rows[y];
            if x < row.len() {
                tiles.push(TileType::from_ascii_byte(row[x]));
            } else {
                tiles.push(TileType::Floor);
            }
            i = i + 1;
        }
        proof {
            assert forall|x: int, y: int|
                0 <= x < width && 0 <= y < height implies #[trigger] tiles@[idx_of(x, y, width as int)]
                    == art_tile(rows@, x, y) by {
                crate::map::lemma_xy_idx_bijective(width as int, height as int, x, y, x, y);
            }
        }
        TileMap {
            tiles,
            revealed_tiles: vec![false; n],
            visible_tiles: vec![false; n],
            show_non_visible,
            width: width as u32,
            height: height as u32,
        }
    }

    /// Index of cell `(x, y)`.
    pub fn xy_idx(&self, x: u32, y: u32) -> (r: usize)
        requires
            self.width as int * self.height as int <= usize::MAX,
            x < self.width,
            y < self.height,
        ensures
            r == idx_of(x as int, y as int, self.width as int),
    {
        Self::xy_idx_with_width(x, y, self.width, self.height)
    }

    /// Index of cell `(x, y)` on a grid of the given width.
    pub fn xy_idx_with_width(x: u32, y: u32, width: u32, height: u32) -> (r: usize)
        requires
            width as int * height as int <= usize::MAX,
            x < width,
            y < height,
        ensures
            r == idx_of(x as int, y as int, width as int),
            r < width as int * height as int,
    {
        crate::map::GameMap::xy_idx_with_width(x, y, width, height)
    }
}

} // verus!
