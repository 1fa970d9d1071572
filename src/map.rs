//! The grid map: terrain, reveal and visibility bitmaps, occupancy and the per-cell content index.

use std::collections::HashSet;
use vstd::arithmetic::div_mod::{lemma_fundamental_div_mod_converse, lemma_div_pos_is_pos};
use vstd::arithmetic::mul::{lemma_mul_inequality, lemma_mul_is_commutative};
use vstd::prelude::*;

verus! {

broadcast use vstd::std_specs::hash::group_hash_axioms;

/// Identifier of an entity: its slot in the world's entity table.
pub type EntityId = usize;

/// Terrain of one cell.
#[derive(Debug, Clone, Copy, PartialEq, Eq, Structural)]
pub enum Tile {
    Wall,
    Floor,
}

/// Cost of a cardinal step, in hundredths of a cell.
pub const CARDINAL_COST: u32 = 100;

/// Cost of a diagonal step, in hundredths of a cell.
pub const DIAGONAL_COST: u32 = 145;

/// A rectangular grid of `width * height` cells, linearised row by row.
pub struct GameMap {
    pub tiles: Vec<Tile>,
    /// Cells that the player has ever seen.
    pub revealed_tiles: Vec<bool>,
    /// Cells that the player sees now.
    pub visible_tiles: Vec<bool>,
    /// The entities standing on each cell.
    pub tile_content: Vec<Vec<EntityId>>,
    /// Cells that cannot be entered: walls and cells held by blocking entities.
    pub blocked: Vec<bool>,
    pub width: u32,
    pub height: u32,
    pub depth: i32,
    /// Cells that carry a bloodstain.
    pub bloodstains: HashSet<usize>,
}

/// The canonical linearisation of a cell.
pub open spec fn idx_of(x: int, y: int, width: int) -> int {
    y * width + x
}

/// Whether `(x, y)` lies on a `width` by `height` grid.
pub open spec fn in_grid(x: int, y: int, width: int, height: int) -> bool {
    0 <= x < width && 0 <= y < height
}

/// The squared Euclidean distance between two cells.
pub open spec fn dist_sq(x1: int, y1: int, x2: int, y2: int) -> int {
    (x1 - x2) * (x1 - x2) + (y1 - y2) * (y1 - y2)
}

/// Whether two distinct cells touch, diagonals included (Euclidean distance below 1.5).
pub open spec fn adjacent(x1: int, y1: int, x2: int, y2: int) -> bool {
    dist_sq(x1, y1, x2, y2) <= 2
}

impl GameMap {
    pub open spec fn size(&self) -> int {
        self.width as int * self.height as int
    }

    /// Every per-cell vector has one entry per cell.
    pub open spec fn wf(&self) -> bool {
        &&& self.size() <= usize::MAX
        &&& self.tiles@.len() == self.size()
        &&& self.revealed_tiles@.len() == self.size()
        &&& self.visible_tiles@.len() == self.size()
        &&& self.tile_content@.len() == self.size()
        &&& self.blocked@.len() == self.size()
    }

    pub open spec fn idx(&self, x: int, y: int) -> int {
        idx_of(x, y, self.width as int)
    }

    pub open spec fn in_bounds(&self, x: int, y: int) -> bool {
        in_grid(x, y, self.width as int, self.height as int)
    }

    pub open spec fn is_wall(&self, i: int) -> bool {
        self.tiles@[i] == Tile::Wall
    }

    pub open spec fn is_floor(&self, i: int) -> bool {
        self.tiles@[i] == Tile::Floor
    }

    /// A cell that a step may enter: on the map and not blocked.
    pub open spec fn exit_valid(&self, x: int, y: int) -> bool {
        &&& 0 <= x < self.width
        &&& 0 <= y < self.height
        &&& !self.blocked@[self.idx(x, y)]
    }

    /// Creates a map of the given size made only of walls.
    pub fn new(width: u32, height: u32, depth: i32) -> (r: GameMap)
        requires
            width as int * height as int <= usize::MAX,
        ensures
            r.wf(),
            r.width == width,
            r.height == height,
            r.depth == depth,
            forall|i: int| 0 <= i < r.size() ==> #[trigger] r.tiles@[i] == Tile::Wall,
            forall|i: int| 0 <= i < r.size() ==> !#[trigger] r.revealed_tiles@[i],
            forall|i: int| 0 <= i < r.size() ==> !#[trigger] r.visible_tiles@[i],
            forall|i: int| 0 <= i < r.size() ==> !#[trigger] r.blocked@[i],
            forall|i: int| 0 <= i < r.size() ==> (#[trigger] r.tile_content@[i])@.len() == 0,
            r.bloodstains@ == Set::<usize>::empty(),
    {
        let n: usize = width as usize * height as usize;
        let mut tile_content: Vec<Vec<EntityId>> = Vec::new();
        let mut i: usize = 0;
        while i < n
            invariant
                i <= n,
                tile_content@.len() == i,
                forall|j: int| 0 <= j < i ==> (#[trigger] tile_content@[j])@.len() == 0,
            decreases n - i,
        {
            tile_content.push(Vec::new());
            i = i + 1;
        }
        GameMap {
            tiles: vec![Tile::Wall; n],
            revealed_tiles: vec![false; n],
            visible_tiles: vec![false; n],
            tile_content,
            blocked: vec![false; n],
            width,
            height,
            depth,
            bloodstains: HashSet::new(),
        }
    }

    /// Index of cell `(x, y)`.
    pub fn xy_idx(&self, x: u32, y: u32) -> (r: usize)
        requires
            self.size() <= usize::MAX,
            x < self.width,
            y < self.height,
        ensures
            r == self.idx(x as int, y as int),
            r < self.size(),
    {
        Self::xy_idx_with_width(x, y, self.width, self.height)
    }

    /// Index of cell `(x, y)` on a grid of the given width.
    pub fn xy_idx_with_width(x: u32, y: u32, width: u32, height: u32) -> (r: usize)
        requires
            width as int * height as int <= usize::MAX,
            x < width,
            y < height,
        ensures
            r == idx_of(x as int, y as int, width as int),
            r < width as int * height as int,
    {
        proof {
            lemma_idx_in_range(x as int, y as int, width as int, height as int);
        }
        y as usize * width as usize + x as usize
    }

    /// The cell whose index is `idx`.
    pub fn idx_xy(&self, idx: usize) -> (r: (u32, u32))
        requires
            self.wf(),
            idx < self.size(),
        ensures
            self.in_bounds(r.0 as int, r.1 as int),
            self.idx(r.0 as int, r.1 as int) == idx,
            r.0 == self.idx_x(idx as int),
            r.1 == self.idx_y(idx as int),
    {
        let w = self.width as usize;
        proof {
            if w == 0 {
                assert(self.size() == 0) by (nonlinear_arith)
                    requires
                        w == 0,
                        self.size() == self.width as int * self.height as int,
                        w == self.width,
                ;
            }
            lemma_inverse_of_idx(idx as int, self.width as int, self.height as int);
        }
        ((idx % w) as u32, (idx / w) as u32)
    }

    /// Recomputes `blocked` from the terrain alone.
    pub fn populate_blocked(&mut self)
        requires
            old(self).wf(),
        ensures
            final(self).wf(),
            final(self).tiles == old(self).tiles,
            final(self).revealed_tiles == old(self).revealed_tiles,
            final(self).visible_tiles == old(self).visible_tiles,
            final(self).tile_content == old(self).tile_content,
            final(self).bloodstains == old(self).bloodstains,
            final(self).width == old(self).width,
            final(self).height == old(self).height,
            final(self).depth == old(self).depth,
            forall|i: int|
                0 <= i < final(self).size() ==> #[trigger] final(self).blocked@[i] == final(self).is_wall(i),
    {
        let n = self.tiles.len();
        let mut i: usize = 0;
        while i < n
            invariant
                self.wf(),
                n == self.tiles@.len(),
                i <= n,
                self.tiles == old(self).tiles,
                self.revealed_tiles == old(self).revealed_tiles,
                self.visible_tiles == old(self).visible_tiles,
                self.tile_content == old(self).tile_content,
                self.bloodstains == old(self).bloodstains,
                self.width == old(self).width,
                self.height == old(self).height,
                self.depth == old(self).depth,
                forall|j: int| 0 <= j < i ==> #[trigger] self.blocked@[j] == self.is_wall(j),
            decreases n - i,
        {
            let wall = self.tiles[i] == Tile::Wall;
            self.blocked.set(i, wall);
            i = i + 1;
        }
    }

    /// Empties the content list of every cell.
    pub fn clear_content_index(&mut self)
        requires
            old(self).wf(),
        ensures
            final(self).wf(),
            final(self).tiles == old(self).tiles,
            final(self).revealed_tiles == old(self).revealed_tiles,
            final(self).visible_tiles == old(self).visible_tiles,
            final(self).blocked == old(self).blocked,
            final(self).bloodstains == old(self).bloodstains,
            final(self).width == old(self).width,
            final(self).height == old(self).height,
            final(self).depth == old(self).depth,
            forall|i: int|
                0 <= i < final(self).size() ==> (#[trigger] final(self).tile_content@[i])@.len()
                    == 0,
    {
        let n = self.tile_content.len();
        let mut i: usize = 0;
        while i < n
            invariant
                self.wf(),
                n == self.tile_content@.len(),
                i <= n,
                self.tiles == old(self).tiles,
                self.revealed_tiles == old(self).revealed_tiles,
                self.visible_tiles == old(self).visible_tiles,
                self.blocked == old(self).blocked,
                self.bloodstains == old(self).bloodstains,
                self.width == old(self).width,
                self.height == old(self).height,
                self.depth == old(self).depth,
                forall|j: int| 0 <= j < i ==> (#[trigger] self.tile_content@[j])@.len() == 0,
            decreases n - i,
        {
            self.tile_content[i].clear();
            i = i + 1;
        }
    }

    /// Whether a step may enter `(x, y)`.
    pub fn is_exit_valid(&self, x: i64, y: i64) -> (r: bool)
        requires
            self.wf(),
        ensures
            r == self.exit_valid(x as int, y as int),
    {
        if x < 0 || x >= self.width as i64 || y < 0 || y >= self.height as i64 {
            return false;
        }
        let idx = self.xy_idx(x as u32, y as u32);
        !self.blocked[idx]
    }

    /// Whether the cell hides what lies behind it.
    pub fn is_opaque(&self, idx: usize) -> (r: bool)
        requires
            self.wf(),
            idx < self.size(),
        ensures
            r == self.is_wall(idx as int),
    {
        self.tiles[idx] == Tile::Wall
    }

    /// The cells one step away from `idx` that a step may enter, each with the step's cost in
    /// hundredths: four cardinal steps, then four diagonal ones.
    pub fn get_available_exits(&self, idx: usize) -> (r: Vec<(usize, u32)>)
        requires
            self.wf(),
            idx < self.size(),
        ensures
            forall|k: int|
                0 <= k < r@.len() ==> #[trigger] self.is_exit_of(idx as int, r@[k].0 as int, r@[k].1),
            forall|dx: int, dy: int|
                #![trigger self.exit_valid(self.idx_x(idx as int) + dx, self.idx_y(idx as int) + dy)]
                -1 <= dx <= 1 && -1 <= dy <= 1 && !(dx == 0 && dy == 0) && self.exit_valid(
                    self.idx_x(idx as int) + dx,
                    self.idx_y(idx as int) + dy,
                ) ==> exists|k: int|
                    0 <= k < r@.len() && #[trigger] r@[k].0 == self.idx(
                        self.idx_x(idx as int) + dx,
                        self.idx_y(idx as int) + dy,
                    ),
    {
        let (ux, uy) = self.idx_xy(idx);
        let x = ux as i64;
        let y = uy as i64;
        let mut exits: Vec<(usize, u32)> = Vec::new();
        proof {
            lemma_idx_xy_spec(self, idx as int, ux as int, uy as int);
        }
        let ghost cx = ux as int;
        let ghost cy = uy as int;
        let deltas: [(i64, i64); 8] = [(-1, 0), (1, 0), (0, -1), (0, 1), (-1, -1), (1, -1), (-1, 1), (1, 1)];
        let mut k: usize = 0;
        while k < 8
            invariant
                self.wf(),
                0 <= k <= 8,
                x == cx,
                y == cy,
                0 <= cx <= u32::MAX,
                0 <= cy <= u32::MAX,
                cx == self.idx_x(idx as int),
                cy == self.idx_y(idx as int),
                deltas@ == seq![(-1i64, 0i64), (1i64, 0i64), (0i64, -1i64), (0i64, 1i64), (-1i64, -1i64), (1i64, -1i64), (-1i64, 1i64), (1i64, 1i64)],
                forall|j: int|
                    0 <= j < exits@.len() ==> #[trigger] self.is_exit_of(idx as int, exits@[j].0 as int, exits@[j].1),
                forall|j: int|
                    0 <= j < k && self.exit_valid(cx + deltas@[j].0, cy + deltas@[j].1) ==> exists|m: int|
                        0 <= m < exits@.len() && #[trigger] exits@[m].0 == self.idx(
                            cx + deltas@[j].0,
                            cy + deltas@[j].1,
                        ),
            decreases 8 - k,
        {
            let (dx, dy) = deltas[k];
            let ghost before = exits@;
            if self.is_exit_valid(x + dx, y + dy) {
                let j = self.xy_idx((x + dx) as u32, (y + dy) as u32);
                let cost = if dx == 0 || dy == 0 {
                    CARDINAL_COST
                } else {
                    DIAGONAL_COST
                };
                exits.push((j, cost));
                assert(exits@[exits@.len() - 1].0 == self.idx(cx + deltas@[k as int].0, cy + deltas@[k as int].1));
                assert forall|j: int|
                    0 <= j < k && self.exit_valid(cx + deltas@[j].0, cy + deltas@[j].1) implies exists|m: int|
                        0 <= m < exits@.len() && #[trigger] exits@[m].0 == self.idx(
                            cx + deltas@[j].0,
                            cy + deltas@[j].1,
                        ) by {
                    let m = choose|m: int|
                        0 <= m < before.len() && #[trigger] before[m].0 == self.idx(
                            cx + deltas@[j].0,
                            cy + deltas@[j].1,
                        );
                    assert(exits@[m] == before[m]);
                }
            }
            k = k + 1;
        }
        proof {
            assert forall|dx: int, dy: int|
                #![trigger self.exit_valid(cx + dx, cy + dy)]
                -1 <= dx <= 1 && -1 <= dy <= 1 && !(dx == 0 && dy == 0) && self.exit_valid(
                    cx + dx,
                    cy + dy,
                ) implies exists|m: int|
                    0 <= m < exits@.len() && #[trigger] exits@[m].0 == self.idx(cx + dx, cy + dy) by {
                let j: int = if dx == -1 && dy == 0 {
                    0
                } else if dx == 1 && dy == 0 {
                    1
                } else if dx == 0 && dy == -1 {
                    2
                } else if dx == 0 && dy == 1 {
                    3
                } else if dx == -1 && dy == -1 {
                    4
                } else if dx == 1 && dy == -1 {
                    5
                } else if dx == -1 && dy == 1 {
                    6
                } else {
                    7
                };
                assert(deltas@[j].0 == dx && deltas@[j].1 == dy);
            }
        }
        exits
    }

    /// Column of the cell at `i`.
    pub open spec fn idx_x(&self, i: int) -> int {
        i % (self.width as int)
    }

    /// Row of the cell at `i`.
    pub open spec fn idx_y(&self, i: int) -> int {
        i / (self.width as int)
    }

    /// `j` is a cell one step from `i` that a step may enter, and `cost` is that step's cost.
    pub open spec fn is_exit_of(&self, i: int, j: int, cost: u32) -> bool {
        exists|dx: int, dy: int|
            #![trigger self.idx(self.idx_x(i) + dx, self.idx_y(i) + dy)]
            -1 <= dx <= 1 && -1 <= dy <= 1 && !(dx == 0 && dy == 0) && self.exit_valid(
                self.idx_x(i) + dx,
                self.idx_y(i) + dy,
            ) && j == self.idx(self.idx_x(i) + dx, self.idx_y(i) + dy) && cost == (if dx == 0
                || dy == 0 {
                CARDINAL_COST
            } else {
                DIAGONAL_COST
            })
    }
}

/// `(x, y)` on a `width` by `height` grid has an index below `width * height`.
pub proof fn lemma_idx_in_range(x: int, y: int, width: int, height: int)
    requires
        in_grid(x, y, width, height),
    ensures
        0 <= idx_of(x, y, width) < width * height,
{
    assert(0 <= y * width) by (nonlinear_arith)
        requires
            0 <= y,
            0 <= width,
    ;
    assert(y * width + width <= height * width) by (nonlinear_arith)
        requires
            y + 1 <= height,
            0 <= width,
    ;
    lemma_mul_is_commutative(height, width);
}

/// Column and row of index `i` are recovered by remainder and quotient.
pub proof fn lemma_inverse_of_idx(i: int, width: int, height: int)
    requires
        0 <= i < width * height,
        0 < width,
    ensures
        in_grid(i % width, i / width, width, height),
        idx_of(i % width, i / width, width) == i,
{
    vstd::arithmetic::div_mod::lemma_fundamental_div_mod(i, width);
    lemma_div_pos_is_pos(i, width);
    lemma_mul_is_commutative(i / width, width);
    if i / width >= height {
        lemma_mul_inequality(height, i / width, width);
        lemma_mul_is_commutative(height, width);
        lemma_mul_is_commutative(i / width, width);
    }
}

proof fn lemma_idx_xy_spec(m: &GameMap, i: int, x: int, y: int)
    requires
        m.wf(),
        0 <= i < m.size(),
        m.in_bounds(x, y),
        m.idx(x, y) == i,
    ensures
        m.idx_x(i) == x,
        m.idx_y(i) == y,
{
    lemma_fundamental_div_mod_converse(i, m.width as int, y, x);
}

/// GameMap index bijectivity: on a `width` by `height` grid, `idx_of` sends every cell into
/// `[0, width * height)`, two cells with the same index are the same cell, and quotient and
/// remainder by the width give the cell back.
pub proof fn lemma_xy_idx_bijective(width: int, height: int, x1: int, y1: int, x2: int, y2: int)
    requires
        in_grid(x1, y1, width, height),
        in_grid(x2, y2, width, height),
    ensures
        0 <= idx_of(x1, y1, width) < width * height,
        idx_of(x1, y1, width) % width == x1,
        idx_of(x1, y1, width) / width == y1,
        idx_of(x1, y1, width) == idx_of(x2, y2, width) ==> x1 == x2 && y1 == y2,
{
    lemma_idx_in_range(x1, y1, width, height);
    lemma_fundamental_div_mod_converse(idx_of(x1, y1, width), width, y1, x1);
    lemma_fundamental_div_mod_converse(idx_of(x2, y2, width), width, y2, x2);
}

} // verus!
