//! Starting position: the floor cell nearest to an anchor point of the map.

use crate::components::Position;
use crate::map::{dist_sq, GameMap, Tile};
use crate::map_builders::MapBuilder;
use vstd::prelude::*;

verus! {

#[derive(Debug, Clone, Copy, PartialEq, Eq, Structural)]
pub enum XStart {
    Left,
    Center,
    Right,
}

#[derive(Debug, Clone, Copy, PartialEq, Eq, Structural)]
pub enum YStart {
    Top,
    Middle,
    Bottom,
}

pub struct AreaStartingPosition {
    pub x: XStart,
    pub y: YStart,
}

/// The anchor column: the second column, the middle one, or the second to last.
pub open spec fn seed_x(x: XStart, width: int) -> int {
    match x {
        XStart::Left => 1,
        XStart::Center => width / 2,
        XStart::Right => width - 2,
    }
}

/// The anchor row: the second row, the middle one, or the second to last.
pub open spec fn seed_y(y: YStart, height: int) -> int {
    match y {
        YStart::Top => 1,
        YStart::Middle => height / 2,
        YStart::Bottom => height - 2,
    }
}

impl AreaStartingPosition {
    pub fn new(x: XStart, y: YStart) -> (r: AreaStartingPosition)
        ensures
            r.x == x,
            r.y == y,
    {
        AreaStartingPosition { x, y }
    }

    /// Squared distance from the anchor to cell `i`.
    pub open spec fn dist_to(&self, m: &GameMap, i: int) -> int {
        dist_sq(
            seed_x(self.x, m.width as int),
            seed_y(self.y, m.height as int),
            m.idx_x(i),
            m.idx_y(i),
        )
    }

    /// Sets the starting position to the floor cell nearest to the anchor (squared Euclidean
    /// distance), the first in index order among equally near ones. A map without floor leaves
    /// the starting position as it was.
    pub fn build_map(&self, build_data: &mut MapBuilder)
        requires
            old(build_data).wf(),
        ensures
            final(build_data).wf(),
            final(build_data).map == old(build_data).map,
            final(build_data).rooms == old(build_data).rooms,
            final(build_data).spawn_list == old(build_data).spawn_list,
            ({
                let m = old(build_data).map;
                if exists|i: int| 0 <= i < m.size() && #[trigger] m.is_floor(i) {
                    exists|i: int|
                        0 <= i < m.size() && m.is_floor(i) && final(build_data).starting_position
                            == Some(Position { x: m.idx_x(i) as u32, y: m.idx_y(i) as u32 })
                            && (forall|j: int|
                            0 <= j < m.size() && #[trigger] m.is_floor(j) ==> self.dist_to(&m, i)
                                <= self.dist_to(&m, j)) && (forall|j: int|
                            0 <= j < i && #[trigger] m.is_floor(j) ==> self.dist_to(&m, i) < self.dist_to(
                                &m,
                                j,
                            ))
                } else {
                    final(build_data).starting_position == old(build_data).starting_position
                }
            }),
    {
        let w = build_data.map.width as i64;
        let h = build_data.map.height as i64;
        let sx: i64 = match self.x {
            XStart::Left => 1,
            XStart::Center => w / 2,
            XStart::Right => w - 2,
        };
        let sy: i64 = match self.y {
            YStart::Top => 1,
            YStart::Middle => h / 2,
            YStart::Bottom => h - 2,
        };
        let ghost m = build_data.map;
        let n = build_data.map.tiles.len();
        let mut best: Option<(usize, i128)> = None;
        let mut i: usize = 0;
        while i < n
            invariant
                i <= n,
                n == m.size(),
                m == build_data.map,
                m.wf(),
                w == m.width,
                h == m.height,
                sx == seed_x(self.x, w as int),
                sy == seed_y(self.y, h as int),
                match best {
                    None => forall|j: int| 0 <= j < i ==> !#[trigger] m.is_floor(j),
                    Some((b, d)) => {
                        &&& b < i
                        &&& m.is_floor(b as int)
                        &&& d == self.dist_to(&m, b as int)
                        &&& forall|j: int| 0 <= j < i && #[trigger] m.is_floor(j) ==> d <= self.dist_to(&m, j)
                        &&& forall|j: int| 0 <= j < b && #[trigger] m.is_floor(j) ==> d < self.dist_to(&m, j)
                    },
                },
            decreases n - i,
        {
            if build_data.map.tiles[i] == Tile::Floor {
                let (x, y) = build_data.map.idx_xy(i);
                let dx = (sx - x as i64) as i128;
                let dy = (sy - y as i64) as i128;
                proof {
                    assert(-0x1_0000_0002 <= dx <= 0x1_0000_0002);
                    assert(-0x1_0000_0002 <= dy <= 0x1_0000_0002);
                    assert(0 <= dx * dx <= 0x1_0000_0004_0000_0004) by (nonlinear_arith)
                        requires
                            -0x1_0000_0002 <= dx <= 0x1_0000_0002,
                    ;
                    assert(0 <= dy * dy <= 0x1_0000_0004_0000_0004) by (nonlinear_arith)
                        requires
                            -0x1_0000_0002 <= dy <= 0x1_0000_0002,
                    ;
                }
                let d = dx * dx + dy * dy;
                let better = match best {
                    None => true,
                    Some((_, bd)) => d < bd,
                };
                if better {
                    best = Some((i, d));
                }
            }
            i = i + 1;
        }
        match best {
            Some((b, _)) => {
                let (x, y) = build_data.map.idx_xy(b);
                build_data.starting_position = Some(Position { x, y });
            },
            None => {},
        }
    }
}

} // verus!
