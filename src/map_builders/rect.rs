//! Axis-aligned rectangles.

use vstd::prelude::*;

verus! {

/// The rectangle spanning `x1..=x2` by `y1..=y2`; its interior excludes the edges.
#[derive(Debug, Clone, Copy, PartialEq, Eq, Structural)]
pub struct Rect {
    pub x1: i32,
    pub x2: i32,
    pub y1: i32,
    pub y2: i32,
}

/// Integer halving that rounds towards zero.
pub open spec fn half(v: int) -> int {
    if v >= 0 {
        v / 2
    } else {
        -((-v) / 2)
    }
}

/// Absolute value.
pub open spec fn abs(v: int) -> int {
    if v >= 0 {
        v
    } else {
        -v
    }
}

impl Rect {
    pub open spec fn spec_intersect(&self, other: &Rect) -> bool {
        self.x1 <= other.x2 && self.x2 >= other.x1 && self.y1 <= other.y2 && self.y2 >= other.y1
    }

    /// The rectangle with corner `(x, y)`, width `w` and height `h`.
    pub fn new(x: i32, y: i32, w: i32, h: i32) -> (r: Rect)
        requires
            i32::MIN <= x + w <= i32::MAX,
            i32::MIN <= y + h <= i32::MAX,
        ensures
            r.x1 == x,
            r.y1 == y,
            r.x2 == x + w,
            r.y2 == y + h,
    {
        Rect { x1: x, y1: y, x2: x + w, y2: y + h }
    }

    /// Whether the two rectangles overlap, edges included.
    pub fn intersect(&self, other: &Rect) -> (r: bool)
        ensures
            r == self.spec_intersect(other),
    {
        self.x1 <= other.x2 && self.x2 >= other.x1 && self.y1 <= other.y2 && self.y2 >= other.y1
    }

    /// The centre, each coordinate halved towards zero.
    pub fn center(&self) -> (r: (i32, i32))
        ensures
            r.0 == half(self.x1 + self.x2),
            r.1 == half(self.y1 + self.y2),
    {
        (half_exec(self.x1 as i64 + self.x2 as i64), half_exec(self.y1 as i64 + self.y2 as i64))
    }

    pub fn width(&self) -> (r: i32)
        requires
            abs(self.x1 - self.x2) <= i32::MAX,
        ensures
            r == abs(self.x1 - self.x2),
    {
        let d = self.x1 as i64 - self.x2 as i64;
        if d >= 0 {
            d as i32
        } else {
            (-d) as i32
        }
    }

    pub fn height(&self) -> (r: i32)
        requires
            abs(self.y1 - self.y2) <= i32::MAX,
        ensures
            r == abs(self.y1 - self.y2),
    {
        let d = self.y1 as i64 - self.y2 as i64;
        if d >= 0 {
            d as i32
        } else {
            (-d) as i32
        }
    }
}

fn half_exec(v: i64) -> (r: i32)
    requires
        2 * i32::MIN <= v <= 2 * i32::MAX,
    ensures
        r == half(v as int),
{
    if v >= 0 {
        (v / 2) as i32
    } else {
        -((-v) / 2) as i32
    }
}

} // verus!
