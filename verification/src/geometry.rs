//! Points and rectangles in whole layout units.
//!
//! The unit is whatever the renderer measures in, scaled to integers: a
//! fraction of a pixel fixed by the caller. Sums that leave the range of
//! `i64` stop at its ends.

use vstd::prelude::*;

verus! {

/// A position, `x` to the right and `y` down.
#[derive(Clone, Copy, Debug, PartialEq, Eq, Structural)]
pub struct Point {
    pub x: i64,
    pub y: i64,
}

/// An extent.
#[derive(Clone, Copy, Debug, PartialEq, Eq, Structural)]
pub struct Size {
    pub width: i64,
    pub height: i64,
}

/// A rectangle: its upper left corner and its extent.
#[derive(Clone, Copy, Debug, PartialEq, Eq, Structural)]
pub struct Bounds {
    pub origin: Point,
    pub size: Size,
}

/// The value of `i64` nearest to `value`.
pub open spec fn clamp_coord(value: int) -> i64 {
    if value < i64::MIN {
        i64::MIN
    } else if value > i64::MAX {
        i64::MAX
    } else {
        value as i64
    }
}

/// The value of `i64` nearest to `value`.
pub fn saturate(value: i128) -> (coord: i64)
    ensures
        coord == clamp_coord(value as int),
{
    if value < i64::MIN as i128 {
        i64::MIN
    } else if value > i64::MAX as i128 {
        i64::MAX
    } else {
        value as i64
    }
}

/// The coordinate that lies `lines` lines of height `line_height` beyond
/// `from`.
pub fn lines_beyond(from: i64, line_height: i64, lines: usize) -> (coord: i64)
    ensures
        coord == clamp_coord(from + line_height * lines),
{
    let height = line_height as i128;
    let count = lines as i128;
    assert(-0x8000_0000_0000_0000 * 0xffff_ffff_ffff_ffff <= height * count
        <= 0x7fff_ffff_ffff_ffff * 0xffff_ffff_ffff_ffff) by (nonlinear_arith)
        requires
            -0x8000_0000_0000_0000 <= height <= 0x7fff_ffff_ffff_ffff,
            0 <= count <= 0xffff_ffff_ffff_ffff,
    ;
    saturate(from as i128 + height * count)
}

/// The coordinate that lies `distance` beyond `from`.
pub fn beyond(from: i64, distance: i64) -> (coord: i64)
    ensures
        coord == clamp_coord(from + distance),
{
    saturate(from as i128 + distance as i128)
}

impl Bounds {
    /// The `y` of the upper edge.
    pub open spec fn spec_top(&self) -> int {
        self.origin.y as int
    }

    /// The `x` of the left edge.
    pub open spec fn spec_left(&self) -> int {
        self.origin.x as int
    }

    /// The `y` of the lower edge.
    pub open spec fn spec_bottom(&self) -> int {
        self.origin.y + self.size.height
    }

    /// The `x` of the right edge.
    pub open spec fn spec_right(&self) -> int {
        self.origin.x + self.size.width
    }

    /// Whether `point` lies inside the rectangle; the left and upper edges
    /// belong to it, the right and lower edges do not.
    pub open spec fn spec_contains(&self, point: Point) -> bool {
        &&& self.spec_left() <= point.x < self.spec_right()
        &&& self.spec_top() <= point.y < self.spec_bottom()
    }

    /// The rectangle between an upper left and a lower right corner.
    pub open spec fn spec_from_corners(upper_left: Point, lower_right: Point) -> Bounds {
        Bounds {
            origin: upper_left,
            size: Size {
                width: clamp_coord(lower_right.x - upper_left.x),
                height: clamp_coord(lower_right.y - upper_left.y),
            },
        }
    }

    /// The `y` of the upper edge.
    pub fn top(&self) -> (y: i64)
        ensures
            y == self.spec_top(),
    {
        self.origin.y
    }

    /// The `x` of the left edge.
    pub fn left(&self) -> (x: i64)
        ensures
            x == self.spec_left(),
    {
        self.origin.x
    }

    /// The `y` of the lower edge.
    pub fn bottom(&self) -> (y: i64)
        ensures
            y == clamp_coord(self.spec_bottom()),
    {
        saturate(self.origin.y as i128 + self.size.height as i128)
    }

    /// The `x` of the right edge.
    pub fn right(&self) -> (x: i64)
        ensures
            x == clamp_coord(self.spec_right()),
    {
        saturate(self.origin.x as i128 + self.size.width as i128)
    }

    /// Whether `point` lies inside the rectangle.
    pub fn contains(&self, point: &Point) -> (inside: bool)
        ensures
            inside == self.spec_contains(*point),
    {
        let x = point.x as i128;
        let y = point.y as i128;
        let left = self.origin.x as i128;
        let top = self.origin.y as i128;
        left <= x && x < left + self.size.width as i128 && top <= y && y < top
            + self.size.height as i128
    }

    /// The position of `point` relative to the upper left corner, for a
    /// point inside the rectangle; `None` for any other.
    pub fn localize(&self, point: &Point) -> (local: Option<Point>)
        ensures
            local.is_some() == self.spec_contains(*point),
            local.is_some() ==> local.unwrap().x == clamp_coord(point.x - self.origin.x)
                && local.unwrap().y == clamp_coord(point.y - self.origin.y),
    {
        if self.contains(point) {
            Some(
                Point {
                    x: saturate(point.x as i128 - self.origin.x as i128),
                    y: saturate(point.y as i128 - self.origin.y as i128),
                },
            )
        } else {
            None
        }
    }

    /// The rectangle between an upper left and a lower right corner.
    pub fn from_corners(upper_left: Point, lower_right: Point) -> (bounds: Bounds)
        ensures
            bounds == Self::spec_from_corners(upper_left, lower_right),
    {
        Bounds {
            origin: upper_left,
            size: Size {
                width: saturate(lower_right.x as i128 - upper_left.x as i128),
                height: saturate(lower_right.y as i128 - upper_left.y as i128),
            },
        }
    }
}

} // verus!
