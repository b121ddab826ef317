use vstd::prelude::*;

verus! {

/// A 2D grid coordinate. `x` grows to the right, `y` grows downwards.
#[derive(Copy, Clone, PartialEq, Eq, Structural, Debug)]
pub struct Point {
    pub x: i32,
    pub y: i32,
}

/// Builds a point from its two coordinates.
pub fn point(x: i32, y: i32) -> (r: Point)
    ensures
        r == (Point { x, y }),
{
    Point { x, y }
}

/// Coordinate-wise sum of two points, truncated to `i32` (the truncation
/// never fires on the in-range positions the game maintains).
pub open spec fn padd(a: Point, b: Point) -> Point {
    Point { x: (a.x + b.x) as i32, y: (a.y + b.y) as i32 }
}

/// True when the coordinate-wise sum of `a` and `b` fits in `i32`.
pub open spec fn add_fits(a: Point, b: Point) -> bool {
    i32::MIN <= a.x + b.x <= i32::MAX && i32::MIN <= a.y + b.y <= i32::MAX
}

/// Coordinate-wise addition.
pub fn add(a: Point, b: Point) -> (r: Point)
    requires
        add_fits(a, b),
    ensures
        r == padd(a, b),
{
    Point { x: a.x + b.x, y: a.y + b.y }
}

/// The unit offset to the left.
pub fn move_left() -> (r: Point)
    ensures
        r == (Point { x: -1i32, y: 0 }),
{
    Point { x: -1, y: 0 }
}

/// The unit offset to the right.
pub fn move_right() -> (r: Point)
    ensures
        r == (Point { x: 1, y: 0 }),
{
    Point { x: 1, y: 0 }
}

} // verus!
