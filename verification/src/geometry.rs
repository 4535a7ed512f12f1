//! Rectangles.
//!
//! Coordinates are 64 bits wide, so that sums of the system's 32-bit
//! coordinates and sizes do not overflow.

use vstd::prelude::*;

verus! {

/// A rectangle, without its right and bottom edges.
#[derive(Clone, Copy, Debug, PartialEq, Eq, Structural)]
pub struct Rect {
    pub left: i64,
    pub top: i64,
    pub right: i64,
    pub bottom: i64,
}

impl Rect {
    /// Whether all edges are 32-bit coordinates.
    pub open spec fn small(&self) -> bool {
        &&& i32::MIN <= self.left <= i32::MAX
        &&& i32::MIN <= self.top <= i32::MAX
        &&& i32::MIN <= self.right <= i32::MAX
        &&& i32::MIN <= self.bottom <= i32::MAX
    }

    /// Whether the point is in the rectangle.
    pub open spec fn holds(&self, x: int, y: int) -> bool {
        self.left <= x < self.right && self.top <= y < self.bottom
    }
}

/// The rectangle with the given edges.
pub fn rect(left: i32, top: i32, right: i32, bottom: i32) -> (r: Rect)
    ensures
        r == (Rect {
            left: left as i64,
            top: top as i64,
            right: right as i64,
            bottom: bottom as i64,
        }),
        r.small(),
{
    Rect { left: left as i64, top: top as i64, right: right as i64, bottom: bottom as i64 }
}

/// Half of `n`, rounded toward zero.
pub open spec fn half(n: int) -> int {
    if n >= 0 {
        n / 2
    } else {
        -((-n) / 2)
    }
}

/// Where something of the given size starts to be centred in a space.
pub fn center(space: i64, size: i64) -> (r: i64)
    requires
        -0x4_0000_0000 <= space <= 0x4_0000_0000,
        -0x4_0000_0000 <= size <= 0x4_0000_0000,
    ensures
        r == half(space - size),
{
    let n: i64 = space - size;
    if n >= 0 {
        n / 2
    } else {
        -((-n) / 2)
    }
}

/// Halving rounds toward zero, on both sides of it alike.
pub proof fn law_half(n: int)
    requires
        n >= 0,
    ensures
        2 * half(n) <= n <= 2 * half(n) + 1,
        half(-n) == -half(n),
{
}

/// A rectangle holds the points from its left and top edges up to the right and
/// bottom ones, without these.
pub proof fn law_rect_holds(r: Rect, x: int, y: int)
    ensures
        r.holds(x, y) == (r.left <= x && x < r.right && r.top <= y && y < r.bottom),
{
}

} // verus!
