//! Integer rectangles in physical pixels.

use vstd::prelude::*;

verus! {

/// A rectangle in physical pixels: its origin may lie anywhere, its extent is unsigned.
#[derive(Clone, Copy, Debug, Default, PartialEq, Eq, Structural)]
pub struct PhysicalRect {
    pub x: i32,
    pub y: i32,
    pub width: u32,
    pub height: u32,
}

/// A size in physical pixels.
#[derive(Clone, Copy, Debug, Default, PartialEq, Eq, Structural)]
pub struct PhysicalSize {
    pub width: u32,
    pub height: u32,
}

impl PhysicalSize {
    pub fn new(width: u32, height: u32) -> (r: PhysicalSize)
        ensures
            r.width == width,
            r.height == height,
    {
        PhysicalSize { width, height }
    }
}

impl PhysicalRect {
    /// Exclusive right edge.
    pub open spec fn right_edge(self) -> int {
        self.x + self.width
    }

    /// Exclusive bottom edge.
    pub open spec fn bottom_edge(self) -> int {
        self.y + self.height
    }

    /// Whether the point lies in the half-open rectangle `[x, right) x [y, bottom)`.
    pub open spec fn holds(self, px: int, py: int) -> bool {
        self.x <= px < self.right_edge() && self.y <= py < self.bottom_edge()
    }

    /// Exclusive right edge, computed without overflow.
    pub fn right(&self) -> (r: i64)
        ensures
            r == self.right_edge(),
    {
        self.x as i64 + self.width as i64
    }

    /// Exclusive bottom edge, computed without overflow.
    pub fn bottom(&self) -> (r: i64)
        ensures
            r == self.bottom_edge(),
    {
        self.y as i64 + self.height as i64
    }

    /// Hit test of a pixel position. A pointer position with a fractional part lies in the
    /// rectangle exactly when its floor does, since every edge is an integer.
    pub fn contains(&self, px: i64, py: i64) -> (r: bool)
        ensures
            r == self.holds(px as int, py as int),
    {
        (self.x as i64) <= px && px < self.right() && (self.y as i64) <= py && py < self.bottom()
    }
}

/// The signed value that an unsigned pixel count takes when reinterpreted as `i32`.
pub open spec fn as_signed(v: u32) -> int {
    if v <= i32::MAX {
        v as int
    } else {
        v - 0x1_0000_0000
    }
}

/// `v` clamped to the range of `i32`.
pub open spec fn clamp_i32(v: int) -> int {
    if v < i32::MIN {
        i32::MIN as int
    } else if v > i32::MAX {
        i32::MAX as int
    } else {
        v
    }
}

/// Move a coordinate by a pixel count reinterpreted as `i32`, saturating at the bounds of
/// `i32` (what `origin.saturating_add(delta as i32)` computes).
pub fn offset_coordinate(origin: i32, delta: u32) -> (r: i32)
    ensures
        r == clamp_i32(origin + as_signed(delta)),
{
    let signed: i64 = if delta <= 0x7fff_ffff {
        delta as i64
    } else {
        delta as i64 - 0x1_0000_0000
    };
    let sum: i64 = origin as i64 + signed;
    if sum < -0x8000_0000 {
        i32::MIN
    } else if sum > 0x7fff_ffff {
        i32::MAX
    } else {
        sum as i32
    }
}

/// `a * b`, saturating at `u32::MAX`.
pub fn saturating_mul_u32(a: u32, b: u32) -> (r: u32)
    ensures
        r == if a * b > u32::MAX {
            u32::MAX as int
        } else {
            a * b
        },
{
    match a.checked_mul(b) {
        Some(product) => product,
        None => u32::MAX,
    }
}

} // verus!
