//! Two-dimensional positions and sizes.

use vstd::prelude::*;

verus! {

/// 2D object position.
#[derive(PartialEq, Eq, Copy, Clone, Default, Debug)]
pub struct Position<T = i32> {
    pub x: T,
    pub y: T,
}

/// 2D object size.
#[derive(PartialEq, Eq, Copy, Clone, Default, Debug)]
pub struct Size<T = u32> {
    pub width: T,
    pub height: T,
}

impl<T> Position<T> {
    /// Position at `x`, `y`.
    pub fn new(x: T, y: T) -> (p: Self)
        ensures
            p.x == x,
            p.y == y,
    {
        Position { x, y }
    }
}

impl Position<i32> {
    /// Position moved by `rhs`.
    pub fn translated(self, rhs: Position<i32>) -> (p: Self)
        requires
            i32::MIN <= self.x + rhs.x <= i32::MAX,
            i32::MIN <= self.y + rhs.y <= i32::MAX,
        ensures
            p.x == self.x + rhs.x,
            p.y == self.y + rhs.y,
    {
        Position { x: self.x + rhs.x, y: self.y + rhs.y }
    }

    /// Offset from `rhs` to this position.
    pub fn offset_from(self, rhs: Position<i32>) -> (p: Self)
        requires
            i32::MIN <= self.x - rhs.x <= i32::MAX,
            i32::MIN <= self.y - rhs.y <= i32::MAX,
        ensures
            p.x == self.x - rhs.x,
            p.y == self.y - rhs.y,
    {
        Position { x: self.x - rhs.x, y: self.y - rhs.y }
    }
}

impl<T> Size<T> {
    /// Size of `width` by `height`.
    pub fn new(width: T, height: T) -> (s: Self)
        ensures
            s.width == width,
            s.height == height,
    {
        Size { width, height }
    }
}

impl Size<u32> {
    /// Size shrunk by `rhs`.
    pub fn shrunk_by(self, rhs: Size<u32>) -> (s: Self)
        requires
            rhs.width <= self.width,
            rhs.height <= self.height,
        ensures
            s.width == self.width - rhs.width,
            s.height == self.height - rhs.height,
    {
        Size { width: self.width - rhs.width, height: self.height - rhs.height }
    }

    /// Size with both sides multiplied by `scale`.
    pub fn scaled(self, scale: u32) -> (s: Self)
        requires
            self.width * scale <= u32::MAX,
            self.height * scale <= u32::MAX,
        ensures
            s.width == self.width * scale,
            s.height == self.height * scale,
    {
        Size { width: self.width * scale, height: self.height * scale }
    }
}

/// Whether the point lies in the half-open rectangle at `position` with
/// extent `size`.
pub open spec fn spec_rect_contains(position: Position<i32>, size: Size<i32>, point: Position<i32>) -> bool {
    &&& point.x >= position.x
    &&& point.y >= position.y
    &&& point.x < position.x + size.width
    &&& point.y < position.y + size.height
}

/// Check if a rectangle contains a point.
pub fn rect_contains(position: Position<i32>, size: Size<i32>, point: Position<i32>) -> (res: bool)
    requires
        i32::MIN <= position.x + size.width <= i32::MAX,
        i32::MIN <= position.y + size.height <= i32::MAX,
    ensures
        res == spec_rect_contains(position, size, point),
{
    point.x >= position.x && point.y >= position.y && point.x < position.x + size.width
        && point.y < position.y + size.height
}

} // verus!
