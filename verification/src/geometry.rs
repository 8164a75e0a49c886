//! Pixel coordinates, sizes and rectangles.

use az::SaturatingAs;
use vstd::prelude::*;

verus! {

/// A position on the display, in pixels.
#[derive(Clone, Copy, Debug, PartialEq, Eq, Structural)]
pub struct Point {
    pub x: i32,
    pub y: i32,
}

/// The extent of an area, in pixels.
#[derive(Clone, Copy, Debug, PartialEq, Eq, Structural)]
pub struct Size {
    pub width: u32,
    pub height: u32,
}

/// An axis-aligned area given by its top left corner and its extent.
#[derive(Clone, Copy, Debug, PartialEq, Eq, Structural)]
pub struct Rectangle {
    pub top_left: Point,
    pub size: Size,
}

/// The `i32` nearest to `value`.
pub open spec fn clamp_i32(value: int) -> i32 {
    if value > i32::MAX {
        i32::MAX
    } else if value < i32::MIN {
        i32::MIN
    } else {
        value as i32
    }
}

/// Converts a pixel count to a signed coordinate offset.
///
/// Calls `az::SaturatingAs::saturating_as` from `u32` to `i32`, which keeps
/// a value that fits and yields `i32::MAX` for one that does not.
#[verifier::external_body]
pub(crate) fn saturating_i32(value: u32) -> (r: i32)
    ensures
        r == clamp_i32(value as int),
{
    value.saturating_as()
}

impl Point {
    pub fn new(x: i32, y: i32) -> (r: Self)
        ensures
            r == (Point { x, y }),
    {
        Point { x, y }
    }

    /// The origin.
    pub fn zero() -> (r: Self)
        ensures
            r == (Point { x: 0, y: 0 }),
    {
        Point { x: 0, y: 0 }
    }

    /// This point moved right by `by` pixels; both the step and the result
    /// stop at the largest coordinate.
    pub open spec fn spec_right(self, by: int) -> Point {
        Point { x: clamp_i32(self.x + clamp_i32(by)), y: self.y }
    }

    /// This point moved right by `by` pixels, stopping at the largest coordinate.
    pub fn right(self, by: u32) -> (r: Self)
        ensures
            r == self.spec_right(by as int),
    {
        let step: i32 = saturating_i32(by);
        let x: i32 = match self.x.checked_add(step) {
            Some(x) => x,
            None => i32::MAX,
        };
        Point { x, y: self.y }
    }

    /// This point moved down by `by` pixels; both the step and the result
    /// stop at the largest coordinate.
    pub open spec fn spec_down(self, by: int) -> Point {
        Point { x: self.x, y: clamp_i32(self.y + clamp_i32(by)) }
    }

    /// This point moved down by `by` pixels, stopping at the largest coordinate.
    pub fn down(self, by: u32) -> (r: Self)
        ensures
            r == self.spec_down(by as int),
    {
        let step: i32 = saturating_i32(by);
        let y: i32 = match self.y.checked_add(step) {
            Some(y) => y,
            None => i32::MAX,
        };
        Point { x: self.x, y }
    }
}

impl Size {
    pub fn new(width: u32, height: u32) -> (r: Self)
        ensures
            r == (Size { width, height }),
    {
        Size { width, height }
    }
}

impl Rectangle {
    pub fn new(top_left: Point, size: Size) -> (r: Self)
        ensures
            r == (Rectangle { top_left, size }),
    {
        Rectangle { top_left, size }
    }
}

} // verus!
