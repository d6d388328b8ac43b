//! Pixel geometry attached to recognized words: an axis-aligned bounding
//! box given by its top-left and bottom-right corners.

use vstd::prelude::*;

verus! {

/// A point in image pixel coordinates.
#[derive(Clone, Copy, PartialEq, Eq, Structural, Debug)]
pub struct Point {
    pub x: usize,
    pub y: usize,
}

/// An axis-aligned bounding box of a recognized word.
#[derive(Clone, Copy, PartialEq, Eq, Structural, Debug)]
pub struct Rectangle {
    pub top_left: Point,
    pub bottom_right: Point,
}

impl Rectangle {
    /// Builds the box from its four corner coordinates.
    pub fn of(x1: usize, y1: usize, x2: usize, y2: usize) -> (r: Rectangle)
        ensures
            r.top_left.x == x1,
            r.top_left.y == y1,
            r.bottom_right.x == x2,
            r.bottom_right.y == y2,
    {
        Rectangle { top_left: Point { x: x1, y: y1 }, bottom_right: Point { x: x2, y: y2 } }
    }
}

} // verus!
