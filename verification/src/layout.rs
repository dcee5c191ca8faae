//! Geometry types used to lay out views.
use vstd::prelude::*;

verus! {

/// A generic size.
#[derive(Clone, Copy, PartialEq, Debug, Default)]
pub struct Size<T> {
    /// A width
    pub width: T,
    /// A height
    pub height: T,
}

impl<T: Copy> Size<T> {
    /// A size whose width and height both equal `value`.
    pub fn splat(value: T) -> (s: Self)
        ensures
            s.width == value,
            s.height == value,
    {
        Size { width: value, height: value }
    }
}

/// A generic position.
#[derive(Clone, Copy, PartialEq, Debug, Default)]
pub struct Position<T> {
    /// The x position
    pub x: T,
    /// The y position
    pub y: T,
}

} // verus!
