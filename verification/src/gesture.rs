//! Pointer input vocabulary: drag axes and swipe directions.
use vstd::prelude::*;

verus! {

/// Axis filter for drag movement.
#[derive(Clone, Copy, Debug, PartialEq, Eq)]
pub enum DragAxis {
    /// Drag on both x and y axes.
    Both,
    /// Drag only on the x axis.
    X,
    /// Drag only on the y axis.
    Y,
}

/// Direction of a recognized swipe.
#[derive(Clone, Copy, Debug, PartialEq, Eq)]
pub enum SwipeDirection {
    /// Swipe toward negative y.
    Up,
    /// Swipe toward positive y.
    Down,
    /// Swipe toward negative x.
    Left,
    /// Swipe toward positive x.
    Right,
}

} // verus!
