//! Layout enumerations shared by the layout engine and the compat layer.

use vstd::prelude::*;

verus! {

/// Main axis for stack layout.
#[derive(Debug, Clone, Copy, PartialEq, Eq, Structural)]
pub enum Direction {
    /// Children stacked top to bottom.
    Column,
    /// Children stacked left to right.
    Row,
}

impl Default for Direction {
    fn default() -> (d: Self)
        ensures
            d == Direction::Column,
    {
        Direction::Column
    }
}

/// How a node is positioned within its parent.
#[derive(Debug, Clone, Copy, PartialEq, Eq, Structural)]
pub enum PositionType {
    /// Positioned at `(x, y)` relative to the parent's content area.
    Absolute,
    /// Takes part in the parent's stack flow.
    Stack,
}

impl Default for PositionType {
    fn default() -> (p: Self)
        ensures
            p == PositionType::Stack,
    {
        PositionType::Stack
    }
}

} // verus!
