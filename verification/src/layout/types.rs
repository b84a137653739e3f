//! The flexbox keywords of a node's layout: display, positioning, direction,
//! wrapping and alignment.

use vstd::prelude::*;

verus! {

/// Whether a node takes part in layout.
#[derive(Debug, Clone, Copy, PartialEq, Eq, Structural)]
pub enum Display {
    /// Laid out and rendered.
    Flex,
    /// Removed from layout entirely (CSS `display: none`).
    Hidden,
}

impl Default for Display {
    fn default() -> (d: Display)
        ensures
            d == Display::Flex,
    {
        Display::Flex
    }
}

/// How children that overflow a line are placed.
#[derive(Debug, Clone, Copy, PartialEq, Eq, Structural)]
pub enum FlexWrap {
    /// All children on one line (they may overflow).
    NoWrap,
    /// Children wrap onto the next line.
    Wrap,
    /// Children wrap in the reverse direction.
    WrapReverse,
}

impl Default for FlexWrap {
    fn default() -> (w: FlexWrap)
        ensures
            w == FlexWrap::NoWrap,
    {
        FlexWrap::NoWrap
    }
}

/// The main axis along which children are laid out.
#[derive(Debug, Clone, Copy, PartialEq, Eq, Structural)]
pub enum FlexDirection {
    /// Left to right.
    Row,
    /// Top to bottom.
    Column,
    /// Right to left.
    RowReverse,
    /// Bottom to top.
    ColumnReverse,
}

impl Default for FlexDirection {
    fn default() -> (d: FlexDirection)
        ensures
            d == FlexDirection::Column,
    {
        FlexDirection::Column
    }
}

/// Alignment along the main axis.
#[derive(Debug, Clone, Copy, PartialEq, Eq, Structural)]
pub enum JustifyContent {
    FlexStart,
    FlexEnd,
    Center,
    SpaceBetween,
    SpaceAround,
    SpaceEvenly,
}

impl Default for JustifyContent {
    fn default() -> (j: JustifyContent)
        ensures
            j == JustifyContent::FlexStart,
    {
        JustifyContent::FlexStart
    }
}

/// Alignment along the cross axis.
#[derive(Debug, Clone, Copy, PartialEq, Eq, Structural)]
pub enum AlignItems {
    FlexStart,
    FlexEnd,
    Center,
    Stretch,
    Baseline,
}

impl Default for AlignItems {
    fn default() -> (a: AlignItems)
        ensures
            a == AlignItems::Stretch,
    {
        AlignItems::Stretch
    }
}

/// A child's own cross-axis alignment, overriding its parent's.
#[derive(Debug, Clone, Copy, PartialEq, Eq, Structural)]
pub enum AlignSelf {
    FlexStart,
    FlexEnd,
    Center,
    Stretch,
    Baseline,
}

/// How a node is positioned.
#[derive(Debug, Clone, Copy, PartialEq, Eq, Structural)]
pub enum Position {
    /// By the flexbox flow.
    Relative,
    /// Out of the flow, relative to the parent.
    Absolute,
}

impl Default for Position {
    fn default() -> (p: Position)
        ensures
            p == Position::Relative,
    {
        Position::Relative
    }
}

} // verus!
