//! Shared scene-tree value types: colors, node identifiers and points.

use vstd::prelude::*;

verus! {

/// The eight standard terminal colors.
#[derive(Debug, Clone, Copy, PartialEq, Eq, Structural)]
pub enum NamedColor {
    Black,
    Red,
    Green,
    Yellow,
    Blue,
    Magenta,
    Cyan,
    White,
}

/// A terminal color: the terminal default, a named color, a palette index or 24-bit RGB.
#[derive(Debug, Clone, Copy, PartialEq, Eq, Structural)]
pub enum Color {
    Default,
    Named(NamedColor),
    Indexed(u8),
    Rgb(u8, u8, u8),
}

impl Color {
    /// Builds a 24-bit RGB color.
    pub fn rgb(r: u8, g: u8, b: u8) -> (c: Color)
        ensures
            c == Color::Rgb(r, g, b),
    {
        Color::Rgb(r, g, b)
    }
}

/// Identifier of a node in the scene tree.
#[derive(Debug, Clone, Copy, PartialEq, Eq, Hash, Structural)]
pub struct NodeId(pub u64);

impl NodeId {
    /// Builds an identifier from its raw value.
    pub fn new(raw: u64) -> (id: NodeId)
        ensures
            id.0 == raw,
    {
        NodeId(raw)
    }
}

impl Default for NodeId {
    fn default() -> (id: NodeId)
        ensures
            id.0 == 0,
    {
        NodeId(0)
    }
}

/// A position in terminal cell coordinates.
#[derive(Debug, Clone, Copy, PartialEq, Eq, Structural)]
pub struct Point {
    pub x: i32,
    pub y: i32,
}

impl Point {
    /// Builds a point.
    pub fn new(x: i32, y: i32) -> (p: Point)
        ensures
            p.x == x,
            p.y == y,
    {
        Point { x, y }
    }
}

} // verus!
