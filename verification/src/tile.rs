//! Tiles: the static per-cell state of the map.

use vstd::prelude::*;

verus! {

/// A presentation color for glyphs and messages.
#[derive(Clone, Copy, Debug, PartialEq, Eq, Structural)]
pub enum Color {
    White,
    LightestGrey,
    DarkGrey,
    DarkRed,
}

/// One cell of the map: a collision flag, an opacity flag, a persistent
/// `explored` mark, and presentation metadata.
#[derive(Clone, Copy, Debug, PartialEq, Eq, Structural)]
pub struct Tile {
    pub solid: bool,
    pub opaque: bool,
    pub glyph: char,
    pub color: Color,
    pub explored: bool,
}

impl Tile {
    /// An open floor tile: neither solid nor opaque, unexplored.
    pub open spec fn spec_empty() -> Tile {
        Tile { solid: false, opaque: false, glyph: '.', color: Color::LightestGrey, explored: false }
    }

    /// A wall tile: both solid and opaque, unexplored.
    pub open spec fn spec_wall() -> Tile {
        Tile { solid: true, opaque: true, glyph: '#', color: Color::White, explored: false }
    }

    /// Default empty tile.
    pub fn empty() -> (t: Tile)
        ensures
            t == Tile::spec_empty(),
    {
        Tile { solid: false, opaque: false, glyph: '.', color: Color::LightestGrey, explored: false }
    }

    /// Default wall tile.
    pub fn wall() -> (t: Tile)
        ensures
            t == Tile::spec_wall(),
    {
        Tile { solid: true, opaque: true, glyph: '#', color: Color::White, explored: false }
    }
}

} // verus!
