//! Colours and tiles, the values that a graphic is made of.

use vstd::prelude::*;

verus! {

/// An 8-bit-per-channel colour with alpha.
#[derive(Clone, Copy, Debug, PartialEq, Eq, Structural, Hash)]
pub struct Color {
    pub r: u8,
    pub g: u8,
    pub b: u8,
    pub a: u8,
}

impl Color {
    /// The colour with the given red, green, blue and alpha channels.
    #[allow(non_snake_case)]
    pub fn RGBA(r: u8, g: u8, b: u8, a: u8) -> (c: Color)
        ensures
            c == (Color { r, g, b, a }),
    {
        Color { r, g, b, a }
    }
}

/// The fully transparent green that marks a missing colour and fills blank tiles.
pub open spec fn missing_color() -> Color {
    Color { r: 0, g: 255, b: 0, a: 0 }
}

/// An index into a tile set, paired with a foreground and a background
/// colour: one cell of a graphic.
#[derive(Clone, Copy, Debug, PartialEq, Eq, Structural, Hash)]
pub struct Tile {
    /// Meaningful below the size of a tile set (512).
    pub index: usize,
    pub fg: Color,
    pub bg: Color,
}

/// Tile index 0 in transparent green on transparent green.
pub open spec fn default_tile() -> Tile {
    Tile { index: 0, fg: missing_color(), bg: missing_color() }
}

impl Default for Tile {
    fn default() -> (t: Tile)
        ensures
            t == default_tile(),
    {
        Tile { index: 0, fg: Color::RGBA(0, 255, 0, 0), bg: Color::RGBA(0, 255, 0, 0) }
    }
}

} // verus!
