//! Colors and placed blocks.

use vstd::prelude::*;

verus! {

/// Small RGB color used by the game logic and renderer adapters.
#[derive(Clone, Copy, Debug, PartialEq, Eq, Structural)]
pub struct Rgb8 {
    /// Red channel.
    pub r: u8,
    /// Green channel.
    pub g: u8,
    /// Blue channel.
    pub b: u8,
}

impl Rgb8 {
    /// Creates a new 8-bit RGB color.
    pub fn new(r: u8, g: u8, b: u8) -> (c: Self)
        ensures
            c == (Rgb8 { r, g, b }),
    {
        Rgb8 { r, g, b }
    }
}

impl Default for Rgb8 {
    /// Black.
    fn default() -> (c: Self)
        ensures
            c == (Rgb8 { r: 0, g: 0, b: 0 }),
    {
        Rgb8 { r: 0, g: 0, b: 0 }
    }
}

/// A block written to the board when a piece locks.
#[derive(Clone, Copy, Debug, PartialEq, Eq, Structural)]
pub struct Block {
    /// The block color selected when the piece was spawned.
    pub color: Rgb8,
}

} // verus!
