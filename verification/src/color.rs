//! Colors as the layout engine carries them.

use vstd::prelude::*;

verus! {

/// A color with eight bits per channel.
#[derive(Clone, Copy, Debug, PartialEq, Eq, Structural)]
pub struct Rgb {
    pub r: u8,
    pub g: u8,
    pub b: u8,
}

impl Rgb {
    pub fn new(r: u8, g: u8, b: u8) -> (c: Self)
        ensures
            c == (Rgb { r, g, b }),
    {
        Rgb { r, g, b }
    }

    /// White, the text color after a style reset.
    pub open spec fn spec_white() -> Rgb {
        Rgb { r: 255, g: 255, b: 255 }
    }

    /// White, the text color after a style reset.
    pub fn white() -> (c: Self)
        ensures
            c == Self::spec_white(),
    {
        Rgb { r: 255, g: 255, b: 255 }
    }
}

/// How a decoration line (underline, strikethrough) is colored.
#[derive(Clone, Copy, Debug, PartialEq, Eq, Structural)]
pub enum DecorationColor {
    /// The decoration is not drawn.
    Off,
    /// The decoration takes the color of the text.
    TextColor,
    /// The decoration has a color of its own.
    Custom(Rgb),
}

} // verus!
