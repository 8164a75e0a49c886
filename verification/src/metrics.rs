//! How wide a piece of text is in a font.

use vstd::prelude::*;
use vstd::string::*;

verus! {

/// The measurements of a font that the layout needs.
///
/// Layout decides by these numbers alone, and it measures every line twice,
/// so `measure` has to give the same width for the same text every time:
/// `width_of` is that width.
///
/// The two specification functions have bodies so that an implementor
/// which Verus does not check can leave them out. Those bodies say nothing
/// true of such an implementor: with them `measure` would have to give 0
/// for every text. Nothing holds such an implementor to the contracts, and
/// what is proved of the layout is proved of metrics that meet them.
pub trait TextMetrics {
    /// The width of `text` in pixels.
    open spec fn width_of(&self, text: Seq<char>) -> u32 {
        0
    }

    /// The height of a line of text in pixels.
    open spec fn height(&self) -> u32 {
        0
    }

    /// Measures the width of `text` in pixels.
    fn measure(&self, text: &str) -> (width: u32)
        ensures
            width == self.width_of(text@),
    ;

    /// The height of a line of text in pixels.
    fn line_height(&self) -> (height: u32)
        ensures
            height == self.height(),
    ;
}

/// A font in which every character is equally wide.
#[derive(Clone, Copy, Debug, PartialEq, Eq, Structural)]
pub struct FixedWidthMetrics {
    /// How far one character moves the position to the right.
    pub advance: u32,
    /// The height of a line.
    pub line_height: u32,
}

impl FixedWidthMetrics {
    pub fn new(advance: u32, line_height: u32) -> (r: Self)
        ensures
            r == (FixedWidthMetrics { advance, line_height }),
    {
        FixedWidthMetrics { advance, line_height }
    }
}

impl TextMetrics for FixedWidthMetrics {
    /// The number of characters times the advance, at most `u32::MAX`.
    open spec fn width_of(&self, text: Seq<char>) -> u32 {
        if text.len() * self.advance <= u32::MAX {
            (text.len() * self.advance) as u32
        } else {
            u32::MAX
        }
    }

    open spec fn height(&self) -> u32 {
        self.line_height
    }

    fn measure(&self, text: &str) -> (width: u32) {
        let count: usize = text.unicode_len();
        if self.advance == 0 {
            assert(count * 0 == 0);
            0
        } else if count > (u32::MAX / self.advance) as usize {
            assert(count * self.advance > u32::MAX) by (nonlinear_arith)
                requires
                    self.advance > 0,
                    count >= (u32::MAX / self.advance) + 1,
            ;
            u32::MAX
        } else {
            assert(count * self.advance <= u32::MAX) by (nonlinear_arith)
                requires
                    self.advance > 0,
                    count <= u32::MAX / self.advance,
            ;
            (count as u32) * self.advance
        }
    }

    fn line_height(&self) -> (height: u32) {
        self.line_height
    }
}

} // verus!
