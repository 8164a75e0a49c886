//! Where on a line the next element goes.

use crate::geometry::Point;
use vstd::prelude::*;

verus! {

/// The position on one line: how much of the line's width is used.
///
/// The used width never exceeds the line's width. A move that would go past
/// the end, or back before the start, is refused and changes nothing.
#[derive(Clone, Copy, Debug)]
pub struct LineCursor {
    start: Point,
    width: u32,
    position: u32,
    tab_width: u32,
}

impl LineCursor {
    #[verifier::type_invariant]
    spec fn within_line(self) -> bool {
        self.position <= self.width
    }

    /// Where the line starts on the display.
    pub closed spec fn spec_start(self) -> Point {
        self.start
    }

    /// The width of the line.
    pub closed spec fn spec_width(self) -> u32 {
        self.width
    }

    /// The used part of the line's width.
    pub closed spec fn spec_position(self) -> u32 {
        self.position
    }

    /// The width of a tab.
    pub closed spec fn spec_tab_width(self) -> u32 {
        self.tab_width
    }

    /// A cursor at the start of a line of the given width, placed at the
    /// origin.
    pub fn new(width: u32, tab_width: u32) -> (r: Self)
        ensures
            r.spec_start() == (Point { x: 0, y: 0 }),
            r.spec_width() == width,
            r.spec_position() == 0,
            r.spec_tab_width() == tab_width,
    {
        LineCursor { start: Point::zero(), width, position: 0, tab_width }
    }

    /// The width of the line.
    pub fn line_width(&self) -> (w: u32)
        ensures
            w == self.spec_width(),
    {
        self.width
    }

    /// The width of a tab.
    pub fn tab_width(&self) -> (w: u32)
        ensures
            w == self.spec_tab_width(),
    {
        self.tab_width
    }

    /// The used part of the line's width, which is at most the line's width.
    pub fn position(&self) -> (p: u32)
        ensures
            p == self.spec_position(),
            p <= self.spec_width(),
    {
        proof {
            use_type_invariant(self);
        }
        self.position
    }

    /// The width that is still free on the line.
    pub fn space(&self) -> (s: u32)
        ensures
            s == self.spec_width() - self.spec_position(),
    {
        proof {
            use_type_invariant(self);
        }
        self.width - self.position
    }

    /// Whether an element of the given width still fits on the line.
    pub fn fits_in_line(&self, width: u32) -> (fits: bool)
        ensures
            fits == (self.spec_position() + width <= self.spec_width()),
    {
        width <= self.space()
    }

    /// The display position of the cursor: the line's start moved right by
    /// the used width.
    pub fn pos(&self) -> (p: Point)
        ensures
            p == self.spec_start().spec_right(self.spec_position() as int),
    {
        self.start.right(self.position)
    }

    /// Puts the start of the line at `start`. The used width stays.
    pub fn move_to(&mut self, start: Point)
        ensures
            final(self).spec_start() == start,
            final(self).spec_width() == old(self).spec_width(),
            final(self).spec_position() == old(self).spec_position(),
            final(self).spec_tab_width() == old(self).spec_tab_width(),
    {
        proof {
            use_type_invariant(&*self);
        }
        self.start = start;
    }

    /// Moves forward by `by` pixels if that much is free, and says so with
    /// `Ok(by)`. Otherwise the cursor stays and the free width comes back
    /// as the error.
    pub fn move_cursor_forward(&mut self, by: u32) -> (r: Result<u32, u32>)
        ensures
            final(self).spec_start() == old(self).spec_start(),
            final(self).spec_width() == old(self).spec_width(),
            final(self).spec_tab_width() == old(self).spec_tab_width(),
            old(self).spec_position() + by <= old(self).spec_width() ==> r == Ok::<u32, u32>(by)
                && final(self).spec_position() == old(self).spec_position() + by,
            old(self).spec_position() + by > old(self).spec_width() ==> r == Err::<u32, u32>(
                (old(self).spec_width() - old(self).spec_position()) as u32,
            ) && final(self).spec_position() == old(self).spec_position(),
    {
        proof {
            use_type_invariant(&*self);
        }
        let space: u32 = self.width - self.position;
        if by <= space {
            self.position = self.position + by;
            Ok(by)
        } else {
            Err(space)
        }
    }

    /// Moves by `by` pixels, forward or back, if the cursor stays on the
    /// line, and says so with `Ok(by)`. Otherwise the cursor stays and the
    /// distance that was possible in that direction comes back as the
    /// error.
    pub fn move_cursor(&mut self, by: i32) -> (r: Result<i32, i32>)
        ensures
            final(self).spec_start() == old(self).spec_start(),
            final(self).spec_width() == old(self).spec_width(),
            final(self).spec_tab_width() == old(self).spec_tab_width(),
            0 <= old(self).spec_position() + by <= old(self).spec_width() ==> r == Ok::<i32, i32>(
                by,
            ) && final(self).spec_position() == old(self).spec_position() + by,
            !(0 <= old(self).spec_position() + by <= old(self).spec_width()) ==> r is Err
                && final(self).spec_position() == old(self).spec_position(),
            old(self).spec_position() + by < 0 ==> r->Err_0 == -old(self).spec_position(),
            old(self).spec_position() + by > old(self).spec_width() ==> r->Err_0 == if old(
                self,
            ).spec_width() - old(self).spec_position() <= i32::MAX {
                old(self).spec_width() - old(self).spec_position()
            } else {
                i32::MAX as int
            },
    {
        proof {
            use_type_invariant(&*self);
        }
        let target: i64 = self.position as i64 + by as i64;
        if target < 0 {
            Err(-(self.position as i32))
        } else if target > self.width as i64 {
            let space: u32 = self.width - self.position;
            if space > i32::MAX as u32 {
                Err(i32::MAX)
            } else {
                Err(space as i32)
            }
        } else {
            self.position = target as u32;
            Ok(by)
        }
    }
}

} // verus!
