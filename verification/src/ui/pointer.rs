//! The pointer.
use vstd::prelude::*;
use vstd::string::*;
use crate::num::{max16, min16};
use crate::ui::ansi::{move_text, move_to};

verus! {

#[derive(Debug, Clone, Copy, PartialEq, Eq, Structural)]
pub struct Pointer {
    pub x: u16,
    pub y: u16,
}

/// A coordinate inside the border of a screen that is `size` wide or high.
pub open spec fn inside(v: int, size: u16) -> u16 {
    let low = if v < 1 {
        1
    } else {
        v
    };
    let high = if size >= 2 {
        size - 2
    } else {
        0
    };
    if low <= high {
        low as u16
    } else {
        high as u16
    }
}

impl Pointer {
    pub fn new(x: u16, y: u16) -> (p: Pointer)
        ensures
            p == (Pointer { x, y }),
    {
        Pointer { x, y }
    }

    /// The pointer inside the border of a screen.
    pub open spec fn clamped(self, width: u16, height: u16) -> Pointer {
        Pointer { x: inside(self.x as int, width), y: inside(self.y as int, height) }
    }

    /// Takes the pointer inside the border of a screen.
    pub fn clamp_to_bounds(&mut self, width: u16, height: u16)
        ensures
            *final(self) == old(self).clamped(width, height),
    {
        self.x = min16(max16(self.x, 1), width.saturating_sub(2));
        self.y = min16(max16(self.y, 1), height.saturating_sub(2));
    }

    pub open spec fn up(self) -> Pointer {
        Pointer {
            y: if self.y > 1 {
                (self.y - 1) as u16
            } else {
                1
            },
            ..self
        }
    }

    pub open spec fn down(self, max: u16) -> Pointer {
        Pointer {
            y: min16(
                (self.y + 1) as u16,
                if max >= 2 {
                    (max - 2) as u16
                } else {
                    0
                },
            ),
            ..self
        }
    }

    pub open spec fn left(self) -> Pointer {
        Pointer {
            x: if self.x > 1 {
                (self.x - 1) as u16
            } else {
                1
            },
            ..self
        }
    }

    pub open spec fn right(self, max: u16) -> Pointer {
        Pointer {
            x: min16(
                (self.x + 1) as u16,
                if max >= 2 {
                    (max - 2) as u16
                } else {
                    0
                },
            ),
            ..self
        }
    }

    pub fn move_up(&mut self)
        ensures
            *final(self) == old(self).up(),
    {
        self.y = max16(self.y.saturating_sub(1), 1);
    }

    pub fn move_down(&mut self, max: u16)
        requires
            old(self).y < 0xffff,
        ensures
            *final(self) == old(self).down(max),
    {
        self.y = min16(self.y + 1, max.saturating_sub(2));
    }

    pub fn move_left(&mut self)
        ensures
            *final(self) == old(self).left(),
    {
        self.x = max16(self.x.saturating_sub(1), 1);
    }

    pub fn move_right(&mut self, max: u16)
        requires
            old(self).x < 0xffff,
        ensures
            *final(self) == old(self).right(max),
    {
        self.x = min16(self.x + 1, max.saturating_sub(2));
    }

    /// The screen with the pointer on it: a shade, or a character in reverse video
    /// where something can be clicked.
    pub open spec fn drawn(self, t: Seq<char>, interaction: Option<char>) -> Seq<char> {
        let t = t + move_text(self.x as int, self.y as int);
        match interaction {
            None => t + "░"@,
            Some(c) => (t + "\u{1b}[7m"@).push(c) + "\u{1b}[0m"@,
        }
    }

    pub fn draw(&self, out: &mut String, interaction: Option<char>)
        requires
            self.x < 0xffff,
            self.y < 0xffff,
        ensures
            final(out)@ == self.drawn(old(out)@, interaction),
    {
        move_to(out, self.x, self.y);
        match interaction {
            None => out.append("░"),
            Some(c) => {
                out.append("\u{1b}[7m");
                out.push(c);
                out.append("\u{1b}[0m");
            },
        }
    }
}

/// On a screen of at least three columns and rows the pointer never leaves the
/// inside of the border, whichever way it moves.
pub proof fn lemma_pointer_stays_inside(p: Pointer, w: u16, h: u16)
    requires
        w >= 3,
        h >= 3,
    ensures
        ({
            let c = p.clamped(w, h);
            &&& 1 <= c.x <= w - 2 && 1 <= c.y <= h - 2
            &&& c.clamped(w, h) == c
            &&& c.up().clamped(w, h) == c.up()
            &&& c.down(h).clamped(w, h) == c.down(h)
            &&& c.left().clamped(w, h) == c.left()
            &&& c.right(w).clamped(w, h) == c.right(w)
        }),
{
}

} // verus!
