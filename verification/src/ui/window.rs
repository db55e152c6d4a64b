//! A window: its place, its frame, its scrollbars.
use vstd::prelude::*;
use vstd::string::*;
use crate::num::min16;
use crate::text::{
    center_chars, centered, push_chars, push_repeated, repeated, titled, titled_chars,
};
use crate::ui::ansi::{move_text, move_to};
use crate::ui::scrollbar::{scrollbar_thumb, thumb};

verus! {

pub const MIN_W: u16 = 5;

pub const MIN_H: u16 = 3;

#[derive(Debug, Clone, Copy, PartialEq, Eq, Structural)]
pub struct Window {
    pub position_x: u16,
    pub position_y: u16,
    pub width: u16,
    pub height: u16,
    pub layer: u16,
    pub minimizable: bool,
    pub closable: bool,
    pub draggable: bool,
    pub resizable: bool,
    /// The size of the content; 0 where it is that of the window, which is not
    /// scrolled.
    pub content_w: u16,
    pub content_h: u16,
    pub scroll_x: u16,
    pub scroll_y: u16,
}

/// The screen `t` with the text `s` put at column `x` and row `y`.
pub open spec fn put(t: Seq<char>, x: int, y: int, s: Seq<char>) -> Seq<char> {
    t + move_text(x, y) + s
}

/// The text `s` put at column `x`, once in each row from `y + from` up to
/// `y + to`.
pub open spec fn column(t: Seq<char>, x: int, y: int, from: int, to: int, s: Seq<char>) -> Seq<char>
    decreases to - from,
{
    if to <= from {
        t
    } else {
        put(column(t, x, y, from, to - 1, s), x, y + to - 1, s)
    }
}

/// What a scrollbar shows at cell `i` of its track.
pub open spec fn bar_char(pos: int, len: int, i: int) -> char {
    if pos <= i < pos + len {
        '█'
    } else {
        '░'
    }
}

/// The first `n` cells of a scrollbar that runs to the right from `(x, y)`.
pub open spec fn bar_row(t: Seq<char>, x: int, y: int, n: int, pos: int, len: int) -> Seq<char>
    decreases n,
{
    if n <= 0 {
        t
    } else {
        (bar_row(t, x, y, n - 1, pos, len) + move_text(x + n - 1, y)).push(
            bar_char(pos, len, n - 1),
        )
    }
}

/// The first `n` cells of a scrollbar that runs down from `(x, y)`.
pub open spec fn bar_column(t: Seq<char>, x: int, y: int, n: int, pos: int, len: int) -> Seq<char>
    decreases n,
{
    if n <= 0 {
        t
    } else {
        (bar_column(t, x, y, n - 1, pos, len) + move_text(x, y + n - 1)).push(
            bar_char(pos, len, n - 1),
        )
    }
}

/// Puts a text at a cell.
pub fn put_text(out: &mut String, x: u16, y: u16, s: &str)
    requires
        x < 0xffff,
        y < 0xffff,
    ensures
        final(out)@ == put(old(out)@, x as int, y as int, s@),
{
    move_to(out, x, y);
    out.append(s);
}

/// Puts a text at column `x` of the rows `y + from..y + to`.
pub fn put_column(out: &mut String, x: u16, y: u16, from: u16, to: u16, s: &str)
    requires
        x < 0xffff,
        y + to <= 0xffff,
    ensures
        final(out)@ == column(old(out)@, x as int, y as int, from as int, to as int, s@),
{
    let mut i: u16 = from;
    while i < to
        invariant
            from <= i,
            i <= to || i == from,
            x < 0xffff,
            y + to <= 0xffff,
            out@ == column(old(out)@, x as int, y as int, from as int, i as int, s@),
        decreases to - i,
    {
        put_text(out, x, y + i, s);
        i = i + 1;
    }
}

impl Window {
    pub fn new(position_x: u16, position_y: u16, width: u16, height: u16, layer: u16) -> (w: Window)
        ensures
            w == Window::plain(position_x, position_y, width, height, layer),
    {
        Window {
            position_x,
            position_y,
            width,
            height,
            layer,
            minimizable: true,
            closable: true,
            draggable: true,
            resizable: true,
            content_w: 0,
            content_h: 0,
            scroll_x: 0,
            scroll_y: 0,
        }
    }

    /// A window with all its buttons, not scrolled.
    pub open spec fn plain(
        position_x: u16,
        position_y: u16,
        width: u16,
        height: u16,
        layer: u16,
    ) -> Window {
        Window {
            position_x,
            position_y,
            width,
            height,
            layer,
            minimizable: true,
            closable: true,
            draggable: true,
            resizable: true,
            content_w: 0,
            content_h: 0,
            scroll_x: 0,
            scroll_y: 0,
        }
    }

    /// The window with a content size of its own.
    pub fn with_content(self, content_w: u16, content_h: u16) -> (w: Window)
        ensures
            w == (Window { content_w, content_h, ..self }),
    {
        Window { content_w, content_h, ..self }
    }

    /// The window that can not be minimised, closed, moved or resized.
    pub open spec fn bare(self) -> Window {
        Window { minimizable: false, closable: false, draggable: false, resizable: false, ..self }
    }

    pub fn without_chrome(self) -> (w: Window)
        ensures
            w == self.bare(),
    {
        Window { minimizable: false, closable: false, draggable: false, resizable: false, ..self }
    }

    /// Whether the last column and row of the window have numbers on the screen.
    pub open spec fn fits(self) -> bool {
        &&& 1 <= self.width
        &&& 1 <= self.height
        &&& self.position_x + self.width <= 0xffff
        &&& self.position_y + self.height <= 0xffff
    }

    /// The last column.
    pub open spec fn right(self) -> int {
        self.position_x + self.width - 1
    }

    /// The last row.
    pub open spec fn bottom(self) -> int {
        self.position_y + self.height - 1
    }

    /// How many columns there are inside the frame.
    pub open spec fn inner_w(self) -> int {
        if self.width >= 2 {
            self.width - 2
        } else {
            0
        }
    }

    /// How many rows there are inside the frame.
    pub open spec fn inner_h(self) -> int {
        if self.height >= 2 {
            self.height - 2
        } else {
            0
        }
    }

    /// Whether the content is higher than the window.
    pub open spec fn scrolls_v(self) -> bool {
        self.content_h > self.inner_h()
    }

    /// Whether the content is wider than the window.
    pub open spec fn scrolls_h(self) -> bool {
        self.content_w > self.inner_w()
    }

    /// How long the vertical scrollbar is: it leaves the corner free.
    pub open spec fn track_v(self) -> int {
        if self.scrolls_h() && self.inner_h() > 0 {
            self.inner_h() - 1
        } else {
            self.inner_h()
        }
    }

    /// How long the horizontal scrollbar is: it leaves the corner free.
    pub open spec fn track_h(self) -> int {
        if self.scrolls_v() && self.inner_w() > 0 {
            self.inner_w() - 1
        } else {
            self.inner_w()
        }
    }

    /// Whether the inside and the scrollbars, where there are any, lie on the screen.
    pub open spec fn inside_fits(self) -> bool {
        &&& self.scrolls_h() ==> self.bottom() >= 1
        &&& self.scrolls_v() ==> self.right() >= 1
        &&& self.height > 2 ==> self.position_x < 0xfffe
    }

    /// Whether the frame lies within the coordinates that there are.
    pub fn is_sound_frame(&self) -> (r: bool)
        ensures
            r == self.fits(),
    {
        self.width >= 1 && self.height >= 1 && self.position_x as u32 + self.width as u32 <= 0xffff
            && self.position_y as u32 + self.height as u32 <= 0xffff
    }

    /// Whether the window and its scrollbars lie within the coordinates that there
    /// are.
    pub fn is_sound(&self) -> (r: bool)
        ensures
            r == (self.fits() && self.inside_fits()),
    {
        if !self.is_sound_frame() {
            return false;
        }
        (!self.has_hscroll() || self.position_y + (self.height - 1) >= 1) && (!self.has_vscroll()
            || self.position_x + (self.width - 1) >= 1) && (self.height <= 2 || self.position_x
            < 0xfffe)
    }

    pub open spec fn thumb_v(self) -> (usize, usize) {
        let track = self.track_v() as usize;
        thumb(track, self.content_h as usize, track, self.scroll_y as usize)
    }

    pub open spec fn thumb_h(self) -> (usize, usize) {
        let track = self.track_h() as usize;
        thumb(track, self.content_w as usize, track, self.scroll_x as usize)
    }

    /// The screen with the window on it.
    pub open spec fn drawn(self, t: Seq<char>, title: Seq<char>) -> Seq<char> {
        let (x, y) = (self.position_x as int, self.position_y as int);
        let rows = self.height - 1;
        let t = put(t, x, y, "┌"@) + centered(titled(title), '─', self.inner_w()) + "┐"@;
        let t = column(t, x + 1, y, 1, rows, repeated(' ', self.inner_w()));
        let t = column(t, x, y, 1, rows, "│"@);
        let t = column(t, self.right(), y, 1, rows, "│"@);
        let t = put(t, x, self.bottom(), "└"@) + repeated('─', self.inner_w()) + "┘"@;
        let t = if self.scrolls_h() {
            let (pos, len) = self.thumb_h();
            bar_row(t, x + 1, self.bottom() - 1, self.track_h(), pos as int, len as int)
        } else {
            t
        };
        if self.scrolls_v() {
            let (pos, len) = self.thumb_v();
            bar_column(t, self.right() - 1, y + 1, self.track_v(), pos as int, len as int)
        } else {
            t
        }
    }

    pub fn visible_w(&self) -> (r: usize)
        ensures
            r == self.inner_w(),
    {
        self.width.saturating_sub(2) as usize
    }

    pub fn visible_h(&self) -> (r: usize)
        ensures
            r == self.inner_h(),
    {
        self.height.saturating_sub(2) as usize
    }

    fn has_vscroll(&self) -> (r: bool)
        ensures
            r == self.scrolls_v(),
    {
        self.content_h as usize > self.visible_h()
    }

    fn has_hscroll(&self) -> (r: bool)
        ensures
            r == self.scrolls_h(),
    {
        self.content_w as usize > self.visible_w()
    }

    fn vtrack(&self) -> (r: usize)
        ensures
            r == self.track_v(),
    {
        self.visible_h().saturating_sub(
            if self.has_hscroll() {
                1
            } else {
                0
            },
        )
    }

    fn htrack(&self) -> (r: usize)
        ensures
            r == self.track_h(),
    {
        self.visible_w().saturating_sub(
            if self.has_vscroll() {
                1
            } else {
                0
            },
        )
    }

    /// Where the thumb of a bar on a track of `track` cells begins and how long it
    /// is.
    fn scroll_thumb(track: u16, total: u16, scroll: u16) -> (r: (usize, usize))
        requires
            track <= total,
        ensures
            r == thumb(track as usize, total as usize, track as usize, scroll as usize),
            r.0 + r.1 <= track,
    {
        scrollbar_thumb(track as usize, total as usize, track as usize, scroll as usize)
    }

    /// What a scrollbar shows at cell `i` of its track.
    fn scroll_char(thumb_pos: usize, thumb_len: usize, i: usize) -> (c: char)
        requires
            thumb_pos + thumb_len <= usize::MAX,
        ensures
            c == bar_char(thumb_pos as int, thumb_len as int, i as int),
    {
        if i >= thumb_pos && i < thumb_pos + thumb_len {
            '█'
        } else {
            '░'
        }
    }

    fn draw_bars(&self, out: &mut String)
        requires
            self.fits(),
            self.inside_fits(),
        ensures
            final(out)@ == ({
                let (x, y) = (self.position_x as int, self.position_y as int);
                let t = old(out)@;
                let t = if self.scrolls_h() {
                    let (pos, len) = self.thumb_h();
                    bar_row(t, x + 1, self.bottom() - 1, self.track_h(), pos as int, len as int)
                } else {
                    t
                };
                if self.scrolls_v() {
                    let (pos, len) = self.thumb_v();
                    bar_column(t, self.right() - 1, y + 1, self.track_v(), pos as int, len as int)
                } else {
                    t
                }
            }),
    {
        let lx: u16 = self.position_x;
        let ty: u16 = self.position_y;
        let rx: u16 = lx + (self.width - 1);
        let by: u16 = ty + (self.height - 1);
        if self.has_hscroll() {
            let n: u16 = self.htrack() as u16;
            let (pos, len) = Self::scroll_thumb(n, self.content_w, self.scroll_x);
            let ghost before = out@;
            let mut i: u16 = 0;
            while i < n
                invariant
                    i <= n <= self.inner_w(),
                    1 <= by < 0xffff,
                    lx == self.position_x,
                    self.fits(),
                    pos + len <= n,
                    out@ == bar_row(before, lx + 1, by - 1, i as int, pos as int, len as int),
                decreases n - i,
            {
                move_to(out, lx + 1 + i, by - 1);
                out.push(Self::scroll_char(pos, len, i as usize));
                i = i + 1;
            }
        }
        if self.has_vscroll() {
            let n: u16 = self.vtrack() as u16;
            let (pos, len) = Self::scroll_thumb(n, self.content_h, self.scroll_y);
            let ghost before = out@;
            let mut i: u16 = 0;
            while i < n
                invariant
                    i <= n <= self.inner_h(),
                    1 <= rx < 0xffff,
                    ty == self.position_y,
                    self.fits(),
                    pos + len <= n,
                    out@ == bar_column(before, rx - 1, ty + 1, i as int, pos as int, len as int),
                decreases n - i,
            {
                move_to(out, rx - 1, ty + 1 + i);
                out.push(Self::scroll_char(pos, len, i as usize));
                i = i + 1;
            }
        }
    }

    /// Draws the frame, an empty inside and the scrollbars.
    pub fn draw(&self, out: &mut String, title: &str)
        requires
            self.fits(),
            self.inside_fits(),
        ensures
            final(out)@ == self.drawn(old(out)@, title@),
    {
        let lx: u16 = self.position_x;
        let ty: u16 = self.position_y;
        let rx: u16 = lx + (self.width - 1);
        let by: u16 = ty + (self.height - 1);
        let vw: usize = self.visible_w();
        let rows: u16 = self.height - 1;
        put_text(out, lx, ty, "┌");
        let bar = center_chars(&titled_chars(title), '─', vw);
        push_chars(out, &bar);
        out.append("┐");
        if rows > 1 {
            let mut blank = String::new();
            push_repeated(&mut blank, ' ', vw);
            assert(blank@ =~= repeated(' ', vw as int));
            put_column(out, lx + 1, ty, 1, rows, blank.as_str());
        }
        put_column(out, lx, ty, 1, rows, "│");
        put_column(out, rx, ty, 1, rows, "│");
        put_text(out, lx, by, "└");
        push_repeated(out, '─', vw);
        out.append("┘");
        self.draw_bars(out);
    }

    /// The character of the frame or of a scrollbar at `(x, y)`; nothing where the
    /// content is or outside the window.
    pub open spec fn frame_char(self, x: int, y: int, title: Seq<char>) -> Option<char> {
        let (lx, ty) = (self.position_x as int, self.position_y as int);
        let (rx, by) = (self.right(), self.bottom());
        if !(lx <= x && x <= rx && ty <= y && y <= by) {
            None
        } else if y == ty {
            if x == lx {
                Some(
                    if self.minimizable {
                        '-'
                    } else {
                        '┌'
                    },
                )
            } else if x == rx {
                Some(
                    if self.closable {
                        'x'
                    } else {
                        '┐'
                    },
                )
            } else {
                Some(centered(titled(title), '─', self.inner_w())[x - lx - 1])
            }
        } else if y == by {
            if x == lx {
                Some('└')
            } else if x == rx {
                Some('┘')
            } else {
                Some('─')
            }
        } else if x == rx || x == lx {
            Some('│')
        } else if self.scrolls_v() && x == rx - 1 {
            if self.scrolls_h() && y == by - 1 {
                Some(' ')
            } else {
                let (pos, len) = self.thumb_v();
                Some(bar_char(pos as int, len as int, y - ty - 1))
            }
        } else if self.scrolls_h() && y == by - 1 {
            let (pos, len) = self.thumb_h();
            Some(bar_char(pos as int, len as int, x - lx - 1))
        } else {
            None
        }
    }

    /// The character of the frame or of a scrollbar at `(x, y)`.
    pub fn char_at(&self, x: u16, y: u16, title: &str) -> (c: Option<char>)
        requires
            self.fits(),
        ensures
            c == self.frame_char(x as int, y as int, title@),
    {
        let lx: u16 = self.position_x;
        let ty: u16 = self.position_y;
        let rx: u16 = lx + (self.width - 1);
        let by: u16 = ty + (self.height - 1);
        if !(lx <= x && x <= rx && ty <= y && y <= by) {
            return None;
        }
        if y == ty {
            if x == lx {
                return Some(
                    if self.minimizable {
                        '-'
                    } else {
                        '┌'
                    },
                );
            }
            if x == rx {
                return Some(
                    if self.closable {
                        'x'
                    } else {
                        '┐'
                    },
                );
            }
            let bar = center_chars(&titled_chars(title), '─', self.visible_w());
            return Some(bar[(x - lx - 1) as usize]);
        }
        if y == by {
            return Some(
                if x == lx {
                    '└'
                } else if x == rx {
                    '┘'
                } else {
                    '─'
                },
            );
        }
        if x == rx || x == lx {
            return Some('│');
        }
        if self.has_vscroll() && x == rx - 1 {
            if self.has_hscroll() && y == by - 1 {
                return Some(' ');
            }
            let n: u16 = self.vtrack() as u16;
            let (pos, len) = Self::scroll_thumb(n, self.content_h, self.scroll_y);
            return Some(Self::scroll_char(pos, len, (y - ty - 1) as usize));
        }
        if self.has_hscroll() && y == by - 1 {
            let n: u16 = self.htrack() as u16;
            let (pos, len) = Self::scroll_thumb(n, self.content_w, self.scroll_x);
            return Some(Self::scroll_char(pos, len, (x - lx - 1) as usize));
        }
        None
    }

    /// Whether `(x, y)` lies on the vertical scrollbar.
    pub open spec fn on_bar_v(self, x: int, y: int) -> bool {
        &&& self.scrolls_v()
        &&& x == self.right() - 1
        &&& self.position_y < y < self.bottom()
    }

    /// Whether `(x, y)` lies on the horizontal scrollbar.
    pub open spec fn on_bar_h(self, x: int, y: int) -> bool {
        &&& self.scrolls_h()
        &&& y == self.bottom() - 1
        &&& self.position_x < x <= self.position_x + self.track_h()
    }

    /// The window after a click at `(x, y)`, and whether it took the click: the
    /// first half of a scrollbar scrolls back, the second half on.
    pub open spec fn clicked(self, x: int, y: int) -> (Window, bool) {
        if self.on_bar_v(x, y) {
            if self.scrolls_h() && y == self.bottom() - 1 {
                (self, false)
            } else {
                let scroll_y = if y < self.position_y + 1 + self.track_v() / 2 {
                    if self.scroll_y > 0 {
                        self.scroll_y - 1
                    } else {
                        0
                    }
                } else if self.scroll_y + 1 <= self.content_h - self.track_v() {
                    self.scroll_y + 1
                } else {
                    self.content_h - self.track_v()
                };
                (Window { scroll_y: scroll_y as u16, ..self }, true)
            }
        } else if self.on_bar_h(x, y) {
            let scroll_x = if x < self.position_x + 1 + self.track_h() / 2 {
                if self.scroll_x > 0 {
                    self.scroll_x - 1
                } else {
                    0
                }
            } else if self.scroll_x + 1 <= self.content_w - self.track_h() {
                self.scroll_x + 1
            } else {
                self.content_w - self.track_h()
            };
            (Window { scroll_x: scroll_x as u16, ..self }, true)
        } else {
            (self, false)
        }
    }

    /// Takes a click at `(x, y)`. Says whether it was one on a scrollbar.
    pub fn interact(&mut self, x: u16, y: u16) -> (taken: bool)
        requires
            old(self).fits(),
            old(self).inside_fits(),
            old(self).scroll_x < 0xffff,
            old(self).scroll_y < 0xffff,
        ensures
            (*final(self), taken) == old(self).clicked(x as int, y as int),
    {
        let lx: u16 = self.position_x;
        let ty: u16 = self.position_y;
        let rx: u16 = lx + (self.width - 1);
        let by: u16 = ty + (self.height - 1);
        if self.has_vscroll() && x == rx - 1 && y > ty && y < by {
            if self.has_hscroll() && y == by - 1 {
                return false;
            }
            let n: u16 = self.vtrack() as u16;
            if y < ty + 1 + n / 2 {
                self.scroll_y = self.scroll_y.saturating_sub(1);
            } else {
                self.scroll_y = min16(self.scroll_y + 1, self.content_h - n);
            }
            return true;
        }
        let n: u16 = self.htrack() as u16;
        if self.has_hscroll() && y == by - 1 && x > lx && x - lx - 1 < n {
            if x < lx + 1 + n / 2 {
                self.scroll_x = self.scroll_x.saturating_sub(1);
            } else {
                self.scroll_x = min16(self.scroll_x + 1, self.content_w - n);
            }
            return true;
        }
        false
    }

    /// The rows `1..n` of the right edge of a preview, without the corner of the
    /// frame where the two edges meet.
    pub open spec fn preview_edge(self, t: Seq<char>, new_w: u16, n: int) -> Seq<char>
        decreases n,
    {
        if n <= 1 {
            t
        } else {
            let t = self.preview_edge(t, new_w, n - 1);
            if n - 1 == self.height - 1 && new_w == self.width {
                t
            } else {
                put(t, self.position_x + new_w - 1, self.position_y + n - 1, "│"@)
            }
        }
    }

    /// The screen with the outline of the new size on it.
    pub open spec fn previewed(self, t: Seq<char>, new_w: u16, new_h: u16) -> Seq<char> {
        let (x, y) = (self.position_x as int, self.position_y as int);
        if new_w == self.width && new_h == self.height {
            t
        } else {
            let t = if new_w > self.width {
                t + move_text(self.right() + 1, y) + repeated('─', new_w - self.width - 1) + "┐"@
            } else {
                t
            };
            let t = self.preview_edge(t, new_w, new_h - 1);
            let t = if new_h > self.height {
                column(t, x, y, self.height as int, new_h - 1, "│"@)
            } else {
                t
            };
            if new_h == self.height && new_w > self.width {
                t + move_text(self.right() + 1, self.bottom()) + repeated(
                    '─',
                    new_w - self.width - 1,
                ) + "┼"@
            } else {
                put(t, x, y + new_h - 1, "└"@) + repeated('─', new_w - 2) + "┼"@
            }
        }
    }

    /// Draws the outline of the new size over the window.
    pub fn draw_preview(&self, out: &mut String, new_w: u16, new_h: u16)
        requires
            (new_w, new_h) != (self.width, self.height) ==> {
                &&& self.fits()
                &&& 2 <= new_w
                &&& 1 <= new_h
                &&& self.position_x + new_w <= 0xffff
                &&& self.position_y + new_h <= 0xffff
            },
        ensures
            final(out)@ == self.previewed(old(out)@, new_w, new_h),
    {
        if new_w == self.width && new_h == self.height {
            return;
        }
        let lx: u16 = self.position_x;
        let ty: u16 = self.position_y;
        let rx: u16 = lx + (self.width - 1);
        let by: u16 = ty + (self.height - 1);
        let new_rx: u16 = lx + (new_w - 1);
        if new_w > self.width {
            move_to(out, rx + 1, ty);
            push_repeated(out, '─', (new_w - self.width - 1) as usize);
            out.append("┐");
        }
        let ghost before = out@;
        let mut i: u16 = 1;
        while i < new_h - 1
            invariant
                1 <= i,
                i < new_h || i == 1,
                1 <= new_h,
                self.fits(),
                ty == self.position_y,
                new_rx == self.position_x + new_w - 1,
                rx == self.right(),
                new_rx < 0xffff,
                ty + new_h <= 0xffff,
                out@ == self.preview_edge(before, new_w, i as int),
            decreases new_h - i,
        {
            if !(i == self.height - 1 && new_rx == rx) {
                put_text(out, new_rx, ty + i, "│");
            }
            i = i + 1;
        }
        if new_h > self.height {
            put_column(out, lx, ty, self.height, new_h - 1, "│");
        }
        if new_h == self.height && new_w > self.width {
            move_to(out, rx + 1, by);
            push_repeated(out, '─', (new_w - self.width - 1) as usize);
            out.append("┼");
        } else {
            put_text(out, lx, ty + (new_h - 1), "└");
            push_repeated(out, '─', new_w as usize - 2);
            out.append("┼");
        }
    }
}

/// A window scrolled within its content stays so when it is clicked.
pub proof fn lemma_scroll_stays(w: Window, x: int, y: int)
    requires
        w.scroll_x <= w.content_w - w.track_h() || w.scroll_x == 0,
        w.scroll_y <= w.content_h - w.track_v() || w.scroll_y == 0,
    ensures
        ({
            let n = w.clicked(x, y).0;
            &&& n.scroll_x <= n.content_w - n.track_h() || n.scroll_x == 0
            &&& n.scroll_y <= n.content_h - n.track_v() || n.scroll_y == 0
        }),
{
}

} // verus!
