//! Terminal emulator: interprets raw bytes into a VT-style grid of cells with
//! a cursor, a scroll region, a bounded scrollback and colors.
//!
//! Scope: C0 controls, CSI cursor movement, erasing and scroll regions, SGR (8,
//! 16, 256 and true colors), the DEC private modes `?25` (cursor), `?1049`
//! (alternate screen) and `?7` (wrapping). OSC sequences are read and ignored.
//! A wide character occupies one cell.
use std::collections::VecDeque;
use vstd::prelude::*;
use crate::num::{low16, lemma_area, lemma_row_bound, lemma_row_col, max16, min16, min_len};
use crate::text::from_scalar;

verus! {

// ── Cells ────────────────────────────────────────────────────────────────────

#[derive(Clone, Copy, PartialEq, Eq, Debug, Structural)]
pub enum Color {
    Default,
    Indexed(u8),
    Rgb(u8, u8, u8),
}

/// A set of text attributes, one bit each.
#[derive(Clone, Copy, PartialEq, Eq, Debug, Structural)]
pub struct Attributes(pub u16);

impl Attributes {
    pub const BOLD: u16 = 1;

    pub const DIM: u16 = 2;

    pub const ITALIC: u16 = 4;

    pub const UNDERLINE: u16 = 8;

    pub const BLINK: u16 = 16;

    pub const REVERSE: u16 = 32;

    pub const HIDDEN: u16 = 64;

    pub const STRIKE: u16 = 128;

    /// The set with the bits of `flag` put in or taken out.
    pub open spec fn with(self, flag: u16, on: bool) -> Attributes {
        if on {
            Attributes(self.0 | flag)
        } else {
            Attributes(self.0 & !flag)
        }
    }

    /// Whether any bit of `flag` is in the set.
    pub open spec fn holds(self, flag: u16) -> bool {
        self.0 & flag != 0
    }

    /// Puts the bits of `flag` in, or takes them out.
    pub fn set(&mut self, flag: u16, on: bool)
        ensures
            *final(self) == old(self).with(flag, on),
    {
        if on {
            self.0 = self.0 | flag;
        } else {
            self.0 = self.0 & !flag;
        }
    }

    /// Whether any bit of `flag` is in the set.
    pub fn has(&self, flag: u16) -> (r: bool)
        ensures
            r == self.holds(flag),
    {
        self.0 & flag != 0
    }

    pub fn clear(&mut self)
        ensures
            *final(self) == Attributes(0),
    {
        self.0 = 0;
    }

    pub fn is_empty(&self) -> (r: bool)
        ensures
            r == (*self == Attributes(0)),
    {
        self.0 == 0
    }
}

/// After `set`, the flag is in or out as asked, and every flag apart from it is
/// as it was.
pub proof fn lemma_set_has(a: Attributes, flag: u16, on: bool, other: u16)
    requires
        flag != 0,
        flag & other == 0,
    ensures
        a.with(flag, on).holds(flag) == on,
        a.with(flag, on).holds(other) == a.holds(other),
{
    let x = a.0;
    assert((x | flag) & flag != 0) by (bit_vector)
        requires
            flag != 0,
    ;
    assert((x & !flag) & flag == 0) by (bit_vector);
    assert((x | flag) & other == x & other && (x & !flag) & other == x & other) by (bit_vector)
        requires
            flag & other == 0,
    ;
}

/// How a character is shown: foreground, background and attributes.
#[derive(Clone, Copy, PartialEq, Eq, Debug, Structural)]
pub struct Style {
    pub fg: Color,
    pub bg: Color,
    pub attrs: Attributes,
}

/// No color chosen and no attribute set.
pub open spec fn plain_style() -> Style {
    Style { fg: Color::Default, bg: Color::Default, attrs: Attributes(0) }
}

impl Default for Style {
    fn default() -> (s: Style)
        ensures
            s == plain_style(),
    {
        Style { fg: Color::Default, bg: Color::Default, attrs: Attributes(0) }
    }
}

impl Style {
    pub fn reset(&mut self)
        ensures
            *final(self) == plain_style(),
    {
        self.fg = Color::Default;
        self.bg = Color::Default;
        self.attrs.clear();
    }
}

#[derive(Clone, Copy, PartialEq, Eq, Debug, Structural)]
pub struct Cell {
    pub ch: char,
    pub style: Style,
}

/// A blank in the plain style.
pub open spec fn blank() -> Cell {
    Cell { ch: ' ', style: plain_style() }
}

impl Default for Cell {
    fn default() -> (c: Cell)
        ensures
            c == blank(),
    {
        Cell { ch: ' ', style: Style::default() }
    }
}

// ── Ranges of cells ──────────────────────────────────────────────────────────

/// `s` with the cells `from..to` set to `c`.
pub open spec fn fill_range(s: Seq<Cell>, from: int, to: int, c: Cell) -> Seq<Cell> {
    Seq::new(s.len(), |i: int| if from <= i < to { c } else { s[i] })
}

/// `s` with the cells of `from..end` moved `n` places towards `from`; the cells
/// left free at the end are blank.
pub open spec fn shift_left(s: Seq<Cell>, from: int, end: int, n: int) -> Seq<Cell> {
    Seq::new(
        s.len(),
        |i: int|
            if from <= i < end {
                if i + n < end {
                    s[i + n]
                } else {
                    blank()
                }
            } else {
                s[i]
            },
    )
}

/// `s` with the cells of `from..end` moved `n` places towards `end`; the cells
/// left free at the start are blank.
pub open spec fn shift_right(s: Seq<Cell>, from: int, end: int, n: int) -> Seq<Cell> {
    Seq::new(
        s.len(),
        |i: int|
            if from <= i < end {
                if from <= i - n {
                    s[i - n]
                } else {
                    blank()
                }
            } else {
                s[i]
            },
    )
}

/// `line` cut or filled up with blanks to `cols` cells.
pub open spec fn fit_line(line: Seq<Cell>, cols: int) -> Seq<Cell> {
    Seq::new(cols as nat, |i: int| if i < line.len() { line[i] } else { blank() })
}

/// `n` blank cells.
pub open spec fn blanks(n: int) -> Seq<Cell> {
    Seq::new(n as nat, |i: int| blank())
}

fn fill_cells(cells: &mut Vec<Cell>, from: usize, to: usize, c: Cell)
    ensures
        final(cells)@ == fill_range(old(cells)@, from as int, to as int, c),
{
    let mut i: usize = from;
    while i < to && i < cells.len()
        invariant
            from <= i,
            cells@.len() == old(cells)@.len(),
            i <= to || i == from,
            forall|k: int|
                0 <= k < cells@.len() ==> cells@[k] == (if from <= k < i {
                    c
                } else {
                    old(cells)@[k]
                }),
        decreases cells@.len() - i,
    {
        cells.set(i, c);
        i = i + 1;
    }
    assert(cells@ =~= fill_range(old(cells)@, from as int, to as int, c));
}

fn shift_cells_left(cells: &mut Vec<Cell>, from: usize, end: usize, n: usize)
    requires
        from <= end <= old(cells)@.len(),
        n <= end - from,
    ensures
        final(cells)@ == shift_left(old(cells)@, from as int, end as int, n as int),
{
    let mut i: usize = from;
    while i < end - n
        invariant
            from <= i <= end - n,
            end <= cells@.len(),
            cells@.len() == old(cells)@.len(),
            n <= end - from,
            forall|k: int|
                0 <= k < cells@.len() ==> cells@[k] == (if from <= k < i {
                    old(cells)@[k + n]
                } else {
                    old(cells)@[k]
                }),
        decreases end - n - i,
    {
        let c = cells[i + n];
        cells.set(i, c);
        i = i + 1;
    }
    let ghost mid = cells@;
    fill_cells(cells, end - n, end, Cell::default());
    assert(cells@ =~= shift_left(old(cells)@, from as int, end as int, n as int));
}

fn shift_cells_right(cells: &mut Vec<Cell>, from: usize, end: usize, n: usize)
    requires
        from <= end <= old(cells)@.len(),
        n <= end - from,
    ensures
        final(cells)@ == shift_right(old(cells)@, from as int, end as int, n as int),
{
    let mut i: usize = end;
    while i > from + n
        invariant
            from + n <= i <= end,
            end <= cells@.len(),
            cells@.len() == old(cells)@.len(),
            n <= end - from,
            forall|k: int|
                0 <= k < cells@.len() ==> cells@[k] == (if i <= k < end {
                    old(cells)@[k - n]
                } else {
                    old(cells)@[k]
                }),
        decreases i,
    {
        let c = cells[i - 1 - n];
        cells.set(i - 1, c);
        i = i - 1;
    }
    fill_cells(cells, from, from + n, Cell::default());
    assert(cells@ =~= shift_right(old(cells)@, from as int, end as int, n as int));
}

fn blank_cells(n: usize) -> (v: Vec<Cell>)
    ensures
        v@ == blanks(n as int),
{
    let mut v: Vec<Cell> = Vec::new();
    while v.len() < n
        invariant
            v@.len() <= n,
            forall|k: int| 0 <= k < v@.len() ==> v@[k] == blank(),
        decreases n - v@.len(),
    {
        v.push(Cell::default());
    }
    assert(v@ =~= blanks(n as int));
    v
}

fn copy_cells(line: &[Cell]) -> (v: Vec<Cell>)
    ensures
        v@ == line@,
{
    let mut v: Vec<Cell> = Vec::new();
    while v.len() < line.len()
        invariant
            v@.len() <= line@.len(),
            forall|k: int| 0 <= k < v@.len() ==> v@[k] == line@[k],
        decreases line@.len() - v@.len(),
    {
        v.push(line[v.len()]);
    }
    assert(v@ =~= line@);
    v
}

fn fit_cells(line: &[Cell], cols: usize) -> (v: Vec<Cell>)
    ensures
        v@ == fit_line(line@, cols as int),
{
    let mut v: Vec<Cell> = Vec::new();
    while v.len() < cols
        invariant
            v@.len() <= cols,
            forall|k: int|
                0 <= k < v@.len() ==> v@[k] == (if k < line@.len() {
                    line@[k]
                } else {
                    blank()
                }),
        decreases cols - v@.len(),
    {
        let i: usize = v.len();
        if i < line.len() {
            v.push(line[i]);
        } else {
            v.push(Cell::default());
        }
    }
    assert(v@ =~= fit_line(line@, cols as int));
    v
}

// ── SGR ──────────────────────────────────────────────────────────────────────

/// The style after one SGR parameter that stands for itself.
pub open spec fn sgr_simple(s: Style, p: u32) -> Style {
    if p == 0 {
        plain_style()
    } else if p == 1 {
        Style { attrs: s.attrs.with(Attributes::BOLD, true), ..s }
    } else if p == 2 {
        Style { attrs: s.attrs.with(Attributes::DIM, true), ..s }
    } else if p == 3 {
        Style { attrs: s.attrs.with(Attributes::ITALIC, true), ..s }
    } else if p == 4 || p == 21 {
        Style { attrs: s.attrs.with(Attributes::UNDERLINE, true), ..s }
    } else if p == 5 || p == 6 {
        Style { attrs: s.attrs.with(Attributes::BLINK, true), ..s }
    } else if p == 7 {
        Style { attrs: s.attrs.with(Attributes::REVERSE, true), ..s }
    } else if p == 8 {
        Style { attrs: s.attrs.with(Attributes::HIDDEN, true), ..s }
    } else if p == 9 {
        Style { attrs: s.attrs.with(Attributes::STRIKE, true), ..s }
    } else if p == 22 {
        Style {
            attrs: s.attrs.with(Attributes::BOLD, false).with(Attributes::DIM, false),
            ..s
        }
    } else if p == 23 {
        Style { attrs: s.attrs.with(Attributes::ITALIC, false), ..s }
    } else if p == 24 {
        Style { attrs: s.attrs.with(Attributes::UNDERLINE, false), ..s }
    } else if p == 25 {
        Style { attrs: s.attrs.with(Attributes::BLINK, false), ..s }
    } else if p == 27 {
        Style { attrs: s.attrs.with(Attributes::REVERSE, false), ..s }
    } else if p == 28 {
        Style { attrs: s.attrs.with(Attributes::HIDDEN, false), ..s }
    } else if p == 29 {
        Style { attrs: s.attrs.with(Attributes::STRIKE, false), ..s }
    } else if 30 <= p <= 37 {
        Style { fg: Color::Indexed((p - 30) as u8), ..s }
    } else if p == 39 {
        Style { fg: Color::Default, ..s }
    } else if 40 <= p <= 47 {
        Style { bg: Color::Indexed((p - 40) as u8), ..s }
    } else if p == 49 {
        Style { bg: Color::Default, ..s }
    } else if 90 <= p <= 97 {
        Style { fg: Color::Indexed((p - 82) as u8), ..s }
    } else if 100 <= p <= 107 {
        Style { bg: Color::Indexed((p - 92) as u8), ..s }
    } else {
        s
    }
}

/// A color component as SGR carries it.
pub open spec fn component(v: u32) -> u8 {
    if v > 255 {
        255
    } else {
        v as u8
    }
}

/// The color that an extended SGR parameter at `i` (38 or 48) selects, where the
/// list holds all of it.
pub open spec fn extended_color(p: Seq<u32>, i: int) -> Option<Color> {
    if i + 2 < p.len() && p[i + 1] == 5 {
        Some(Color::Indexed((p[i + 2] % 256) as u8))
    } else if i + 4 < p.len() && p[i + 1] == 2 {
        Some(Color::Rgb(component(p[i + 2]), component(p[i + 3]), component(p[i + 4])))
    } else {
        None
    }
}

/// How many entries of the list the SGR parameter at `i` takes up. An extended
/// color that is cut short takes all that is left.
pub open spec fn sgr_width(p: Seq<u32>, i: int) -> int {
    let whole: int = if p[i] == 38 || p[i] == 48 {
        if i + 1 < p.len() && p[i + 1] == 5 {
            3
        } else if i + 1 < p.len() && p[i + 1] == 2 {
            5
        } else {
            2
        }
    } else {
        1
    };
    if i + whole <= p.len() {
        whole
    } else {
        p.len() - i
    }
}

/// The style after the SGR parameter at `i`.
pub open spec fn sgr_at(s: Style, p: Seq<u32>, i: int) -> Style {
    if p[i] == 38 {
        match extended_color(p, i) {
            Some(c) => Style { fg: c, ..s },
            None => s,
        }
    } else if p[i] == 48 {
        match extended_color(p, i) {
            Some(c) => Style { bg: c, ..s },
            None => s,
        }
    } else {
        sgr_simple(s, p[i])
    }
}

/// The style after the SGR parameters from `i` on.
pub open spec fn sgr_from(s: Style, p: Seq<u32>, i: int) -> Style
    decreases p.len() - i,
{
    if i < 0 || i >= p.len() {
        s
    } else {
        sgr_from(sgr_at(s, p, i), p, i + sgr_width(p, i))
    }
}

/// Applies one SGR parameter that stands for itself.
pub fn apply_simple_sgr(style: &mut Style, p: u32)
    ensures
        *final(style) == sgr_simple(*old(style), p),
{
    match p {
        0 => style.reset(),
        1 => style.attrs.set(Attributes::BOLD, true),
        2 => style.attrs.set(Attributes::DIM, true),
        3 => style.attrs.set(Attributes::ITALIC, true),
        4 | 21 => style.attrs.set(Attributes::UNDERLINE, true),
        5 | 6 => style.attrs.set(Attributes::BLINK, true),
        7 => style.attrs.set(Attributes::REVERSE, true),
        8 => style.attrs.set(Attributes::HIDDEN, true),
        9 => style.attrs.set(Attributes::STRIKE, true),
        22 => {
            style.attrs.set(Attributes::BOLD, false);
            style.attrs.set(Attributes::DIM, false);
        },
        23 => style.attrs.set(Attributes::ITALIC, false),
        24 => style.attrs.set(Attributes::UNDERLINE, false),
        25 => style.attrs.set(Attributes::BLINK, false),
        27 => style.attrs.set(Attributes::REVERSE, false),
        28 => style.attrs.set(Attributes::HIDDEN, false),
        29 => style.attrs.set(Attributes::STRIKE, false),
        39 => style.fg = Color::Default,
        49 => style.bg = Color::Default,
        _ => {
            if 30 <= p && p <= 37 {
                style.fg = Color::Indexed((p - 30) as u8);
            } else if 40 <= p && p <= 47 {
                style.bg = Color::Indexed((p - 40) as u8);
            } else if 90 <= p && p <= 97 {
                style.fg = Color::Indexed((p - 82) as u8);
            } else if 100 <= p && p <= 107 {
                style.bg = Color::Indexed((p - 92) as u8);
            }
        },
    }
}

fn to_component(v: u32) -> (c: u8)
    ensures
        c == component(v),
{
    if v > 255 {
        255
    } else {
        v as u8
    }
}

/// Applies a list of SGR parameters to a style.
pub fn apply_sgr_list(style: &mut Style, p: &[u32])
    ensures
        *final(style) == sgr_from(*old(style), p@, 0),
{
    let mut i: usize = 0;
    while i < p.len()
        invariant
            sgr_from(*old(style), p@, 0) == sgr_from(*style, p@, i as int),
        decreases p@.len() - i,
    {
        let n: usize = p.len();
        let left: usize = n - i;
        if p[i] == 38 || p[i] == 48 {
            let mut color: Option<Color> = None;
            let mut width: usize = 2;
            if left > 1 && p[i + 1] == 5 {
                width = 3;
                if left > 2 {
                    color = Some(Color::Indexed((p[i + 2] % 256) as u8));
                }
            } else if left > 1 && p[i + 1] == 2 {
                width = 5;
                if left > 4 {
                    color = Some(
                        Color::Rgb(
                            to_component(p[i + 2]),
                            to_component(p[i + 3]),
                            to_component(p[i + 4]),
                        ),
                    );
                }
            }
            match color {
                Some(c) => {
                    if p[i] == 38 {
                        style.fg = c;
                    } else {
                        style.bg = c;
                    }
                },
                None => {},
            }
            if width >= left {
                i = n;
            } else {
                i = i + width;
            }
        } else {
            apply_simple_sgr(style, p[i]);
            i = i + 1;
        }
    }
}


// ── Terminal state ───────────────────────────────────────────────────────────

/// How many rows the scrollback keeps.
pub const DEFAULT_SCROLLBACK: usize = 4000;

/// Marks the end of a parameter among the digits of a CSI sequence.
pub const PARAM_SEP: u32 = 0xffff;

#[derive(Clone, Copy, PartialEq, Eq, Debug, Structural)]
pub struct Cursor {
    pub x: u16,
    pub y: u16,
    pub visible: bool,
}

/// What the next byte belongs to.
#[derive(Clone, Copy, PartialEq, Eq, Debug, Structural)]
pub enum ParseState {
    Ground,
    Escape,
    Csi,
    Osc,
}

/// The emulator's state, as its contracts speak of it.
#[verifier::ext_equal]
pub struct TermModel {
    pub cols: u16,
    pub rows: u16,
    /// The cells of the main screen, row after row.
    pub main: Seq<Cell>,
    /// The cells of the alternate screen, row after row.
    pub alt: Seq<Cell>,
    /// The rows that left the main screen, oldest first.
    pub scrollback: Seq<Seq<Cell>>,
    pub cursor: Cursor,
    pub saved: Cursor,
    pub style: Style,
    /// First and last row of the scroll region.
    pub top: u16,
    pub bottom: u16,
    pub alt_active: bool,
    pub wrap: bool,
    /// The cursor is past the last column: the next character starts a row.
    pub pending_wrap: bool,
    pub parse: ParseState,
    /// The digits and separators of the CSI sequence being read.
    pub params: Seq<u32>,
    pub private: Option<u8>,
    pub osc_left: usize,
    /// The bytes of a character that is not complete yet.
    pub utf8: Seq<u8>,
}

impl TermModel {
    /// Both screens fill the grid, the scroll region lies in it, and the
    /// scrollback is bounded and as wide as the grid.
    pub open spec fn wf(self) -> bool {
        &&& 2 <= self.cols
        &&& 2 <= self.rows
        &&& self.main.len() == self.cols * self.rows
        &&& self.alt.len() == self.cols * self.rows
        &&& self.top <= self.bottom < self.rows
        &&& self.cursor.x < 0xffff
        &&& self.cursor.y < 0xffff
        &&& self.saved.x < 0xffff
        &&& self.saved.y < 0xffff
        &&& self.scrollback.len() <= DEFAULT_SCROLLBACK
        &&& forall|i: int|
            0 <= i < self.scrollback.len() ==> (#[trigger] self.scrollback[i]).len() == self.cols
        &&& self.utf8.len() == 0 || self.utf8.len() < utf8_need(self.utf8[0])
    }

    /// The cursor and the saved cursor are on a cell of the grid.
    pub open spec fn on_grid(self) -> bool {
        &&& self.cursor.x < self.cols
        &&& self.cursor.y < self.rows
        &&& self.saved.x < self.cols
        &&& self.saved.y < self.rows
    }

    /// The cells of the screen that is shown.
    pub open spec fn cells(self) -> Seq<Cell> {
        if self.alt_active {
            self.alt
        } else {
            self.main
        }
    }

    pub open spec fn with_cells(self, cells: Seq<Cell>) -> TermModel {
        if self.alt_active {
            TermModel { alt: cells, ..self }
        } else {
            TermModel { main: cells, ..self }
        }
    }

    pub open spec fn with_cursor(self, x: u16, y: u16) -> TermModel {
        TermModel { cursor: Cursor { x, y, visible: self.cursor.visible }, ..self }
    }

    /// The cursor moved by a cursor command, which also gives up a pending wrap.
    pub open spec fn moved(self, x: u16, y: u16) -> TermModel {
        TermModel { pending_wrap: false, ..self.with_cursor(x, y) }
    }

    pub open spec fn total_lines(self) -> int {
        self.scrollback.len() + self.rows
    }

    /// Row `abs`, counted from the oldest row of the scrollback.
    pub open spec fn line(self, abs: int) -> Seq<Cell> {
        if abs < self.scrollback.len() {
            self.scrollback[abs]
        } else {
            let r = abs - self.scrollback.len();
            self.cells().subrange(r * self.cols, (r + 1) * self.cols)
        }
    }

    /// Row `abs` of the scrollback and the main screen, be it shown or not.
    pub open spec fn main_line(self, abs: int) -> Seq<Cell> {
        if abs < self.scrollback.len() {
            self.scrollback[abs]
        } else {
            let r = abs - self.scrollback.len();
            self.main.subrange(r * self.cols, (r + 1) * self.cols)
        }
    }

    /// Row `r` of the alternate screen.
    pub open spec fn alt_line(self, r: int) -> Seq<Cell> {
        self.alt.subrange(r * self.cols, (r + 1) * self.cols)
    }

    /// The index of the cell under the cursor.
    pub open spec fn at(self) -> int {
        self.cursor.y * self.cols + self.cursor.x
    }

    /// The cells `from..to` blanked in the current style.
    pub open spec fn filled(self, from: int, to: int) -> TermModel {
        self.with_cells(fill_range(self.cells(), from, to, Cell { ch: ' ', style: self.style }))
    }

    // ── Ground ──

    /// `lines` without the oldest ones past what the scrollback keeps.
    pub open spec fn newest(lines: Seq<Seq<Cell>>) -> Seq<Seq<Cell>> {
        if lines.len() > DEFAULT_SCROLLBACK {
            lines.subrange(lines.len() - DEFAULT_SCROLLBACK, lines.len() as int)
        } else {
            lines
        }
    }

    /// The scroll region moved up one row. The row that leaves the main screen goes
    /// to the scrollback where the region covers the whole screen.
    pub open spec fn scrolled(self) -> TermModel {
        let kept = if !self.alt_active && self.top == 0 && self.bottom == self.rows - 1 {
            TermModel {
                scrollback: Self::newest(
                    self.scrollback.push(self.main.subrange(0, self.cols as int)),
                ),
                ..self
            }
        } else {
            self
        };
        kept.with_cells(
            shift_left(
                self.cells(),
                self.top * self.cols,
                (self.bottom + 1) * self.cols,
                self.cols as int,
            ),
        )
    }

    /// The cursor one row down, scrolling at the bottom of the region.
    pub open spec fn line_fed(self) -> TermModel {
        if self.cursor.y == self.bottom {
            self.scrolled()
        } else if self.cursor.y < self.bottom {
            self.with_cursor(self.cursor.x, (self.cursor.y + 1) as u16)
        } else {
            self
        }
    }

    /// `ch` written at the cursor, and the cursor past it.
    pub open spec fn written(self, ch: char) -> TermModel {
        let m = if self.pending_wrap {
            TermModel { pending_wrap: false, ..self.with_cursor(0, self.cursor.y) }.line_fed()
        } else {
            self
        };
        let put = m.with_cells(
            fill_range(m.cells(), m.at(), m.at() + 1, Cell { ch, style: m.style }),
        );
        if m.cursor.x + 1 < m.cols {
            put.with_cursor((m.cursor.x + 1) as u16, m.cursor.y)
        } else if m.wrap {
            TermModel { pending_wrap: true, ..put }
        } else {
            put
        }
    }

    /// A C0 control.
    pub open spec fn controlled(self, b: u8) -> TermModel {
        let x = self.cursor.x;
        let y = self.cursor.y;
        if b == 0x08 {
            self.with_cursor(x.saturating_sub(1), y)
        } else if b == 0x09 {
            self.with_cursor(
                min16(low16(((x / 8 + 1) * 8) as u32), (self.cols - 1) as u16),
                y,
            )
        } else if 0x0a <= b <= 0x0c {
            self.line_fed()
        } else if b == 0x0d {
            self.moved(0, y)
        } else {
            self
        }
    }

    /// One byte of text.
    pub open spec fn fed(self, b: u8) -> TermModel {
        let u = self.utf8.push(b);
        let need = utf8_need(u[0]);
        let rest = TermModel { utf8: Seq::empty(), ..self };
        if need == 0 {
            rest
        } else if u.len() < need {
            TermModel { utf8: u, ..self }
        } else {
            match utf8_char(u) {
                Some(ch) => rest.written(ch),
                None => rest,
            }
        }
    }

    // ── Escape sequences ──

    pub open spec fn escaped(self, b: u8) -> TermModel {
        if b == 0x5b {
            TermModel { parse: ParseState::Csi, params: Seq::empty(), private: None, ..self }
        } else if b == 0x5d {
            TermModel { parse: ParseState::Osc, osc_left: 2, ..self }
        } else {
            TermModel { parse: ParseState::Ground, ..self }
        }
    }

    /// One byte of an OSC sequence, which BEL or ESC `\` ends.
    pub open spec fn osc(self, b: u8) -> TermModel {
        if b == 0x07 {
            TermModel { parse: ParseState::Ground, ..self }
        } else if b == 0x1b {
            TermModel { osc_left: 1, ..self }
        } else if self.osc_left == 1 && b == 0x5c {
            TermModel { parse: ParseState::Ground, ..self }
        } else {
            TermModel { osc_left: 0, ..self }
        }
    }

    /// One byte of a CSI sequence, which a byte in `@..~` ends.
    pub open spec fn csi(self, b: u8) -> TermModel {
        if 0x40 <= b <= 0x7e {
            let rest = TermModel { params: Seq::empty(), private: None, ..self };
            TermModel {
                parse: ParseState::Ground,
                ..rest.dispatched(param_list(self.params, None), self.private, b)
            }
        } else if 0x3c <= b <= 0x3f && self.private is None {
            TermModel { private: Some(b), ..self }
        } else if 0x30 <= b <= 0x39 {
            TermModel { params: self.params.push((b - 0x30) as u32), ..self }
        } else if b == 0x3b {
            TermModel { params: self.params.push(PARAM_SEP), ..self }
        } else {
            self
        }
    }

    pub open spec fn erased_line(self, mode: u16) -> TermModel {
        let start = self.cursor.y * self.cols;
        if mode % 3 == 0 {
            self.filled(start + self.cursor.x, start + self.cols)
        } else if mode % 3 == 1 {
            self.filled(start, start + self.cursor.x + 1)
        } else {
            self.filled(start, start + self.cols)
        }
    }

    pub open spec fn erased_display(self, mode: u16) -> TermModel {
        let total = self.cols * self.rows;
        if mode % 4 == 0 {
            self.erased_line(0).filled((self.cursor.y + 1) * self.cols, total)
        } else if mode % 4 == 1 {
            self.erased_line(1).filled(0, self.cursor.y * self.cols)
        } else if mode % 4 == 2 {
            self.filled(0, total)
        } else {
            TermModel { scrollback: Seq::empty(), ..self.filled(0, total) }
        }
    }

    /// `n` cells blanked from the cursor on.
    pub open spec fn erased_chars(self, n: int) -> TermModel {
        self.filled(self.at(), self.at() + n)
    }

    /// How many of `n` cells lie between the cursor and the end of its row.
    pub open spec fn in_row(self, n: int) -> int {
        let left: int = if self.cursor.x < self.cols {
            self.cols - self.cursor.x
        } else {
            0
        };
        if n < left {
            n
        } else {
            left
        }
    }

    /// `n` cells taken out at the cursor; the rest of the row moves left.
    pub open spec fn deleted_chars(self, n: int) -> TermModel {
        let k = self.in_row(n);
        if k == 0 || self.cursor.y >= self.rows {
            self
        } else {
            let end = (self.cursor.y + 1) * self.cols;
            self.with_cells(shift_left(self.cells(), self.at(), end, k))
        }
    }

    /// `n` blanks put in at the cursor; the rest of the row moves right.
    pub open spec fn inserted_chars(self, n: int) -> TermModel {
        let k = self.in_row(n);
        if k == 0 || self.cursor.y >= self.rows {
            self
        } else {
            let end = (self.cursor.y + 1) * self.cols;
            self.with_cells(shift_right(self.cells(), self.at(), end, k))
        }
    }

    /// The alternate screen shown blank, with the cursor in its corner.
    pub open spec fn alt_entered(self) -> TermModel {
        if self.alt_active {
            self
        } else {
            TermModel {
                alt_active: true,
                alt: blanks(self.cols * self.rows),
                cursor: Cursor { x: 0, y: 0, visible: true },
                ..self
            }
        }
    }

    /// The main screen shown again, with the saved cursor.
    pub open spec fn alt_left(self) -> TermModel {
        if self.alt_active {
            TermModel { alt_active: false, cursor: self.saved, ..self }
        } else {
            self
        }
    }

    /// One DEC private mode switched on or off.
    pub open spec fn mode_set(self, p: u32, on: bool) -> TermModel {
        if p == 25 {
            TermModel { cursor: Cursor { visible: on, ..self.cursor }, ..self }
        } else if p == 1049 {
            if on {
                self.alt_entered()
            } else {
                self.alt_left()
            }
        } else if p == 7 {
            TermModel { wrap: on, ..self }
        } else {
            self
        }
    }

    /// The modes of `p` switched on or off, from the first to the last.
    pub open spec fn modes_set(self, p: Seq<u32>, on: bool) -> TermModel
        decreases p.len(),
    {
        if p.len() == 0 {
            self
        } else {
            self.modes_set(p.drop_last(), on).mode_set(p.last(), on)
        }
    }

    /// The scroll region set to the rows `top..=bottom`, counted from 0.
    pub open spec fn region_set(self, top: u16, bottom: u16) -> TermModel {
        let last = (self.rows - 1) as u16;
        let t = min16(top, last);
        TermModel { top: t, bottom: max16(min16(bottom, last), t), ..self.with_cursor(0, 0) }
    }

    /// A complete CSI sequence: its parameters, its private mark and its last byte.
    pub open spec fn dispatched(self, p: Seq<u32>, private: Option<u8>, b: u8) -> TermModel {
        let x = self.cursor.x;
        let y = self.cursor.y;
        let last_x = (self.cols - 1) as u16;
        let last_y = (self.rows - 1) as u16;
        let n = max16(param_or(p, 0, 1), 1);
        if b == 0x6d {  // m
            TermModel { style: sgr_from(self.style, p, 0), ..self }
        } else if b == 0x48 || b == 0x66 {  // H f
            self.moved(
                min16(param_or(p, 1, 1).saturating_sub(1), last_x),
                min16(param_or(p, 0, 1).saturating_sub(1), last_y),
            )
        } else if b == 0x41 {  // A
            self.moved(x, y.saturating_sub(n))
        } else if b == 0x42 {  // B
            self.moved(x, min16(y.saturating_add(n), last_y))
        } else if b == 0x43 {  // C
            self.moved(min16(x.saturating_add(n), last_x), y)
        } else if b == 0x44 {  // D
            self.moved(x.saturating_sub(n), y)
        } else if b == 0x45 {  // E
            self.moved(0, min16(y.saturating_add(n), last_y))
        } else if b == 0x46 {  // F
            self.moved(0, y.saturating_sub(n))
        } else if b == 0x47 || b == 0x60 {  // G `
            self.with_cursor(min16(param_or(p, 0, 1).saturating_sub(1), last_x), y)
        } else if b == 0x64 {  // d
            self.with_cursor(x, min16(param_or(p, 0, 1).saturating_sub(1), last_y))
        } else if b == 0x4a {  // J
            self.erased_display(param_or(p, 0, 0))
        } else if b == 0x4b {  // K
            self.erased_line(param_or(p, 0, 0))
        } else if b == 0x58 {  // X
            self.erased_chars(n as int)
        } else if b == 0x50 {  // P
            self.deleted_chars(n as int)
        } else if b == 0x40 {  // @
            self.inserted_chars(n as int)
        } else if b == 0x72 {  // r
            self.region_set(
                param_or(p, 0, 1).saturating_sub(1),
                param_or(p, 1, self.rows).saturating_sub(1),
            )
        } else if b == 0x73 {  // s
            TermModel { saved: self.cursor, ..self }
        } else if b == 0x75 {  // u
            TermModel { cursor: self.saved, ..self }
        } else if (b == 0x68 || b == 0x6c) && private == Some(0x3fu8) {  // h l
            self.modes_set(p, b == 0x68)
        } else {
            self
        }
    }

    // ── Bytes ──

    /// One byte of output.
    pub open spec fn step(self, b: u8) -> TermModel {
        match self.parse {
            ParseState::Ground => {
                if b == 0x1b {
                    TermModel { parse: ParseState::Escape, ..self }
                } else if b < 0x20 || b == 0x7f {
                    self.controlled(b)
                } else {
                    self.fed(b)
                }
            },
            ParseState::Escape => self.escaped(b),
            ParseState::Csi => self.csi(b),
            ParseState::Osc => self.osc(b),
        }
    }

    /// A chunk of output, byte after byte.
    pub open spec fn run(self, bytes: Seq<u8>) -> TermModel
        decreases bytes.len(),
    {
        if bytes.len() == 0 {
            self
        } else {
            self.run(bytes.drop_last()).step(bytes.last())
        }
    }

    // ── Resizing ──

    /// Every row of the scrollback and the main screen, each cut or filled up to
    /// `cols` cells.
    pub open spec fn fitted(self, cols: u16) -> Seq<Seq<Cell>> {
        Seq::new(self.total_lines() as nat, |i: int| fit_line(self.main_line(i), cols as int))
    }

    /// The row of the scrollback and screen together that the cursor is on.
    pub open spec fn cursor_line(self) -> int {
        self.scrollback.len() + self.cursor.y
    }

    /// The first row that a screen of `rows` rows shows: the last `rows` rows are
    /// shown.
    pub open spec fn first_shown(self, rows: u16) -> int {
        if self.total_lines() > rows {
            self.total_lines() - rows
        } else {
            0
        }
    }

    /// The rows of the alternate screen, each cut or filled up to `cols` cells.
    pub open spec fn alt_fitted(self, cols: u16) -> Seq<Seq<Cell>> {
        Seq::new(self.rows as nat, |r: int| fit_line(self.alt_line(r), cols as int))
    }

    /// The first row of the alternate screen that `rows` rows show of it: the last
    /// ones are shown.
    pub open spec fn alt_first_shown(self, rows: u16) -> int {
        if self.rows > rows {
            self.rows - rows
        } else {
            0
        }
    }

    /// How many rows the cursor is behind the first row of the screen that is shown
    /// once it has `rows` rows.
    pub open spec fn cursor_behind(self, rows: u16) -> int {
        if self.alt_active {
            self.cursor.y - self.alt_first_shown(rows)
        } else {
            self.cursor_line() - self.first_shown(rows)
        }
    }

    /// A screen of `rows` rows that shows the rows of `lines` from `start` on.
    pub open spec fn screen_of(
        lines: Seq<Seq<Cell>>,
        start: int,
        cols: u16,
        rows: u16,
    ) -> Seq<Cell> {
        Seq::new(
            (cols * rows) as nat,
            |k: int|
                if start + k / (cols as int) < lines.len() {
                    lines[start + k / (cols as int)][k % (cols as int)]
                } else {
                    blank()
                },
        )
    }

    /// The grid resized. Nothing is rewrapped: the main screen is folded into the
    /// scrollback, each row is cut or filled up, and the last rows are on the screen.
    /// An alternate screen that is shown keeps its last rows; none of them goes to the
    /// scrollback.
    pub open spec fn resized(self, cols: u16, rows: u16) -> TermModel {
        let c = max16(cols, 2);
        let r = max16(rows, 2);
        if c == self.cols && r == self.rows {
            self
        } else {
            let all = self.fitted(c);
            let start = self.first_shown(r);
            let behind = self.cursor_behind(r);
            let y: int = if behind < 0 {
                0
            } else if behind < r - 1 {
                behind
            } else {
                r - 1
            };
            TermModel {
                cols: c,
                rows: r,
                main: Self::screen_of(all, start, c, r),
                alt: if self.alt_active {
                    Self::screen_of(self.alt_fitted(c), self.alt_first_shown(r), c, r)
                } else {
                    blanks(c * r)
                },
                scrollback: Self::newest(all.subrange(0, start)),
                cursor: Cursor {
                    x: min16(self.cursor.x, (c - 1) as u16),
                    y: y as u16,
                    visible: self.cursor.visible,
                },
                top: 0,
                bottom: (r - 1) as u16,
                pending_wrap: false,
                parse: ParseState::Ground,
                params: Seq::empty(),
                private: None,
                utf8: Seq::empty(),
                ..self
            }
        }
    }

    /// A fresh emulator.
    pub open spec fn fresh(cols: u16, rows: u16) -> TermModel {
        let c = max16(cols, 2);
        let r = max16(rows, 2);
        TermModel {
            cols: c,
            rows: r,
            main: blanks(c * r),
            alt: blanks(c * r),
            scrollback: Seq::empty(),
            cursor: Cursor { x: 0, y: 0, visible: true },
            saved: Cursor { x: 0, y: 0, visible: true },
            style: plain_style(),
            top: 0,
            bottom: (r - 1) as u16,
            alt_active: false,
            wrap: true,
            pending_wrap: false,
            parse: ParseState::Ground,
            params: Seq::empty(),
            private: None,
            osc_left: 0,
            utf8: Seq::empty(),
        }
    }
}

/// How many bytes the character that starts with `b` takes, 0 where none does.
pub open spec fn utf8_need(b: u8) -> int {
    if b <= 0x7f {
        1
    } else if 0xc2 <= b <= 0xdf {
        2
    } else if 0xe0 <= b <= 0xef {
        3
    } else if 0xf0 <= b <= 0xf4 {
        4
    } else {
        0
    }
}

pub open spec fn is_continuation(b: u8) -> bool {
    0x80 <= b < 0xc0
}

/// The character that the bytes `u` spell.
pub open spec fn utf8_char(u: Seq<u8>) -> Option<char> {
    if u.len() == 1 {
        Some(u[0] as char)
    } else if u.len() == 2 {
        if is_continuation(u[1]) {
            from_scalar(((u[0] % 32) * 64 + u[1] % 64) as u32)
        } else {
            None
        }
    } else if u.len() == 3 {
        if is_continuation(u[1]) && is_continuation(u[2]) {
            from_scalar(((u[0] % 16) * 4096 + (u[1] % 64) * 64 + u[2] % 64) as u32)
        } else {
            None
        }
    } else {
        if is_continuation(u[1]) && is_continuation(u[2]) && is_continuation(u[3]) {
            from_scalar(
                ((u[0] % 8) * 262144 + (u[1] % 64) * 4096 + (u[2] % 64) * 64 + u[3] % 64) as u32,
            )
        } else {
            None
        }
    }
}

/// The parameters that digits and separators spell; `cur` is the one begun. A
/// number too large for 32 bits wraps around.
pub open spec fn param_list(t: Seq<u32>, cur: Option<u32>) -> Seq<u32>
    decreases t.len(),
{
    let so_far = match cur {
        Some(v) => v,
        None => 0u32,
    };
    if t.len() == 0 {
        match cur {
            Some(v) => seq![v],
            None => Seq::empty(),
        }
    } else if t[0] == PARAM_SEP {
        seq![so_far] + param_list(t.drop_first(), None)
    } else {
        param_list(t.drop_first(), Some(so_far.wrapping_mul(10).wrapping_add(t[0])))
    }
}

/// Parameter `i`, or `default` where it is missing or 0.
pub open spec fn param_or(p: Seq<u32>, i: int, default: u16) -> u16 {
    if i < p.len() && p[i] != 0 {
        low16(p[i])
    } else {
        default
    }
}

/// A terminal: two screens, a scrollback and the state of the byte parser.
pub struct Terminal {
    cols: u16,
    rows: u16,
    main: Vec<Cell>,
    alt: Vec<Cell>,
    scrollback: VecDeque<Vec<Cell>>,
    cursor: Cursor,
    saved_cursor: Cursor,
    style: Style,
    scroll_region_top: u16,
    scroll_region_bottom: u16,
    alt_active: bool,
    wrap: bool,
    pending_wrap: bool,
    parse: ParseState,
    params: Vec<u32>,
    private: Option<u8>,
    osc_left: usize,
    utf8_pending: Vec<u8>,
}

impl View for Terminal {
    type V = TermModel;

    closed spec fn view(&self) -> TermModel {
        TermModel {
            cols: self.cols,
            rows: self.rows,
            main: self.main@,
            alt: self.alt@,
            scrollback: Seq::new(self.scrollback@.len(), |i: int| self.scrollback@[i]@),
            cursor: self.cursor,
            saved: self.saved_cursor,
            style: self.style,
            top: self.scroll_region_top,
            bottom: self.scroll_region_bottom,
            alt_active: self.alt_active,
            wrap: self.wrap,
            pending_wrap: self.pending_wrap,
            parse: self.parse,
            params: self.params@,
            private: self.private,
            osc_left: self.osc_left,
            utf8: self.utf8_pending@,
        }
    }
}

impl Terminal {
    /// The emulator is in one of the states that its methods lead to.
    pub open spec fn wf(&self) -> bool {
        self@.wf()
    }

    /// A blank terminal of at least two columns and rows.
    pub fn new(cols: u16, rows: u16) -> (t: Terminal)
        ensures
            t@ == TermModel::fresh(cols, rows),
            t.wf(),
    {
        let c: u16 = max16(cols, 2);
        let r: u16 = max16(rows, 2);
        proof {
            lemma_area(c as int, r as int);
        }
        let n: usize = c as usize * r as usize;
        let t = Terminal {
            cols: c,
            rows: r,
            main: blank_cells(n),
            alt: blank_cells(n),
            scrollback: VecDeque::new(),
            cursor: Cursor { x: 0, y: 0, visible: true },
            saved_cursor: Cursor { x: 0, y: 0, visible: true },
            style: Style::default(),
            scroll_region_top: 0,
            scroll_region_bottom: r - 1,
            alt_active: false,
            wrap: true,
            pending_wrap: false,
            parse: ParseState::Ground,
            params: Vec::new(),
            private: None,
            osc_left: 0,
            utf8_pending: Vec::new(),
        };
        assert(t@ =~= TermModel::fresh(cols, rows));
        t
    }

    pub fn cols(&self) -> (n: u16)
        ensures
            n == self@.cols,
    {
        self.cols
    }

    pub fn rows(&self) -> (n: u16)
        ensures
            n == self@.rows,
    {
        self.rows
    }

    /// How many rows have left the main screen and are kept.
    pub fn scrollback_len(&self) -> (n: usize)
        ensures
            n == self@.scrollback.len(),
    {
        self.scrollback.len()
    }

    /// The rows of the scrollback and of the screen together.
    pub fn total_lines(&self) -> (n: usize)
        requires
            self.wf(),
        ensures
            n == self@.total_lines(),
    {
        self.scrollback.len() + self.rows as usize
    }

    /// Row `abs`, counted from the oldest. The first `scrollback_len()` rows are
    /// the scrollback, the others the screen.
    pub fn line_at(&self, abs: usize) -> (line: &[Cell])
        requires
            self.wf(),
            abs < self@.total_lines(),
        ensures
            line@ == self@.line(abs as int),
            line@.len() == self@.cols,
    {
        let n: usize = self.scrollback.len();
        if abs < n {
            assert(self@.scrollback[abs as int].len() == self@.cols);
            self.scrollback[abs].as_slice()
        } else {
            let r: usize = abs - n;
            if self.alt_active {
                row_of(self.alt.as_slice(), r, self.cols, self.rows)
            } else {
                row_of(self.main.as_slice(), r, self.cols, self.rows)
            }
        }
    }

    /// The cursor's column and row on the screen, counted from 0.
    pub fn cursor_pos(&self) -> (p: (u16, u16))
        ensures
            p == (self@.cursor.x, self@.cursor.y),
    {
        (self.cursor.x, self.cursor.y)
    }

    pub fn cursor_visible(&self) -> (r: bool)
        ensures
            r == self@.cursor.visible,
    {
        self.cursor.visible
    }

    /// The characters of row `abs`.
    pub fn line_as_text(&self, abs: usize) -> (s: String)
        requires
            self.wf(),
            abs < self@.total_lines(),
        ensures
            s@ == self@.line(abs as int).map_values(|c: Cell| c.ch),
    {
        let line = self.line_at(abs);
        let mut s = String::new();
        let mut i: usize = 0;
        while i < line.len()
            invariant
                i <= line@.len(),
                s@ == line@.take(i as int).map_values(|c: Cell| c.ch),
            decreases line@.len() - i,
        {
            s.push(line[i].ch);
            assert(line@.take(i + 1).map_values(|c: Cell| c.ch) =~= line@.take(
                i as int,
            ).map_values(|c: Cell| c.ch).push(line@[i as int].ch));
            i = i + 1;
        }
        assert(line@.take(i as int) =~= line@);
        s
    }
}

impl Terminal {
    /// Feeds a chunk of raw output bytes. Where a chunk ends does not matter: an
    /// escape sequence or a character may go on in the next one.
    pub fn process(&mut self, bytes: &[u8])
        requires
            old(self).wf(),
        ensures
            final(self)@ == old(self)@.run(bytes@),
            final(self).wf(),
    {
        let mut i: usize = 0;
        assert(bytes@.take(0) =~= Seq::empty());
        while i < bytes.len()
            invariant
                i <= bytes@.len(),
                self.wf(),
                self@ == old(self)@.run(bytes@.take(i as int)),
            decreases bytes@.len() - i,
        {
            let b: u8 = bytes[i];
            match self.parse {
                ParseState::Ground => {
                    if b == 0x1b {
                        self.parse = ParseState::Escape;
                    } else if b < 0x20 || b == 0x7f {
                        self.control(b);
                    } else {
                        self.feed_utf8(b);
                    }
                },
                ParseState::Escape => self.escape(b),
                ParseState::Csi => self.csi_byte(b),
                ParseState::Osc => self.osc_byte(b),
            }
            proof {
                let next = bytes@.take(i + 1);
                assert(next.drop_last() =~= bytes@.take(i as int));
                assert(next.last() == b);
                assert(self@ =~= old(self)@.run(bytes@.take(i as int)).step(b));
            }
            i = i + 1;
        }
        assert(bytes@.take(i as int) =~= bytes@);
    }

    // ── Ground ──

    fn control(&mut self, b: u8)
        requires
            old(self).wf(),
        ensures
            final(self)@ == old(self)@.controlled(b),
            final(self).wf(),
    {
        match b {
            0x08 => self.cursor.x = self.cursor.x.saturating_sub(1),
            0x09 => {
                let next: u32 = (self.cursor.x as u32 / 8 + 1) * 8;
                self.cursor.x = min16(low16(next), self.cols - 1);
            },
            0x0a | 0x0b | 0x0c => self.line_feed(),
            0x0d => {
                self.cursor.x = 0;
                self.pending_wrap = false;
            },
            _ => {},
        }
        assert(self@ =~= old(self)@.controlled(b));
    }

    fn feed_utf8(&mut self, b: u8)
        requires
            old(self).wf(),
        ensures
            final(self)@ == old(self)@.fed(b),
            final(self).wf(),
    {
        self.utf8_pending.push(b);
        let ghost u = self.utf8_pending@;
        let first: u8 = self.utf8_pending[0];
        let need: usize = if first <= 0x7f {
            1
        } else if 0xc2 <= first && first <= 0xdf {
            2
        } else if 0xe0 <= first && first <= 0xef {
            3
        } else if 0xf0 <= first && first <= 0xf4 {
            4
        } else {
            0
        };
        if need == 0 {
            self.utf8_pending.clear();
            assert(self@ =~= old(self)@.fed(b));
            return ;
        }
        if self.utf8_pending.len() < need {
            assert(self@ =~= old(self)@.fed(b));
            return ;
        }
        let ch = decode_utf8(&self.utf8_pending);
        self.utf8_pending.clear();
        let ghost rest = TermModel { utf8: Seq::empty(), ..old(self)@ };
        assert(self@ =~= rest);
        match ch {
            Some(c) => self.write_char(c),
            None => {},
        }
    }

    fn write_char(&mut self, ch: char)
        requires
            old(self).wf(),
        ensures
            final(self)@ == old(self)@.written(ch),
            final(self).wf(),
    {
        if self.pending_wrap {
            self.pending_wrap = false;
            self.cursor.x = 0;
            assert(self@ =~= TermModel {
                pending_wrap: false,
                ..old(self)@.with_cursor(0, old(self)@.cursor.y)
            });
            self.line_feed();
        }
        let ghost m = self@;
        proof {
            lemma_area(self.cursor.y as int, self.cols as int);
        }
        let at: usize = self.cursor.y as usize * self.cols as usize + self.cursor.x as usize;
        let cell = Cell { ch, style: self.style };
        if self.alt_active {
            fill_cells(&mut self.alt, at, at + 1, cell);
        } else {
            fill_cells(&mut self.main, at, at + 1, cell);
        }
        assert(self@ =~= m.with_cells(fill_range(m.cells(), m.at(), m.at() + 1, cell)));
        if self.cursor.x + 1 < self.cols {
            self.cursor.x = self.cursor.x + 1;
        } else if self.wrap {
            self.pending_wrap = true;
        }
        assert(self@ =~= old(self)@.written(ch));
    }

    /// The cursor one row down; at the bottom of the region the region scrolls.
    fn line_feed(&mut self)
        requires
            old(self).wf(),
        ensures
            final(self)@ == old(self)@.line_fed(),
            final(self).wf(),
            final(self)@.cursor.x == old(self)@.cursor.x,
            final(self)@.cols == old(self)@.cols,
    {
        if self.cursor.y == self.scroll_region_bottom {
            self.scroll_up();
        } else if self.cursor.y < self.scroll_region_bottom {
            self.cursor.y = self.cursor.y + 1;
        }
        assert(self@ =~= old(self)@.line_fed());
    }

    fn scroll_up(&mut self)
        requires
            old(self).wf(),
        ensures
            final(self)@ == old(self)@.scrolled(),
            final(self).wf(),
    {
        let top: usize = self.scroll_region_top as usize;
        let bottom: usize = self.scroll_region_bottom as usize;
        let cols: usize = self.cols as usize;
        proof {
            let rows = self.rows as int;
            lemma_area(self.rows as int, cols as int);
            lemma_row_bound(top as int, rows, cols as int);
            lemma_row_bound(bottom as int, rows, cols as int);
            assert(rows * cols == self.cols * self.rows) by (nonlinear_arith)
                requires
                    cols == self.cols as usize,
                    rows == self.rows as int,
            ;
            assert(top * cols + cols <= (bottom + 1) * cols) by (nonlinear_arith)
                requires
                    top <= bottom,
            ;
        }
        if !self.alt_active && top == 0 && bottom == self.rows as usize - 1 {
            let line = copy_cells(
                vstd::slice::slice_subrange(self.main.as_slice(), 0, cols),
            );
            self.push_scrollback(line);
        }
        let ghost kept = self@;
        if self.alt_active {
            shift_cells_left(&mut self.alt, top * cols, (bottom + 1) * cols, cols);
        } else {
            shift_cells_left(&mut self.main, top * cols, (bottom + 1) * cols, cols);
        }
        assert(self@ =~= old(self)@.scrolled());
    }

    fn push_scrollback(&mut self, line: Vec<Cell>)
        requires
            old(self).wf(),
            line@.len() == old(self)@.cols,
        ensures
            final(self)@ == (TermModel {
                scrollback: TermModel::newest(old(self)@.scrollback.push(line@)),
                ..old(self)@
            }),
            final(self).wf(),
    {
        self.scrollback.push_back(line);
        assert(self@.scrollback =~= old(self)@.scrollback.push(line@));
        let ghost full = self@.scrollback;
        if self.scrollback.len() > DEFAULT_SCROLLBACK {
            let _ = self.scrollback.pop_front();
            assert(self@.scrollback =~= full.subrange(1, full.len() as int));
        }
        assert(self@.scrollback =~= TermModel::newest(full));
    }

    // ── Escape sequences ──

    fn escape(&mut self, b: u8)
        requires
            old(self).wf(),
        ensures
            final(self)@ == old(self)@.escaped(b),
            final(self).wf(),
    {
        match b {
            0x5b => {
                self.parse = ParseState::Csi;
                self.params = Vec::new();
                self.private = None;
            },
            0x5d => {
                self.parse = ParseState::Osc;
                self.osc_left = 2;
            },
            _ => self.parse = ParseState::Ground,
        }
        assert(self@ =~= old(self)@.escaped(b));
    }

    fn osc_byte(&mut self, b: u8)
        requires
            old(self).wf(),
        ensures
            final(self)@ == old(self)@.osc(b),
            final(self).wf(),
    {
        if b == 0x07 {
            self.parse = ParseState::Ground;
        } else if b == 0x1b {
            self.osc_left = 1;
        } else if self.osc_left == 1 && b == 0x5c {
            self.parse = ParseState::Ground;
        } else {
            self.osc_left = 0;
        }
        assert(self@ =~= old(self)@.osc(b));
    }

    fn csi_byte(&mut self, b: u8)
        requires
            old(self).wf(),
        ensures
            final(self)@ == old(self)@.csi(b),
            final(self).wf(),
    {
        if 0x40 <= b && b <= 0x7e {
            let params = params_of(&self.params);
            let private = self.private;
            self.params = Vec::new();
            self.private = None;
            let ghost rest = TermModel { params: Seq::empty(), private: None, ..old(self)@ };
            assert(self@ =~= rest);
            self.dispatch_csi(&params, private, b);
            self.parse = ParseState::Ground;
        } else if 0x3c <= b && b <= 0x3f && self.private.is_none() {
            self.private = Some(b);
        } else if 0x30 <= b && b <= 0x39 {
            self.params.push((b - 0x30) as u32);
        } else if b == 0x3b {
            self.params.push(PARAM_SEP);
        }
        assert(self@ =~= old(self)@.csi(b));
    }

    fn dispatch_csi(&mut self, p: &[u32], private: Option<u8>, b: u8)
        requires
            old(self).wf(),
        ensures
            final(self)@ == old(self)@.dispatched(p@, private, b),
            final(self).wf(),
    {
        let first: u16 = param(p, 0, 1);
        let n: u16 = max16(first, 1);
        let last_x: u16 = self.cols - 1;
        let last_y: u16 = self.rows - 1;
        match b {
            0x6d => apply_sgr_list(&mut self.style, p),
            0x48 | 0x66 => {
                let row: u16 = first.saturating_sub(1);
                let col: u16 = param(p, 1, 1).saturating_sub(1);
                self.move_to(min16(col, last_x), min16(row, last_y));
            },
            0x41 => self.move_to(self.cursor.x, self.cursor.y.saturating_sub(n)),
            0x42 => self.move_to(self.cursor.x, min16(self.cursor.y.saturating_add(n), last_y)),
            0x43 => self.move_to(min16(self.cursor.x.saturating_add(n), last_x), self.cursor.y),
            0x44 => self.move_to(self.cursor.x.saturating_sub(n), self.cursor.y),
            0x45 => self.move_to(0, min16(self.cursor.y.saturating_add(n), last_y)),
            0x46 => self.move_to(0, self.cursor.y.saturating_sub(n)),
            0x47 | 0x60 => self.cursor.x = min16(first.saturating_sub(1), last_x),
            0x64 => self.cursor.y = min16(first.saturating_sub(1), last_y),
            0x4a => self.erase_display(param(p, 0, 0)),
            0x4b => self.erase_line(param(p, 0, 0)),
            0x58 => self.erase_chars(n),
            0x50 => self.delete_chars(n),
            0x40 => self.insert_chars(n),
            0x72 => {
                let bottom: u16 = param(p, 1, self.rows).saturating_sub(1);
                self.scroll_region_top = min16(first.saturating_sub(1), last_y);
                self.scroll_region_bottom = max16(min16(bottom, last_y), self.scroll_region_top);
                self.cursor.x = 0;
                self.cursor.y = 0;
            },
            0x73 => self.saved_cursor = self.cursor,
            0x75 => self.cursor = self.saved_cursor,
            0x68 | 0x6c => {
                if private == Some(0x3f) {
                    self.set_modes(p, b == 0x68);
                }
            },
            _ => {},
        }
        assert(self@ =~= old(self)@.dispatched(p@, private, b));
    }

    fn set_modes(&mut self, p: &[u32], on: bool)
        requires
            old(self).wf(),
        ensures
            final(self)@ == old(self)@.modes_set(p@, on),
            final(self).wf(),
    {
        let mut i: usize = 0;
        assert(p@.take(0) =~= Seq::empty());
        while i < p.len()
            invariant
                i <= p@.len(),
                self.wf(),
                self@ == old(self)@.modes_set(p@.take(i as int), on),
            decreases p@.len() - i,
        {
            match p[i] {
                25 => self.cursor.visible = on,
                1049 => {
                    if on {
                        self.enter_alt();
                    } else {
                        self.leave_alt();
                    }
                },
                7 => self.wrap = on,
                _ => {},
            }
            proof {
                let next = p@.take(i + 1);
                assert(next.drop_last() =~= p@.take(i as int));
                assert(self@ =~= old(self)@.modes_set(p@.take(i as int), on).mode_set(
                    p@[i as int],
                    on,
                ));
            }
            i = i + 1;
        }
        assert(p@.take(i as int) =~= p@);
    }

    fn move_to(&mut self, x: u16, y: u16)
        requires
            old(self).wf(),
            x < 0xffff,
            y < 0xffff,
        ensures
            final(self)@ == old(self)@.moved(x, y),
            final(self).wf(),
    {
        self.cursor.x = x;
        self.cursor.y = y;
        self.pending_wrap = false;
        assert(self@ =~= old(self)@.moved(x, y));
    }

    // ── Erasing ──

    fn fill(&mut self, from: usize, to: usize)
        requires
            old(self).wf(),
        ensures
            final(self)@ == old(self)@.filled(from as int, to as int),
            final(self).wf(),
    {
        let cell = Cell { ch: ' ', style: self.style };
        if self.alt_active {
            fill_cells(&mut self.alt, from, to, cell);
        } else {
            fill_cells(&mut self.main, from, to, cell);
        }
        assert(self@ =~= old(self)@.filled(from as int, to as int));
    }

    fn erase_line(&mut self, mode: u16)
        requires
            old(self).wf(),
        ensures
            final(self)@ == old(self)@.erased_line(mode),
            final(self).wf(),
    {
        proof {
            lemma_area(self.cursor.y as int, self.cols as int);
        }
        let x: usize = self.cursor.x as usize;
        let cols: usize = self.cols as usize;
        let start: usize = self.cursor.y as usize * cols;
        match mode % 3 {
            0 => self.fill(start + x, start + cols),
            1 => self.fill(start, start + x + 1),
            _ => self.fill(start, start + cols),
        }
    }

    fn erase_display(&mut self, mode: u16)
        requires
            old(self).wf(),
        ensures
            final(self)@ == old(self)@.erased_display(mode),
            final(self).wf(),
    {
        proof {
            lemma_area(self.cursor.y as int, self.cols as int);
            lemma_area(self.cursor.y + 1, self.cols as int);
            lemma_area(self.cols as int, self.rows as int);
        }
        let y: usize = self.cursor.y as usize;
        let cols: usize = self.cols as usize;
        let total: usize = cols * self.rows as usize;
        match mode % 4 {
            0 => {
                self.erase_line(0);
                self.fill((y + 1) * cols, total);
            },
            1 => {
                self.erase_line(1);
                self.fill(0, y * cols);
            },
            2 => self.fill(0, total),
            _ => {
                self.fill(0, total);
                self.scrollback.clear();
            },
        }
        assert(self@ =~= old(self)@.erased_display(mode));
    }

    /// ECH: blanks `n` cells at the cursor, which stays.
    fn erase_chars(&mut self, n: u16)
        requires
            old(self).wf(),
        ensures
            final(self)@ == old(self)@.erased_chars(n as int),
            final(self).wf(),
    {
        proof {
            lemma_cursor_room(self.cursor, self.cols);
        }
        let at: usize = self.cursor.y as usize * self.cols as usize + self.cursor.x as usize;
        self.fill(at, at + n as usize);
    }

    /// How many of `n` cells lie between the cursor and the end of its row.
    fn cells_in_row(&self, n: u16) -> (k: usize)
        requires
            self.wf(),
        ensures
            k == self@.in_row(n as int),
    {
        let x: usize = self.cursor.x as usize;
        let cols: usize = self.cols as usize;
        if x < cols {
            min_len(n as usize, cols - x)
        } else {
            0
        }
    }

    /// DCH: takes out `n` cells at the cursor.
    fn delete_chars(&mut self, n: u16)
        requires
            old(self).wf(),
        ensures
            final(self)@ == old(self)@.deleted_chars(n as int),
            final(self).wf(),
    {
        let k: usize = self.cells_in_row(n);
        if k == 0 || self.cursor.y >= self.rows {
            return ;
        }
        proof {
            lemma_cursor_row(self.cursor, self.cols, self.rows);
        }
        let cols: usize = self.cols as usize;
        let at: usize = self.cursor.y as usize * cols + self.cursor.x as usize;
        let end: usize = (self.cursor.y as usize + 1) * cols;
        if self.alt_active {
            shift_cells_left(&mut self.alt, at, end, k);
        } else {
            shift_cells_left(&mut self.main, at, end, k);
        }
        assert(self@ =~= old(self)@.deleted_chars(n as int));
    }

    /// ICH: puts in `n` blank cells at the cursor.
    fn insert_chars(&mut self, n: u16)
        requires
            old(self).wf(),
        ensures
            final(self)@ == old(self)@.inserted_chars(n as int),
            final(self).wf(),
    {
        let k: usize = self.cells_in_row(n);
        if k == 0 || self.cursor.y >= self.rows {
            return ;
        }
        proof {
            lemma_cursor_row(self.cursor, self.cols, self.rows);
        }
        let cols: usize = self.cols as usize;
        let at: usize = self.cursor.y as usize * cols + self.cursor.x as usize;
        let end: usize = (self.cursor.y as usize + 1) * cols;
        if self.alt_active {
            shift_cells_right(&mut self.alt, at, end, k);
        } else {
            shift_cells_right(&mut self.main, at, end, k);
        }
        assert(self@ =~= old(self)@.inserted_chars(n as int));
    }

    // ── Alternate screen ──

    fn enter_alt(&mut self)
        requires
            old(self).wf(),
        ensures
            final(self)@ == old(self)@.alt_entered(),
            final(self).wf(),
    {
        if self.alt_active {
            return ;
        }
        proof {
            lemma_area(self.cols as int, self.rows as int);
        }
        self.alt_active = true;
        self.alt = blank_cells(self.cols as usize * self.rows as usize);
        self.cursor = Cursor { x: 0, y: 0, visible: true };
        assert(self@ =~= old(self)@.alt_entered());
    }

    fn leave_alt(&mut self)
        requires
            old(self).wf(),
        ensures
            final(self)@ == old(self)@.alt_left(),
            final(self).wf(),
    {
        if !self.alt_active {
            return ;
        }
        self.alt_active = false;
        self.cursor = self.saved_cursor;
        assert(self@ =~= old(self)@.alt_left());
    }

    // ── Resizing ──

    /// Resizes the grid. Nothing is rewrapped: rows that no longer fit the main screen
    /// go to the scrollback, and each row is cut or filled up to `cols`.
    pub fn resize(&mut self, cols: u16, rows: u16)
        requires
            old(self).wf(),
        ensures
            final(self)@ == old(self)@.resized(cols, rows),
            final(self).wf(),
    {
        let c: u16 = max16(cols, 2);
        let r: u16 = max16(rows, 2);
        if c == self.cols && r == self.rows {
            return ;
        }
        let ghost m = self@;
        let total: usize = self.total_lines();
        let all = self.fitted_lines(c);
        let ghost lines = m.fitted(c);
        let cursor_line: usize = self.scrollback.len() + self.cursor.y as usize;
        let keep: usize = r as usize;
        let start: usize = total.saturating_sub(keep);
        assert(start == m.first_shown(r));
        let main = shown_cells(&all, start, c, r, Ghost(lines));
        let scrollback = kept_lines(&all, start, Ghost(lines));
        let (line, first): (usize, usize) = if self.alt_active {
            (self.cursor.y as usize, self.rows.saturating_sub(r) as usize)
        } else {
            (cursor_line, start)
        };
        assert(line - first == m.cursor_behind(r));
        let y: u16 = if line < first {
            0
        } else {
            min_len(line - first, r as usize - 1) as u16
        };
        proof {
            lemma_area(c as int, r as int);
        }
        let alt = if self.alt_active {
            self.alt_shown(c, r)
        } else {
            blank_cells(c as usize * r as usize)
        };
        self.replace_grid(c, r, main, alt, scrollback, y);
        proof {
            lemma_resized_wf(m, cols, rows);
        }
    }

    /// Takes over a new grid: everything that depends on the size starts anew.
    fn replace_grid(
        &mut self,
        cols: u16,
        rows: u16,
        main: Vec<Cell>,
        alt: Vec<Cell>,
        scrollback: VecDeque<Vec<Cell>>,
        y: u16,
    )
        requires
            2 <= cols,
            2 <= rows,
        ensures
            final(self)@ == (TermModel {
                cols,
                rows,
                main: main@,
                alt: alt@,
                scrollback: Seq::new(scrollback@.len(), |i: int| scrollback@[i]@),
                cursor: Cursor {
                    x: min16(old(self)@.cursor.x, (cols - 1) as u16),
                    y,
                    visible: old(self)@.cursor.visible,
                },
                top: 0,
                bottom: (rows - 1) as u16,
                pending_wrap: false,
                parse: ParseState::Ground,
                params: Seq::empty(),
                private: None,
                utf8: Seq::empty(),
                ..old(self)@
            }),
    {
        self.cols = cols;
        self.rows = rows;
        self.main = main;
        self.alt = alt;
        self.scrollback = scrollback;
        self.cursor.x = min16(self.cursor.x, cols - 1);
        self.cursor.y = y;
        self.scroll_region_top = 0;
        self.scroll_region_bottom = rows - 1;
        self.pending_wrap = false;
        self.parse = ParseState::Ground;
        self.params = Vec::new();
        self.private = None;
        self.utf8_pending.clear();
    }

    /// The last `rows` rows of the alternate screen.
    fn alt_shown(&self, cols: u16, rows: u16) -> (v: Vec<Cell>)
        requires
            self.wf(),
            2 <= cols,
        ensures
            v@ == TermModel::screen_of(
                self@.alt_fitted(cols),
                self@.alt_first_shown(rows),
                cols,
                rows,
            ),
    {
        let ghost lines = self@.alt_fitted(cols);
        let mut all: Vec<Vec<Cell>> = Vec::new();
        while all.len() < self.rows as usize
            invariant
                self.wf(),
                lines == self@.alt_fitted(cols),
                all@.len() <= self@.rows,
                forall|i: int| 0 <= i < all@.len() ==> (#[trigger] all@[i])@ == lines[i],
                forall|i: int| 0 <= i < all@.len() ==> (#[trigger] all@[i])@.len() == cols,
            decreases self@.rows - all@.len(),
        {
            let row = row_of(self.alt.as_slice(), all.len(), self.cols, self.rows);
            all.push(fit_cells(row, cols as usize));
        }
        let start: usize = self.rows.saturating_sub(rows) as usize;
        shown_cells(&all, start, cols, rows, Ghost(lines))
    }

    /// Every row of the scrollback and the main screen, each cut or filled up to
    /// `cols` cells.
    fn fitted_lines(&self, cols: u16) -> (all: Vec<Vec<Cell>>)
        requires
            self.wf(),
        ensures
            all@.len() == self@.total_lines(),
            forall|i: int|
                0 <= i < all@.len() ==> (#[trigger] all@[i])@ == self@.fitted(cols)[i],
    {
        let total: usize = self.total_lines();
        let kept: usize = self.scrollback.len();
        let mut all: Vec<Vec<Cell>> = Vec::new();
        while all.len() < total
            invariant
                self.wf(),
                kept == self@.scrollback.len(),
                total == self@.total_lines(),
                all@.len() <= total,
                forall|i: int|
                    0 <= i < all@.len() ==> (#[trigger] all@[i])@ == fit_line(
                        self@.main_line(i),
                        cols as int,
                    ),
            decreases total - all@.len(),
        {
            let i: usize = all.len();
            let line = if i < kept {
                fit_cells(self.scrollback[i].as_slice(), cols as usize)
            } else {
                let row = row_of(self.main.as_slice(), i - kept, self.cols, self.rows);
                fit_cells(row, cols as usize)
            };
            all.push(line);
        }
        all
    }
}

/// Row `r` of a screen.
fn row_of(cells: &[Cell], r: usize, cols: u16, rows: u16) -> (row: &[Cell])
    requires
        cells@.len() == cols * rows,
        r < rows,
    ensures
        row@ == cells@.subrange(r * cols, (r + 1) * cols),
        row@.len() == cols,
{
    let n: usize = cols as usize;
    proof {
        lemma_area((r + 1) as int, n as int);
        lemma_row_bound(r as int, rows as int, n as int);
        assert(rows * n == cols * rows) by (nonlinear_arith)
            requires
                n == cols as usize,
        ;
        assert((r + 1) * n == r * n + n) by (nonlinear_arith);
    }
    vstd::slice::slice_subrange(cells, r * n, (r + 1) * n)
}

/// Resizing leads from one good state to another.
proof fn lemma_resized_wf(m: TermModel, cols: u16, rows: u16)
    requires
        m.wf(),
    ensures
        m.resized(cols, rows).wf(),
{
    let c = max16(cols, 2);
    let r = max16(rows, 2);
    if c != m.cols || r != m.rows {
        let lines = m.fitted(c);
        let start = m.first_shown(r);
        let kept = TermModel::newest(lines.subrange(0, start));
        lemma_area(c as int, r as int);
        assert forall|k: int| 0 <= k < kept.len() implies (#[trigger] kept[k]).len() == c by {
            let skip: int = start - kept.len();
            assert(kept[k] == lines[skip + k]);
        }
    }
}

/// The newest rows of `all[..start]` that the scrollback keeps.
fn kept_lines(
    all: &Vec<Vec<Cell>>,
    start: usize,
    Ghost(lines): Ghost<Seq<Seq<Cell>>>,
) -> (kept: VecDeque<Vec<Cell>>)
    requires
        start <= all@.len(),
        all@.len() == lines.len(),
        forall|i: int| 0 <= i < all@.len() ==> (#[trigger] all@[i])@ == lines[i],
    ensures
        Seq::new(kept@.len(), |i: int| kept@[i]@) == TermModel::newest(
            lines.subrange(0, start as int),
        ),
{
    let mut kept: VecDeque<Vec<Cell>> = VecDeque::new();
    let from: usize = start.saturating_sub(DEFAULT_SCROLLBACK);
    let mut i: usize = from;
    while i < start
        invariant
            from <= i <= start <= all@.len(),
            all@.len() == lines.len(),
            kept@.len() == i - from,
            forall|k: int| 0 <= k < all@.len() ==> (#[trigger] all@[k])@ == lines[k],
            forall|k: int| 0 <= k < kept@.len() ==> (#[trigger] kept@[k])@ == lines[from + k],
        decreases start - i,
    {
        kept.push_back(copy_cells(&all[i]));
        i = i + 1;
    }
    assert(Seq::new(kept@.len(), |i: int| kept@[i]@) =~= TermModel::newest(
        lines.subrange(0, start as int),
    ));
    kept
}

/// The cursor's cell index leaves room for a row and a count more.
proof fn lemma_cursor_room(cursor: Cursor, cols: u16)
    requires
        cursor.x < 0xffff,
        cursor.y < 0xffff,
    ensures
        0 <= cursor.y * cols,
        cursor.y * cols + cursor.x + 0xffff <= 0xffffffff,
{
    assert(0 <= cursor.y * cols && cursor.y * cols <= 0xfffe * 0xffff) by (nonlinear_arith)
        requires
            cursor.y <= 0xfffe,
            cols <= 0xffff,
    ;
}

/// The cursor's row lies in the grid.
proof fn lemma_cursor_row(cursor: Cursor, cols: u16, rows: u16)
    requires
        cursor.x < cols,
        cursor.y < rows,
    ensures
        0 <= cursor.y * cols,
        cursor.y * cols + cols == (cursor.y + 1) * cols,
        (cursor.y + 1) * cols <= cols * rows,
        cols * rows <= 0xfffe0001,
{
    lemma_area(cols as int, rows as int);
    lemma_row_bound(cursor.y as int, rows as int, cols as int);
    assert(rows * cols == cols * rows) by (nonlinear_arith);
}

/// The character that `u` spells.
fn decode_utf8(u: &Vec<u8>) -> (ch: Option<char>)
    requires
        1 <= u@.len() <= 4,
        u@.len() == utf8_need(u@[0]),
    ensures
        ch == utf8_char(u@),
{
    let n: usize = u.len();
    if n == 1 {
        return Some(u[0] as char);
    }
    let mut i: usize = 1;
    while i < n
        invariant
            1 <= i <= n,
            2 <= n <= 4,
            n == u@.len(),
            forall|k: int| 1 <= k < i ==> is_continuation(#[trigger] u@[k]),
        decreases n - i,
    {
        if !(0x80 <= u[i] && u[i] < 0xc0) {
            assert(!is_continuation(u@[i as int]));
            return None;
        }
        i = i + 1;
    }
    assert(forall|k: int| 1 <= k < n ==> is_continuation(#[trigger] u@[k]));
    if n == 2 {
        char::from_u32((u[0] % 32) as u32 * 64 + (u[1] % 64) as u32)
    } else if n == 3 {
        char::from_u32(
            (u[0] % 16) as u32 * 4096 + (u[1] % 64) as u32 * 64 + (u[2] % 64) as u32,
        )
    } else {
        char::from_u32(
            (u[0] % 8) as u32 * 262144 + (u[1] % 64) as u32 * 4096 + (u[2] % 64) as u32 * 64 + (
            u[3] % 64) as u32,
        )
    }
}

/// The parameters that the digits and separators `t` spell.
fn params_of(t: &[u32]) -> (p: Vec<u32>)
    ensures
        p@ == param_list(t@, None),
{
    let mut p: Vec<u32> = Vec::new();
    let mut cur: Option<u32> = None;
    let mut i: usize = 0;
    assert(t@.skip(0) =~= t@);
    while i < t.len()
        invariant
            i <= t@.len(),
            p@ + param_list(t@.skip(i as int), cur) == param_list(t@, None),
        decreases t@.len() - i,
    {
        let ghost rest = t@.skip(i as int);
        assert(rest.drop_first() =~= t@.skip(i + 1));
        let so_far: u32 = match cur {
            Some(v) => v,
            None => 0,
        };
        let ghost before = p@;
        if t[i] == PARAM_SEP {
            p.push(so_far);
            cur = None;
            assert(p@ + param_list(t@.skip(i + 1), None) =~= before + (seq![so_far] + param_list(
                t@.skip(i + 1),
                None,
            )));
        } else {
            cur = Some(so_far.wrapping_mul(10).wrapping_add(t[i]));
        }
        i = i + 1;
    }
    assert(t@.skip(i as int) =~= Seq::empty());
    match cur {
        Some(v) => p.push(v),
        None => {},
    }
    assert(p@ =~= param_list(t@, None));
    p
}

/// Parameter `i`, or `default` where it is missing or 0.
fn param(p: &[u32], i: usize, default: u16) -> (v: u16)
    ensures
        v == param_or(p@, i as int, default),
{
    if i < p.len() && p[i] != 0 {
        low16(p[i])
    } else {
        default
    }
}

/// The cells of a screen that shows the rows of `all` from `start` on.
fn shown_cells(
    all: &Vec<Vec<Cell>>,
    start: usize,
    cols: u16,
    rows: u16,
    Ghost(lines): Ghost<Seq<Seq<Cell>>>,
) -> (v: Vec<Cell>)
    requires
        0 < cols,
        start <= all@.len(),
        all@.len() + 0xffff <= usize::MAX,
        all@.len() == lines.len(),
        forall|i: int| 0 <= i < all@.len() ==> (#[trigger] all@[i])@ == lines[i],
        forall|i: int| 0 <= i < all@.len() ==> (#[trigger] all@[i])@.len() == cols,
    ensures
        v@ == TermModel::screen_of(lines, start as int, cols, rows),
{
    let ghost whole = TermModel::screen_of(lines, start as int, cols, rows);
    let mut v: Vec<Cell> = Vec::new();
    let mut r: u16 = 0;
    proof {
        assert(0 * cols == 0) by (nonlinear_arith);
    }
    while r < rows
        invariant
            r <= rows,
            0 < cols,
            start <= all@.len(),
            all@.len() + 0xffff <= usize::MAX,
            all@.len() == lines.len(),
            forall|i: int| 0 <= i < all@.len() ==> (#[trigger] all@[i])@ == lines[i],
            forall|i: int| 0 <= i < all@.len() ==> (#[trigger] all@[i])@.len() == cols,
            whole == TermModel::screen_of(lines, start as int, cols, rows),
            v@.len() == r * cols,
            v@.len() <= whole.len(),
            forall|k: int| 0 <= k < v@.len() ==> v@[k] == whole[k],
        decreases rows - r,
    {
        let at: usize = start + r as usize;
        let mut c: u16 = 0;
        proof {
            lemma_row_bound(r as int, rows as int, cols as int);
            assert(rows * cols == cols * rows) by (nonlinear_arith);
        }
        while c < cols
            invariant
                c <= cols,
                0 < cols,
                r < rows,
                at == start + r,
                all@.len() == lines.len(),
                forall|i: int| 0 <= i < all@.len() ==> (#[trigger] all@[i])@ == lines[i],
                forall|i: int| 0 <= i < all@.len() ==> (#[trigger] all@[i])@.len() == cols,
                whole == TermModel::screen_of(lines, start as int, cols, rows),
                r * cols + cols <= whole.len(),
                v@.len() == r * cols + c,
                forall|k: int| 0 <= k < v@.len() ==> v@[k] == whole[k],
            decreases cols - c,
        {
            proof {
                lemma_row_col(r as int, c as int, cols as int);
            }
            if at < all.len() {
                v.push(all[at][c as usize]);
            } else {
                v.push(Cell::default());
            }
            c = c + 1;
        }
        r = r + 1;
    }
    proof {
        assert(rows * cols == cols * rows) by (nonlinear_arith);
    }
    assert(v@ =~= whole);
    v
}

// ── Laws ─────────────────────────────────────────────────────────────────────

/// Output may be cut into chunks anywhere: feeding two chunks one after the
/// other is feeding them joined.
pub proof fn lemma_chunks(m: TermModel, a: Seq<u8>, b: Seq<u8>)
    ensures
        m.run(a + b) == m.run(a).run(b),
    decreases b.len(),
{
    if b.len() == 0 {
        assert(a + b =~= a);
    } else {
        assert((a + b).drop_last() =~= a + b.drop_last());
        lemma_chunks(m, a, b.drop_last());
    }
}

proof fn lemma_modes_keep_main(m: TermModel, p: Seq<u32>, on: bool)
    ensures
        m.modes_set(p, on).main == m.main,
    decreases p.len(),
{
    if p.len() > 0 {
        lemma_modes_keep_main(m, p.drop_last(), on);
    }
}

proof fn lemma_step_isolates(m: TermModel, b: u8)
    requires
        m.alt_active,
    ensures
        m.step(b).main == m.main,
{
    if m.parse is Csi && 0x40 <= b <= 0x7e {
        let rest = TermModel { params: Seq::empty(), private: None, ..m };
        let p = param_list(m.params, None);
        lemma_modes_keep_main(rest, p, b == 0x68);
        assert(rest.dispatched(p, m.private, b).main == m.main);
    }
}

/// The alternate screen isolates the main one: as long as it is shown, nothing
/// that is fed changes a cell of the main screen.
pub proof fn lemma_alt_isolates(m: TermModel, bytes: Seq<u8>)
    requires
        forall|i: int| 0 <= i < bytes.len() ==> #[trigger] m.run(bytes.take(i)).alt_active,
    ensures
        m.run(bytes).main == m.main,
    decreases bytes.len(),
{
    if bytes.len() > 0 {
        let front = bytes.drop_last();
        assert forall|i: int| 0 <= i < front.len() implies #[trigger] m.run(
            front.take(i),
        ).alt_active by {
            assert(front.take(i) =~= bytes.take(i));
        }
        lemma_alt_isolates(m, front);
        assert(front =~= bytes.take(bytes.len() - 1));
        lemma_step_isolates(m.run(front), bytes.last());
    }
}

/// Text and controls, carriage returns and line feeds among them, leave the main
/// screen and the scrollback as they were while the alternate screen is shown.
pub proof fn lemma_alt_text(m: TermModel, bytes: Seq<u8>)
    requires
        m.alt_active,
        m.parse is Ground,
        forall|i: int| 0 <= i < bytes.len() ==> #[trigger] bytes[i] != 0x1b,
    ensures
        m.run(bytes).scrollback == m.scrollback,
        m.run(bytes).main == m.main,
        m.run(bytes).cols == m.cols,
        m.run(bytes).rows == m.rows,
        m.run(bytes).saved == m.saved,
        m.run(bytes).alt_active,
        m.run(bytes).parse is Ground,
    decreases bytes.len(),
{
    if bytes.len() > 0 {
        let front = bytes.drop_last();
        assert forall|i: int| 0 <= i < front.len() implies #[trigger] front[i] != 0x1b by {
            assert(front[i] == bytes[i]);
        }
        lemma_alt_text(m, front);
        assert(bytes[bytes.len() - 1] != 0x1b);
    }
}

/// Going to the alternate screen and back leaves the main screen as it was and
/// takes the cursor to where it was saved.
pub proof fn lemma_alt_round_trip(m: TermModel)
    requires
        !m.alt_active,
    ensures
        m.alt_entered().alt_left().main == m.main,
        m.alt_entered().alt_left().cursor == m.saved,
        m.alt_entered().alt_left().scrollback == m.scrollback,
        !m.alt_entered().alt_left().alt_active,
{
}

proof fn lemma_shown_row(
    lines: Seq<Seq<Cell>>,
    start: int,
    cols: u16,
    rows: u16,
    r: int,
)
    requires
        0 < cols,
        0 <= start,
        0 <= r < rows,
        forall|i: int| 0 <= i < lines.len() ==> (#[trigger] lines[i]).len() == cols,
    ensures
        TermModel::screen_of(lines, start, cols, rows).subrange(r * cols, (r + 1) * cols) == (
        if start + r < lines.len() {
            lines[start + r]
        } else {
            blanks(cols as int)
        }),
{
    let whole = TermModel::screen_of(lines, start, cols, rows);
    lemma_row_bound(r, rows as int, cols as int);
    assert(rows * cols == cols * rows) by (nonlinear_arith);
    let row = whole.subrange(r * cols, (r + 1) * cols);
    assert((r + 1) * cols == r * cols + cols) by (nonlinear_arith);
    assert forall|c: int| 0 <= c < cols implies #[trigger] row[c] == (if start + r < lines.len() {
        lines[start + r][c]
    } else {
        blank()
    }) by {
        lemma_row_col(r, c, cols as int);
        assert(row[c] == whole[r * cols + c]);
    }
    if start + r < lines.len() {
        assert(row =~= lines[start + r]);
    } else {
        assert(row =~= blanks(cols as int));
    }
}

/// How many of the oldest rows a resize loses: those that the scrollback has no room
/// for.
pub open spec fn rows_lost(m: TermModel, rows: u16) -> int {
    let start = m.first_shown(max16(rows, 2));
    if start > DEFAULT_SCROLLBACK {
        start - DEFAULT_SCROLLBACK
    } else {
        0
    }
}

/// Resizing preserves the content, whichever screen is shown: every row of the
/// scrollback and the main screen is still there, in its place, cut or filled up to
/// the new width; the rows that the screen has beyond them are blank. Only what the
/// scrollback has no room for is lost, oldest first.
pub proof fn lemma_resize_keeps_lines(m: TermModel, cols: u16, rows: u16)
    requires
        m.wf(),
    ensures
        ({
            let n = m.resized(cols, rows);
            let old_total = m.total_lines();
            let lost = rows_lost(m, rows);
            &&& n.cols == max16(cols, 2)
            &&& n.rows == max16(rows, 2)
            &&& n.alt_active == m.alt_active
            &&& n.total_lines() + lost == (if old_total > n.rows {
                old_total
            } else {
                n.rows as int
            })
            &&& n.total_lines() <= DEFAULT_SCROLLBACK ==> lost == 0
            &&& forall|i: int|
                0 <= i < n.total_lines() ==> #[trigger] n.main_line(i) == (if i + lost < old_total {
                    fit_line(m.main_line(i + lost), n.cols as int)
                } else {
                    blanks(n.cols as int)
                })
            &&& !m.alt_active ==> forall|i: int|
                0 <= i < n.total_lines() ==> #[trigger] n.line(i) == (if i + lost < old_total {
                    fit_line(m.line(i + lost), n.cols as int)
                } else {
                    blanks(n.cols as int)
                })
        }),
{
    let n = m.resized(cols, rows);
    let c = max16(cols, 2);
    let r = max16(rows, 2);
    let lost = rows_lost(m, rows);
    if c == m.cols && r == m.rows {
        assert forall|i: int| 0 <= i < n.total_lines() implies #[trigger] n.main_line(i)
            == fit_line(m.main_line(i), c as int) by {
            if i >= m.scrollback.len() {
                lemma_row_len(m.main, i - m.scrollback.len(), m.cols, m.rows);
            }
            assert(fit_line(m.main_line(i), c as int) =~= m.main_line(i));
        }
    } else {
        let lines = m.fitted(c);
        let start = m.first_shown(r);
        let kept = n.scrollback;
        assert(kept.len() == start - lost);
        assert forall|i: int| 0 <= i < n.total_lines() implies #[trigger] n.main_line(i) == (if i
            + lost < m.total_lines() {
            fit_line(m.main_line(i + lost), c as int)
        } else {
            blanks(c as int)
        }) by {
            if i < kept.len() {
                assert(kept[i] == lines[i + lost]);
            } else {
                lemma_shown_row(lines, start, c, r, i - kept.len());
            }
        }
    }
    if !m.alt_active {
        assert forall|i: int| 0 <= i < n.total_lines() implies #[trigger] n.line(i) == (if i + lost
            < m.total_lines() {
            fit_line(m.line(i + lost), c as int)
        } else {
            blanks(c as int)
        }) by {
            assert(n.line(i) == n.main_line(i));
            assert(m.line(i + lost) == m.main_line(i + lost));
        }
    }
}

proof fn lemma_row_len(cells: Seq<Cell>, r: int, cols: u16, rows: u16)
    requires
        cells.len() == cols * rows,
        0 <= r < rows,
    ensures
        cells.subrange(r * cols, (r + 1) * cols).len() == cols,
{
    lemma_row_bound(r, rows as int, cols as int);
    assert(rows * cols == cols * rows) by (nonlinear_arith);
    assert((r + 1) * cols == r * cols + cols) by (nonlinear_arith);
}

/// An alternate screen that is shown keeps its last rows when it is resized, cut or
/// filled up to the new width, with blank rows below them.
pub proof fn lemma_resize_keeps_alt(m: TermModel, cols: u16, rows: u16)
    requires
        m.wf(),
        m.alt_active,
    ensures
        ({
            let n = m.resized(cols, rows);
            let first = m.alt_first_shown(n.rows);
            forall|r: int|
                0 <= r < n.rows ==> #[trigger] n.alt_line(r) == (if first + r < m.rows {
                    fit_line(m.alt_line(first + r), n.cols as int)
                } else {
                    blanks(n.cols as int)
                })
        }),
{
    let n = m.resized(cols, rows);
    let first = m.alt_first_shown(n.rows);
    assert forall|r: int| 0 <= r < n.rows implies #[trigger] n.alt_line(r) == (if first + r
        < m.rows {
        fit_line(m.alt_line(first + r), n.cols as int)
    } else {
        blanks(n.cols as int)
    }) by {
        if n.cols == m.cols && n.rows == m.rows {
            lemma_row_len(m.alt, r, m.cols, m.rows);
            assert(fit_line(m.alt_line(r), n.cols as int) =~= m.alt_line(r));
        } else {
            lemma_shown_row(m.alt_fitted(n.cols), first, n.cols, n.rows, r);
        }
    }
}

/// Resizing keeps the cursor on its row, where that row is among the last ones; it
/// goes to the top of the screen otherwise.
pub proof fn lemma_resize_keeps_cursor_line(m: TermModel, cols: u16, rows: u16)
    requires
        m.wf(),
        m.cursor.y < m.rows,
    ensures
        ({
            let n = m.resized(cols, rows);
            &&& n.cursor.y < n.rows
            &&& m.cursor_behind(n.rows) < 0 ==> n.cursor.y == 0
            &&& m.cursor_behind(n.rows) >= 0 && !m.alt_active ==> n.cursor_line() + rows_lost(
                m,
                rows,
            ) == m.cursor_line()
            &&& m.cursor_behind(n.rows) >= 0 && m.alt_active ==> n.cursor.y
                + m.alt_first_shown(n.rows) == m.cursor.y
        }),
{
}

/// What every byte keeps: the size of the grid, the shape of the state, and a
/// cursor on the grid.
spec fn kept(m: TermModel, n: TermModel) -> bool {
    &&& n.cols == m.cols
    &&& n.rows == m.rows
    &&& n.wf()
    &&& n.on_grid()
}

proof fn lemma_line_fed_kept(m: TermModel)
    requires
        m.wf(),
        m.on_grid(),
    ensures
        kept(m, m.line_fed()),
{
    if m.cursor.y == m.bottom {
        let row = m.main.subrange(0, m.cols as int);
        assert(m.cols <= m.cols * m.rows) by (nonlinear_arith)
            requires
                2 <= m.cols,
                2 <= m.rows,
        ;
        let lines = m.scrollback.push(row);
        assert forall|i: int| 0 <= i < lines.len() implies (#[trigger] lines[i]).len() == m.cols by {
            if i < m.scrollback.len() {
                assert(lines[i] == m.scrollback[i]);
            }
        }
        let kept_lines = TermModel::newest(lines);
        assert forall|i: int| 0 <= i < kept_lines.len() implies (#[trigger] kept_lines[i]).len()
            == m.cols by {
            assert(kept_lines[i] == lines[i + lines.len() - kept_lines.len()]);
        }
    }
}

proof fn lemma_written_kept(m: TermModel, ch: char)
    requires
        m.wf(),
        m.on_grid(),
    ensures
        kept(m, m.written(ch)),
{
    if m.pending_wrap {
        lemma_line_fed_kept(TermModel { pending_wrap: false, ..m.with_cursor(0, m.cursor.y) });
    }
}

proof fn lemma_modes_kept(m: TermModel, p: Seq<u32>, on: bool)
    requires
        m.wf(),
        m.on_grid(),
    ensures
        kept(m, m.modes_set(p, on)),
    decreases p.len(),
{
    if p.len() > 0 {
        lemma_modes_kept(m, p.drop_last(), on);
    }
}

proof fn lemma_cells_kept(m: TermModel, cells: Seq<Cell>)
    requires
        m.wf(),
        m.on_grid(),
        cells.len() == m.cols * m.rows,
    ensures
        kept(m, m.with_cells(cells)),
{
}

proof fn lemma_filled_kept(m: TermModel, from: int, to: int)
    requires
        m.wf(),
        m.on_grid(),
    ensures
        kept(m, m.filled(from, to)),
        m.filled(from, to).cursor == m.cursor,
{
    let c = Cell { ch: ' ', style: m.style };
    lemma_cells_kept(m, fill_range(m.cells(), from, to, c));
}

proof fn lemma_erased_line_kept(m: TermModel, mode: u16)
    requires
        m.wf(),
        m.on_grid(),
    ensures
        kept(m, m.erased_line(mode)),
{
    let start = m.cursor.y * m.cols;
    lemma_filled_kept(m, start + m.cursor.x, start + m.cols);
    lemma_filled_kept(m, start, start + m.cursor.x + 1);
    lemma_filled_kept(m, start, start + m.cols);
}

proof fn lemma_erased_display_kept(m: TermModel, mode: u16)
    requires
        m.wf(),
        m.on_grid(),
    ensures
        kept(m, m.erased_display(mode)),
{
    let total = m.cols * m.rows;
    lemma_erased_line_kept(m, 0);
    lemma_erased_line_kept(m, 1);
    lemma_filled_kept(m, 0, total);
    lemma_filled_kept(m.erased_line(0), (m.cursor.y + 1) * m.cols, total);
    lemma_filled_kept(m.erased_line(1), 0, m.cursor.y * m.cols);
}

proof fn lemma_shifted_kept(m: TermModel, n: int)
    requires
        m.wf(),
        m.on_grid(),
    ensures
        kept(m, m.deleted_chars(n)),
        kept(m, m.inserted_chars(n)),
{
    let end = (m.cursor.y + 1) * m.cols;
    lemma_cells_kept(m, shift_left(m.cells(), m.at(), end, m.in_row(n)));
    lemma_cells_kept(m, shift_right(m.cells(), m.at(), end, m.in_row(n)));
}

proof fn lemma_placed_kept(m: TermModel, x: u16, y: u16)
    requires
        m.wf(),
        m.on_grid(),
        x < m.cols,
        y < m.rows,
    ensures
        kept(m, m.with_cursor(x, y)),
        kept(m, m.moved(x, y)),
{
}

#[verifier::spinoff_prover]
proof fn lemma_dispatched_kept(m: TermModel, p: Seq<u32>, private: Option<u8>, b: u8)
    requires
        m.wf(),
        m.on_grid(),
    ensures
        kept(m, m.dispatched(p, private, b)),
{
    let x = m.cursor.x;
    let y = m.cursor.y;
    let last_x = (m.cols - 1) as u16;
    let last_y = (m.rows - 1) as u16;
    let n = max16(param_or(p, 0, 1), 1);
    if b == 0x48 || b == 0x66 {
        let to_x = min16(param_or(p, 1, 1).saturating_sub(1), last_x);
        let to_y = min16(param_or(p, 0, 1).saturating_sub(1), last_y);
        lemma_placed_kept(m, to_x, to_y);
    } else if b == 0x41 {
        lemma_placed_kept(m, x, y.saturating_sub(n));
    } else if b == 0x42 {
        lemma_placed_kept(m, x, min16(y.saturating_add(n), last_y));
    } else if b == 0x43 {
        lemma_placed_kept(m, min16(x.saturating_add(n), last_x), y);
    } else if b == 0x44 {
        lemma_placed_kept(m, x.saturating_sub(n), y);
    } else if b == 0x45 {
        lemma_placed_kept(m, 0, min16(y.saturating_add(n), last_y));
    } else if b == 0x46 {
        lemma_placed_kept(m, 0, y.saturating_sub(n));
    } else if b == 0x47 || b == 0x60 {
        lemma_placed_kept(m, min16(param_or(p, 0, 1).saturating_sub(1), last_x), y);
    } else if b == 0x64 {
        lemma_placed_kept(m, x, min16(param_or(p, 0, 1).saturating_sub(1), last_y));
    } else if b == 0x4a {
        lemma_erased_display_kept(m, param_or(p, 0, 0));
    } else if b == 0x4b {
        lemma_erased_line_kept(m, param_or(p, 0, 0));
    } else if b == 0x58 {
        lemma_filled_kept(m, m.at(), m.at() + n);
    } else if b == 0x50 || b == 0x40 {
        lemma_shifted_kept(m, n as int);
    } else if b == 0x72 {
        lemma_placed_kept(m, 0, 0);
    } else if b == 0x68 || b == 0x6c {
        lemma_modes_kept(m, p, b == 0x68);
    }
}

proof fn lemma_step_kept(m: TermModel, b: u8)
    requires
        m.wf(),
        m.on_grid(),
    ensures
        kept(m, m.step(b)),
{
    match m.parse {
        ParseState::Ground => {
            if b == 0x1b {
            } else if b < 0x20 || b == 0x7f {
                lemma_line_fed_kept(m);
            } else {
                let rest = TermModel { utf8: Seq::empty(), ..m };
                match utf8_char(m.utf8.push(b)) {
                    Some(ch) => lemma_written_kept(rest, ch),
                    None => {},
                }
            }
        },
        ParseState::Csi => {
            if 0x40 <= b <= 0x7e {
                let rest = TermModel { params: Seq::empty(), private: None, ..m };
                lemma_dispatched_kept(rest, param_list(m.params, None), m.private, b);
            }
        },
        _ => {},
    }
}

/// Whatever is fed, the cursor stays on the grid, the grid keeps its size, and the
/// state keeps its shape.
pub proof fn lemma_cursor_on_grid(m: TermModel, bytes: Seq<u8>)
    requires
        m.wf(),
        m.on_grid(),
    ensures
        m.run(bytes).wf(),
        m.run(bytes).on_grid(),
        m.run(bytes).cols == m.cols,
        m.run(bytes).rows == m.rows,
    decreases bytes.len(),
{
    if bytes.len() > 0 {
        lemma_cursor_on_grid(m, bytes.drop_last());
        lemma_step_kept(m.run(bytes.drop_last()), bytes.last());
    }
}

/// A fresh terminal that was fed any bytes, in one chunk or in many, has the size
/// it was made with and its cursor on the grid. Its lines are those of a bounded
/// scrollback and of the screen, each as wide as the grid.
pub proof fn lemma_fresh_fed(cols: u16, rows: u16, bytes: Seq<u8>)
    ensures
        ({
            let n = TermModel::fresh(cols, rows).run(bytes);
            &&& n.cols == max16(cols, 2)
            &&& n.rows == max16(rows, 2)
            &&& n.cursor.x < n.cols
            &&& n.cursor.y < n.rows
            &&& n.scrollback.len() <= DEFAULT_SCROLLBACK
            &&& n.total_lines() == n.scrollback.len() + n.rows
            &&& forall|i: int|
                0 <= i < n.total_lines() ==> (#[trigger] n.line(i)).len() == n.cols
        }),
{
    let m = TermModel::fresh(cols, rows);
    lemma_area(m.cols as int, m.rows as int);
    lemma_cursor_on_grid(m, bytes);
    let n = m.run(bytes);
    assert forall|i: int| 0 <= i < n.total_lines() implies (#[trigger] n.line(i)).len()
        == n.cols by {
        if i >= n.scrollback.len() {
            let r = i - n.scrollback.len();
            assert(0 <= r * n.cols && (r + 1) * n.cols <= n.cols * n.rows && (r + 1) * n.cols - r
                * n.cols == n.cols) by (nonlinear_arith)
                requires
                    0 <= r < n.rows,
                    0 <= n.cols,
            ;
        }
    }
}

} // verus!
